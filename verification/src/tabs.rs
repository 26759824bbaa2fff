//! Tabs as virtual spaces.
//!
//! A tab is stored as one byte and shown as `tab_width` spaces. The column of
//! a byte offset is where the text before it ends once every tab is widened;
//! `collapse_tabs` goes back from a column to the byte offset shown nearest
//! to it.

use crate::text::TAB;
use vstd::prelude::*;
use vstd::string::StringSliceAdditionalSpecFns;
use vstd::utf8::encode_utf8;

verus! {

/// The byte of a space.
pub const SPACE: u8 = 0x20;

/// The column at which byte offset `k` of `line` is shown: one column for
/// each byte before it, `tab_width` columns for a tab.
pub open spec fn column(line: Seq<u8>, tab_width: nat, k: int) -> int
    decreases k,
{
    if k <= 0 {
        0
    } else {
        column(line, tab_width, k - 1) + if line[k - 1] == TAB {
            tab_width as int
        } else {
            1
        }
    }
}

/// `line` with `with` in place of every tab.
pub open spec fn substitute_tabs(line: Seq<u8>, with: Seq<u8>) -> Seq<u8>
    decreases line.len(),
{
    if line.len() == 0 {
        Seq::empty()
    } else {
        substitute_tabs(line.drop_last(), with) + if line.last() == TAB {
            with
        } else {
            seq![line.last()]
        }
    }
}

/// `count` spaces.
pub open spec fn spaces(count: nat) -> Seq<u8> {
    Seq::new(count, |i: int| SPACE)
}

/// `line` as it is shown: `tab_width` spaces in place of every tab.
pub open spec fn expand_tabs(line: Seq<u8>, tab_width: nat) -> Seq<u8> {
    substitute_tabs(line, spaces(tab_width))
}

/// The first byte offset at or after `k` whose column is at least `target`,
/// or the length of `line` if there is none.
pub open spec fn first_at_column(line: Seq<u8>, tab_width: nat, target: int, k: int) -> int
    decreases line.len() - k,
{
    if k >= line.len() || column(line, tab_width, k) >= target {
        k
    } else {
        first_at_column(line, tab_width, target, k + 1)
    }
}

/// The byte offset of `line` that is shown nearest to column `target`: the
/// offset shown at that column if there is one; for a column inside a
/// widened tab the offset before the tab if that is no farther away than
/// the one after it, else the one after it; none for a column past the end
/// of the line.
pub open spec fn collapse_tabs(line: Seq<u8>, tab_width: nat, target: int) -> Option<int> {
    let k = first_at_column(line, tab_width, target, 0);
    if column(line, tab_width, k) < target {
        None
    } else if column(line, tab_width, k) == target || k == 0 {
        Some(k)
    } else if 2 * (target - column(line, tab_width, k - 1)) <= tab_width {
        Some(k - 1)
    } else {
        Some(k)
    }
}

/// A stretch of a line that is measured in one piece.
#[derive(Debug, Clone, Copy, PartialEq, Eq, Structural)]
pub enum Run {
    /// The bytes from `start` to `end`, none of them a tab.
    Text { start: usize, end: usize },
    /// `count` tabs in a row.
    Tabs { count: usize },
}

/// Where the stretch of tabs, or of other bytes, that begins at `k` ends.
pub open spec fn run_end(line: Seq<u8>, k: int) -> int
    decreases line.len() - k,
{
    if k + 1 >= line.len() || (line[k] == TAB) != (line[k + 1] == TAB) {
        k + 1
    } else {
        run_end(line, k + 1)
    }
}

/// The run that begins at `k`.
pub open spec fn run_at(line: Seq<u8>, k: int) -> Run {
    if line[k] == TAB {
        Run::Tabs { count: (run_end(line, k) - k) as usize }
    } else {
        Run::Text { start: k as usize, end: run_end(line, k) as usize }
    }
}

/// The runs of `line` from `k` on: stretches of tabs and stretches of other
/// bytes in turn, each as long as it can be.
pub open spec fn runs_from(line: Seq<u8>, k: int) -> Seq<Run>
    decreases line.len() - k,
{
    if k < 0 || k >= line.len() {
        Seq::empty()
    } else if run_end(line, k) <= k || run_end(line, k) > line.len() {
        Seq::empty()
    } else {
        seq![run_at(line, k)] + runs_from(line, run_end(line, k))
    }
}

/// The columns that `runs` take up: one for each byte of text, `tab_width`
/// for each tab.
pub open spec fn columns_of(runs: Seq<Run>, tab_width: nat) -> int
    decreases runs.len(),
{
    if runs.len() == 0 {
        0
    } else {
        columns_of(runs.drop_last(), tab_width) + match runs.last() {
            Run::Text { start, end } => end - start,
            Run::Tabs { count } => count * tab_width,
        }
    }
}

/// Later offsets are shown at later columns, and at strictly later ones if
/// tabs have any width.
pub proof fn lemma_column_monotonic(line: Seq<u8>, tab_width: nat, j: int, k: int)
    requires
        0 <= j <= k,
    ensures
        column(line, tab_width, j) <= column(line, tab_width, k),
        tab_width >= 1 ==> column(line, tab_width, k) - column(line, tab_width, j) >= k - j,
    decreases k - j,
{
    if j < k {
        lemma_column_monotonic(line, tab_width, j, k - 1);
    }
}

/// The first offset from `k` on that is shown at or after column `target`
/// lies in the line, and every offset before it is shown before `target`.
pub proof fn lemma_first_at_column(line: Seq<u8>, tab_width: nat, target: int, k: int)
    requires
        0 <= k <= line.len(),
    ensures
        k <= first_at_column(line, tab_width, target, k) <= line.len(),
        first_at_column(line, tab_width, target, k) < line.len() ==> column(
            line,
            tab_width,
            first_at_column(line, tab_width, target, k),
        ) >= target,
        forall|j: int|
            k <= j < first_at_column(line, tab_width, target, k) ==> column(line, tab_width, j)
                < target,
    decreases line.len() - k,
{
    if k < line.len() && column(line, tab_width, k) < target {
        lemma_first_at_column(line, tab_width, target, k + 1);
    }
}

/// Going from a byte offset to its column and back gives an offset that is
/// shown at the same column, and the same offset if tabs have any width.
pub proof fn lemma_tab_round_trip(line: Seq<u8>, tab_width: nat, k: int)
    requires
        0 <= k <= line.len(),
    ensures
        collapse_tabs(line, tab_width, column(line, tab_width, k)) is Some,
        column(line, tab_width, collapse_tabs(line, tab_width, column(line, tab_width, k))->0)
            == column(line, tab_width, k),
        0 <= collapse_tabs(line, tab_width, column(line, tab_width, k))->0 <= k,
        tab_width >= 1 ==> collapse_tabs(line, tab_width, column(line, tab_width, k)) == Some(k),
{
    let target = column(line, tab_width, k);
    let first = first_at_column(line, tab_width, target, 0);
    lemma_first_at_column(line, tab_width, target, 0);
    if first > k {
        assert(column(line, tab_width, k) < target);
    }
    lemma_column_monotonic(line, tab_width, first, k);
}

/// A column inside a widened tab goes to the nearer end of the tab, and to
/// its start if both are as near.
pub proof fn lemma_collapse_inside_tab(line: Seq<u8>, tab_width: nat, k: int, inside: int)
    requires
        0 <= k < line.len(),
        line[k] == TAB,
        0 < inside < tab_width,
    ensures
        collapse_tabs(line, tab_width, column(line, tab_width, k) + inside) == Some(
            if 2 * inside <= tab_width {
                k
            } else {
                k + 1
            },
        ),
{
    let target = column(line, tab_width, k) + inside;
    let first = first_at_column(line, tab_width, target, 0);
    lemma_first_at_column(line, tab_width, target, 0);
    assert(column(line, tab_width, k + 1) == column(line, tab_width, k) + tab_width);
    if first > k + 1 {
        assert(column(line, tab_width, k + 1) < target);
    }
    if first <= k {
        lemma_column_monotonic(line, tab_width, first, k);
    }
}

/// The text as shown is as long as the column of its end.
pub proof fn lemma_expanded_length(line: Seq<u8>, tab_width: nat)
    ensures
        expand_tabs(line, tab_width).len() == column(line, tab_width, line.len() as int),
    decreases line.len(),
{
    if line.len() > 0 {
        let front = line.drop_last();
        lemma_expanded_length(front, tab_width);
        lemma_column_of_prefix(line, front, tab_width, front.len() as int);
    }
}

/// Two lines that agree on their first `k` bytes show offset `k` at the same
/// column.
pub proof fn lemma_column_of_prefix(a: Seq<u8>, b: Seq<u8>, tab_width: nat, k: int)
    requires
        0 <= k <= a.len(),
        k <= b.len(),
        forall|j: int| 0 <= j < k ==> a[j] == b[j],
    ensures
        column(a, tab_width, k) == column(b, tab_width, k),
    decreases k,
{
    if k > 0 {
        lemma_column_of_prefix(a, b, tab_width, k - 1);
    }
}

/// A run is not empty, holds only tabs or no tab at all, and ends where that
/// changes.
pub proof fn lemma_run_end(line: Seq<u8>, k: int)
    requires
        0 <= k < line.len(),
    ensures
        k < run_end(line, k) <= line.len(),
        forall|j: int| k <= j < run_end(line, k) ==> (line[j] == TAB) == (line[k] == TAB),
        run_end(line, k) < line.len() ==> (line[run_end(line, k)] == TAB) != (line[k] == TAB),
    decreases line.len() - k,
{
    if k + 1 < line.len() && (line[k] == TAB) == (line[k + 1] == TAB) {
        lemma_run_end(line, k + 1);
    }
}

/// One more run adds its own columns.
pub proof fn lemma_columns_of_push(runs: Seq<Run>, run: Run, tab_width: nat)
    ensures
        columns_of(runs.push(run), tab_width) == columns_of(runs, tab_width) + match run {
            Run::Text { start, end } => end - start,
            Run::Tabs { count } => count * tab_width,
        },
{
    assert(runs.push(run).drop_last() == runs);
}

/// A stretch of tabs takes up `tab_width` columns for each of them.
pub proof fn lemma_column_of_tabs(line: Seq<u8>, tab_width: nat, from: int, to: int)
    requires
        0 <= from <= to <= line.len(),
        forall|j: int| from <= j < to ==> line[j] == TAB,
    ensures
        column(line, tab_width, to) == column(line, tab_width, from) + (to - from) * tab_width,
    decreases to - from,
{
    if from < to {
        lemma_column_of_tabs(line, tab_width, from, to - 1);
        assert((to - from) * tab_width == (to - 1 - from) * tab_width + tab_width)
            by (nonlinear_arith);
    } else {
        assert((to - from) * tab_width == 0) by (nonlinear_arith)
            requires
                to == from,
        ;
    }
}

/// A stretch without tabs takes up one column for each byte.
pub proof fn lemma_column_of_text(line: Seq<u8>, tab_width: nat, from: int, to: int)
    requires
        0 <= from <= to <= line.len(),
        forall|j: int| from <= j < to ==> line[j] != TAB,
    ensures
        column(line, tab_width, to) == column(line, tab_width, from) + (to - from),
    decreases to - from,
{
    if from < to {
        lemma_column_of_text(line, tab_width, from, to - 1);
    }
}

/// The byte offset of `line` that is shown nearest to column `target`.
pub fn collapse_tabs_to(line: &[u8], tab_width: u8, target: usize) -> (offset: Option<usize>)
    ensures
        offset is Some <==> collapse_tabs(line@, tab_width as nat, target as int) is Some,
        offset is Some ==> offset->0 == collapse_tabs(line@, tab_width as nat, target as int)->0,
        offset is Some ==> offset->0 <= line@.len(),
{
    let width = tab_width as usize;
    let mut k: usize = 0;
    let mut shown: usize = 0;
    while k < line.len() && shown < target
        invariant
            k <= line@.len(),
            shown <= target,
            width == tab_width,
            shown == column(line@, tab_width as nat, k as int),
            first_at_column(line@, tab_width as nat, target as int, 0) == first_at_column(
                line@,
                tab_width as nat,
                target as int,
                k as int,
            ),
        decreases line@.len() - k,
    {
        if line[k] == TAB {
            let inside = target - shown;
            if width > inside {
                proof {
                    lemma_first_at_column(line@, tab_width as nat, target as int, k + 1);
                }
                if 2 * inside <= width {
                    return Some(k);
                } else {
                    return Some(k + 1);
                }
            }
            shown = shown + width;
        } else {
            shown = shown + 1;
        }
        k = k + 1;
    }
    if shown < target {
        None
    } else {
        Some(k)
    }
}

/// The runs of `line`: stretches of tabs and stretches of other bytes in
/// turn, each as long as it can be.
pub fn measure_runs(line: &[u8]) -> (runs: Vec<Run>)
    ensures
        runs@ == runs_from(line@, 0),
        forall|tab_width: nat|
            columns_of(runs@, tab_width) == column(line@, tab_width, line@.len() as int),
{
    let mut runs: Vec<Run> = Vec::new();
    let mut k: usize = 0;
    while k < line.len()
        invariant
            k <= line@.len(),
            runs@ + runs_from(line@, k as int) == runs_from(line@, 0),
            forall|tab_width: nat|
                columns_of(runs@, tab_width) == column(line@, tab_width, k as int),
        decreases line@.len() - k,
    {
        let tabs = line[k] == TAB;
        let mut end: usize = k + 1;
        while end < line.len() && (line[end] == TAB) == tabs
            invariant
                k < end <= line@.len(),
                tabs == (line@[k as int] == TAB),
                run_end(line@, k as int) == run_end(line@, end - 1),
                forall|j: int| k <= j < end ==> (line@[j] == TAB) == tabs,
            decreases line@.len() - end,
        {
            end = end + 1;
        }
        let run = if tabs {
            Run::Tabs { count: end - k }
        } else {
            Run::Text { start: k, end }
        };
        proof {
            let before = runs@;
            assert(run == run_at(line@, k as int));
            assert(before.push(run) + runs_from(line@, end as int) == before + runs_from(
                line@,
                k as int,
            ));
            assert forall|tab_width: nat|
                columns_of(before.push(run), tab_width) == column(
                    line@,
                    tab_width,
                    end as int,
                ) by {
                lemma_columns_of_push(before, run, tab_width);
                if tabs {
                    lemma_column_of_tabs(line@, tab_width, k as int, end as int);
                } else {
                    lemma_column_of_text(line@, tab_width, k as int, end as int);
                }
            }
        }
        runs.push(run);
        k = end;
    }
    proof {
        assert(runs@ + Seq::<Run>::empty() == runs@);
    }
    runs
}

/// `str::replace` with a tab for its pattern: `text` with `with` in place of
/// every tab. A tab is one byte and part of no other scalar.
#[verifier::external_body]
fn replace_tabs_with(text: &str, with: &str) -> (replaced: String)
    ensures
        encode_utf8(replaced@) == substitute_tabs(text.spec_bytes(), with.spec_bytes()),
{
    text.replace('\t', with)
}

/// A string of `count` spaces.
pub fn spaces_of(count: u8) -> (blank: String)
    ensures
        encode_utf8(blank@) == spaces(count as nat),
{
    let mut blank = String::new();
    let mut made: u8 = 0;
    proof {
        reveal_strlit(" ");
    }
    while made < count
        invariant
            made <= count,
            blank@.len() == made,
            forall|i: int| 0 <= i < blank@.len() ==> blank@[i] == ' ',
            " "@ == seq![' '],
        decreases count - made,
    {
        blank.append(" ");
        made = made + 1;
    }
    proof {
        vstd::utf8::is_ascii_chars_encode_utf8(blank@);
        assert(encode_utf8(blank@) =~= spaces(count as nat));
    }
    blank
}

/// `text` as it is shown: `tab_width` spaces in place of every tab.
pub fn replace_tab(text: &str, tab_width: u8) -> (shown: String)
    ensures
        encode_utf8(shown@) == expand_tabs(text.spec_bytes(), tab_width as nat),
{
    let blank = spaces_of(tab_width);
    replace_tabs_with(text, blank.as_str())
}

} // verus!
