//! A text held as a sequence of grapheme clusters and addressed by grapheme
//! index.

use crate::input::push_char;
use unicode_segmentation::UnicodeSegmentation;
use vstd::prelude::*;

verus! {

/// The grapheme clusters that `UnicodeSegmentation::graphemes` cuts `text`
/// into, extended clusters asked for.
pub uninterp spec fn grapheme_clusters(text: Seq<char>) -> Seq<Seq<char>>;

/// The texts of `strings`, one by one.
pub open spec fn texts(strings: Seq<String>) -> Seq<Seq<char>> {
    Seq::new(strings.len(), |i: int| strings[i]@)
}

/// `UnicodeSegmentation::graphemes`, each cluster copied into a `String`:
/// the clusters of `text` in order.
#[verifier::external_body]
fn graphemes_of(text: &str) -> (graphemes: Vec<String>)
    ensures
        texts(graphemes@) == grapheme_clusters(text@),
{
    UnicodeSegmentation::graphemes(text, true).map(String::from).collect()
}

/// A grapheme that ends a line: a line feed, alone or after a carriage
/// return.
pub open spec fn is_line_ending(grapheme: Seq<char>) -> bool {
    grapheme == seq!['\n'] || grapheme == seq!['\r', '\n']
}

/// A grapheme that is a tab.
pub open spec fn is_tab(grapheme: Seq<char>) -> bool {
    grapheme == seq!['\t']
}

/// The number of line endings among `graphemes`.
pub open spec fn line_endings(graphemes: Seq<Seq<char>>) -> nat
    decreases graphemes.len(),
{
    if graphemes.len() == 0 {
        0
    } else {
        line_endings(graphemes.drop_last()) + if is_line_ending(graphemes.last()) {
            1nat
        } else {
            0nat
        }
    }
}

/// The number of tabs among `graphemes`.
pub open spec fn tabs(graphemes: Seq<Seq<char>>) -> nat
    decreases graphemes.len(),
{
    if graphemes.len() == 0 {
        0
    } else {
        tabs(graphemes.drop_last()) + if is_tab(graphemes.last()) {
            1nat
        } else {
            0nat
        }
    }
}

/// `index`, or `len` if `index` lies past it.
pub open spec fn capped(index: usize, len: nat) -> int {
    if index <= len {
        index as int
    } else {
        len as int
    }
}

/// Where the line that holds grapheme index `index` begins: after the last
/// line ending before `index`, or at 0.
pub open spec fn start_of_line(graphemes: Seq<Seq<char>>, index: int) -> int
    decreases index,
{
    if index <= 0 {
        0
    } else if is_line_ending(graphemes[index - 1]) {
        index
    } else {
        start_of_line(graphemes, index - 1)
    }
}

/// The index of the first line ending at or after `index`, or the number of
/// graphemes if there is none.
pub open spec fn end_of_line(graphemes: Seq<Seq<char>>, index: int) -> int
    decreases graphemes.len() - index,
{
    if index >= graphemes.len() {
        graphemes.len() as int
    } else if is_line_ending(graphemes[index]) {
        index
    } else {
        end_of_line(graphemes, index + 1)
    }
}

/// `grapheme` as it is shown: `tab_width` spaces for a tab if a width is
/// given, else itself.
pub open spec fn shown(grapheme: Seq<char>, tab_width: Option<u8>) -> Seq<char> {
    if tab_width is Some && is_tab(grapheme) {
        Seq::new(tab_width->0 as nat, |i: int| ' ')
    } else {
        grapheme
    }
}

/// `graphemes` as they are shown, joined into one text.
pub open spec fn joined(graphemes: Seq<Seq<char>>, tab_width: Option<u8>) -> Seq<char>
    decreases graphemes.len(),
{
    if graphemes.len() == 0 {
        Seq::empty()
    } else {
        joined(graphemes.drop_last(), tab_width) + shown(graphemes.last(), tab_width)
    }
}

/// The lines of `graphemes` from index `start` on, each with its line
/// ending, as they are shown; after a final line ending, and for no
/// graphemes at all, one empty line.
pub open spec fn lines_from(graphemes: Seq<Seq<char>>, start: int, tab_width: Option<u8>) -> Seq<
    Seq<char>,
>
    decreases graphemes.len() - start + 1,
{
    if start < 0 || start > graphemes.len() {
        Seq::empty()
    } else if start == graphemes.len() {
        seq![Seq::<char>::empty()]
    } else {
        let end = end_of_line(graphemes, start);
        let stop = if end < graphemes.len() {
            end + 1
        } else {
            end
        };
        if stop <= start {
            Seq::empty()
        } else if end < graphemes.len() {
            seq![joined(graphemes.subrange(start, stop), tab_width)] + lines_from(
                graphemes,
                stop,
                tab_width,
            )
        } else {
            seq![joined(graphemes.subrange(start, stop), tab_width)]
        }
    }
}

/// The end of a line is the first line ending at or after the index.
pub proof fn lemma_end_of_line(graphemes: Seq<Seq<char>>, index: int)
    requires
        0 <= index <= graphemes.len(),
    ensures
        index <= end_of_line(graphemes, index) <= graphemes.len(),
        end_of_line(graphemes, index) < graphemes.len() ==> is_line_ending(
            graphemes[end_of_line(graphemes, index)],
        ),
        forall|k: int| index <= k < end_of_line(graphemes, index) ==> !is_line_ending(graphemes[k]),
    decreases graphemes.len() - index,
{
    if index < graphemes.len() && !is_line_ending(graphemes[index]) {
        lemma_end_of_line(graphemes, index + 1);
    }
}

/// The start of a line follows the last line ending before the index.
pub proof fn lemma_start_of_line(graphemes: Seq<Seq<char>>, index: int)
    requires
        0 <= index <= graphemes.len(),
    ensures
        0 <= start_of_line(graphemes, index) <= index,
        start_of_line(graphemes, index) > 0 ==> is_line_ending(
            graphemes[start_of_line(graphemes, index) - 1],
        ),
        forall|k: int|
            start_of_line(graphemes, index) <= k < index ==> !is_line_ending(graphemes[k]),
    decreases index,
{
    if index > 0 && !is_line_ending(graphemes[index - 1]) {
        lemma_start_of_line(graphemes, index - 1);
    }
}

/// Whether `grapheme` ends a line.
pub fn ends_line(grapheme: &str) -> (ends: bool)
    ensures
        ends == is_line_ending(grapheme@),
{
    let length = grapheme.unicode_len();
    if length == 1 {
        let only = grapheme.get_char(0);
        assert(only == '\n' ==> grapheme@ =~= seq!['\n']);
        only == '\n'
    } else if length == 2 {
        let first = grapheme.get_char(0);
        let second = grapheme.get_char(1);
        assert(first == '\r' && second == '\n' ==> grapheme@ =~= seq!['\r', '\n']);
        first == '\r' && second == '\n'
    } else {
        false
    }
}

/// Whether `grapheme` is a tab.
pub fn holds_tab(grapheme: &str) -> (tab: bool)
    ensures
        tab == is_tab(grapheme@),
{
    if grapheme.unicode_len() == 1 {
        let only = grapheme.get_char(0);
        assert(only == '\t' ==> grapheme@ =~= seq!['\t']);
        only == '\t'
    } else {
        false
    }
}

/// Whether two strings hold the same text.
pub fn same_text(left: &str, right: &str) -> (same: bool)
    ensures
        same == (left@ == right@),
{
    let length = left.unicode_len();
    if length != right.unicode_len() {
        return false;
    }
    let mut i: usize = 0;
    while i < length
        invariant
            i <= length,
            length == left@.len(),
            length == right@.len(),
            forall|k: int| 0 <= k < i ==> left@[k] == right@[k],
        decreases length - i,
    {
        if left.get_char(i) != right.get_char(i) {
            return false;
        }
        i = i + 1;
    }
    assert(left@ =~= right@);
    true
}

/// `grapheme` as it is shown: `tab_width` spaces for a tab if a width is
/// given, else itself.
pub fn replace_tab(grapheme: &str, tab_width: Option<u8>) -> (text: String)
    ensures
        text@ == shown(grapheme@, tab_width),
{
    match tab_width {
        Some(width) => {
            if holds_tab(grapheme) {
                let mut blank = String::new();
                let mut made: u8 = 0;
                proof {
                    reveal_strlit(" ");
                }
                while made < width
                    invariant
                        made <= width,
                        blank@ == Seq::new(made as nat, |i: int| ' '),
                        " "@ == seq![' '],
                    decreases width - made,
                {
                    blank.append(" ");
                    made = made + 1;
                    assert(blank@ =~= Seq::new(made as nat, |i: int| ' '));
                }
                blank
            } else {
                String::from_str(grapheme)
            }
        },
        None => String::from_str(grapheme),
    }
}

/// The value of a text input: its text, cut into grapheme clusters.
#[derive(Debug, Clone)]
pub struct Value {
    graphemes: Vec<String>,
}

impl View for Value {
    type V = Seq<Seq<char>>;

    closed spec fn view(&self) -> Seq<Seq<char>> {
        texts(self.graphemes@)
    }
}

impl Value {
    /// Creates a new [`Value`] from a string slice.
    pub fn new(string: &str) -> (value: Value)
        ensures
            value@ == grapheme_clusters(string@),
    {
        Value { graphemes: graphemes_of(string) }
    }

    /// Returns whether the [`Value`] is empty or not.
    ///
    /// A [`Value`] is empty when it contains no graphemes.
    pub fn is_empty(&self) -> (empty: bool)
        ensures
            empty == (self@.len() == 0),
    {
        self.graphemes.len() == 0
    }

    /// Returns the total amount of graphemes in the [`Value`].
    pub fn len(&self) -> (len: usize)
        ensures
            len == self@.len(),
    {
        self.graphemes.len()
    }

    /// The graphemes from `start` to `end`, which the caller knows to be in
    /// order and in the value.
    fn copy_of(&self, start: usize, end: usize) -> (copy: Vec<String>)
        requires
            start <= end <= self@.len(),
        ensures
            texts(copy@) == self@.subrange(start as int, end as int),
    {
        let mut copy: Vec<String> = Vec::new();
        let mut i: usize = start;
        while i < end
            invariant
                start <= i <= end <= self.graphemes@.len(),
                texts(copy@) == texts(self.graphemes@).subrange(start as int, i as int),
            decreases end - i,
        {
            let ghost before = copy@;
            copy.push(self.graphemes[i].clone());
            proof {
                assert(texts(copy@) =~= texts(before).push(self.graphemes@[i as int]@));
                assert(texts(self.graphemes@).subrange(start as int, i + 1) =~= texts(
                    self.graphemes@,
                ).subrange(start as int, i as int).push(self.graphemes@[i as int]@));
            }
            i = i + 1;
        }
        copy
    }

    /// The graphemes from `start` to `end` as they are shown, joined.
    fn join(&self, start: usize, end: usize, tab_width: Option<u8>) -> (text: String)
        requires
            start <= end <= self@.len(),
        ensures
            text@ == joined(self@.subrange(start as int, end as int), tab_width),
    {
        let mut text = String::new();
        let mut i: usize = start;
        while i < end
            invariant
                start <= i <= end <= self.graphemes@.len(),
                text@ == joined(
                    texts(self.graphemes@).subrange(start as int, i as int),
                    tab_width,
                ),
            decreases end - i,
        {
            let piece = replace_tab(self.graphemes[i].as_str(), tab_width);
            proof {
                let next = texts(self.graphemes@).subrange(start as int, i + 1);
                assert(next.drop_last() =~= texts(self.graphemes@).subrange(
                    start as int,
                    i as int,
                ));
                assert(next.last() == self.graphemes@[i as int]@);
            }
            text.append(piece.as_str());
            i = i + 1;
        }
        text
    }

    /// The lines of the [`Value`], each with its line ending, tabs shown as
    /// `tab_width` spaces if a width is given; one empty line after a final
    /// line ending, and for an empty value.
    pub fn lines(&self, tab_width: Option<u8>) -> (lines: Vec<String>)
        ensures
            texts(lines@) == lines_from(self@, 0, tab_width),
    {
        let mut lines: Vec<String> = Vec::new();
        let len = self.graphemes.len();
        let mut start: usize = 0;
        let mut open: bool = true;
        while open
            invariant
                len == self@.len(),
                open ==> start <= len,
                open ==> texts(lines@) + lines_from(self@, start as int, tab_width) == lines_from(
                    self@,
                    0,
                    tab_width,
                ),
                !open ==> texts(lines@) == lines_from(self@, 0, tab_width),
            decreases
                    if open {
                        len - start + 1
                    } else {
                        0
                    },
        {
            let ghost before = lines@;
            if start == len {
                lines.push(String::new());
                proof {
                    assert(texts(lines@) =~= texts(before).push(Seq::<char>::empty()));
                    assert(texts(before).push(Seq::<char>::empty()) =~= texts(before)
                        + lines_from(self@, start as int, tab_width));
                }
                open = false;
            } else {
                let end = self.next_end_of_line(start);
                proof {
                    lemma_end_of_line(self@, start as int);
                }
                let stop = if end < len {
                    end + 1
                } else {
                    end
                };
                let line = self.join(start, stop, tab_width);
                lines.push(line);
                proof {
                    let shown_line = joined(self@.subrange(start as int, stop as int), tab_width);
                    assert(texts(lines@) =~= texts(before).push(shown_line));
                    if end < len {
                        assert(texts(before).push(shown_line) + lines_from(
                            self@,
                            stop as int,
                            tab_width,
                        ) =~= texts(before) + lines_from(self@, start as int, tab_width));
                    } else {
                        assert(texts(before).push(shown_line) =~= texts(before) + lines_from(
                            self@,
                            start as int,
                            tab_width,
                        ));
                    }
                }
                if end < len {
                    start = stop;
                } else {
                    open = false;
                }
            }
        }
        lines
    }

    /// The number of line endings from `start` to `end`, which the caller
    /// knows to be in order and in the value.
    fn count_endings(&self, start: usize, end: usize) -> (count: usize)
        requires
            start <= end <= self@.len(),
        ensures
            count == line_endings(self@.subrange(start as int, end as int)),
    {
        let mut count: usize = 0;
        let mut i: usize = start;
        while i < end
            invariant
                start <= i <= end <= self.graphemes@.len(),
                count <= i - start,
                count == line_endings(texts(self.graphemes@).subrange(start as int, i as int)),
            decreases end - i,
        {
            proof {
                let next = texts(self.graphemes@).subrange(start as int, i + 1);
                assert(next.drop_last() =~= texts(self.graphemes@).subrange(
                    start as int,
                    i as int,
                ));
                assert(next.last() == self.graphemes@[i as int]@);
            }
            if ends_line(self.graphemes[i].as_str()) {
                count = count + 1;
            }
            i = i + 1;
        }
        count
    }

    /// Returns the number of line endings in the [`Value`].
    pub fn count_lines(&self) -> (count: usize)
        ensures
            count == line_endings(self@),
    {
        let len = self.graphemes.len();
        assert(self@.subrange(0, len as int) =~= self@);
        self.count_endings(0, len)
    }

    /// Returns the number of line endings before the given index in the
    /// [`Value`].
    pub fn count_lines_before(&self, index: usize) -> (count: usize)
        ensures
            count == line_endings(self@.subrange(0, capped(index, self@.len()))),
    {
        let len = self.graphemes.len();
        let end = if index <= len {
            index
        } else {
            len
        };
        self.count_endings(0, end)
    }

    /// Returns the number of line endings between the two indices in the
    /// [`Value`].
    pub fn count_lines_between(&self, start: usize, end: usize) -> (count: usize)
        requires
            start <= capped(end, self@.len()),
        ensures
            count == line_endings(self@.subrange(start as int, capped(end, self@.len()))),
    {
        let len = self.graphemes.len();
        let end = if end <= len {
            end
        } else {
            len
        };
        self.count_endings(start, end)
    }

    /// Returns where the `n`th line of the [`Value`] starts: 0 for the first
    /// line, else the index after the `n`th line ending, if a grapheme stands
    /// there.
    pub fn nth_line_start(&self, n: usize) -> (start: Option<usize>)
        ensures
            n == 0 ==> start == Some(0usize),
            n > 0 && start is Some ==> 0 < start->0 < self@.len() && is_line_ending(
                self@[start->0 - 1],
            ) && line_endings(self@.subrange(0, start->0 as int)) == n,
            n > 0 && start is None ==> forall|i: int|
                0 < i < self@.len() && is_line_ending(#[trigger] self@[i - 1]) ==> line_endings(
                    self@.subrange(0, i),
                ) != n,
    {
        if n == 0 {
            return Some(0);
        }
        let len = self.graphemes.len();
        let mut count: usize = 0;
        let mut i: usize = 0;
        while i < len
            invariant
                i <= len,
                len == self@.len(),
                n > 0,
                count < n,
                count <= i,
                count == line_endings(self@.subrange(0, i as int)),
                forall|k: int|
                    0 < k <= i && k < len && is_line_ending(#[trigger] self@[k - 1])
                        ==> line_endings(self@.subrange(0, k)) != n,
            decreases len - i,
        {
            proof {
                let next = self@.subrange(0, i + 1);
                assert(next.drop_last() =~= self@.subrange(0, i as int));
                assert(next.last() == self@[i as int]);
            }
            if ends_line(self.graphemes[i].as_str()) {
                count = count + 1;
                if count == n {
                    if i + 1 < len {
                        return Some(i + 1);
                    } else {
                        proof {
                            assert forall|k: int|
                                0 < k < self@.len() && is_line_ending(
                                    #[trigger] self@[k - 1],
                                ) implies line_endings(self@.subrange(0, k)) != n by {
                                if line_endings(self@.subrange(0, k)) == n {
                                    lemma_line_endings_grow(self@, k, i + 1);
                                    assert(self@.subrange(0, k).drop_last() =~= self@.subrange(
                                        0,
                                        k - 1,
                                    ));
                                    lemma_line_endings_grow(self@, k - 1, i as int);
                                }
                            }
                        }
                        return None;
                    }
                }
            }
            i = i + 1;
        }
        proof {
            assert forall|k: int|
                0 < k < self@.len() && is_line_ending(#[trigger] self@[k - 1]) implies line_endings(
                self@.subrange(0, k),
            ) != n by {
                lemma_line_endings_grow(self@, k, len as int);
            }
        }
        None
    }

    /// Returns the number of tabs between the two indices in the [`Value`].
    pub fn count_tabs_between(&self, start: usize, end: usize) -> (count: usize)
        requires
            start <= capped(end, self@.len()),
        ensures
            count == tabs(self@.subrange(start as int, capped(end, self@.len()))),
    {
        let len = self.graphemes.len();
        let end = if end <= len {
            end
        } else {
            len
        };
        let mut count: usize = 0;
        let mut i: usize = start;
        while i < end
            invariant
                start <= i <= end <= self.graphemes@.len(),
                count <= i - start,
                count == tabs(texts(self.graphemes@).subrange(start as int, i as int)),
            decreases end - i,
        {
            proof {
                let next = texts(self.graphemes@).subrange(start as int, i + 1);
                assert(next.drop_last() =~= texts(self.graphemes@).subrange(
                    start as int,
                    i as int,
                ));
                assert(next.last() == self.graphemes@[i as int]@);
            }
            if holds_tab(self.graphemes[i].as_str()) {
                count = count + 1;
            }
            i = i + 1;
        }
        count
    }

    /// Returns the position of the previous start of a line from the given
    /// grapheme `index`.
    pub fn previous_start_of_line(&self, index: usize) -> (start: usize)
        ensures
            start == start_of_line(self@, capped(index, self@.len())),
            start <= self@.len(),
    {
        let len = self.graphemes.len();
        let mut i: usize = if index <= len {
            index
        } else {
            len
        };
        proof {
            lemma_start_of_line(self@, i as int);
        }
        while i > 0 && !ends_line(self.graphemes[i - 1].as_str())
            invariant
                i <= len,
                len == self@.len(),
                start_of_line(self@, i as int) == start_of_line(
                    self@,
                    capped(index, self@.len()),
                ),
            decreases i,
        {
            i = i - 1;
        }
        i
    }

    /// Returns the position of the next end of a line from the given
    /// grapheme `index`.
    pub fn next_end_of_line(&self, index: usize) -> (end: usize)
        requires
            index <= self@.len(),
        ensures
            end == end_of_line(self@, index as int),
            index <= end <= self@.len(),
    {
        let len = self.graphemes.len();
        let mut i: usize = index;
        proof {
            lemma_end_of_line(self@, index as int);
        }
        while i < len && !ends_line(self.graphemes[i].as_str())
            invariant
                index <= i <= len,
                len == self@.len(),
                end_of_line(self@, i as int) == end_of_line(self@, index as int),
            decreases len - i,
        {
            i = i + 1;
        }
        i
    }

    /// Returns a new [`Value`] containing the graphemes from `start` until
    /// the given `end`.
    pub fn select(&self, start: usize, end: usize) -> (part: Value)
        requires
            capped(start, self@.len()) <= capped(end, self@.len()),
        ensures
            part@ == self@.subrange(capped(start, self@.len()), capped(end, self@.len())),
    {
        let len = self.graphemes.len();
        let start = if start <= len {
            start
        } else {
            len
        };
        let end = if end <= len {
            end
        } else {
            len
        };
        Value { graphemes: self.copy_of(start, end) }
    }

    /// Returns a new [`Value`] containing the graphemes until the given
    /// `index`.
    pub fn until(&self, index: usize) -> (part: Value)
        ensures
            part@ == self@.subrange(0, capped(index, self@.len())),
    {
        let len = self.graphemes.len();
        let end = if index <= len {
            index
        } else {
            len
        };
        Value { graphemes: self.copy_of(0, end) }
    }

    /// Returns a new [`Value`] containing the graphemes after and including
    /// the given `index`.
    pub fn after(&self, index: usize) -> (part: Value)
        ensures
            part@ == self@.subrange(capped(index, self@.len()), self@.len() as int),
    {
        let len = self.graphemes.len();
        let start = if index <= len {
            index
        } else {
            len
        };
        Value { graphemes: self.copy_of(start, len) }
    }

    /// Returns a new [`Value`] containing the graphemes from the last
    /// occurence of the given grapheme on.
    ///
    /// Returns `None` if the given grapheme does not appear in this
    /// [`Value`].
    pub fn after_grapheme(&self, grapheme: &str) -> (part: Option<Value>)
        ensures
            part is None <==> !self@.contains(grapheme@),
            part is Some ==> exists|at: int|
                0 <= at < self@.len() && #[trigger] self@[at] == grapheme@ && part->0@
                    == self@.subrange(at, self@.len() as int) && !self@.subrange(
                    at + 1,
                    self@.len() as int,
                ).contains(grapheme@),
    {
        let len = self.graphemes.len();
        let mut i: usize = len;
        while i > 0
            invariant
                i <= len,
                len == self@.len(),
                forall|k: int| i <= k < len ==> self@[k] != grapheme@,
            decreases i,
        {
            if same_text(self.graphemes[i - 1].as_str(), grapheme) {
                let part = self.after(i - 1);
                proof {
                    let at = i - 1;
                    assert(self@[at] == grapheme@);
                    let tail = self@.subrange(at + 1, self@.len() as int);
                    assert(!tail.contains(grapheme@)) by {
                        if tail.contains(grapheme@) {
                            let j = choose|j: int|
                                0 <= j < tail.len() && #[trigger] tail[j] == grapheme@;
                            assert(self@[at + 1 + j] == grapheme@);
                        }
                    }
                }
                return Some(part);
            }
            i = i - 1;
        }
        proof {
            if self@.contains(grapheme@) {
                let whole = self@;
                let j = choose|j: int| 0 <= j < whole.len() && #[trigger] whole[j] == grapheme@;
                assert(self@[j] != grapheme@);
            }
        }
        None
    }

    /// Inserts a new `char` at the given grapheme `index`: the text with the
    /// character put before grapheme `index` is cut into grapheme clusters
    /// anew.
    pub fn insert(&mut self, index: usize, c: char)
        requires
            index <= old(self)@.len(),
        ensures
            final(self)@ == grapheme_clusters(
                joined(old(self)@.subrange(0, index as int), None).push(c) + joined(
                    old(self)@.subrange(index as int, old(self)@.len() as int),
                    None,
                ),
            ),
    {
        let len = self.graphemes.len();
        let mut text = self.join(0, index, None);
        let tail = self.join(index, len, None);
        push_char(&mut text, c);
        text.append(tail.as_str());
        self.graphemes = graphemes_of(text.as_str());
    }

    /// Inserts a bunch of graphemes at the given grapheme `index`.
    pub fn insert_many(&mut self, index: usize, value: Value)
        requires
            index <= old(self)@.len(),
        ensures
            final(self)@ == old(self)@.subrange(0, index as int) + value@ + old(self)@.subrange(
                index as int,
                old(self)@.len() as int,
            ),
    {
        let len = self.graphemes.len();
        let mut all = self.copy_of(0, index);
        let mut middle = value.graphemes;
        let mut rest = self.copy_of(index, len);
        let ghost head = all@;
        let ghost inner = middle@;
        let ghost tail = rest@;
        all.append(&mut middle);
        all.append(&mut rest);
        proof {
            assert(texts(head + inner + tail) =~= texts(head) + texts(inner) + texts(tail));
        }
        self.graphemes = all;
    }

    /// Removes the grapheme at the given `index`.
    pub fn remove(&mut self, index: usize)
        requires
            index < old(self)@.len(),
        ensures
            final(self)@ == old(self)@.remove(index as int),
    {
        let ghost before = self.graphemes@;
        let _ = self.graphemes.remove(index);
        proof {
            assert(texts(before.remove(index as int)) =~= texts(before).remove(index as int));
        }
    }

    /// Removes the graphemes from `start` to `end`.
    pub fn remove_many(&mut self, start: usize, end: usize)
        requires
            start <= end <= old(self)@.len(),
        ensures
            final(self)@ == old(self)@.subrange(0, start as int) + old(self)@.subrange(
                end as int,
                old(self)@.len() as int,
            ),
    {
        let len = self.graphemes.len();
        let mut all = self.copy_of(0, start);
        let mut rest = self.copy_of(end, len);
        let ghost head = all@;
        let ghost tail = rest@;
        all.append(&mut rest);
        proof {
            assert(texts(head + tail) =~= texts(head) + texts(tail));
        }
        self.graphemes = all;
    }

    /// Gets the content of this [`Value`] with the specified tab width.
    ///
    /// Passing `None` will disable conversion of tabs into spaces. Otherwise,
    /// tabs will be converted into the given number of spaces.
    pub fn to_string(&self, tab_width: Option<u8>) -> (text: String)
        ensures
            text@ == joined(self@, tab_width),
    {
        let len = self.graphemes.len();
        assert(self@.subrange(0, len as int) =~= self@);
        self.join(0, len, tab_width)
    }
}

/// Among more graphemes there are no fewer line endings.
pub proof fn lemma_line_endings_grow(graphemes: Seq<Seq<char>>, shorter: int, longer: int)
    requires
        0 <= shorter <= longer <= graphemes.len(),
    ensures
        line_endings(graphemes.subrange(0, shorter)) <= line_endings(
            graphemes.subrange(0, longer),
        ),
        shorter < longer && is_line_ending(graphemes[longer - 1]) ==> line_endings(
            graphemes.subrange(0, shorter),
        ) < line_endings(graphemes.subrange(0, longer)),
    decreases longer - shorter,
{
    if shorter < longer {
        lemma_line_endings_grow(graphemes, shorter, longer - 1);
        assert(graphemes.subrange(0, longer).drop_last() =~= graphemes.subrange(0, longer - 1));
        assert(graphemes.subrange(0, longer).last() == graphemes[longer - 1]);
    }
}

} // verus!
