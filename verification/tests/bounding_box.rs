use evalvana_editor::bounding_box::BoundingBox;

#[test]
fn a_new_box_has_its_four_numbers() {
    let b = BoundingBox::new(1, 2, 30, 40);
    assert_eq!((b.x, b.y, b.w, b.h), (1, 2, 30, 40));
    assert_eq!(b.left(), 1);
    assert_eq!(b.top(), 2);
    assert_eq!(b.right(), 31);
    assert_eq!(b.bottom(), 42);
}

#[test]
fn with_sets_one_number() {
    let b = BoundingBox::new(1, 2, 30, 40);
    assert_eq!(b.with_x(5), BoundingBox::new(5, 2, 30, 40));
    assert_eq!(b.with_y(5), BoundingBox::new(1, 5, 30, 40));
    assert_eq!(b.with_w(5), BoundingBox::new(1, 2, 5, 40));
    assert_eq!(b.with_h(5), BoundingBox::new(1, 2, 30, 5));
}

#[test]
fn with_an_edge_keeps_the_opposite_edge() {
    let b = BoundingBox::new(10, 20, 30, 40);
    assert_eq!(b.with_left(15), BoundingBox::new(15, 20, 25, 40));
    assert_eq!(b.with_left(5), BoundingBox::new(5, 20, 35, 40));
    assert_eq!(b.with_right(25), BoundingBox::new(10, 20, 15, 40));
    assert_eq!(b.with_top(30), BoundingBox::new(10, 30, 30, 30));
    assert_eq!(b.with_top(0), BoundingBox::new(10, 0, 30, 60));
    assert_eq!(b.with_bottom(25), BoundingBox::new(10, 20, 30, 5));
    assert_eq!(b.with_left(15).right(), b.right());
    assert_eq!(b.with_top(30).bottom(), b.bottom());
}

#[test]
fn added_and_subbed_change_one_number() {
    let b = BoundingBox::new(10, 20, 30, 40);
    assert_eq!(b.added_x(1), BoundingBox::new(11, 20, 30, 40));
    assert_eq!(b.added_y(1), BoundingBox::new(10, 21, 30, 40));
    assert_eq!(b.added_w(1), BoundingBox::new(10, 20, 31, 40));
    assert_eq!(b.added_h(1), BoundingBox::new(10, 20, 30, 41));
    assert_eq!(b.subbed_x(1), BoundingBox::new(9, 20, 30, 40));
    assert_eq!(b.subbed_y(1), BoundingBox::new(10, 19, 30, 40));
    assert_eq!(b.subbed_w(1), BoundingBox::new(10, 20, 29, 40));
    assert_eq!(b.subbed_h(1), BoundingBox::new(10, 20, 30, 39));
}

#[test]
fn added_and_subbed_edges_move_one_edge() {
    let b = BoundingBox::new(10, 20, 30, 40);
    assert_eq!(b.added_left(4), BoundingBox::new(14, 20, 26, 40));
    assert_eq!(b.added_right(4), BoundingBox::new(10, 20, 34, 40));
    assert_eq!(b.added_top(4), BoundingBox::new(10, 24, 30, 36));
    assert_eq!(b.added_bottom(4), BoundingBox::new(10, 20, 30, 44));
    assert_eq!(b.subbed_left(4), BoundingBox::new(6, 20, 34, 40));
    assert_eq!(b.subbed_right(4), BoundingBox::new(10, 20, 26, 40));
    assert_eq!(b.subbed_top(4), BoundingBox::new(10, 16, 30, 44));
    assert_eq!(b.subbed_bottom(4), BoundingBox::new(10, 20, 30, 36));
}
