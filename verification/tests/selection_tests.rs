use hoard::selection::{next_index, previous_index, Selection};

fn at(selected: usize, scroll_offset: usize, viewport_height: usize) -> Selection {
    Selection { selected: Some(selected), scroll_offset, viewport_height }
}

#[test]
fn next_index_steps_and_wraps() {
    assert_eq!(next_index(0, 3), 1);
    assert_eq!(next_index(1, 3), 2);
    assert_eq!(next_index(2, 3), 0);
    assert_eq!(next_index(0, 1), 0);
    assert_eq!(next_index(9, 3), 0);
}

#[test]
fn previous_index_steps_and_wraps() {
    assert_eq!(previous_index(2, 3), 1);
    assert_eq!(previous_index(1, 3), 0);
    assert_eq!(previous_index(0, 3), 2);
    assert_eq!(previous_index(0, 1), 0);
}

#[test]
fn selection_wraps_around() {
    let mut s = at(2, 0, 20);
    s.next(3);
    assert_eq!(s.selected, Some(0));
    let mut s = at(0, 0, 20);
    s.previous(3);
    assert_eq!(s.selected, Some(2));
}

#[test]
fn next_within_the_list() {
    let mut s = at(0, 0, 20);
    s.next(3);
    assert_eq!(s, at(1, 0, 20));
    s.next(3);
    assert_eq!(s, at(2, 0, 20));
}

#[test]
fn next_on_empty_list_does_nothing() {
    let mut s = Selection { selected: None, scroll_offset: 3, viewport_height: 20 };
    s.next(0);
    assert_eq!(s, Selection { selected: None, scroll_offset: 3, viewport_height: 20 });
    s.previous(0);
    assert_eq!(s, Selection { selected: None, scroll_offset: 3, viewport_height: 20 });
}

#[test]
fn next_scrolls_near_the_bottom_of_the_window() {
    // Ten rows on screen: the list scrolls from the row at position 4 on.
    let mut s = at(3, 0, 10);
    s.next(100);
    assert_eq!(s, at(4, 0, 10));
    s.next(100);
    assert_eq!(s, at(5, 1, 10));
    s.next(100);
    assert_eq!(s, at(6, 2, 10));
}

#[test]
fn next_to_the_first_row_scrolls_to_the_top() {
    let mut s = at(99, 95, 10);
    s.next(100);
    assert_eq!(s, at(0, 0, 10));
}

#[test]
fn next_with_a_window_smaller_than_the_margin() {
    let mut s = at(0, 0, 2);
    s.next(5);
    assert_eq!(s, at(1, 1, 2));
    let mut s = at(1, 9, 2);
    s.next(5);
    assert_eq!(s, at(2, 9, 2));
    let mut s = at(1, 4, 3);
    s.next(5);
    assert_eq!(s, at(2, 5, 3));
}

#[test]
fn next_without_a_selection_counts_from_the_first_row() {
    let mut s = Selection { selected: None, scroll_offset: 0, viewport_height: 20 };
    s.next(3);
    assert_eq!(s.selected, Some(1));
}

#[test]
fn previous_to_the_last_row_scrolls_to_the_end() {
    let mut s = at(0, 0, 10);
    s.previous(50);
    assert_eq!(s, at(49, 49, 10));
}

#[test]
fn previous_keeps_the_selection_on_screen() {
    let mut s = at(5, 5, 10);
    s.previous(50);
    assert_eq!(s, at(4, 4, 10));
    let mut s = at(5, 2, 10);
    s.previous(50);
    assert_eq!(s, at(4, 2, 10));
}

#[test]
fn previous_from_beyond_the_list_goes_to_the_last_row() {
    let mut s = at(9, 0, 10);
    s.previous(3);
    assert_eq!(s, at(2, 2, 10));
}

#[test]
fn clip_after_shrink() {
    let mut s = at(4, 0, 20);
    s.clip_selection(2);
    assert_eq!(s.selected, Some(1));
}

#[test]
fn clip_leaves_a_fitting_selection() {
    let mut s = at(1, 7, 20);
    s.clip_selection(2);
    assert_eq!(s, at(1, 7, 20));
}

#[test]
fn clip_to_empty_list_leaves_no_selection() {
    let mut s = at(4, 0, 20);
    s.clip_selection(0);
    assert_eq!(s.selected, None);
}

#[test]
fn clip_selects_the_first_row_where_none_was() {
    let mut s = Selection { selected: None, scroll_offset: 0, viewport_height: 20 };
    s.clip_selection(3);
    assert_eq!(s.selected, Some(0));
}

#[test]
fn new_selection_is_at_the_top() {
    assert_eq!(Selection::new(12), at(0, 0, 12));
}
