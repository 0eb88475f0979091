//! The highlighted row of a list and the scrolling of the list.

use vstd::prelude::*;

verus! {

/// The index that follows `current_index` in a list of `collection_length`
/// entries, wrapping from the last entry to the first.
pub open spec fn spec_next_index(current_index: int, collection_length: int) -> int {
    if current_index >= collection_length - 1 {
        0
    } else {
        current_index + 1
    }
}

/// The index that precedes `current_index` in a list of `collection_length`
/// entries, wrapping from the first entry to the last.
pub open spec fn spec_previous_index(current_index: int, collection_length: int) -> int {
    if current_index == 0 {
        collection_length - 1
    } else {
        current_index - 1
    }
}

/// Steps forward through a non-empty list with wraparound.
pub fn next_index(current_index: usize, collection_length: usize) -> (next: usize)
    requires
        collection_length > 0,
    ensures
        next == spec_next_index(current_index as int, collection_length as int),
        next < collection_length,
{
    if current_index >= collection_length - 1 {
        0
    } else {
        current_index + 1
    }
}

/// Steps backward through a non-empty list with wraparound.
pub fn previous_index(current_index: usize, collection_length: usize) -> (previous: usize)
    requires
        collection_length > 0,
    ensures
        previous == spec_previous_index(current_index as int, collection_length as int),
        current_index < collection_length ==> previous < collection_length,
{
    if current_index == 0 {
        collection_length - 1
    } else {
        current_index - 1
    }
}

/// How many rows above the bottom of the window the list starts to scroll.
pub const SCROLL_MARGIN: usize = 6;

/// The highlighted row of a list and the part of the list on screen.
#[derive(Debug, Clone, Copy, PartialEq, Eq, Structural)]
pub struct Selection {
    /// The highlighted row, if there is one.
    pub selected: Option<usize>,
    /// The first row on screen.
    pub scroll_offset: usize,
    /// The number of rows on screen.
    pub viewport_height: usize,
}

/// The row that counts as highlighted: the first one where none is.
pub open spec fn current_row(selected: Option<usize>) -> int {
    match selected {
        Some(row) => row as int,
        None => 0,
    }
}

/// `a` plus one, held at the largest value.
pub open spec fn one_more(a: usize) -> usize {
    if a < usize::MAX {
        (a + 1) as usize
    } else {
        a
    }
}

/// The highlighted row stands within the margin of the window's bottom.
pub open spec fn near_bottom(row: int, scroll_offset: int, viewport_height: int) -> bool {
    row - scroll_offset >= viewport_height - SCROLL_MARGIN
}

/// The selection that fits a list of `length` rows: none for an empty
/// list, else the highlighted row, held at the last one; the first row
/// where none was highlighted.
pub open spec fn clipped(selected: Option<usize>, length: usize) -> Option<usize> {
    if length == 0 {
        None
    } else if current_row(selected) > length - 1 {
        Some((length - 1) as usize)
    } else {
        Some(current_row(selected) as usize)
    }
}

/// The selection after a step down a list of `length` rows.
pub open spec fn after_next(s: Selection, length: usize) -> Selection {
    if length == 0 {
        s
    } else {
        let row = current_row(s.selected);
        let next = spec_next_index(row, length as int);
        Selection {
            selected: Some(next as usize),
            scroll_offset: if next == 0 {
                0
            } else if near_bottom(row, s.scroll_offset as int, s.viewport_height as int) {
                one_more(s.scroll_offset)
            } else {
                s.scroll_offset
            },
            viewport_height: s.viewport_height,
        }
    }
}

/// The row above `row` in a list of `length` rows, the last row from the
/// first one or from beyond the list.
pub open spec fn row_above(row: int, length: int) -> int {
    if row == 0 || row > length - 1 {
        length - 1
    } else {
        row - 1
    }
}

/// The selection after a step up a list of `length` rows.
pub open spec fn after_previous(s: Selection, length: usize) -> Selection {
    if length == 0 {
        s
    } else {
        let above = row_above(current_row(s.selected), length as int);
        Selection {
            selected: Some(above as usize),
            scroll_offset: if above == length - 1 {
                (length - 1) as usize
            } else if above < s.scroll_offset {
                above as usize
            } else {
                s.scroll_offset
            },
            viewport_height: s.viewport_height,
        }
    }
}

impl Selection {
    /// The selection names a row of a list of `length` rows, and names
    /// none only where the list is empty.
    pub open spec fn valid_for(&self, length: usize) -> bool {
        match self.selected {
            Some(row) => row < length,
            None => length == 0,
        }
    }

    /// The first row highlighted, the list not scrolled.
    pub fn new(viewport_height: usize) -> (s: Selection)
        ensures
            s == (Selection { selected: Some(0), scroll_offset: 0, viewport_height }),
    {
        Selection { selected: Some(0), scroll_offset: 0, viewport_height }
    }

    /// Moves the highlight one row down, from the last row to the first.
    /// Back at the first row the list is scrolled to its top; near the
    /// bottom of the window it scrolls on by one row.
    pub fn next(&mut self, length: usize)
        ensures
            *final(self) == after_next(*old(self), length),
            length > 0 ==> final(self).valid_for(length),
    {
        if length == 0 {
            return ;
        }
        let row: usize = match self.selected {
            Some(row) => row,
            None => 0,
        };
        let next = next_index(row, length);
        self.selected = Some(next);
        let near = if row >= self.scroll_offset {
            self.viewport_height < SCROLL_MARGIN || row - self.scroll_offset
                >= self.viewport_height - SCROLL_MARGIN
        } else {
            self.viewport_height < SCROLL_MARGIN && self.scroll_offset - row <= SCROLL_MARGIN
                - self.viewport_height
        };
        if next == 0 {
            self.scroll_offset = 0;
        } else if near {
            if self.scroll_offset < usize::MAX {
                self.scroll_offset = self.scroll_offset + 1;
            }
        }
    }

    /// Moves the highlight one row up, from the first row to the last.
    /// At the last row the list is scrolled to its end; else it scrolls
    /// just as far as the highlighted row needs to stay on screen.
    pub fn previous(&mut self, length: usize)
        ensures
            *final(self) == after_previous(*old(self), length),
            length > 0 ==> final(self).valid_for(length),
    {
        if length == 0 {
            return ;
        }
        let row: usize = match self.selected {
            Some(row) => row,
            None => 0,
        };
        let last: usize = length - 1;
        let above: usize = if row == 0 || row > last {
            last
        } else {
            row - 1
        };
        self.selected = Some(above);
        if above == last {
            self.scroll_offset = last;
        } else if above < self.scroll_offset {
            self.scroll_offset = above;
        }
    }

    /// Fits the selection to a list of `length` rows.
    pub fn clip_selection(&mut self, length: usize)
        ensures
            final(self).selected == clipped(old(self).selected, length),
            final(self).scroll_offset == old(self).scroll_offset,
            final(self).viewport_height == old(self).viewport_height,
            final(self).valid_for(length),
    {
        if length == 0 {
            self.selected = None;
        } else {
            let row: usize = match self.selected {
                Some(row) => row,
                None => 0,
            };
            if row > length - 1 {
                self.selected = Some(length - 1);
            } else {
                self.selected = Some(row);
            }
        }
    }
}

/// A step down from the last row leads to the first, a step up from the
/// first to the last.
pub proof fn lemma_wraparound(s: Selection, length: usize)
    requires
        length > 0,
    ensures
        s.selected == Some((length - 1) as usize) ==> after_next(s, length).selected == Some(
            0usize,
        ),
        s.selected == Some(0usize) ==> after_previous(s, length).selected == Some(
            (length - 1) as usize,
        ),
{
}

/// Within the list a step down and a step up undo each other's move of
/// the highlight.
pub proof fn lemma_next_previous(s: Selection, length: usize)
    requires
        s.valid_for(length),
        length > 0,
    ensures
        after_previous(after_next(s, length), length).selected == s.selected,
        after_next(after_previous(s, length), length).selected == s.selected,
{
}

} // verus!
