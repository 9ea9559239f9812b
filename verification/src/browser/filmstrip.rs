//! Filmstrip scrolling, independent of the selected photograph.
//!
//! Only explicit photo navigation calls `reveal_photo`. Redraws and finished
//! thumbnails do not recenter a window that the user has scrolled.
use crate::browser::navigator::magnitude;
use std::ops::Range;
use vstd::prelude::*;

verus! {

/// The visible cells of a list.
#[derive(Clone, Copy, Debug, PartialEq, Eq)]
pub struct FilmstripWindow {
    len: usize,
    capacity: usize,
    start: usize,
}

/// What a `FilmstripWindow` says.
pub struct Strip {
    pub len: int,
    pub capacity: int,
    pub start: int,
}

impl View for FilmstripWindow {
    type V = Strip;

    closed spec fn view(&self) -> Strip {
        Strip { len: self.len as int, capacity: self.capacity as int, start: self.start as int }
    }
}

pub open spec fn least(a: int, b: int) -> int {
    if a < b {
        a
    } else {
        b
    }
}

impl Strip {
    /// The visible cells are cells of the list.
    pub open spec fn valid(self) -> bool {
        &&& 0 <= self.start
        &&& 0 <= self.capacity <= self.len <= usize::MAX
        &&& self.start <= self.len - self.capacity
        &&& self.capacity == 0 ==> self.start == 0
    }

    pub open spec fn end(self) -> int {
        self.start + self.capacity
    }

    /// Whether the cell of a photograph is visible.
    pub open spec fn shows(self, index: int) -> bool {
        self.start <= index < self.end()
    }

    /// Whether two strips show the same cells.
    pub open spec fn same_cells(self, other: Strip) -> bool {
        self.start == other.start && self.end() == other.end()
    }

    /// The first visible cell stays where it can.
    pub open spec fn synchronized(self, len: int, capacity: int) -> Strip {
        let cells = least(capacity, len);
        Strip {
            len,
            capacity: cells,
            start: if cells == 0 {
                0
            } else {
                least(self.start, len - cells)
            },
        }
    }

    /// Moved by some cells, stopping at either end.
    pub open spec fn scrolled(self, delta: int) -> Strip {
        if self.capacity == 0 {
            self
        } else {
            Strip {
                start: if self.start + delta < 0 {
                    0
                } else {
                    least(self.start + delta, self.len - self.capacity)
                },
                ..self
            }
        }
    }

    /// Moved as little as it takes to show a photograph.
    pub open spec fn revealed(self, index: int) -> Strip {
        if self.capacity == 0 || index >= self.len {
            self
        } else if index < self.start {
            Strip { start: index, ..self }
        } else if index >= self.end() {
            Strip { start: index - (self.capacity - 1), ..self }
        } else {
            self
        }
    }
}

impl Default for FilmstripWindow {
    fn default() -> (out: Self)
        ensures
            out@ == (Strip { len: 0, capacity: 0, start: 0 }),
            out@.valid(),
    {
        FilmstripWindow { len: 0, capacity: 0, start: 0 }
    }
}

impl FilmstripWindow {
    #[verifier::type_invariant]
    spec fn inv(&self) -> bool {
        &&& self.capacity <= self.len
        &&& self.start <= self.len - self.capacity
        &&& self.capacity == 0 ==> self.start == 0
    }

    /// Follows the length of the list and the number of cells that fit. Grows
    /// and shrinks at the trailing edge, without an avoidable empty tail. Says
    /// whether the visible cells changed.
    pub fn synchronize(&mut self, len: usize, capacity: usize) -> (out: bool)
        ensures
            final(self)@ == old(self)@.synchronized(len as int, capacity as int),
            out == !final(self)@.same_cells(old(self)@),
            final(self)@.valid(),
    {
        proof {
            use_type_invariant(&*self);
        }
        let (start, end): (usize, usize) = (self.start, self.start + self.capacity);
        let cells: usize = if capacity < len {
            capacity
        } else {
            len
        };
        let first: usize = if cells == 0 {
            0
        } else if start < len - cells {
            start
        } else {
            len - cells
        };
        *self = FilmstripWindow { len, capacity: cells, start: first };
        first != start || first + cells != end
    }

    pub fn range(&self) -> (out: Range<usize>)
        ensures
            out.start == self@.start,
            out.end == self@.end(),
            self@.valid(),
    {
        proof {
            use_type_invariant(self);
        }
        self.start..self.start + self.capacity
    }

    /// Moves only the strip. Extreme steps stop at either end. Says whether the
    /// visible cells changed.
    pub fn scroll(&mut self, delta: isize) -> (out: bool)
        ensures
            final(self)@ == old(self)@.scrolled(delta as int),
            out == (final(self)@.start != old(self)@.start),
            final(self)@.valid(),
    {
        proof {
            use_type_invariant(&*self);
        }
        if self.capacity == 0 {
            return false;
        }
        let previous: usize = self.start;
        let step: usize = magnitude(delta);
        let room: usize = self.len - self.capacity;
        let start: usize = if delta >= 0 {
            if step > room - previous {
                room
            } else {
                previous + step
            }
        } else if step > previous {
            0
        } else {
            previous - step
        };
        *self = FilmstripWindow { len: self.len, capacity: self.capacity, start };
        start != previous
    }

    /// Shifts as little as it takes to show a newly selected photograph. One
    /// that is visible moves nothing; one outside the list is ignored.
    pub fn reveal_photo(&mut self, index: usize) -> (out: bool)
        ensures
            final(self)@ == old(self)@.revealed(index as int),
            out == (final(self)@.start != old(self)@.start),
            final(self)@.valid(),
    {
        proof {
            use_type_invariant(&*self);
        }
        if self.capacity == 0 || index >= self.len {
            return false;
        }
        let previous: usize = self.start;
        let start: usize = if index < previous {
            index
        } else if index >= previous + self.capacity {
            index - (self.capacity - 1)
        } else {
            previous
        };
        *self = FilmstripWindow { len: self.len, capacity: self.capacity, start };
        start != previous
    }

    /// Returns to the first cells. Says whether the visible cells changed.
    pub fn reset(&mut self) -> (out: bool)
        ensures
            final(self)@ == (Strip { start: 0, ..old(self)@ }),
            out == (old(self)@.start != 0),
            final(self)@.valid(),
    {
        proof {
            use_type_invariant(&*self);
        }
        let changed = self.start != 0;
        *self = FilmstripWindow { len: self.len, capacity: self.capacity, start: 0 };
        changed
    }
}

/// A photograph of the list is visible after it was revealed, and the window
/// moved by no more cells than its distance from the nearer edge.
pub proof fn law_reveal_shows(s: Strip, index: int)
    requires
        s.valid(),
        s.capacity > 0,
        0 <= index < s.len,
    ensures
        s.revealed(index).valid(),
        s.revealed(index).shows(index),
        s.shows(index) ==> s.revealed(index) == s,
        index < s.start ==> s.start - s.revealed(index).start == s.start - index,
        index >= s.end() ==> s.revealed(index).start - s.start == index - s.end() + 1,
{
}

/// Scrolling keeps the number of visible cells and stays in the list.
pub proof fn law_scroll_stays_inside(s: Strip, delta: int)
    requires
        s.valid(),
    ensures
        s.scrolled(delta).valid(),
        s.scrolled(delta).capacity == s.capacity,
        s.scrolled(delta).len == s.len,
{
}

/// Following the same list again changes nothing.
pub proof fn law_synchronize_is_idempotent(s: Strip, len: int, capacity: int)
    requires
        s.valid(),
        0 <= len <= usize::MAX,
        0 <= capacity,
    ensures
        s.synchronized(len, capacity).valid(),
        s.synchronized(len, capacity).synchronized(len, capacity) == s.synchronized(len, capacity),
{
}

/// Scrolling moves by so many cells, and no further than the first or the last.
pub proof fn law_scrolling_is_exact(s: Strip, delta: int)
    requires
        s.valid(),
        s.capacity > 0,
    ensures
        0 <= s.start + delta && s.start + delta + s.capacity <= s.len ==> s.scrolled(delta).start
            == s.start + delta,
        s.start + delta < 0 ==> s.scrolled(delta).start == 0,
        s.start + delta + s.capacity > s.len ==> s.scrolled(delta).start + s.capacity == s.len,
{
}

/// As many cells are visible as fit and there are photographs; the first visible cell
/// stays, unless cells would be empty behind the last photograph.
pub proof fn law_the_first_cell_stays(s: Strip, len: int, capacity: int)
    requires
        s.valid(),
        0 <= len <= usize::MAX,
        0 < capacity,
    ensures
        ({
            let out = s.synchronized(len, capacity);
            &&& out.len == len
            &&& len >= capacity ==> out.capacity == capacity
            &&& len < capacity ==> out.capacity == len && out.start == 0
            &&& s.start + capacity <= len ==> out.start == s.start
            &&& s.start + capacity > len && len >= capacity ==> out.start + capacity == len
        }),
{
}

} // verus!
