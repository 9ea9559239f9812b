//! The selected photograph of a list.
use crate::browser::prefetch::Direction;
use vstd::prelude::*;

verus! {

/// The selection in a list of photographs. An empty list has none; any other
/// list has one.
#[derive(Clone, Copy, Debug)]
pub struct Navigator {
    len: usize,
    index: Option<usize>,
    direction: Direction,
}

/// What a `Navigator` says.
pub struct Selection {
    pub len: usize,
    pub index: Option<usize>,
    pub direction: Direction,
}

impl View for Navigator {
    type V = Selection;

    closed spec fn view(&self) -> Selection {
        Selection { len: self.len, index: self.index, direction: self.direction }
    }
}

impl Selection {
    /// The selection is in the list, and there is one unless the list is empty.
    pub open spec fn valid(self) -> bool {
        match self.index {
            Some(index) => index < self.len,
            None => self.len == 0,
        }
    }

    /// The first of `len` photographs.
    pub open spec fn first(len: usize) -> Selection {
        Selection {
            len,
            index: if len == 0 {
                None
            } else {
                Some(0)
            },
            direction: Direction::Forward,
        }
    }

    /// Another selection. One outside the list, or the same, changes nothing.
    pub open spec fn sought(self, index: int) -> Selection {
        if 0 <= index < self.len && self.index != Some(index as usize) {
            Selection {
                index: Some(index as usize),
                direction: if self.index is Some && index < self.index->0 {
                    Direction::Backward
                } else {
                    Direction::Forward
                },
                ..self
            }
        } else {
            self
        }
    }

    /// The selection `delta` photographs on, stopping at either end.
    pub open spec fn advanced(self, delta: int) -> Selection {
        match self.index {
            None => self,
            Some(index) => self.sought(
                if index + delta < 0 {
                    0
                } else if index + delta >= self.len {
                    self.len - 1
                } else {
                    index + delta
                },
            ),
        }
    }
}

/// The selection in an empty list.
impl Default for Navigator {
    fn default() -> (out: Self)
        ensures
            out@ == Selection::first(0),
            out@.valid(),
    {
        Navigator::new(0)
    }
}

/// The size of a step.
pub fn magnitude(delta: isize) -> (out: usize)
    ensures
        out == (if delta < 0 {
            -delta
        } else {
            delta as int
        }),
{
    if delta >= 0 {
        delta as usize
    } else {
        (-(delta + 1)) as usize + 1
    }
}

impl Navigator {
    #[verifier::type_invariant]
    spec fn inv(&self) -> bool {
        match self.index {
            Some(index) => index < self.len,
            None => self.len == 0,
        }
    }

    pub fn new(len: usize) -> (out: Self)
        ensures
            out@ == Selection::first(len),
            out@.valid(),
    {
        Navigator {
            len,
            index: if len != 0 {
                Some(0)
            } else {
                None
            },
            direction: Direction::Forward,
        }
    }

    pub fn index(&self) -> (out: Option<usize>)
        ensures
            out == self@.index,
            self@.valid(),
    {
        proof {
            use_type_invariant(self);
        }
        self.index
    }

    pub fn len(&self) -> (out: usize)
        ensures
            out == self@.len,
            self@.valid(),
    {
        proof {
            use_type_invariant(self);
        }
        self.len
    }

    pub fn is_empty(&self) -> (out: bool)
        ensures
            out == (self@.len == 0),
    {
        self.len == 0
    }

    pub fn direction(&self) -> (out: Direction)
        ensures
            out == self@.direction,
    {
        self.direction
    }

    /// Follows a list that changed its length.
    pub fn set_len(&mut self, len: usize)
        ensures
            final(self)@.valid(),
            final(self)@ == (Selection {
                len,
                index: if len == 0 {
                    None
                } else {
                    match old(self)@.index {
                        None => Some(0usize),
                        Some(index) => if index < len {
                            Some(index)
                        } else {
                            Some((len - 1) as usize)
                        },
                    }
                },
                ..old(self)@
            }),
    {
        let index: usize = match self.index {
            Some(index) => index,
            None => 0,
        };
        *self =
        Navigator {
            len,
            index: if len == 0 {
                None
            } else if index < len {
                Some(index)
            } else {
                Some(len - 1)
            },
            direction: self.direction,
        };
    }

    /// Selects a photograph. Says whether the selection changed.
    pub fn seek(&mut self, index: usize) -> (out: bool)
        ensures
            final(self)@ == old(self)@.sought(index as int),
            out == (index < old(self)@.len && old(self)@.index != Some(index)),
            final(self)@.valid(),
    {
        proof {
            use_type_invariant(&*self);
        }
        let same = match self.index {
            Some(current) => current == index,
            None => false,
        };
        if index >= self.len || same {
            return false;
        }
        let current: usize = match self.index {
            Some(current) => current,
            None => 0,
        };
        let direction = if index < current {
            Direction::Backward
        } else {
            Direction::Forward
        };
        *self = Navigator { len: self.len, index: Some(index), direction };
        true
    }

    /// Moves by `delta` photographs, stopping at either end. Says whether the
    /// selection changed.
    pub fn advance(&mut self, delta: isize) -> (out: bool)
        ensures
            final(self)@ == old(self)@.advanced(delta as int),
            out == (final(self)@.index != old(self)@.index),
            final(self)@.valid(),
    {
        proof {
            use_type_invariant(&*self);
        }
        let index: usize = match self.index {
            Some(index) => index,
            None => {
                return false;
            },
        };
        let step: usize = magnitude(delta);
        let target: usize = if delta >= 0 {
            if step > self.len - 1 - index {
                self.len - 1
            } else {
                index + step
            }
        } else if step > index {
            0
        } else {
            index - step
        };
        self.seek(target)
    }
}

/// Steps stop at the ends, so going on and back again by one step returns unless
/// the end stopped the first.
pub proof fn law_step_and_back(s: Selection)
    requires
        s.valid(),
        s.index is Some,
        s.index->0 + 1 < s.len,
    ensures
        s.advanced(1).advanced(-1).index == s.index,
{
}

/// Moving goes by so many photographs, and no further than the first or the last; it
/// is remembered in which direction it went.
pub proof fn law_moves_are_exact(s: Selection, delta: int)
    requires
        s.valid(),
        s.index is Some,
    ensures
        ({
            let i = s.index->0 as int;
            let out = s.advanced(delta);
            &&& out.valid()
            &&& out.len == s.len
            &&& 0 <= i + delta < s.len ==> out.index == Some((i + delta) as usize)
            &&& i + delta < 0 ==> out.index == Some(0usize)
            &&& i + delta >= s.len ==> out.index == Some((s.len - 1) as usize)
            &&& out.index->0 > i ==> out.direction == Direction::Forward
            &&& out.index->0 < i ==> out.direction == Direction::Backward
            &&& out.index->0 == i ==> out.direction == s.direction
        }),
{
}

/// A photograph of the list is selected when it is sought, and none outside it.
pub proof fn law_sought_photographs_are_selected(s: Selection, index: int)
    requires
        s.valid(),
        index >= 0,
    ensures
        index < s.len ==> s.sought(index).index == Some(index as usize),
        index >= s.len ==> s.sought(index) == s,
        s.sought(index).len == s.len,
{
}

} // verus!
