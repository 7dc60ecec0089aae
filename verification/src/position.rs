//! Half-open spans of source text, attached to every token, statement and
//! diagnostic so that callers can point at the offending characters.

use vstd::prelude::*;

verus! {

/// A half-open range `[start, end)` of character indices into the source.
#[derive(Clone, Copy, Debug, PartialEq, Eq, Structural)]
pub struct Position {
    /// The starting index of the position. This is inclusive.
    pub start: u32,

    /// The ending index of the position. This is exclusive.
    pub end: u32,
}

/// A position is well formed when it does not describe a negative-length
/// range.
pub open spec fn pos_wf(p: Position) -> bool {
    p.start <= p.end
}

/// The smallest span containing both `a` and `b`.
pub open spec fn spec_join(a: Position, b: Position) -> Position {
    Position {
        start: if a.start <= b.start {
            a.start
        } else {
            b.start
        },
        end: if a.end >= b.end {
            a.end
        } else {
            b.end
        },
    }
}

impl Position {
    /// Creates a new position from a start and end index.
    pub fn new(start: usize, end: usize) -> (r: Position)
        requires
            start <= end <= u32::MAX,
        ensures
            r.start == start,
            r.end == end,
            pos_wf(r),
    {
        Position { start: start as u32, end: end as u32 }
    }

    /// Returns the starting index of the position.
    pub fn starting_char(&self) -> (r: usize)
        ensures
            r == self.start,
    {
        self.start as usize
    }

    /// Returns the ending index of the position. Note that the end is
    /// exclusive, so this is the index of the last character in the range.
    pub fn ending_char(&self) -> (r: usize)
        requires
            self.end >= 1,
        ensures
            r == self.end - 1,
    {
        (self.end - 1) as usize
    }

    /// Joins two positions into the smallest span containing both.
    pub fn join(&self, other: &Position) -> (r: Position)
        ensures
            r == spec_join(*self, *other),
    {
        Position {
            start: if self.start <= other.start {
                self.start
            } else {
                other.start
            },
            end: if self.end >= other.end {
                self.end
            } else {
                other.end
            },
        }
    }

    /// Returns the length of the position.
    pub fn len(&self) -> (r: usize)
        requires
            pos_wf(*self),
        ensures
            r == self.end - self.start,
    {
        (self.end - self.start) as usize
    }
}

/// Joining preserves well-formedness and yields a span that covers both
/// arguments.
pub proof fn lemma_join_covers(a: Position, b: Position)
    requires
        pos_wf(a),
        pos_wf(b),
    ensures
        pos_wf(spec_join(a, b)),
        spec_join(a, b).start <= a.start,
        spec_join(a, b).start <= b.start,
        spec_join(a, b).end >= a.end,
        spec_join(a, b).end >= b.end,
{
}

} // verus!
