use vstd::prelude::*;

verus! {

/// One end of a range of indices.
#[derive(Clone, Copy, Debug, PartialEq, Eq, Structural)]
pub enum Bound {
    Included(usize),
    Excluded(usize),
    Unbounded,
}

/// A range of indices, given by its two ends.
#[derive(Clone, Copy, Debug, PartialEq, Eq, Structural)]
pub struct Bounds {
    pub start: Bound,
    pub end: Bound,
}

/// The first index of a range that starts at `start`.
pub open spec fn start_of(start: Bound) -> int {
    match start {
        Bound::Included(n) => n as int,
        Bound::Excluded(n) => n + 1,
        Bound::Unbounded => 0,
    }
}

/// The index behind the last one of a range that ends at `end`, in a list of
/// `len` items.
pub open spec fn end_of(end: Bound, len: int) -> int {
    match end {
        Bound::Included(n) => n + 1,
        Bound::Excluded(n) => n as int,
        Bound::Unbounded => len,
    }
}

/// Whether the range lies in a list of `len` items.
pub open spec fn in_range(bounds: Bounds, len: int) -> bool {
    start_of(bounds.start) <= end_of(bounds.end, len) <= len
}

impl Bounds {
    /// The range `start..`.
    pub fn from(start: usize) -> (out: Bounds)
        ensures
            out == (Bounds { start: Bound::Included(start), end: Bound::Unbounded }),
    {
        Bounds { start: Bound::Included(start), end: Bound::Unbounded }
    }

    /// The range `..end`.
    pub fn to(end: usize) -> (out: Bounds)
        ensures
            out == (Bounds { start: Bound::Unbounded, end: Bound::Excluded(end) }),
    {
        Bounds { start: Bound::Unbounded, end: Bound::Excluded(end) }
    }
}

/// The indices `start..end` that `bounds` selects in a list of `len` items,
/// `None` where the range does not lie in the list.
pub fn range(len: usize, bounds: &Bounds) -> (out: Option<(usize, usize)>)
    ensures
        in_range(*bounds, len as int) <==> out is Some,
        out matches Some((start, end)) ==> start == start_of(bounds.start) && end == end_of(
            bounds.end,
            len as int,
        ),
{
    let start: usize = match bounds.start {
        Bound::Included(n) => n,
        Bound::Excluded(n) => {
            if n == usize::MAX {
                return None;
            }
            n + 1
        },
        Bound::Unbounded => 0,
    };
    let end: usize = match bounds.end {
        Bound::Included(n) => {
            if n == usize::MAX {
                return None;
            }
            n + 1
        },
        Bound::Excluded(n) => n,
        Bound::Unbounded => len,
    };
    if start <= end && end <= len {
        Some((start, end))
    } else {
        None
    }
}

} // verus!
