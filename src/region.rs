use vstd::prelude::*;
use vstd::string::*;

use crate::grammar::{bounds_of, parse_bounds, RegionError};
use crate::string_region::StringRegion;

verus! {

/// A half-open interval `[start, end)` on the reference sequence `ref_id`.
#[derive(Clone, PartialEq, Debug)]
pub struct Region {
    ref_id: u64,
    start: u64,
    end: u64,
}

/// What a `Region` holds.
pub struct RegionView {
    pub ref_id: u64,
    pub start: u64,
    pub end: u64,
}

impl RegionView {
    /// The start does not exceed the end.
    pub open spec fn wf(&self) -> bool {
        self.start <= self.end
    }

    /// The position `pos` of reference `ref_id` lies in the interval.
    pub open spec fn holds(&self, ref_id: u64, pos: u64) -> bool {
        self.ref_id == ref_id && self.start <= pos && pos < self.end
    }

    /// `other` lies within this interval on the same reference, ending
    /// strictly before this one ends.
    pub open spec fn surrounds(&self, other: RegionView) -> bool {
        self.ref_id == other.ref_id && self.start <= other.start && other.end < self.end
    }
}

impl View for Region {
    type V = RegionView;

    closed spec fn view(&self) -> RegionView {
        RegionView { ref_id: self.ref_id, start: self.start, end: self.end }
    }
}

/// `to_id` may map the name `name` to `id`.
pub open spec fn may_resolve<F: Fn(&str) -> Option<u64>>(
    to_id: F,
    name: Seq<char>,
    id: Option<u64>,
) -> bool {
    exists|s: &str| s@ == name && #[trigger] to_id.ensures((s,), id)
}

fn resolve<F: Fn(&str) -> Option<u64>>(name: &String, to_id: F) -> (r: Option<u64>)
    requires
        forall|s: &str| to_id.requires((s,)),
    ensures
        may_resolve(to_id, name@, r),
{
    let s = name.as_str();
    let r = to_id(s);
    assert(to_id.ensures((s,), r));
    r
}

impl Region {
    /// Creates a region; `ref_id` is 0-based and `[start, end)` is a 0-based
    /// half-open interval.
    pub fn new(ref_id: u64, start: u64, end: u64) -> (r: Region)
        requires
            start <= end,
        ensures
            r@ == (RegionView { ref_id, start, end }),
    {
        Region { ref_id, start, end }
    }

    /// The region of `path`'s coordinates on the reference that `to_id`
    /// gives for its path.
    pub fn convert<F: Fn(&str) -> Option<u64>>(path: &StringRegion, to_id: F) -> (r: Result<
        Self,
        RegionError,
    >)
        requires
            path@.wf(),
            forall|s: &str| to_id.requires((s,)),
        ensures
            match r {
                Ok(reg) => may_resolve(to_id, path@.path, Some(reg@.ref_id)) && reg@.start
                    == path@.start && reg@.end == path@.end,
                Err(e) => e == RegionError::UnknownReference && may_resolve(
                    to_id,
                    path@.path,
                    None,
                ),
            },
    {
        match resolve(path.path(), to_id) {
            Some(ref_id) => Ok(Region { ref_id, start: path.start(), end: path.end() }),
            None => Err(RegionError::UnknownReference),
        }
    }

    /// Reads `<path>:<start>-<end>` and looks the path up with `to_id`; the
    /// coordinates are put in non-decreasing order.
    pub fn parse<F: Fn(&str) -> Option<u64>>(path: &str, to_id: F) -> (r: Result<
        Self,
        RegionError,
    >)
        requires
            forall|s: &str| to_id.requires((s,)),
        ensures
            match bounds_of(path@) {
                Err(e) => r == Err::<Self, RegionError>(e),
                Ok((name, a, b)) => match r {
                    Ok(reg) => may_resolve(to_id, name, Some(reg@.ref_id)) && reg@.start == (
                    if a <= b {
                        a
                    } else {
                        b
                    }) && reg@.end == (if a <= b {
                        b
                    } else {
                        a
                    }),
                    Err(e) => e == RegionError::UnknownReference && may_resolve(to_id, name, None),
                },
            },
    {
        match parse_bounds(path) {
            Err(e) => Err(e),
            Ok((name, a, b)) => match resolve(&name, to_id) {
                None => Err(RegionError::UnknownReference),
                Some(ref_id) => {
                    if a <= b {
                        Ok(Region { ref_id, start: a, end: b })
                    } else {
                        Ok(Region { ref_id, start: b, end: a })
                    }
                },
            },
        }
    }

    pub fn ref_id(&self) -> (r: u64)
        ensures
            r == self@.ref_id,
    {
        self.ref_id
    }

    pub fn start(&self) -> (r: u64)
        ensures
            r == self@.start,
    {
        self.start
    }

    pub fn end(&self) -> (r: u64)
        ensures
            r == self@.end,
    {
        self.end
    }

    /// The number of positions in the interval.
    pub fn len(&self) -> (r: u64)
        requires
            self@.wf(),
        ensures
            r == self@.end - self@.start,
    {
        self.end - self.start
    }

    pub fn set_ref_id(&mut self, ref_id: u64)
        ensures
            final(self)@ == (RegionView { ref_id, ..old(self)@ }),
    {
        self.ref_id = ref_id;
    }

    pub fn set_start(&mut self, start: u64)
        requires
            start <= old(self)@.end,
        ensures
            final(self)@ == (RegionView { start, ..old(self)@ }),
    {
        self.start = start;
    }

    pub fn set_end(&mut self, end: u64)
        requires
            old(self)@.start <= end,
        ensures
            final(self)@ == (RegionView { end, ..old(self)@ }),
    {
        self.end = end;
    }

    /// Position `pos` of reference `ref_id` lies in `[start, end)`.
    pub fn contains(&self, ref_id: u64, pos: u64) -> (r: bool)
        ensures
            r == self@.holds(ref_id, pos),
    {
        self.ref_id == ref_id && self.start <= pos && pos < self.end
    }

    /// `range` lies within this region, ending strictly before it ends.
    pub fn includes(&self, range: &Region) -> (r: bool)
        ensures
            r == self@.surrounds(range@),
    {
        self.ref_id == range.ref_id && self.start <= range.start && range.end < self.end
    }
}

} // verus!
