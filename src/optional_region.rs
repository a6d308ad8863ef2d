use vstd::prelude::*;
use vstd::string::*;

use crate::grammar::{optional_bounds_of, parse_optional_bounds, RegionError};
use crate::text::{decimal, normalize_path, normalized_path, push_decimal};

verus! {

/// A path with a start and an end that may each be missing.
#[derive(Debug, PartialEq, Clone)]
pub struct OptionalRegion {
    pub path: String,
    pub start: Option<u64>,
    pub end: Option<u64>,
}

/// The text of a region with optional bounds: `path`, `path:start` or
/// `path:start-end`, whichever is the most specific that the bounds allow.
pub open spec fn optional_text(path: Seq<char>, start: Option<u64>, end: Option<u64>) -> Seq<char> {
    match start {
        None => path,
        Some(a) => match end {
            None => path + seq![':'] + decimal(a as nat),
            Some(b) => path + seq![':'] + decimal(a as nat) + seq!['-'] + decimal(b as nat),
        },
    }
}

/// `r` holds the path and bounds that the reading `m` gives, or the same error.
pub open spec fn optional_built_from(
    r: Result<OptionalRegion, RegionError>,
    m: Result<(Seq<char>, Option<u64>, Option<u64>), RegionError>,
) -> bool {
    match (r, m) {
        (Ok(reg), Ok((p, a, b))) => reg.path@ == p && reg.start == a && reg.end == b,
        (Err(e), Err(f)) => e == f,
        _ => false,
    }
}

/// The reading of `s` with the path's prefix normalized.
pub open spec fn optional_prefixed_of(s: Seq<char>, prefix: Seq<char>) -> Result<
    (Seq<char>, Option<u64>, Option<u64>),
    RegionError,
> {
    match optional_bounds_of(s) {
        Ok((p, a, b)) => Ok((normalized_path(p, prefix), a, b)),
        Err(e) => Err(e),
    }
}

impl OptionalRegion {
    /// The distance between the two bounds, when both are present.
    pub fn interval(&self) -> (r: Option<u64>)
        ensures
            r == (match (self.start, self.end) {
                (Some(a), Some(b)) => Some(
                    if a < b {
                        (b - a) as u64
                    } else {
                        (a - b) as u64
                    },
                ),
                _ => None,
            }),
    {
        if let Some(start) = self.start {
            if let Some(end) = self.end {
                if start < end {
                    return Some(end - start);
                } else {
                    return Some(start - end);
                }
            }
        }
        None
    }

    /// Whether the start lies after the end, when both are present.
    pub fn inverted(&self) -> (r: Option<bool>)
        ensures
            r == (match (self.start, self.end) {
                (Some(a), Some(b)) => Some(a > b),
                _ => None,
            }),
    {
        if let Some(start) = self.start {
            if let Some(end) = self.end {
                return Some(start > end);
            }
        }
        None
    }

    /// Reads `<path>:<start>?-?<end>?` and normalizes the path's prefix.
    pub fn new_with_prefix(path: String, chr_prefix: &str) -> (r: Result<Self, RegionError>)
        ensures
            optional_built_from(r, optional_prefixed_of(path@, chr_prefix@)),
    {
        match parse_optional_bounds(path.as_str()) {
            Ok((name, start, end)) => {
                let name = normalize_path(name.as_str(), chr_prefix);
                Ok(OptionalRegion { path: name, start, end })
            },
            Err(e) => Err(e),
        }
    }

    /// Reads `<path>:<start>?-?<end>?`.
    pub fn new(path: &str) -> (r: Result<Self, RegionError>)
        ensures
            optional_built_from(r, optional_bounds_of(path@)),
    {
        match parse_optional_bounds(path) {
            Ok((name, start, end)) => Ok(OptionalRegion { path: name, start, end }),
            Err(e) => Err(e),
        }
    }

    /// The text of the region.
    pub fn uuid(&self) -> (r: String)
        ensures
            r@ == optional_text(self.path@, self.start, self.end),
    {
        let mut r = self.path.clone();
        proof {
            reveal_strlit(":");
            reveal_strlit("-");
        }
        if let Some(start) = self.start {
            r.append(":");
            push_decimal(&mut r, start);
            if let Some(end) = self.end {
                r.append("-");
                push_decimal(&mut r, end);
            }
        }
        r
    }
}

} // verus!
