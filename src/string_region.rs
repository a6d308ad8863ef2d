use vstd::prelude::*;
use vstd::string::*;

use crate::grammar::{
    bounds_of, fields_of, lemma_digits_to, lemma_last_colon, lemma_word_to_end, parse_bounds,
    parse_fields, RegionError,
};
use crate::text::{
    decimal, is_white_space, lemma_decimal, normalize_path, normalized_path, push_decimal,
};

verus! {

/// A path with two coordinates, kept in non-decreasing order, remembering
/// whether the text gave them the other way round.
#[derive(Debug, PartialEq, Clone)]
pub struct StringRegion {
    pub path: String,
    pub start: u64,
    pub end: u64,
    inverted: bool,
}

/// The text `<path>:<first>-<second>`.
pub open spec fn region_text(path: Seq<char>, first: u64, second: u64) -> Seq<char> {
    path + seq![':'] + decimal(first as nat) + seq!['-'] + decimal(second as nat)
}

/// How the text of a region reads, as `StringRegion::new` sees it: the
/// white-space form `<path> <start> <end>` when there are at least three
/// fields, and `<path>:<start>-<end>` otherwise.
pub open spec fn string_region_of(s: Seq<char>) -> Result<(Seq<char>, u64, u64), RegionError> {
    match fields_of(s) {
        Some(x) => x,
        None => bounds_of(s),
    }
}

/// How the text of a region reads with the path's prefix normalized.
pub open spec fn prefixed_region_of(s: Seq<char>, prefix: Seq<char>) -> Result<
    (Seq<char>, u64, u64),
    RegionError,
> {
    match bounds_of(s) {
        Ok((p, a, b)) => Ok((normalized_path(p, prefix), a, b)),
        Err(e) => Err(e),
    }
}

/// `r` is the region that the reading `m` describes, or the same error.
pub open spec fn built_from(
    r: Result<StringRegion, RegionError>,
    m: Result<(Seq<char>, u64, u64), RegionError>,
) -> bool {
    match (r, m) {
        (Ok(reg), Ok((p, a, b))) => reg@.written_as(p, a, b),
        (Err(e), Err(f)) => e == f,
        _ => false,
    }
}

/// What a `StringRegion` holds, as mathematical values.
pub struct StringRegionView {
    pub path: Seq<char>,
    pub start: u64,
    pub end: u64,
    pub inverted: bool,
}

impl StringRegionView {
    /// The coordinates are in non-decreasing order.
    pub open spec fn wf(&self) -> bool {
        self.start <= self.end
    }

    /// The coordinate that the text gave first.
    pub open spec fn left(&self) -> u64 {
        if self.inverted {
            self.end
        } else {
            self.start
        }
    }

    /// The coordinate that the text gave second.
    pub open spec fn right(&self) -> u64 {
        if self.inverted {
            self.start
        } else {
            self.end
        }
    }

    /// This is the region of `path` whose coordinates were written in the
    /// order `first`, `second`.
    pub open spec fn written_as(&self, path: Seq<char>, first: u64, second: u64) -> bool {
        &&& self.path == path
        &&& if first > second {
            self.start == second && self.end == first && self.inverted
        } else {
            self.start == first && self.end == second && !self.inverted
        }
    }

    /// The text of the region, coordinates in the order they were given.
    pub open spec fn text(&self) -> Seq<char> {
        region_text(self.path, self.left(), self.right())
    }
}

impl View for StringRegion {
    type V = StringRegionView;

    closed spec fn view(&self) -> StringRegionView {
        StringRegionView {
            path: self.path@,
            start: self.start,
            end: self.end,
            inverted: self.inverted,
        }
    }
}

/// A path that can stand in a region's text: not empty, and free of white space.
pub open spec fn plain_path(path: Seq<char>) -> bool {
    path.len() > 0 && forall|i: int| 0 <= i < path.len() ==> !is_white_space(#[trigger] path[i])
}

proof fn lemma_read_region_text(path: Seq<char>, first: u64, second: u64)
    requires
        plain_path(path),
    ensures
        string_region_of(region_text(path, first, second)) == Ok::<_, RegionError>(
            (path, first, second),
        ),
{
    let da = decimal(first as nat);
    let db = decimal(second as nat);
    lemma_decimal(first as nat);
    lemma_decimal(second as nat);
    let t = region_text(path, first, second);
    let k = path.len() as int;
    let n = k + 1 + da.len();
    let b = n + 1;
    assert(t.len() == b + db.len());
    assert(t.subrange(0, k) =~= path);
    assert(t.subrange(k + 1, n) =~= da);
    assert(t.subrange(b, t.len() as int) =~= db);
    assert(t[k] == ':');
    assert(t[n] == '-');
    assert forall|j: int| k < j < t.len() implies #[trigger] t[j] != ':' && !is_white_space(t[j])
        && (j == n || crate::text::is_digit(t[j])) by {
        if j < n {
            assert(t[j] == da[j - k - 1]);
        } else if j > n {
            assert(t[j] == db[j - b]);
        }
    }
    assert forall|j: int| 0 <= j < t.len() implies !is_white_space(#[trigger] t[j]) by {
        if j < k {
            assert(t[j] == path[j]);
        }
    }
    assert(crate::grammar::newline_free(t, k)) by {
        assert forall|j: int| 0 <= j < k implies t[j] != '\n' by {
            assert(t[j] == path[j]);
        }
    }
    lemma_word_to_end(t, 0);
    lemma_last_colon(t, t.len() as int, k);
    lemma_digits_to(t, k + 1, n);
    lemma_digits_to(t, b, t.len() as int);
}

/// Text `<path>:<first>-<second>` with `first <= second` reads as the region
/// of `path` from `first` to `second`, not inverted, whose text is the input.
pub proof fn lemma_ordered_text_round_trip(path: Seq<char>, first: u64, second: u64)
    requires
        plain_path(path),
        first <= second,
    ensures
        string_region_of(region_text(path, first, second)) == Ok::<_, RegionError>(
            (path, first, second),
        ),
        forall|v: StringRegionView| #[trigger]
            v.written_as(path, first, second) ==> v.start == first && v.end == second
                && !v.inverted && v.text() == region_text(path, first, second),
{
    lemma_read_region_text(path, first, second);
}

/// Text `<path>:<first>-<second>` with `first > second` reads as the region
/// of `path` from `second` to `first`, inverted, whose left and right bounds
/// are `first` and `second` and whose text is the input.
pub proof fn lemma_inverted_text_round_trip(path: Seq<char>, first: u64, second: u64)
    requires
        plain_path(path),
        first > second,
    ensures
        string_region_of(region_text(path, first, second)) == Ok::<_, RegionError>(
            (path, first, second),
        ),
        forall|v: StringRegionView| #[trigger]
            v.written_as(path, first, second) ==> v.start == second && v.end == first
                && v.inverted && v.left() == first && v.right() == second && v.text()
                == region_text(path, first, second),
{
    lemma_read_region_text(path, first, second);
}

/// Every region read from text has `start <= end`, so its interval
/// `end - start` is never negative.
pub proof fn lemma_interval_nonnegative(s: Seq<char>, v: StringRegionView)
    requires
        string_region_of(s) is Ok,
        v.written_as(string_region_of(s)->Ok_0.0, string_region_of(s)->Ok_0.1, string_region_of(s)->Ok_0.2),
    ensures
        v.wf(),
        v.end - v.start >= 0,
{
}

impl StringRegion {
    pub fn interval(&self) -> (r: u64)
        requires
            self@.wf(),
        ensures
            r == self@.end - self@.start,
    {
        self.end - self.start
    }

    pub fn inverted(&self) -> (r: bool)
        ensures
            r == self@.inverted,
    {
        self.inverted
    }

    pub fn path(&self) -> (r: &String)
        ensures
            r@ == self@.path,
    {
        &self.path
    }

    pub fn start(&self) -> (r: u64)
        ensures
            r == self@.start,
    {
        self.start
    }

    pub fn left(&self) -> (r: u64)
        ensures
            r == self@.left(),
    {
        if self.inverted {
            self.end
        } else {
            self.start
        }
    }

    pub fn right(&self) -> (r: u64)
        ensures
            r == self@.right(),
    {
        if self.inverted {
            self.start
        } else {
            self.end
        }
    }

    pub fn end(&self) -> (r: u64)
        ensures
            r == self@.end,
    {
        self.end
    }

    /// Widens the region by `len` on both sides; the start stops at zero.
    pub fn extend(&mut self, len: u64)
        requires
            old(self)@.end + len <= u64::MAX,
        ensures
            final(self)@.start == (if old(self)@.start >= len {
                old(self)@.start - len
            } else {
                0
            }),
            final(self)@.end == old(self)@.end + len,
            final(self)@.path == old(self)@.path,
            final(self)@.inverted == old(self)@.inverted,
    {
        self.start = self.start.saturating_sub(len);
        self.end = self.end + len;
    }

    /// Moves the start one to the left, as when a 1-based inclusive start
    /// becomes a 0-based one.
    pub fn start_minus(&mut self)
        requires
            old(self)@.start >= 1,
        ensures
            final(self)@.start == old(self)@.start - 1,
            final(self)@.end == old(self)@.end,
            final(self)@.path == old(self)@.path,
            final(self)@.inverted == old(self)@.inverted,
    {
        self.start = self.start - 1;
    }

    /// Reads `<path>:<start>-<end>` and normalizes the path's prefix.
    pub fn new_with_prefix(path: String, chr_prefix: &str) -> (r: Result<Self, RegionError>)
        ensures
            built_from(r, prefixed_region_of(path@, chr_prefix@)),
            r is Ok ==> r->Ok_0@.wf(),
    {
        match parse_bounds(path.as_str()) {
            Ok((name, first, second)) => {
                let name = normalize_path(name.as_str(), chr_prefix);
                Ok(StringRegion::new_inner(name, first, second))
            },
            Err(e) => Err(e),
        }
    }

    fn new_colon_form(path: &str) -> (r: Result<Self, RegionError>)
        ensures
            built_from(r, bounds_of(path@)),
            r is Ok ==> r->Ok_0@.wf(),
    {
        match parse_bounds(path) {
            Ok((name, first, second)) => Ok(StringRegion::new_inner(name, first, second)),
            Err(e) => Err(e),
        }
    }

    /// Reads `<path> <start> <end>` or `<path>:<start>-<end>`.
    pub fn new(path: &str) -> (r: Result<Self, RegionError>)
        ensures
            built_from(r, string_region_of(path@)),
            r is Ok ==> r->Ok_0@.wf(),
    {
        match parse_fields(path) {
            None => StringRegion::new_colon_form(path),
            Some(Ok((name, first, second))) => Ok(StringRegion::new_inner(name, first, second)),
            Some(Err(e)) => Err(e),
        }
    }

    /// The region of `path` whose coordinates were written in the order
    /// `start_u64`, `end_u64`.
    pub fn new_inner(path: String, start_u64: u64, end_u64: u64) -> (r: Self)
        ensures
            r@.written_as(path@, start_u64, end_u64),
            r@.wf(),
    {
        if start_u64 > end_u64 {
            StringRegion { path, start: end_u64, end: start_u64, inverted: true }
        } else {
            StringRegion { path, start: start_u64, end: end_u64, inverted: false }
        }
    }

    /// The text `<path>:<left>-<right>`, in the order the coordinates were given.
    pub fn uuid(&self) -> (r: String)
        ensures
            r@ == self@.text(),
    {
        let mut r = self.path.clone();
        proof {
            reveal_strlit(":");
            reveal_strlit("-");
        }
        r.append(":");
        push_decimal(&mut r, self.left());
        r.append("-");
        push_decimal(&mut r, self.right());
        r
    }
}

} // verus!
