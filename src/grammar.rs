use vstd::prelude::*;

use crate::text::{chars_of, digit, is_digit, is_white_space, parse_number, parse_u64, slice_string, white_space};

verus! {

/// Why a piece of text could not be read as a region.
#[derive(PartialEq, Eq, Structural, Clone, Copy, Debug)]
pub enum RegionError {
    /// The text does not have the shape `<path>:<start>-<end>`.
    InvalidRange,
    /// The start coordinate is missing or is not an unsigned 64-bit number.
    InvalidStart,
    /// The end coordinate is missing or is not an unsigned 64-bit number.
    InvalidEnd,
    /// The path names no known reference sequence.
    UnknownReference,
}

/// Index of the last `:` among `s[0..i]`, or -1 when there is none.
pub open spec fn colon_before(s: Seq<char>, i: int) -> int
    decreases i,
{
    if i <= 0 {
        -1
    } else if s[i - 1] == ':' {
        i - 1
    } else {
        colon_before(s, i - 1)
    }
}

/// End of the run of ASCII decimal digits (`0` to `9`) that starts at `i`.
pub open spec fn digits_end(s: Seq<char>, i: int) -> int
    decreases s.len() - i,
{
    if 0 <= i < s.len() && is_digit(s[i]) {
        digits_end(s, i + 1)
    } else {
        i
    }
}

/// End of the run that starts at `i` of characters that are white space
/// (`space`) or are not (`!space`).
pub open spec fn run_end(s: Seq<char>, i: int, space: bool) -> int
    decreases s.len() - i,
{
    if 0 <= i < s.len() && is_white_space(s[i]) == space {
        run_end(s, i + 1, space)
    } else {
        i
    }
}

pub open spec fn newline_free(s: Seq<char>, k: int) -> bool {
    forall|j: int| 0 <= j < k ==> s[j] != '\n'
}

/// Where `s` matches `<path>:<digits>?-?<digits>?`, the path being a
/// non-empty line and the digits ASCII `0` to `9` only (a digit of another
/// script ends the match rather than counting as a digit): the position of the separating `:` (the last one), the end
/// of the first digit group and the start of the second, which runs to the end.
pub open spec fn coordinate_split(s: Seq<char>) -> Option<(int, int, int)> {
    let k = colon_before(s, s.len() as int);
    let n = digits_end(s, k + 1);
    let b = if n < s.len() && s[n] == '-' {
        n + 1
    } else {
        n
    };
    if k >= 1 && newline_free(s, k) && digits_end(s, b) == s.len() {
        Some((k, n, b))
    } else {
        None
    }
}

/// Bounds of the first three white-space separated fields of `s`, when it has
/// at least three.
pub open spec fn three_fields(s: Seq<char>) -> Option<(int, int, int, int, int, int)> {
    let a0 = run_end(s, 0, true);
    let a1 = run_end(s, a0, false);
    let b0 = run_end(s, a1, true);
    let b1 = run_end(s, b0, false);
    let c0 = run_end(s, b1, true);
    let c1 = run_end(s, c0, false);
    if c0 < s.len() {
        Some((a0, a1, b0, b1, c0, c1))
    } else {
        None
    }
}

/// `<path>:<digits>?-?<digits>?` read with optional bounds: a digit group that
/// is empty or does not fit in 64 bits gives no bound. Digits are ASCII `0`
/// to `9` only: text with a digit of another script in a coordinate does not
/// match and is an `InvalidRange`.
pub open spec fn optional_bounds_of(s: Seq<char>) -> Result<
    (Seq<char>, Option<u64>, Option<u64>),
    RegionError,
> {
    match coordinate_split(s) {
        None => Err(RegionError::InvalidRange),
        Some((k, n, b)) => Ok(
            (
                s.subrange(0, k),
                parse_u64(s.subrange(k + 1, n)),
                parse_u64(s.subrange(b, s.len() as int)),
            ),
        ),
    }
}

/// `<path>:<digits>-?<digits>` read with both bounds required, in the order
/// in which they are written. Digits are ASCII `0` to `9` only.
pub open spec fn bounds_of(s: Seq<char>) -> Result<(Seq<char>, u64, u64), RegionError> {
    match coordinate_split(s) {
        None => Err(RegionError::InvalidRange),
        Some((k, n, b)) => if n == k + 1 {
            Err(RegionError::InvalidRange)
        } else {
            match parse_u64(s.subrange(k + 1, n)) {
                None => Err(RegionError::InvalidStart),
                Some(first) => match parse_u64(s.subrange(b, s.len() as int)) {
                    None => Err(RegionError::InvalidEnd),
                    Some(second) => Ok((s.subrange(0, k), first, second)),
                },
            }
        },
    }
}

/// `<path> <start> <end>`, the first three white-space separated fields, when
/// `s` has at least three.
pub open spec fn fields_of(s: Seq<char>) -> Option<Result<(Seq<char>, u64, u64), RegionError>> {
    match three_fields(s) {
        None => None,
        Some((a0, a1, b0, b1, c0, c1)) => Some(
            match parse_u64(s.subrange(b0, b1)) {
                None => Err(RegionError::InvalidStart),
                Some(first) => match parse_u64(s.subrange(c0, c1)) {
                    None => Err(RegionError::InvalidEnd),
                    Some(second) => Ok((s.subrange(a0, a1), first, second)),
                },
            },
        ),
    }
}

/// The result of reading a region's text, compared with its model.
pub open spec fn read_as(
    r: Result<(String, u64, u64), RegionError>,
    m: Result<(Seq<char>, u64, u64), RegionError>,
) -> bool {
    match (r, m) {
        (Ok((p, a, b)), Ok((q, c, d))) => p@ == q && a == c && b == d,
        (Err(e), Err(f)) => e == f,
        _ => false,
    }
}

/// A run of characters that are not white space reaches the end.
pub proof fn lemma_word_to_end(s: Seq<char>, i: int)
    requires
        0 <= i <= s.len(),
        forall|j: int| i <= j < s.len() ==> !is_white_space(#[trigger] s[j]),
    ensures
        run_end(s, i, false) == s.len(),
    decreases s.len() - i,
{
    if i < s.len() {
        lemma_word_to_end(s, i + 1);
    }
}

/// The last `:` before `i` is at `k` when none lies between.
pub proof fn lemma_last_colon(s: Seq<char>, i: int, k: int)
    requires
        0 <= k < i <= s.len(),
        s[k] == ':',
        forall|j: int| k < j < i ==> #[trigger] s[j] != ':',
    ensures
        colon_before(s, i) == k,
    decreases i,
{
    if i - 1 > k {
        lemma_last_colon(s, i - 1, k);
    }
}

/// A run of digits from `i` stops at `e`.
pub proof fn lemma_digits_to(s: Seq<char>, i: int, e: int)
    requires
        0 <= i <= e <= s.len(),
        forall|j: int| i <= j < e ==> is_digit(#[trigger] s[j]),
        e == s.len() || !is_digit(s[e]),
    ensures
        digits_end(s, i) == e,
    decreases e - i,
{
    if i < e {
        lemma_digits_to(s, i + 1, e);
    }
}

fn last_colon(s: &Vec<char>) -> (r: Option<usize>)
    ensures
        match r {
            Some(k) => colon_before(s@, s@.len() as int) == k && k < s@.len(),
            None => colon_before(s@, s@.len() as int) == -1,
        },
{
    let mut i: usize = s.len();
    while i > 0
        invariant
            i <= s@.len(),
            colon_before(s@, s@.len() as int) == colon_before(s@, i as int),
        decreases i,
    {
        if s[i - 1] == ':' {
            return Some(i - 1);
        }
        i = i - 1;
    }
    None
}

fn scan_digits(s: &Vec<char>, i: usize) -> (r: usize)
    requires
        i <= s@.len(),
    ensures
        r == digits_end(s@, i as int),
        i <= r <= s@.len(),
{
    let mut j = i;
    while j < s.len() && digit(s[j])
        invariant
            i <= j <= s@.len(),
            digits_end(s@, i as int) == digits_end(s@, j as int),
        decreases s@.len() - j,
    {
        j = j + 1;
    }
    j
}

fn scan_run(s: &Vec<char>, i: usize, space: bool) -> (r: usize)
    requires
        i <= s@.len(),
    ensures
        r == run_end(s@, i as int, space),
        i <= r <= s@.len(),
{
    let mut j = i;
    while j < s.len() && white_space(s[j]) == space
        invariant
            i <= j <= s@.len(),
            run_end(s@, i as int, space) == run_end(s@, j as int, space),
        decreases s@.len() - j,
    {
        j = j + 1;
    }
    j
}

fn no_newline(s: &Vec<char>, k: usize) -> (r: bool)
    requires
        k <= s@.len(),
    ensures
        r == newline_free(s@, k as int),
{
    let mut j: usize = 0;
    while j < k
        invariant
            j <= k <= s@.len(),
            newline_free(s@, j as int),
        decreases k - j,
    {
        if s[j] == '\n' {
            return false;
        }
        j = j + 1;
    }
    true
}

/// Finds the parts of `<path>:<digits>?-?<digits>?` in `s`.
pub fn find_coordinates(s: &Vec<char>) -> (r: Option<(usize, usize, usize)>)
    ensures
        match coordinate_split(s@) {
            Some((k, n, b)) => r == Some((k as usize, n as usize, b as usize)) && 1 <= k < n
                <= b <= s@.len(),
            None => r is None,
        },
{
    let k = match last_colon(s) {
        Some(k) => k,
        None => {
            return None;
        },
    };
    let len = s.len();
    if k < 1 || !no_newline(s, k) {
        return None;
    }
    let n = scan_digits(s, k + 1);
    let b = if n < s.len() && s[n] == '-' {
        n + 1
    } else {
        n
    };
    if scan_digits(s, b) == s.len() {
        Some((k, n, b))
    } else {
        None
    }
}

/// Reads `<path>:<digits>?-?<digits>?`, keeping a bound only where its digits
/// are present and fit in 64 bits.
pub fn parse_optional_bounds(text: &str) -> (r: Result<(String, Option<u64>, Option<u64>), RegionError>)
    ensures
        match (r, optional_bounds_of(text@)) {
            (Ok((p, a, b)), Ok((q, c, d))) => p@ == q && a == c && b == d,
            (Err(e), Err(f)) => e == f,
            _ => false,
        },
{
    let s = chars_of(text);
    match find_coordinates(&s) {
        None => Err(RegionError::InvalidRange),
        Some((k, n, b)) => {
            let start = parse_number(&s, k + 1, n);
            let end = parse_number(&s, b, s.len());
            Ok((slice_string(text, 0, k), start, end))
        },
    }
}

/// Reads `<path>:<digits>-?<digits>`, both bounds required.
pub fn parse_bounds(text: &str) -> (r: Result<(String, u64, u64), RegionError>)
    ensures
        read_as(r, bounds_of(text@)),
{
    let s = chars_of(text);
    match find_coordinates(&s) {
        None => Err(RegionError::InvalidRange),
        Some((k, n, b)) => {
            if n == k + 1 {
                return Err(RegionError::InvalidRange);
            }
            let first = match parse_number(&s, k + 1, n) {
                Some(v) => v,
                None => {
                    return Err(RegionError::InvalidStart);
                },
            };
            let second = match parse_number(&s, b, s.len()) {
                Some(v) => v,
                None => {
                    return Err(RegionError::InvalidEnd);
                },
            };
            Ok((slice_string(text, 0, k), first, second))
        },
    }
}

/// Reads `<path> <start> <end>` from the first three white-space separated
/// fields; `None` when `text` has fewer than three.
pub fn parse_fields(text: &str) -> (r: Option<Result<(String, u64, u64), RegionError>>)
    ensures
        match (r, fields_of(text@)) {
            (Some(x), Some(y)) => read_as(x, y),
            (None, None) => true,
            _ => false,
        },
{
    let s = chars_of(text);
    let a0 = scan_run(&s, 0, true);
    let a1 = scan_run(&s, a0, false);
    let b0 = scan_run(&s, a1, true);
    let b1 = scan_run(&s, b0, false);
    let c0 = scan_run(&s, b1, true);
    let c1 = scan_run(&s, c0, false);
    if c0 >= s.len() {
        return None;
    }
    let first = match parse_number(&s, b0, b1) {
        Some(v) => v,
        None => {
            return Some(Err(RegionError::InvalidStart));
        },
    };
    let second = match parse_number(&s, c0, c1) {
        Some(v) => v,
        None => {
            return Some(Err(RegionError::InvalidEnd));
        },
    };
    Some(Ok((slice_string(text, a0, a1), first, second)))
}

} // verus!
