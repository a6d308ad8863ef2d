use vstd::prelude::*;
use vstd::string::*;

verus! {

/// An ASCII decimal digit; digits of other scripts are not counted.
pub open spec fn is_digit(c: char) -> bool {
    '0' <= c && c <= '9'
}

pub open spec fn all_digits(s: Seq<char>) -> bool {
    forall|i: int| 0 <= i < s.len() ==> is_digit(#[trigger] s[i])
}

pub open spec fn digit_value(c: char) -> nat {
    ((c as u32) - ('0' as u32)) as nat
}

/// The number written by a run of decimal digits (most significant first).
pub open spec fn digits_value(s: Seq<char>) -> nat
    decreases s.len(),
{
    if s.len() == 0 {
        0
    } else {
        digits_value(s.drop_last()) * 10 + digit_value(s.last())
    }
}

/// What `str::parse::<u64>` accepts: an optional `+`, then one or more
/// decimal digits whose value fits in 64 bits.
pub open spec fn parse_u64(t: Seq<char>) -> Option<u64> {
    let d = if t.len() > 0 && t[0] == '+' {
        t.drop_first()
    } else {
        t
    };
    if d.len() > 0 && all_digits(d) && digits_value(d) <= u64::MAX {
        Some(digits_value(d) as u64)
    } else {
        None
    }
}

pub open spec fn digit_char(d: nat) -> char {
    if d == 0 {
        '0'
    } else if d == 1 {
        '1'
    } else if d == 2 {
        '2'
    } else if d == 3 {
        '3'
    } else if d == 4 {
        '4'
    } else if d == 5 {
        '5'
    } else if d == 6 {
        '6'
    } else if d == 7 {
        '7'
    } else if d == 8 {
        '8'
    } else {
        '9'
    }
}

/// The shortest decimal rendering of `n`.
pub open spec fn decimal(n: nat) -> Seq<char>
    decreases n,
{
    if n < 10 {
        seq![digit_char(n)]
    } else {
        decimal(n / 10).push(digit_char(n % 10))
    }
}

/// The characters that Unicode gives the `White_Space` property.
pub open spec fn is_white_space(c: char) -> bool {
    ('\t' <= c && c <= '\r') || c == ' ' || c == '\u{85}' || c == '\u{a0}' || c == '\u{1680}'
        || ('\u{2000}' <= c && c <= '\u{200a}') || c == '\u{2028}' || c == '\u{2029}'
        || c == '\u{202f}' || c == '\u{205f}' || c == '\u{3000}'
}

pub fn white_space(c: char) -> (r: bool)
    ensures
        r == is_white_space(c),
{
    ('\t' <= c && c <= '\r') || c == ' ' || c == '\u{85}' || c == '\u{a0}' || c == '\u{1680}'
        || ('\u{2000}' <= c && c <= '\u{200a}') || c == '\u{2028}' || c == '\u{2029}'
        || c == '\u{202f}' || c == '\u{205f}' || c == '\u{3000}'
}

pub fn digit(c: char) -> (r: bool)
    ensures
        r == is_digit(c),
{
    '0' <= c && c <= '9'
}

/// The characters of `s`, one per element.
pub fn chars_of(s: &str) -> (r: Vec<char>)
    ensures
        r@ == s@,
{
    let n = s.unicode_len();
    let mut r: Vec<char> = Vec::new();
    let mut i: usize = 0;
    while i < n
        invariant
            n == s@.len(),
            i <= n,
            r@ == s@.subrange(0, i as int),
        decreases n - i,
    {
        r.push(s.get_char(i));
        i = i + 1;
        assert(r@ =~= s@.subrange(0, i as int));
    }
    assert(r@ =~= s@);
    r
}

/// The characters `s[lo..hi]` as an owned string.
pub fn slice_string(s: &str, lo: usize, hi: usize) -> (r: String)
    requires
        lo <= hi <= s@.len(),
    ensures
        r@ == s@.subrange(lo as int, hi as int),
{
    String::from_str(s.substring_char(lo, hi))
}

proof fn lemma_prefix_value(s: Seq<char>, j: int)
    requires
        all_digits(s),
        0 <= j <= s.len(),
    ensures
        digits_value(s.subrange(0, j)) <= digits_value(s),
    decreases s.len(),
{
    if j < s.len() {
        let t = s.drop_last();
        assert(t.subrange(0, j) =~= s.subrange(0, j));
        assert(all_digits(t)) by {
            assert forall|i: int| 0 <= i < t.len() implies is_digit(#[trigger] t[i]) by {
                assert(t[i] == s[i]);
            }
        }
        lemma_prefix_value(t, j);
        assert(digits_value(s) == digits_value(t) * 10 + digit_value(s.last()));
    } else {
        assert(s.subrange(0, j) =~= s);
    }
}

/// Reads `s[lo..hi]` as `str::parse::<u64>` does.
pub fn parse_number(s: &Vec<char>, lo: usize, hi: usize) -> (r: Option<u64>)
    requires
        lo <= hi <= s@.len(),
    ensures
        r == parse_u64(s@.subrange(lo as int, hi as int)),
{
    let ghost t = s@.subrange(lo as int, hi as int);
    let mut b = lo;
    if lo < hi && s[lo] == '+' {
        b = lo + 1;
    }
    let ghost d = s@.subrange(b as int, hi as int);
    assert(d =~= (if t.len() > 0 && t[0] == '+' { t.drop_first() } else { t }));
    assert(parse_u64(t) == (if d.len() > 0 && all_digits(d) && digits_value(d) <= u64::MAX {
        Some(digits_value(d) as u64)
    } else {
        None
    }));
    if b == hi {
        return None;
    }
    let mut v: u64 = 0;
    let mut i = b;
    while i < hi
        invariant
            b <= i <= hi <= s@.len(),
            d == s@.subrange(b as int, hi as int),
            t == s@.subrange(lo as int, hi as int),
            d.len() > 0,
            parse_u64(t) == (if all_digits(d) && digits_value(d) <= u64::MAX {
                Some(digits_value(d) as u64)
            } else {
                None
            }),
            all_digits(s@.subrange(b as int, i as int)),
            v as nat == digits_value(s@.subrange(b as int, i as int)),
        decreases hi - i,
    {
        let c = s[i];
        if !digit(c) {
            assert(d[i - b] == c);
            return None;
        }
        let dv: u64 = (c as u32 - '0' as u32) as u64;
        let ghost prev = s@.subrange(b as int, i as int);
        let ghost next = s@.subrange(b as int, i + 1);
        assert(next.drop_last() =~= prev);
        assert(all_digits(next)) by {
            assert forall|k: int| 0 <= k < next.len() implies is_digit(#[trigger] next[k]) by {
                if k < prev.len() {
                    assert(next[k] == prev[k]);
                }
            }
        }
        if v > (u64::MAX - dv) / 10 {
            assert(digits_value(next) > u64::MAX) by (nonlinear_arith)
                requires
                    digits_value(next) == v * 10 + dv,
                    v > (u64::MAX - dv) / 10,
                    dv <= 9,
            ;
            proof {
                if all_digits(d) {
                    assert(next =~= d.subrange(0, i + 1 - b));
                    lemma_prefix_value(d, i + 1 - b);
                }
            }
            return None;
        }
        assert(v * 10 + dv <= u64::MAX) by (nonlinear_arith)
            requires
                v <= (u64::MAX - dv) / 10,
                dv <= 9,
        ;
        v = v * 10 + dv;
        i = i + 1;
    }
    assert(s@.subrange(b as int, i as int) =~= d);
    Some(v)
}

fn digit_text(d: u64) -> (r: &'static str)
    requires
        d < 10,
    ensures
        r@ == seq![digit_char(d as nat)],
{
    if d == 0 {
        proof { reveal_strlit("0"); }
        "0"
    } else if d == 1 {
        proof { reveal_strlit("1"); }
        "1"
    } else if d == 2 {
        proof { reveal_strlit("2"); }
        "2"
    } else if d == 3 {
        proof { reveal_strlit("3"); }
        "3"
    } else if d == 4 {
        proof { reveal_strlit("4"); }
        "4"
    } else if d == 5 {
        proof { reveal_strlit("5"); }
        "5"
    } else if d == 6 {
        proof { reveal_strlit("6"); }
        "6"
    } else if d == 7 {
        proof { reveal_strlit("7"); }
        "7"
    } else if d == 8 {
        proof { reveal_strlit("8"); }
        "8"
    } else {
        proof { reveal_strlit("9"); }
        "9"
    }
}

pub open spec fn starts_with(s: Seq<char>, p: Seq<char>) -> bool {
    p.len() <= s.len() && s.subrange(0, p.len() as int) == p
}

/// The number of bytes that UTF-8 takes for `c`.
pub open spec fn utf8_width(c: char) -> nat {
    if '\u{80}' > c {
        1
    } else if '\u{800}' > c {
        2
    } else if '\u{10000}' > c {
        3
    } else {
        4
    }
}

/// The length of `s` in UTF-8 bytes.
pub open spec fn byte_len(s: Seq<char>) -> nat
    decreases s.len(),
{
    if s.len() == 0 {
        0
    } else {
        byte_len(s.drop_last()) + utf8_width(s.last())
    }
}

/// The UTF-8 length of `s[lo..]`.
fn byte_count(s: &Vec<char>, lo: usize) -> (r: u128)
    requires
        lo <= s@.len(),
    ensures
        r == byte_len(s@.subrange(lo as int, s@.len() as int)),
{
    let n = s.len();
    let mut r: u128 = 0;
    let mut i = lo;
    while i < n
        invariant
            n == s@.len(),
            lo <= i <= n,
            r == byte_len(s@.subrange(lo as int, i as int)),
            r <= 4 * (i - lo),
        decreases s@.len() - i,
    {
        let c = s[i];
        let w: u128 = if '\u{80}' > c {
            1
        } else if '\u{800}' > c {
            2
        } else if '\u{10000}' > c {
            3
        } else {
            4
        };
        assert(s@.subrange(lo as int, i + 1).drop_last() =~= s@.subrange(lo as int, i as int));
        r = r + w;
        i = i + 1;
    }
    assert(s@.subrange(lo as int, i as int) =~= s@.subrange(lo as int, s@.len() as int));
    r
}

/// A path with its chromosome prefix handled consistently. With no prefix
/// given, a leading `chr` is dropped. Otherwise a leading `prefix` is dropped,
/// and put back in front when what remains is shorter than the prefix,
/// lengths being counted in UTF-8 bytes.
pub open spec fn normalized_path(p: Seq<char>, prefix: Seq<char>) -> Seq<char> {
    if prefix.len() == 0 {
        if starts_with(p, seq!['c', 'h', 'r']) {
            p.subrange(3, p.len() as int)
        } else {
            p
        }
    } else {
        let rest = if starts_with(p, prefix) {
            p.subrange(prefix.len() as int, p.len() as int)
        } else {
            p
        };
        if byte_len(rest) < byte_len(prefix) {
            prefix + rest
        } else {
            rest
        }
    }
}

fn has_prefix(s: &Vec<char>, p: &Vec<char>) -> (r: bool)
    ensures
        r == starts_with(s@, p@),
{
    if p.len() > s.len() {
        return false;
    }
    let mut i: usize = 0;
    while i < p.len()
        invariant
            p@.len() <= s@.len(),
            i <= p@.len(),
            s@.subrange(0, i as int) == p@.subrange(0, i as int),
        decreases p@.len() - i,
    {
        if s[i] != p[i] {
            assert(s@.subrange(0, p@.len() as int)[i as int] != p@[i as int]);
            return false;
        }
        i = i + 1;
        assert(s@.subrange(0, i as int) =~= p@.subrange(0, i as int));
    }
    assert(p@.subrange(0, i as int) =~= p@);
    true
}

/// The path with its chromosome prefix handled as `normalized_path` says.
pub fn normalize_path(path: &str, prefix: &str) -> (r: String)
    ensures
        r@ == normalized_path(path@, prefix@),
{
    let p = chars_of(path);
    let q = chars_of(prefix);
    if q.len() == 0 {
        proof {
            reveal_strlit("chr");
        }
        let chr = chars_of("chr");
        assert(chr@ =~= seq!['c', 'h', 'r']);
        if has_prefix(&p, &chr) {
            slice_string(path, 3, p.len())
        } else {
            String::from_str(path)
        }
    } else {
        let cut = if has_prefix(&p, &q) {
            q.len()
        } else {
            0
        };
        let rest = slice_string(path, cut, p.len());
        assert(cut == 0 ==> path@.subrange(0, path@.len() as int) =~= path@);
        assert(q@.subrange(0, q@.len() as int) =~= q@);
        if byte_count(&p, cut) < byte_count(&q, 0) {
            let mut r = String::from_str(prefix);
            r.append(rest.as_str());
            r
        } else {
            rest
        }
    }
}

/// The decimal rendering of `n` is a non-empty run of digits that reads back as `n`.
pub proof fn lemma_decimal(n: nat)
    ensures
        decimal(n).len() >= 1,
        all_digits(decimal(n)),
        digits_value(decimal(n)) == n,
    decreases n,
{
    let d = decimal(n);
    if n < 10 {
        assert(d.drop_last() =~= Seq::<char>::empty());
        assert(digits_value(d) == digits_value(d.drop_last()) * 10 + digit_value(d.last()));
    } else {
        lemma_decimal(n / 10);
        let e = decimal(n / 10);
        assert(d == e.push(digit_char(n % 10)));
        assert(d.drop_last() =~= e);
        assert(all_digits(d)) by {
            assert forall|i: int| 0 <= i < d.len() implies is_digit(#[trigger] d[i]) by {
                if i < e.len() {
                    assert(d[i] == e[i]);
                }
            }
        }
        assert(digits_value(d) == digits_value(d.drop_last()) * 10 + digit_value(d.last()));
    }
}

/// Appends the decimal rendering of `n` to `out`.
pub fn push_decimal(out: &mut String, n: u64)
    ensures
        final(out)@ == old(out)@ + decimal(n as nat),
    decreases n,
{
    if n < 10 {
        out.append(digit_text(n));
    } else {
        push_decimal(out, n / 10);
        out.append(digit_text(n % 10));
        assert(decimal(n as nat) == decimal((n / 10) as nat).push(digit_char((n % 10) as nat)));
        assert(final(out)@ =~= old(out)@ + decimal(n as nat));
    }
}

} // verus!
