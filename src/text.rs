//! Character-level helpers shared by the parsers: whitespace trimming,
//! character search and unsigned decimal numbers.

use vstd::prelude::*;
use vstd::string::*;

verus! {

/// Rust's `char::is_whitespace`: the characters with the Unicode
/// `White_Space` property.
pub open spec fn is_space(c: char) -> bool {
    c == '\t' || c == '\n' || c == '\u{0B}' || c == '\u{0C}' || c == '\r' || c == ' '
        || c == '\u{85}' || c == '\u{A0}' || c == '\u{1680}'
        || ('\u{2000}' <= c && c <= '\u{200A}')
        || c == '\u{2028}' || c == '\u{2029}' || c == '\u{202F}' || c == '\u{205F}'
        || c == '\u{3000}'
}

/// `s` without its leading whitespace.
pub open spec fn trim_start(s: Seq<char>) -> Seq<char>
    decreases s.len(),
{
    if s.len() > 0 && is_space(s[0]) {
        trim_start(s.drop_first())
    } else {
        s
    }
}

/// `s` without its trailing whitespace.
pub open spec fn trim_end(s: Seq<char>) -> Seq<char>
    decreases s.len(),
{
    if s.len() > 0 && is_space(s.last()) {
        trim_end(s.drop_last())
    } else {
        s
    }
}

/// `s` without leading and trailing whitespace, as `str::trim` gives it.
pub open spec fn trim(s: Seq<char>) -> Seq<char> {
    trim_end(trim_start(s))
}

/// The index of the first `c` in `s`, if any.
pub open spec fn find(s: Seq<char>, c: char) -> Option<int>
    decreases s.len(),
{
    if s.len() == 0 {
        None
    } else if s[0] == c {
        Some(0)
    } else {
        match find(s.drop_first(), c) {
            Some(i) => Some(i + 1),
            None => None,
        }
    }
}

/// `s` starts with `p`.
pub open spec fn starts_with(s: Seq<char>, p: Seq<char>) -> bool {
    p.len() <= s.len() && s.subrange(0, p.len() as int) == p
}

pub open spec fn is_digit(c: char) -> bool {
    '0' <= c && c <= '9'
}

pub open spec fn digit_value(c: char) -> nat {
    (c as int - '0' as int) as nat
}

pub open spec fn all_digits(s: Seq<char>) -> bool {
    forall|i: int| 0 <= i < s.len() ==> is_digit(#[trigger] s[i])
}

/// The value of a string of decimal digits, most significant first.
pub open spec fn decimal(s: Seq<char>) -> nat
    decreases s.len(),
{
    if s.len() == 0 {
        0
    } else {
        decimal(s.drop_last()) * 10 + digit_value(s.last())
    }
}

/// What `str::parse` gives for an unsigned integer type whose largest value
/// is `max`: an optional `+`, then at least one decimal digit, with a value
/// that fits.
pub open spec fn parse_unsigned(s: Seq<char>, max: nat) -> Option<nat> {
    let d = if s.len() > 0 && s[0] == '+' { s.drop_first() } else { s };
    if d.len() > 0 && all_digits(d) && decimal(d) <= max {
        Some(decimal(d))
    } else {
        None
    }
}

/// The characters of `s`, one by one.
pub fn chars_of(s: &str) -> (r: Vec<char>)
    ensures
        r@ == s@,
{
    let n = s.unicode_len();
    let mut v: Vec<char> = Vec::new();
    let mut i: usize = 0;
    while i < n
        invariant
            n == s@.len(),
            i <= n,
            v@ == s@.subrange(0, i as int),
        decreases n - i,
    {
        v.push(s.get_char(i));
        i = i + 1;
        assert(v@ =~= s@.subrange(0, i as int));
    }
    assert(v@ =~= s@);
    v
}

/// Decides `is_space`.
pub fn is_space_char(c: char) -> (r: bool)
    ensures
        r == is_space(c),
{
    c == '\t' || c == '\n' || c == '\u{0B}' || c == '\u{0C}' || c == '\r' || c == ' '
        || c == '\u{85}' || c == '\u{A0}' || c == '\u{1680}'
        || ('\u{2000}' <= c && c <= '\u{200A}')
        || c == '\u{2028}' || c == '\u{2029}' || c == '\u{202F}' || c == '\u{205F}'
        || c == '\u{3000}'
}

/// Bounds of the trimmed part of `v[lo..hi]`.
pub fn trim_range(v: &Vec<char>, lo: usize, hi: usize) -> (r: (usize, usize))
    requires
        lo <= hi <= v@.len(),
    ensures
        lo <= r.0 <= r.1 <= hi,
        v@.subrange(r.0 as int, r.1 as int) == trim(v@.subrange(lo as int, hi as int)),
{
    let mut a = lo;
    while a < hi && is_space_char(v[a])
        invariant
            lo <= a <= hi <= v@.len(),
            trim_start(v@.subrange(lo as int, hi as int)) == trim_start(
                v@.subrange(a as int, hi as int),
            ),
        decreases hi - a,
    {
        assert(v@.subrange(a as int, hi as int).drop_first() =~= v@.subrange(
            a + 1,
            hi as int,
        ));
        a = a + 1;
    }
    let mut b = hi;
    while b > a && is_space_char(v[b - 1])
        invariant
            lo <= a <= b <= hi <= v@.len(),
            trim_end(v@.subrange(a as int, hi as int)) == trim_end(
                v@.subrange(a as int, b as int),
            ),
        decreases b - a,
    {
        assert(v@.subrange(a as int, b as int).drop_last() =~= v@.subrange(
            a as int,
            b - 1,
        ));
        b = b - 1;
    }
    (a, b)
}

/// The first index of `c` in `v[lo..hi]`, counted from `lo`'s position in `v`.
pub fn find_char(v: &Vec<char>, lo: usize, hi: usize, c: char) -> (r: Option<usize>)
    requires
        lo <= hi <= v@.len(),
    ensures
        match find(v@.subrange(lo as int, hi as int), c) {
            Some(k) => r == Some((lo + k) as usize) && 0 <= k && lo + k < hi,
            None => r is None,
        },
        r matches Some(i) ==> lo <= i < hi && v@[i as int] == c,
{
    proof {
        lemma_find_bounds(v@.subrange(lo as int, hi as int), c);
    }
    let mut i = lo;
    while i < hi
        invariant
            lo <= i <= hi <= v@.len(),
            find(v@.subrange(lo as int, hi as int), c) == match find(
                v@.subrange(i as int, hi as int),
                c,
            ) {
                Some(k) => Some(k + (i - lo)),
                None => None::<int>,
            },
        decreases hi - i,
    {
        if v[i] == c {
            return Some(i);
        }
        assert(v@.subrange(i as int, hi as int).drop_first() =~= v@.subrange(
            i + 1,
            hi as int,
        ));
        i = i + 1;
    }
    None
}

proof fn lemma_decimal_prefix(s: Seq<char>, i: int)
    requires
        0 <= i <= s.len(),
    ensures
        decimal(s.subrange(0, i)) <= decimal(s),
    decreases s.len() - i,
{
    if i < s.len() {
        lemma_decimal_prefix(s, i + 1);
        let p = s.subrange(0, i + 1);
        assert(p.drop_last() =~= s.subrange(0, i));
    } else {
        assert(s.subrange(0, i) =~= s);
    }
}

/// `parse_unsigned` on `v[lo..hi]`.
pub fn parse_uint(v: &Vec<char>, lo: usize, hi: usize, max: u64) -> (r: Option<u64>)
    requires
        lo <= hi <= v@.len(),
    ensures
        match parse_unsigned(v@.subrange(lo as int, hi as int), max as nat) {
            Some(n) => r == Some(n as u64),
            None => r is None,
        },
{
    let ghost s = v@.subrange(lo as int, hi as int);
    let mut start = lo;
    if lo < hi && v[lo] == '+' {
        start = lo + 1;
    }
    let ghost d = v@.subrange(start as int, hi as int);
    assert(d == if s.len() > 0 && s[0] == '+' { s.drop_first() } else { s });
    if start == hi {
        return None;
    }
    let mut acc: u64 = 0;
    let mut i = start;
    while i < hi
        invariant
            lo <= start <= i <= hi <= v@.len(),
            d == v@.subrange(start as int, hi as int),
            s == v@.subrange(lo as int, hi as int),
            d == if s.len() > 0 && s[0] == '+' { s.drop_first() } else { s },
            d.len() > 0,
            acc as nat == decimal(d.subrange(0, i - start)),
            acc <= max,
            all_digits(d.subrange(0, i - start)),
        decreases hi - i,
    {
        let c = v[i];
        let ghost p = d.subrange(0, i - start + 1);
        assert(p.drop_last() =~= d.subrange(0, i - start));
        assert(d[i - start] == c);
        if !('0' <= c && c <= '9') {
            assert(!is_digit(d[i - start]));
            assert(!all_digits(d));
            return None;
        }
        let dv = (c as u32 - '0' as u32) as u64;
        if dv > max || acc > (max - dv) / 10 {
            assert(decimal(p) > max) by (nonlinear_arith)
                requires
                    decimal(p) == acc * 10 + dv,
                    dv > max || acc > (max - dv) / 10,
            {
            }
            proof {
                lemma_decimal_prefix(d, i - start + 1);
            }
            return None;
        }
        acc = acc * 10 + dv;
        i = i + 1;
    }
    assert(d.subrange(0, i - start) =~= d);
    Some(acc)
}

} // verus!

verus! {

/// The pieces of `s` between occurrences of `c`, as `str::split` gives them.
pub open spec fn split(s: Seq<char>, c: char) -> Seq<Seq<char>>
    decreases s.len(),
{
    match find(s, c) {
        Some(i) => if 0 <= i < s.len() {
            seq![s.subrange(0, i)] + split(s.subrange(i + 1, s.len() as int), c)
        } else {
            seq![s]
        },
        None => seq![s],
    }
}

pub proof fn lemma_find_bounds(s: Seq<char>, c: char)
    ensures
        find(s, c) matches Some(i) ==> 0 <= i < s.len() && s[i] == c,
        find(s, c) is None ==> forall|j: int| 0 <= j < s.len() ==> s[j] != c,
    decreases s.len(),
{
    if s.len() > 0 && s[0] != c {
        lemma_find_bounds(s.drop_first(), c);
        if find(s, c) is None {
            assert forall|j: int| 0 <= j < s.len() implies s[j] != c by {
                if j > 0 {
                    assert(s[j] == s.drop_first()[j - 1]);
                }
            }
        }
    }
}

/// The bounds in `v` of the pieces of `v[lo..hi]` split at each `c`.
pub fn split_ranges(v: &Vec<char>, lo: usize, hi: usize, c: char) -> (r: Vec<(usize, usize)>)
    requires
        lo <= hi <= v@.len(),
    ensures
        r@.len() == split(v@.subrange(lo as int, hi as int), c).len(),
        forall|k: int|
            0 <= k < r@.len() ==> {
                &&& lo <= (#[trigger] r@[k]).0 <= r@[k].1 <= hi
                &&& v@.subrange(r@[k].0 as int, r@[k].1 as int) == split(
                    v@.subrange(lo as int, hi as int),
                    c,
                )[k]
            },
{
    let mut out: Vec<(usize, usize)> = Vec::new();
    let mut pos = lo;
    loop
        invariant
            lo <= pos <= hi <= v@.len(),
            split(v@.subrange(lo as int, hi as int), c) == out@.map_values(
                |p: (usize, usize)| v@.subrange(p.0 as int, p.1 as int),
            ) + split(v@.subrange(pos as int, hi as int), c),
            forall|k: int|
                0 <= k < out@.len() ==> lo <= (#[trigger] out@[k]).0 <= out@[k].1 <= hi,
        decreases hi - pos,
    {
        let ghost rest = v@.subrange(pos as int, hi as int);
        proof {
            lemma_find_bounds(rest, c);
        }
        match find_char(v, pos, hi, c) {
            Some(i) => {
                let ghost before = out@.map_values(
                    |p: (usize, usize)| v@.subrange(p.0 as int, p.1 as int),
                );
                assert(rest.subrange(0, i - pos) =~= v@.subrange(pos as int, i as int));
                assert(rest.subrange(i - pos + 1, rest.len() as int) =~= v@.subrange(
                    i + 1,
                    hi as int,
                ));
                out.push((pos, i));
                assert(out@.map_values(|p: (usize, usize)| v@.subrange(p.0 as int, p.1 as int))
                    =~= before.push(v@.subrange(pos as int, i as int)));
                assert(split(v@.subrange(lo as int, hi as int), c) =~= out@.map_values(
                    |p: (usize, usize)| v@.subrange(p.0 as int, p.1 as int),
                ) + split(v@.subrange(i + 1, hi as int), c));
                pos = i + 1;
            },
            None => {
                let ghost before = out@.map_values(
                    |p: (usize, usize)| v@.subrange(p.0 as int, p.1 as int),
                );
                out.push((pos, hi));
                assert(out@.map_values(|p: (usize, usize)| v@.subrange(p.0 as int, p.1 as int))
                    =~= before.push(rest));
                assert(split(v@.subrange(lo as int, hi as int), c) =~= out@.map_values(
                    |p: (usize, usize)| v@.subrange(p.0 as int, p.1 as int),
                ));
                proof {
                    assert forall|k: int| 0 <= k < out@.len() implies v@.subrange(
                        (#[trigger] out@[k]).0 as int,
                        out@[k].1 as int,
                    ) == split(v@.subrange(lo as int, hi as int), c)[k] by {
                        assert(out@.map_values(
                            |p: (usize, usize)| v@.subrange(p.0 as int, p.1 as int),
                        )[k] == v@.subrange(out@[k].0 as int, out@[k].1 as int));
                    }
                }
                return out;
            },
        }
    }
}

/// `v[lo..hi]` starts with the characters of `p`.
pub fn starts_with_at(v: &Vec<char>, lo: usize, hi: usize, p: &str) -> (r: bool)
    requires
        lo <= hi <= v@.len(),
    ensures
        r == starts_with(v@.subrange(lo as int, hi as int), p@),
{
    let n = p.unicode_len();
    if n > hi - lo {
        return false;
    }
    let mut i: usize = 0;
    while i < n
        invariant
            n == p@.len(),
            lo + n <= hi <= v@.len(),
            i <= n,
            forall|j: int| 0 <= j < i ==> v@[lo + j] == p@[j],
        decreases n - i,
    {
        if v[lo + i] != p.get_char(i) {
            assert(v@.subrange(lo as int, hi as int).subrange(0, n as int)[i as int] != p@[i as int]);
            return false;
        }
        i = i + 1;
    }
    assert(v@.subrange(lo as int, hi as int).subrange(0, n as int) =~= p@);
    true
}

/// The text of `v[lo..hi]` as a `String`, where `v` holds the characters of `s`.
pub fn substring(s: &str, v: &Vec<char>, lo: usize, hi: usize) -> (r: String)
    requires
        v@ == s@,
        lo <= hi <= v@.len(),
    ensures
        r@ == v@.subrange(lo as int, hi as int),
{
    String::from_str(s.substring_char(lo, hi))
}

} // verus!
