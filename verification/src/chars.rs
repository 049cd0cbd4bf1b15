//! Character-level utilities shared by the casing engine and the
//! placeholder substitution engine: conversions between `String`/`&str`
//! and `Vec<char>`, and ASCII character classes.

use vstd::prelude::*;
use vstd::string::StrSliceExecFns;

verus! {

/// True for `a`..=`z`.
pub open spec fn is_lower_char(c: char) -> bool {
    97 <= c as u32 && c as u32 <= 122
}

/// True for `A`..=`Z`.
pub open spec fn is_upper_char(c: char) -> bool {
    65 <= c as u32 && c as u32 <= 90
}

/// True for `0`..=`9`.
pub open spec fn is_digit_char(c: char) -> bool {
    48 <= c as u32 && c as u32 <= 57
}

/// True for ASCII letters and digits.
pub open spec fn is_alnum_char(c: char) -> bool {
    is_lower_char(c) || is_upper_char(c) || is_digit_char(c)
}

/// Lower-cases an ASCII letter, leaves any other character unchanged.
pub open spec fn to_lower_char(c: char) -> char {
    if is_upper_char(c) {
        ((c as u32) + 32) as char
    } else {
        c
    }
}

/// Upper-cases an ASCII letter, leaves any other character unchanged.
pub open spec fn to_upper_char(c: char) -> char {
    if is_lower_char(c) {
        ((c as u32) - 32) as char
    } else {
        c
    }
}

pub fn lower_char(c: char) -> (r: char)
    ensures
        r == to_lower_char(c),
{
    let u = c as u32;
    if 65 <= u && u <= 90 {
        let b: u8 = (u + 32) as u8;
        assert(65 <= u && u <= 90 ==> (u + 32) as u8 == u + 32) by (bit_vector);
        b as char
    } else {
        c
    }
}

pub fn upper_char(c: char) -> (r: char)
    ensures
        r == to_upper_char(c),
{
    let u = c as u32;
    if 97 <= u && u <= 122 {
        let b: u8 = (u - 32) as u8;
        assert(97 <= u && u <= 122 ==> (u - 32) as u8 == u - 32) by (bit_vector);
        b as char
    } else {
        c
    }
}

pub fn is_lower(c: char) -> (b: bool)
    ensures
        b == is_lower_char(c),
{
    let u = c as u32;
    97 <= u && u <= 122
}

pub fn is_upper(c: char) -> (b: bool)
    ensures
        b == is_upper_char(c),
{
    let u = c as u32;
    65 <= u && u <= 90
}

pub fn is_digit(c: char) -> (b: bool)
    ensures
        b == is_digit_char(c),
{
    let u = c as u32;
    48 <= u && u <= 57
}

pub fn is_alnum(c: char) -> (b: bool)
    ensures
        b == is_alnum_char(c),
{
    is_lower(c) || is_upper(c) || is_digit(c)
}

/// Copies the characters of a string slice into a vector.
pub fn str_to_chars(s: &str) -> (v: Vec<char>)
    ensures
        v@ == s@,
{
    let n = s.unicode_len();
    let mut v: Vec<char> = Vec::new();
    let mut i: usize = 0;
    while i < n
        invariant
            i <= n,
            n == s@.len(),
            v@ == s@.subrange(0, i as int),
        decreases n - i,
    {
        v.push(s.get_char(i));
        i += 1;
        proof {
            assert(v@ =~= s@.subrange(0, i as int));
        }
    }
    proof {
        assert(v@ =~= s@);
    }
    v
}

/// Index of the first position at or after `i` where the two-character
/// token `c0 c1` occurs in `s`; negative when there is none.
pub open spec fn find2_from(s: Seq<char>, i: int, c0: char, c1: char) -> int
    recommends
        0 <= i,
    decreases s.len() - i,
{
    if i < 0 || i + 2 > s.len() {
        -1
    } else if s[i] == c0 && s[i + 1] == c1 {
        i
    } else {
        find2_from(s, i + 1, c0, c1)
    }
}

pub proof fn find2_from_bounds(s: Seq<char>, i: int, c0: char, c1: char)
    requires
        0 <= i,
    ensures
        find2_from(s, i, c0, c1) == -1 || (i <= find2_from(s, i, c0, c1) && find2_from(s, i, c0, c1)
            + 2 <= s.len() && s[find2_from(s, i, c0, c1)] == c0 && s[find2_from(s, i, c0, c1) + 1]
            == c1),
    decreases s.len() - i,
{
    if !(i + 2 > s.len()) && !(s[i] == c0 && s[i + 1] == c1) {
        find2_from_bounds(s, i + 1, c0, c1);
    }
}

/// Scans `v` from position `from` for the two-character token `c0 c1`.
pub fn find_pair(v: &Vec<char>, from: usize, c0: char, c1: char) -> (r: Option<usize>)
    ensures
        match r {
            Some(j) => j == find2_from(v@, from as int, c0, c1) && from <= j && j + 2 <= v@.len()
                && v@[j as int] == c0 && v@[j + 1] == c1,
            None => find2_from(v@, from as int, c0, c1) == -1,
        },
{
    let n = v.len();
    let mut i = from;
    if i > n {
        proof {
            assert(find2_from(v@, from as int, c0, c1) == -1);
        }
        return None;
    }
    while i < n
        invariant
            from <= i <= n,
            n == v@.len(),
            find2_from(v@, from as int, c0, c1) == find2_from(v@, i as int, c0, c1),
        decreases n - i,
    {
        if v[i] == c0 && i + 1 < n && v[i + 1] == c1 {
            return Some(i);
        }
        i += 1;
    }
    None
}

/// True for the ASCII whitespace characters a placeholder name may be
/// padded with.
pub open spec fn is_space_char(c: char) -> bool {
    c == ' ' || c == '\t' || c == '\n' || c == '\r'
}

/// Index of the first non-whitespace character at or after `i`, or
/// `s.len()` when the rest is all whitespace.
pub open spec fn skip_spaces_from(s: Seq<char>, i: int) -> int
    decreases s.len() - i,
{
    if i < 0 || i >= s.len() {
        s.len() as int
    } else if is_space_char(s[i]) {
        skip_spaces_from(s, i + 1)
    } else {
        i
    }
}

/// Exclusive end of `s` truncated at `j` with trailing whitespace
/// removed.
pub open spec fn rskip_spaces(s: Seq<char>, j: int) -> int
    decreases j,
{
    if j <= 0 || j > s.len() {
        0
    } else if is_space_char(s[j - 1]) {
        rskip_spaces(s, j - 1)
    } else {
        j
    }
}

/// `s` with leading and trailing ASCII whitespace removed.
pub open spec fn trim_spaces(s: Seq<char>) -> Seq<char> {
    let lo = skip_spaces_from(s, 0);
    let hi = rskip_spaces(s, s.len() as int);
    if lo <= hi {
        s.subrange(lo, hi)
    } else {
        Seq::<char>::empty()
    }
}

pub fn is_space(c: char) -> (b: bool)
    ensures
        b == is_space_char(c),
{
    c == ' ' || c == '\t' || c == '\n' || c == '\r'
}

proof fn skip_spaces_eq(s: Seq<char>, i: int, m: int)
    requires
        0 <= i <= m <= s.len(),
        forall|t: int| i <= t < m ==> is_space_char(#[trigger] s[t]),
        m == s.len() || !is_space_char(s[m]),
    ensures
        skip_spaces_from(s, i) == m,
    decreases m - i,
{
    if i < m {
        skip_spaces_eq(s, i + 1, m);
    }
}

proof fn rskip_spaces_eq(s: Seq<char>, j: int, m: int)
    requires
        0 <= m <= j <= s.len(),
        forall|t: int| m <= t < j ==> is_space_char(#[trigger] s[t]),
        m == 0 || !is_space_char(s[m - 1]),
    ensures
        rskip_spaces(s, j) == m,
    decreases j - m,
{
    if m < j {
        rskip_spaces_eq(s, j - 1, m);
    }
}

/// Copies `v[a..b]` with leading and trailing whitespace removed.
pub fn extract_trimmed(v: &Vec<char>, a: usize, b: usize) -> (r: Vec<char>)
    requires
        a <= b <= v.len(),
    ensures
        r@ == trim_spaces(v@.subrange(a as int, b as int)),
{
    let ghost sub = v@.subrange(a as int, b as int);
    let mut lo = a;
    while lo < b && is_space(v[lo])
        invariant
            a <= lo <= b <= v@.len(),
            sub == v@.subrange(a as int, b as int),
            forall|t: int| 0 <= t < lo - a ==> is_space_char(#[trigger] sub[t]),
        decreases b - lo,
    {
        proof {
            assert(sub[lo - a] == v@[lo as int]);
        }
        lo += 1;
    }
    let mut hi = b;
    while hi > lo && is_space(v[hi - 1])
        invariant
            a <= lo <= hi <= b <= v@.len(),
            sub == v@.subrange(a as int, b as int),
            forall|t: int| hi - a <= t < b - a ==> is_space_char(#[trigger] sub[t]),
        decreases hi - lo,
    {
        proof {
            assert(sub[hi - a - 1] == v@[hi - 1]);
        }
        hi -= 1;
    }
    proof {
        if hi > lo {
            assert(sub[lo - a] == v@[lo as int]);
            assert(!is_space_char(sub[lo - a]));
            assert(sub[hi - a - 1] == v@[hi - 1]);
            assert(!is_space_char(sub[hi - a - 1]));
            skip_spaces_eq(sub, 0, lo - a);
            rskip_spaces_eq(sub, sub.len() as int, hi - a);
        } else {
            assert(hi == lo);
            assert(forall|t: int| 0 <= t < sub.len() ==> is_space_char(#[trigger] sub[t]));
            skip_spaces_eq(sub, 0, sub.len() as int);
            rskip_spaces_eq(sub, sub.len() as int, 0);
        }
    }
    let mut r: Vec<char> = Vec::new();
    let mut k = lo;
    while k < hi
        invariant
            lo <= k <= hi <= v@.len(),
            r@ == v@.subrange(lo as int, k as int),
        decreases hi - k,
    {
        r.push(v[k]);
        k += 1;
        proof {
            assert(r@ =~= v@.subrange(lo as int, k as int));
        }
    }
    proof {
        assert(r@ =~= trim_spaces(sub));
    }
    r
}

/// Appends `v[from..to]` to `acc`.
pub fn append_range(acc: &mut Vec<char>, v: &Vec<char>, from: usize, to: usize)
    requires
        from <= to <= v.len(),
    ensures
        final(acc)@ == old(acc)@ + v@.subrange(from as int, to as int),
{
    let mut k = from;
    while k < to
        invariant
            from <= k <= to <= v@.len(),
            acc@ == old(acc)@ + v@.subrange(from as int, k as int),
        decreases to - k,
    {
        acc.push(v[k]);
        k += 1;
        proof {
            assert(acc@ =~= old(acc)@ + v@.subrange(from as int, k as int));
        }
    }
    proof {
        assert(acc@ =~= old(acc)@ + v@.subrange(from as int, to as int));
    }
}

/// Appends the characters of `s` to `acc`.
pub fn append_str_chars(acc: &mut Vec<char>, s: &str)
    ensures
        final(acc)@ == old(acc)@ + s@,
{
    let n = s.unicode_len();
    let mut k: usize = 0;
    while k < n
        invariant
            k <= n,
            n == s@.len(),
            acc@ == old(acc)@ + s@.subrange(0, k as int),
        decreases n - k,
    {
        acc.push(s.get_char(k));
        k += 1;
        proof {
            assert(acc@ =~= old(acc)@ + s@.subrange(0, k as int));
        }
    }
    proof {
        assert(acc@ =~= old(acc)@ + s@);
    }
}

/// Compares two string slices character by character.
pub fn str_eq(a: &str, b: &str) -> (r: bool)
    ensures
        r == (a@ == b@),
{
    let na = a.unicode_len();
    let nb = b.unicode_len();
    if na != nb {
        return false;
    }
    let mut i: usize = 0;
    while i < na
        invariant
            i <= na,
            na == a@.len(),
            na == b@.len(),
            forall|j: int| 0 <= j < i ==> a@[j] == b@[j],
        decreases na - i,
    {
        if a.get_char(i) != b.get_char(i) {
            return false;
        }
        i += 1;
    }
    proof {
        assert(a@ =~= b@);
    }
    true
}

/// Relies on `String`'s `FromIterator<char>` implementation: collecting
/// an iterator of characters yields a string of exactly those characters
/// in order.
#[verifier::external_body]
pub fn chars_to_string(v: &Vec<char>) -> (s: String)
    ensures
        s@ == v@,
{
    v.iter().collect()
}

} // verus!
