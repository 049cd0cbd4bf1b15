//! Unique identifier generation: `uid://` followed by thirteen characters
//! drawn at random from the lowercase-alphanumeric alphabet. The result is
//! a fresh value on every call; nothing is promised about it beyond its
//! shape.

use vstd::prelude::*;
use vstd::string::StrSliceExecFns;

use crate::chars::is_digit_char;
use crate::chars::is_lower_char;

verus! {

/// True when every character of `s` is a lowercase ASCII letter or digit.
pub open spec fn uid_alphabet_chars(s: Seq<char>) -> bool {
    forall|i: int| 0 <= i < s.len() ==> is_lower_char(s[i]) || is_digit_char(s[i])
}

/// The shape of a generated identifier: the six characters `uid://`
/// followed by exactly thirteen characters from `[a-z0-9]`.
pub open spec fn uid_shape(s: Seq<char>) -> bool {
    &&& s.len() == 19
    &&& s[0] == 'u'
    &&& s[1] == 'i'
    &&& s[2] == 'd'
    &&& s[3] == ':'
    &&& s[4] == '/'
    &&& s[5] == '/'
    &&& uid_alphabet_chars(s.subrange(6, 19))
}

/// Relies on `rand::rng` and `rand::Rng::random_range`: a sample drawn
/// from the half-open range `0..n` lies strictly below `n`. The sample
/// depends on a thread-local generator, so nothing relates one call's
/// result to another's.
#[verifier::external_body]
fn random_index(n: usize) -> (r: usize)
    requires
        n > 0,
    ensures
        r < n,
{
    rand::Rng::random_range(&mut rand::rng(), 0..n)
}

/// Generates a fresh identifier of the shape `uid://` plus thirteen
/// random lowercase-alphanumeric characters. Consecutive calls are
/// independent; no de-duplication against earlier results is attempted.
pub fn generate_godot_uid() -> (r: String)
    ensures
        uid_shape(r@),
{
    let alphabet = "abcdefghijklmnopqrstuvwxyz0123456789";
    proof {
        reveal_strlit("abcdefghijklmnopqrstuvwxyz0123456789");
    }
    let mut acc: Vec<char> = Vec::new();
    acc.push('u');
    acc.push('i');
    acc.push('d');
    acc.push(':');
    acc.push('/');
    acc.push('/');
    let mut k: usize = 0;
    while k < 13
        invariant
            k <= 13,
            alphabet@.len() == 36,
            uid_alphabet_chars(alphabet@),
            acc@.len() == 6 + k,
            acc@[0] == 'u',
            acc@[1] == 'i',
            acc@[2] == 'd',
            acc@[3] == ':',
            acc@[4] == '/',
            acc@[5] == '/',
            uid_alphabet_chars(acc@.subrange(6, acc@.len() as int)),
        decreases 13 - k,
    {
        let idx = random_index(36);
        let c = alphabet.get_char(idx);
        let ghost prev = acc@;
        acc.push(c);
        k += 1;
        proof {
            assert(is_lower_char(alphabet@[idx as int]) || is_digit_char(alphabet@[idx as int]));
            assert forall|i: int| 0 <= i < acc@.subrange(6, acc@.len() as int).len() implies
                is_lower_char(acc@.subrange(6, acc@.len() as int)[i]) || is_digit_char(
                acc@.subrange(6, acc@.len() as int)[i],
            ) by {
                if i < prev.len() - 6 {
                    assert(acc@.subrange(6, acc@.len() as int)[i] == prev.subrange(
                        6,
                        prev.len() as int,
                    )[i]);
                } else {
                    assert(acc@.subrange(6, acc@.len() as int)[i] == c);
                }
            }
        }
    }
    let r = crate::chars::chars_to_string(&acc);
    r
}

} // verus!
