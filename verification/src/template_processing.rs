//! A simpler, self-contained template pass kept alongside the main
//! pipeline: every `{{generate_uid}}` token (no spaces) is replaced by a
//! freshly generated identifier, then each variable's `{{key}}` token is
//! replaced by its value, key by key in the order given. Unknown tokens
//! are left in place rather than reported.

use vstd::prelude::*;

use crate::uid::uid_shape;

verus! {

/// True when `pat` occurs in `s` at position `i`.
pub open spec fn matches_at(s: Seq<char>, i: int, pat: Seq<char>) -> bool {
    0 <= i && i + pat.len() <= s.len() && s.subrange(i, i + pat.len()) == pat
}

/// Index of the first occurrence of `pat` in `s` at or after `i`;
/// negative when there is none.
pub open spec fn find_sub_from(s: Seq<char>, pat: Seq<char>, i: int) -> int
    decreases s.len() - i,
    via find_sub_from_dec
{
    if i < 0 || i + pat.len() > s.len() {
        -1
    } else if matches_at(s, i, pat) {
        i
    } else {
        find_sub_from(s, pat, i + 1)
    }
}

#[via_fn]
proof fn find_sub_from_dec(s: Seq<char>, pat: Seq<char>, i: int) {
    if 0 <= i && i + pat.len() <= s.len() && pat.len() == 0 {
        assert(s.subrange(i, i + pat.len()) =~= pat);
        assert(matches_at(s, i, pat));
    }
}

pub proof fn find_sub_from_bounds(s: Seq<char>, pat: Seq<char>, i: int)
    requires
        0 <= i,
    ensures
        find_sub_from(s, pat, i) == -1 || (i <= find_sub_from(s, pat, i) && find_sub_from(s, pat, i)
            + pat.len() <= s.len() && matches_at(s, find_sub_from(s, pat, i), pat)),
    decreases s.len() - i,
{
    if !(i + pat.len() > s.len()) && !matches_at(s, i, pat) {
        if pat.len() == 0 {
            assert(s.subrange(i, i + pat.len()) =~= pat);
        } else {
            find_sub_from_bounds(s, pat, i + 1);
        }
    }
}

/// The `{{generate_uid}}` token.
pub open spec fn uid_token() -> Seq<char> {
    seq!['{', '{', 'g', 'e', 'n', 'e', 'r', 'a', 't', 'e', '_', 'u', 'i', 'd', '}', '}']
}

/// The number of `{{generate_uid}}` tokens at or after position `i`,
/// counted left to right without overlap.
pub open spec fn count_uid_tokens_from(s: Seq<char>, i: int) -> nat
    decreases s.len() - i,
    via count_uid_tokens_from_dec
{
    let a = find_sub_from(s, uid_token(), i);
    if a < 0 {
        0
    } else {
        (1 + count_uid_tokens_from(s, a + 16)) as nat
    }
}

#[via_fn]
proof fn count_uid_tokens_from_dec(s: Seq<char>, i: int) {
    if i < 0 {
        assert(find_sub_from(s, uid_token(), i) == -1);
    } else {
        find_sub_from_bounds(s, uid_token(), i);
    }
}

/// `s[i..]` with its `j`-th `{{generate_uid}}` token (counting from
/// `u`) replaced by `us[u + j]`, for every token.
pub open spec fn replace_uids_from(s: Seq<char>, us: Seq<Seq<char>>, u: int, i: int) -> Seq<char>
    decreases s.len() - i,
    via replace_uids_from_dec
{
    let a = find_sub_from(s, uid_token(), i);
    if a < 0 {
        s.subrange(i, s.len() as int)
    } else {
        s.subrange(i, a) + us[u] + replace_uids_from(s, us, u + 1, a + 16)
    }
}

#[via_fn]
proof fn replace_uids_from_dec(s: Seq<char>, us: Seq<Seq<char>>, u: int, i: int) {
    if i < 0 {
        assert(find_sub_from(s, uid_token(), i) == -1);
    } else {
        find_sub_from_bounds(s, uid_token(), i);
    }
}

/// `s[i..]` with every occurrence of `pat` replaced by `val`, scanning
/// left to right without rescanning spliced values.
pub open spec fn replace_all_from(s: Seq<char>, pat: Seq<char>, val: Seq<char>, i: int) -> Seq<
    char,
>
    decreases s.len() - i,
    via replace_all_from_dec
{
    if pat.len() == 0 {
        s.subrange(i, s.len() as int)
    } else {
        let a = find_sub_from(s, pat, i);
        if a < 0 {
            s.subrange(i, s.len() as int)
        } else {
            s.subrange(i, a) + val + replace_all_from(s, pat, val, a + pat.len())
        }
    }
}

#[via_fn]
proof fn replace_all_from_dec(s: Seq<char>, pat: Seq<char>, val: Seq<char>, i: int) {
    if pat.len() > 0 {
        if i < 0 {
            assert(find_sub_from(s, pat, i) == -1);
        } else {
            find_sub_from_bounds(s, pat, i);
        }
    }
}

/// The token a variable key is written in: the key between `{{` and
/// `}}`, with no spaces.
pub open spec fn brace_pattern(k: Seq<char>) -> Seq<char> {
    seq!['{', '{'] + k + seq!['}', '}']
}

/// `s` after the replacement pass of each variable in order, starting
/// with the one at position `i`.
pub open spec fn apply_vars_from(s: Seq<char>, vars: Seq<(Seq<char>, Seq<char>)>, i: int) -> Seq<
    char,
>
    decreases vars.len() - i,
{
    if i < 0 || i >= vars.len() {
        s
    } else {
        apply_vars_from(replace_all_from(s, brace_pattern(vars[i].0), vars[i].1, 0), vars, i + 1)
    }
}

/// True when `us` is a plausible batch of freshly generated
/// identifiers for `content`: one full `uid://` identifier per token.
pub open spec fn full_uid_batch_ok(us: Seq<Seq<char>>, content: Seq<char>) -> bool {
    us.len() == count_uid_tokens_from(content, 0) && (forall|k: int|
        0 <= k < us.len() ==> uid_shape(#[trigger] us[k]))
}

/// True when `result` is `content` with every `{{generate_uid}}` token
/// replaced by some freshly generated identifier and then every
/// variable's token replaced by its value, in order.
pub open spec fn processed_with_fresh_uids(
    content: Seq<char>,
    vars: Seq<(Seq<char>, Seq<char>)>,
    result: Seq<char>,
) -> bool {
    exists|us: Seq<Seq<char>>|
        #[trigger] full_uid_batch_ok(us, content) && result == apply_vars_from(
            replace_uids_from(content, us, 0, 0),
            vars,
            0,
        )
}

/// Whether `pat` occurs in `v` at position `i`.
fn check_match(v: &Vec<char>, pat: &Vec<char>, i: usize) -> (b: bool)
    requires
        i + pat@.len() <= v@.len(),
    ensures
        b == matches_at(v@, i as int, pat@),
{
    let vlen = v.len();
    let mut k: usize = 0;
    while k < pat.len()
        invariant
            k <= pat@.len(),
            vlen as int == v@.len(),
            i + pat@.len() <= v@.len(),
            forall|j: int| 0 <= j < k ==> v@[i + j] == #[trigger] pat@[j],
        decreases pat@.len() - k,
    {
        if v[i + k] != pat[k] {
            proof {
                assert(v@.subrange(i as int, i + pat@.len())[k as int] != pat@[k as int]);
            }
            return false;
        }
        k += 1;
    }
    proof {
        assert(v@.subrange(i as int, i + pat@.len()) =~= pat@);
    }
    true
}

/// Scans `v` from `from` for the first occurrence of `pat`.
fn find_sub(v: &Vec<char>, pat: &Vec<char>, from: usize) -> (r: Option<usize>)
    requires
        pat@.len() > 0,
    ensures
        match r {
            Some(a) => a == find_sub_from(v@, pat@, from as int) && from <= a && a + pat@.len()
                <= v@.len() && matches_at(v@, a as int, pat@),
            None => find_sub_from(v@, pat@, from as int) == -1,
        },
{
    let vlen = v.len();
    let plen = pat.len();
    let mut i = from;
    loop
        invariant
            from <= i,
            vlen as int == v@.len(),
            plen as int == pat@.len(),
            pat@.len() > 0,
            find_sub_from(v@, pat@, from as int) == find_sub_from(v@, pat@, i as int),
        decreases v@.len() + pat@.len() - i,
    {
        if i > vlen || plen > vlen - i {
            return None;
        }
        if check_match(v, pat, i) {
            return Some(i);
        }
        i += 1;
    }
}

/// `v` with every occurrence of `pat` replaced by `val`.
fn replace_all_pass(v: &Vec<char>, pat: &Vec<char>, val: &Vec<char>) -> (r: Vec<char>)
    requires
        pat@.len() > 0,
    ensures
        r@ == replace_all_from(v@, pat@, val@, 0),
{
    let vlen = v.len();
    let mut acc: Vec<char> = Vec::new();
    let mut i: usize = 0;
    loop
        invariant
            i <= v@.len(),
            vlen as int == v@.len(),
            pat@.len() > 0,
            replace_all_from(v@, pat@, val@, 0) == acc@ + replace_all_from(
                v@,
                pat@,
                val@,
                i as int,
            ),
        decreases v@.len() - i,
    {
        let a = match find_sub(v, pat, i) {
            Option::Some(a) => a,
            Option::None => {
                let n = v.len();
                let ghost prev = acc@;
                crate::chars::append_range(&mut acc, v, i, n);
                proof {
                    assert(replace_all_from(v@, pat@, val@, i as int) == v@.subrange(
                        i as int,
                        v@.len() as int,
                    ));
                    assert(replace_all_from(v@, pat@, val@, 0) =~= acc@);
                }
                return acc;
            },
        };
        let ghost prev = acc@;
        crate::chars::append_range(&mut acc, v, i, a);
        let vn = val.len();
        crate::chars::append_range(&mut acc, val, 0, vn);
        proof {
            assert(val@.subrange(0, val@.len() as int) =~= val@);
            assert(acc@ =~= prev + (v@.subrange(i as int, a as int) + val@));
            assert(prev + (v@.subrange(i as int, a as int) + val@) + replace_all_from(
                v@,
                pat@,
                val@,
                a + pat@.len(),
            ) =~= prev + (v@.subrange(i as int, a as int) + val@ + replace_all_from(
                v@,
                pat@,
                val@,
                a + pat@.len(),
            )));
        }
        i = a + pat.len();
    }
}

/// The characters of the `{{generate_uid}}` token.
fn uid_token_chars() -> (r: Vec<char>)
    ensures
        r@ == uid_token(),
{
    let mut r: Vec<char> = Vec::new();
    r.push('{');
    r.push('{');
    r.push('g');
    r.push('e');
    r.push('n');
    r.push('e');
    r.push('r');
    r.push('a');
    r.push('t');
    r.push('e');
    r.push('_');
    r.push('u');
    r.push('i');
    r.push('d');
    r.push('}');
    r.push('}');
    proof {
        assert(r@ =~= uid_token());
    }
    r
}

/// Template loading happens at the tree source; this stage has nothing
/// left to do.
pub fn load_template_files() {
}

/// Replaces every `{{generate_uid}}` token of `content` with a freshly
/// generated identifier, then every variable's `{{key}}` token with its
/// value, key by key in the order given. Tokens naming nothing stay in
/// the text unchanged.
pub fn process_template_file(content: &str, variables: &Vec<(String, String)>) -> (r: String)
    ensures
        processed_with_fresh_uids(content@, variables.deep_view(), r@),
{
    let v = crate::chars::str_to_chars(content);
    let vlen = v.len();
    let pat = uid_token_chars();
    let mut n: usize = 0;
    let mut i: usize = 0;
    loop
        invariant
            i <= v@.len(),
            vlen as int == v@.len(),
            pat@ == uid_token(),
            v@ == content@,
            16 * n <= i + 16,
            n + count_uid_tokens_from(content@, i as int) == count_uid_tokens_from(content@, 0),
        ensures
            n as nat == count_uid_tokens_from(content@, 0),
        decreases v@.len() - i,
    {
        match find_sub(&v, &pat, i) {
            Option::Some(a) => {
                n += 1;
                i = a + 16;
            },
            Option::None => {
                proof {
                    assert(count_uid_tokens_from(content@, i as int) == 0);
                }
                break ;
            },
        }
    }
    let mut uids: Vec<String> = Vec::new();
    let mut c: usize = 0;
    while c < n
        invariant
            c <= n,
            uids.deep_view().len() == c as int,
            forall|k: int| 0 <= k < c ==> uid_shape(#[trigger] uids.deep_view()[k]),
        decreases n - c,
    {
        let ghost prev = uids.deep_view();
        let uid = crate::uid::generate_godot_uid();
        let ghost uv = uid@;
        uids.push(uid);
        c += 1;
        proof {
            assert(uids.deep_view() =~= prev.push(uv));
            assert forall|k: int| 0 <= k < c implies uid_shape(
                #[trigger] uids.deep_view()[k],
            ) by {
                if k < c - 1 {
                    assert(uids.deep_view()[k] == prev[k]);
                } else {
                    assert(uids.deep_view()[k] == uv);
                }
            }
        }
    }
    let ghost us = uids.deep_view();
    proof {
        assert(full_uid_batch_ok(us, content@));
    }
    let mut acc: Vec<char> = Vec::new();
    let mut u: usize = 0;
    let mut j: usize = 0;
    loop
        invariant_except_break
            j <= v@.len(),
            u <= n,
            vlen as int == v@.len(),
            n as int == us.len(),
            pat@ == uid_token(),
            v@ == content@,
            us == uids.deep_view(),
            u + count_uid_tokens_from(content@, j as int) <= us.len(),
            replace_uids_from(content@, us, 0, 0) == acc@ + replace_uids_from(
                content@,
                us,
                u as int,
                j as int,
            ),
        ensures
            acc@ == replace_uids_from(content@, us, 0, 0),
        decreases v@.len() - j,
    {
        let a = match find_sub(&v, &pat, j) {
            Option::Some(a) => a,
            Option::None => {
                let vn = v.len();
                crate::chars::append_range(&mut acc, &v, j, vn);
                proof {
                    assert(replace_uids_from(content@, us, u as int, j as int) == content@
                        .subrange(j as int, content@.len() as int));
                    assert(replace_uids_from(content@, us, 0, 0) =~= acc@);
                }
                break ;
            },
        };
        proof {
            assert(count_uid_tokens_from(content@, j as int) == 1 + count_uid_tokens_from(
                content@,
                a + 16,
            ));
        }
        let ghost prev = acc@;
        crate::chars::append_range(&mut acc, &v, j, a);
        crate::chars::append_str_chars(&mut acc, uids[u].as_str());
        proof {
            assert(acc@ =~= prev + (content@.subrange(j as int, a as int) + us[u as int]));
            assert(prev + (content@.subrange(j as int, a as int) + us[u as int])
                + replace_uids_from(content@, us, u + 1, a + 16) =~= prev + (content@.subrange(
                j as int,
                a as int,
            ) + us[u as int] + replace_uids_from(content@, us, u + 1, a + 16)));
        }
        u += 1;
        j = a + 16;
    }
    let ghost uid_result = replace_uids_from(content@, us, 0, 0);
    proof {
        assert(acc@ == uid_result);
    }
    let ghost vars = variables.deep_view();
    let mut cur = acc;
    let mut w: usize = 0;
    while w < variables.len()
        invariant
            w <= variables@.len(),
            vars == variables.deep_view(),
            apply_vars_from(uid_result, vars, 0) == apply_vars_from(cur@, vars, w as int),
        decreases variables@.len() - w,
    {
        proof {
            assert(vars[w as int] == (variables@[w as int].0@, variables@[w as int].1@));
        }
        let mut key_pat: Vec<char> = Vec::new();
        key_pat.push('{');
        key_pat.push('{');
        crate::chars::append_str_chars(&mut key_pat, variables[w].0.as_str());
        key_pat.push('}');
        key_pat.push('}');
        proof {
            assert(key_pat@ =~= brace_pattern(vars[w as int].0));
        }
        let val = crate::chars::str_to_chars(variables[w].1.as_str());
        let next = replace_all_pass(&cur, &key_pat, &val);
        proof {
            assert(next@ == replace_all_from(cur@, brace_pattern(vars[w as int].0), vars[
                w as int].1, 0));
        }
        cur = next;
        w += 1;
    }
    let r = crate::chars::chars_to_string(&cur);
    proof {
        assert(r@ == apply_vars_from(uid_result, vars, 0));
        assert(processed_with_fresh_uids(content@, vars, r@));
    }
    r
}

} // verus!
