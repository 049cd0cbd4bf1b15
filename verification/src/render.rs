//! Rendering of template file contents: one left-to-right pass over the
//! text replaces every `{{ … }}` token by the context's value for the
//! trimmed name between the braces, or by a freshly generated identifier
//! for the custom call `generate_uid()`. Spliced values are not
//! rescanned. A token without a closing `}}` is malformed, and a name
//! absent from the context stops rendering.

use vstd::prelude::*;

use crate::chars::find2_from;
use crate::chars::find2_from_bounds;
use crate::chars::trim_spaces;
use crate::context::VarContext;
use crate::error::ScaffoldError;
use crate::uid::uid_alphabet_chars;

verus! {

/// How rendering a content string ends.
pub enum RenderOutcome {
    /// The fully rendered text.
    Done(Seq<char>),
    /// Rendering stopped on this variable, absent from the context.
    MissingVar(Seq<char>),
    /// A `{{` token is never closed by `}}`.
    Malformed,
}

/// True for the token that calls the unique-identifier function.
pub open spec fn is_uid_call(name: Seq<char>) -> bool {
    name == "generate_uid()"@
}

/// The number of `generate_uid()` values a full pass over `s[i..]`
/// can consume, counting every complete token.
pub open spec fn uid_count_from(s: Seq<char>, i: int) -> nat
    decreases s.len() - i,
    via uid_count_from_dec
{
    let a = find2_from(s, i, '{', '{');
    if a < 0 {
        0
    } else {
        let b = find2_from(s, a + 2, '}', '}');
        if b < 0 {
            0
        } else {
            let name = trim_spaces(s.subrange(a + 2, b));
            if is_uid_call(name) {
                (1 + uid_count_from(s, b + 2)) as nat
            } else {
                uid_count_from(s, b + 2)
            }
        }
    }
}

#[via_fn]
proof fn uid_count_from_dec(s: Seq<char>, i: int) {
    let a = find2_from(s, i, '{', '{');
    if i < 0 {
        assert(a == -1);
    } else if a >= 0 {
        find2_from_bounds(s, i, '{', '{');
        let b = find2_from(s, a + 2, '}', '}');
        if b >= 0 {
            find2_from_bounds(s, a + 2, '}', '}');
        }
    }
}

/// The outcome of rendering `s[i..]` against `ctx`, with `uids[u..]`
/// the still-unconsumed identifier values.
pub open spec fn spec_render_from(
    s: Seq<char>,
    ctx: VarContext,
    uids: Seq<Seq<char>>,
    i: int,
    u: int,
) -> RenderOutcome
    decreases s.len() - i,
    via spec_render_from_dec
{
    let a = find2_from(s, i, '{', '{');
    if a < 0 {
        RenderOutcome::Done(s.subrange(i, s.len() as int))
    } else {
        let b = find2_from(s, a + 2, '}', '}');
        if b < 0 {
            RenderOutcome::Malformed
        } else {
            let name = trim_spaces(s.subrange(a + 2, b));
            if is_uid_call(name) {
                match spec_render_from(s, ctx, uids, b + 2, u + 1) {
                    RenderOutcome::Done(rest) => RenderOutcome::Done(
                        s.subrange(i, a) + uids[u] + rest,
                    ),
                    other => other,
                }
            } else {
                match ctx.spec_get(name) {
                    Option::None => RenderOutcome::MissingVar(name),
                    Option::Some(v) => match spec_render_from(s, ctx, uids, b + 2, u) {
                        RenderOutcome::Done(rest) => RenderOutcome::Done(
                            s.subrange(i, a) + v + rest,
                        ),
                        other => other,
                    },
                }
            }
        }
    }
}

#[via_fn]
proof fn spec_render_from_dec(s: Seq<char>, ctx: VarContext, uids: Seq<Seq<char>>, i: int, u: int) {
    let a = find2_from(s, i, '{', '{');
    if i < 0 {
        assert(a == -1);
    } else if a >= 0 {
        find2_from_bounds(s, i, '{', '{');
        let b = find2_from(s, a + 2, '}', '}');
        if b >= 0 {
            find2_from_bounds(s, a + 2, '}', '}');
        }
    }
}

/// The outcome of rendering all of `s` with the identifier values
/// `uids`.
pub open spec fn spec_render(s: Seq<char>, ctx: VarContext, uids: Seq<Seq<char>>) -> RenderOutcome {
    spec_render_from(s, ctx, uids, 0, 0)
}

/// `o` with the already-rendered `prefix` put before its text; errors
/// pass through.
pub open spec fn render_compose(prefix: Seq<char>, o: RenderOutcome) -> RenderOutcome {
    match o {
        RenderOutcome::Done(r) => RenderOutcome::Done(prefix + r),
        other => other,
    }
}

/// Counts how many `generate_uid()` values one pass over `content`
/// can consume.
pub fn count_uid_calls(content: &str) -> (n: usize)
    ensures
        n as nat == uid_count_from(content@, 0),
{
    let v = crate::chars::str_to_chars(content);
    let len = v.len();
    let mut n: usize = 0;
    let mut i: usize = 0;
    loop
        invariant
            i <= len,
            len == v@.len(),
            v@ == content@,
            4 * n <= i + 4,
            n + uid_count_from(content@, i as int) == uid_count_from(content@, 0),
        decreases len - i,
    {
        let a = match crate::chars::find_pair(&v, i, '{', '{') {
            Option::Some(a) => a,
            Option::None => {
                return n;
            },
        };
        let b = match crate::chars::find_pair(&v, a + 2, '}', '}') {
            Option::Some(b) => b,
            Option::None => {
                return n;
            },
        };
        let name_chars = crate::chars::extract_trimmed(&v, a + 2, b);
        let name = crate::chars::chars_to_string(&name_chars);
        if crate::chars::str_eq(name.as_str(), "generate_uid()") {
            n += 1;
        }
        i = b + 2;
    }
}

/// Renders `content` with the given identifier values standing in for
/// successive `generate_uid()` calls. `template_name` identifies the
/// template in errors.
pub fn render_with_uids(
    template_name: &str,
    content: &str,
    context: &VarContext,
    uids: &Vec<String>,
) -> (r: Result<String, ScaffoldError>)
    requires
        uids.deep_view().len() >= uid_count_from(content@, 0),
    ensures
        match r {
            Ok(t) => spec_render(content@, *context, uids.deep_view()) == RenderOutcome::Done(t@),
            Err(e) => match e {
                ScaffoldError::MissingVariable { name, path } => spec_render(
                    content@,
                    *context,
                    uids.deep_view(),
                ) == RenderOutcome::MissingVar(name@) && path@ == template_name@,
                ScaffoldError::RenderError { template, .. } => spec_render(
                    content@,
                    *context,
                    uids.deep_view(),
                ) == RenderOutcome::Malformed && template@ == template_name@,
                _ => false,
            },
        },
{
    let ghost us = uids.deep_view();
    let v = crate::chars::str_to_chars(content);
    let len = v.len();
    let un = uids.len();
    let mut acc: Vec<char> = Vec::new();
    let mut i: usize = 0;
    let mut u: usize = 0;
    loop
        invariant
            i <= len,
            u <= un,
            un as int == us.len(),
            len == v@.len(),
            v@ == content@,
            us == uids.deep_view(),
            u + uid_count_from(content@, i as int) <= us.len(),
            render_compose(acc@, spec_render_from(content@, *context, us, i as int, u as int))
                == spec_render(content@, *context, us),
        decreases len - i,
    {
        let a = match crate::chars::find_pair(&v, i, '{', '{') {
            Option::Some(a) => a,
            Option::None => {
                let n2 = v.len();
                crate::chars::append_range(&mut acc, &v, i, n2);
                let done = crate::chars::chars_to_string(&acc);
                proof {
                    assert(spec_render_from(content@, *context, us, i as int, u as int)
                        == RenderOutcome::Done(content@.subrange(i as int, len as int)));
                    assert(done@ =~= acc@);
                    assert(spec_render(content@, *context, us) == RenderOutcome::Done(done@));
                }
                return Ok(done);
            },
        };
        let b = match crate::chars::find_pair(&v, a + 2, '}', '}') {
            Option::Some(b) => b,
            Option::None => {
                proof {
                    assert(spec_render_from(content@, *context, us, i as int, u as int)
                        == RenderOutcome::Malformed);
                }
                return Err(
                    ScaffoldError::RenderError {
                        template: template_name.to_owned(),
                        message: "unclosed placeholder token".to_owned(),
                    },
                );
            },
        };
        let name_chars = crate::chars::extract_trimmed(&v, a + 2, b);
        let name = crate::chars::chars_to_string(&name_chars);
        let ghost prev_acc = acc@;
        if crate::chars::str_eq(name.as_str(), "generate_uid()") {
            proof {
                assert(uid_count_from(content@, i as int) == 1 + uid_count_from(
                    content@,
                    b + 2,
                ));
            }
            crate::chars::append_range(&mut acc, &v, i, a);
            crate::chars::append_str_chars(&mut acc, uids[u].as_str());
            proof {
                assert(acc@ =~= prev_acc + (content@.subrange(i as int, a as int) + us[u as int]));
                assert forall|rest: Seq<char>|
                    true implies prev_acc + (content@.subrange(i as int, a as int) + us[u as int]
                    + rest) =~= prev_acc + ((content@.subrange(i as int, a as int) + us[u as int])
                    + rest) by {}
                match spec_render_from(content@, *context, us, b + 2, u + 1) {
                    RenderOutcome::Done(rest) => {
                        assert(prev_acc + (content@.subrange(i as int, a as int) + us[u as int]
                            + rest) =~= (prev_acc + (content@.subrange(i as int, a as int) + us[
                            u as int])) + rest);
                    },
                    _ => {},
                }
            }
            u += 1;
            i = b + 2;
        } else {
            let value = match context.get(name.as_str()) {
                Option::Some(value) => value,
                Option::None => {
                    proof {
                        assert(spec_render_from(content@, *context, us, i as int, u as int)
                            == RenderOutcome::MissingVar(name@));
                    }
                    return Err(
                        ScaffoldError::MissingVariable {
                            name,
                            path: template_name.to_owned(),
                        },
                    );
                },
            };
            crate::chars::append_range(&mut acc, &v, i, a);
            crate::chars::append_str_chars(&mut acc, value.as_str());
            proof {
                assert(acc@ =~= prev_acc + (content@.subrange(i as int, a as int) + value@));
                match spec_render_from(content@, *context, us, b + 2, u as int) {
                    RenderOutcome::Done(rest) => {
                        assert(prev_acc + (content@.subrange(i as int, a as int) + value@ + rest)
                            =~= (prev_acc + (content@.subrange(i as int, a as int) + value@))
                            + rest);
                    },
                    _ => {},
                }
            }
            i = b + 2;
        }
    }
}

/// True when `u` is thirteen lowercase-alphanumeric characters: the
/// body of a generated identifier, its `uid://` prefix stripped.
pub open spec fn uid_body_ok(u: Seq<char>) -> bool {
    u.len() == 13 && uid_alphabet_chars(u)
}

/// True when `us` is a plausible batch of freshly generated identifier
/// bodies for `content`: one for each token a full pass can consume.
pub open spec fn uid_batch_ok(us: Seq<Seq<char>>, content: Seq<char>) -> bool {
    us.len() == uid_count_from(content, 0) && (forall|k: int|
        0 <= k < us.len() ==> uid_body_ok(#[trigger] us[k]))
}

/// True when rendering `content` with some batch of freshly generated
/// identifier bodies ends in the outcome `o`. The identifiers are
/// random, so every batch of the right shape is a possible one.
pub open spec fn renders_with_fresh_uids(
    content: Seq<char>,
    ctx: VarContext,
    o: RenderOutcome,
) -> bool {
    exists|us: Seq<Seq<char>>| #[trigger] uid_batch_ok(us, content) && spec_render(content, ctx, us) == o
}

/// The identifier body: a generated `uid://` identifier with the
/// prefix stripped, as templates write the prefix themselves.
fn fresh_uid_body() -> (r: String)
    ensures
        uid_body_ok(r@),
{
    let uid = crate::uid::generate_godot_uid();
    let v = crate::chars::str_to_chars(uid.as_str());
    let mut body: Vec<char> = Vec::new();
    crate::chars::append_range(&mut body, &v, 6, 19);
    proof {
        assert(uid_alphabet_chars(uid@.subrange(6, 19)));
        assert(body@ =~= uid@.subrange(6, 19));
    }
    crate::chars::chars_to_string(&body)
}

/// Renders `content` through placeholder substitution, generating a
/// fresh identifier for every `generate_uid()` call. `template_name`
/// identifies the template in errors.
pub fn render_content(template_name: &str, content: &str, context: &VarContext) -> (r: Result<
    String,
    ScaffoldError,
>)
    ensures
        match r {
            Ok(t) => renders_with_fresh_uids(content@, *context, RenderOutcome::Done(t@)),
            Err(e) => match e {
                ScaffoldError::MissingVariable { name, path } => renders_with_fresh_uids(
                    content@,
                    *context,
                    RenderOutcome::MissingVar(name@),
                ) && path@ == template_name@,
                ScaffoldError::RenderError { template, .. } => renders_with_fresh_uids(
                    content@,
                    *context,
                    RenderOutcome::Malformed,
                ) && template@ == template_name@,
                _ => false,
            },
        },
{
    let n = count_uid_calls(content);
    let mut uids: Vec<String> = Vec::new();
    let mut c: usize = 0;
    while c < n
        invariant
            c <= n,
            uids.deep_view().len() == c as int,
            forall|k: int| 0 <= k < c ==> uid_body_ok(#[trigger] uids.deep_view()[k]),
        decreases n - c,
    {
        let ghost prev = uids.deep_view();
        let body = fresh_uid_body();
        let ghost bv = body@;
        uids.push(body);
        c += 1;
        proof {
            assert(uids.deep_view() =~= prev.push(bv));
            assert forall|k: int| 0 <= k < c implies uid_body_ok(
                #[trigger] uids.deep_view()[k],
            ) by {
                if k < c - 1 {
                    assert(uids.deep_view()[k] == prev[k]);
                } else {
                    assert(uids.deep_view()[k] == bv);
                }
            }
        }
    }
    proof {
        assert(uid_batch_ok(uids.deep_view(), content@));
    }
    render_with_uids(template_name, content, context, &uids)
}

} // verus!
