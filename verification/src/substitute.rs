//! Placeholder substitution inside path components: every `{{ name }}`
//! token found in a directory or file name is replaced by the context's
//! value for `name`, leftmost token first, rescanning from the start
//! after each splice as long as a complete token remains. Because a
//! context value may itself introduce new tokens, the number of splices
//! per component is capped; exceeding the cap is reported as an error
//! rather than looping without bound.

use vstd::prelude::*;

use crate::chars::find2_from;
use crate::chars::trim_spaces;
use crate::context::VarContext;
use crate::error::ScaffoldError;
use crate::naming::join_with;

verus! {

/// What one substitution step does to a component.
pub enum SubstStep {
    /// No complete `{{ … }}` token remains; the component is finished.
    Finished,
    /// The leftmost token was spliced, giving the new component value.
    Replaced(Seq<char>),
    /// The leftmost token names a variable absent from the context.
    Missing(Seq<char>),
}

/// One substitution step on `s`: find the leftmost `{{`, the first `}}`
/// after it, trim the name between them, and splice in its value. A
/// component without a complete token is finished as it stands.
pub open spec fn subst_step(s: Seq<char>, ctx: VarContext) -> SubstStep {
    let a = find2_from(s, 0, '{', '{');
    if a < 0 {
        SubstStep::Finished
    } else {
        let b = find2_from(s, a + 2, '}', '}');
        if b < 0 {
            SubstStep::Finished
        } else {
            let name = trim_spaces(s.subrange(a + 2, b));
            match ctx.spec_get(name) {
                Option::None => SubstStep::Missing(name),
                Option::Some(v) => SubstStep::Replaced(
                    s.subrange(0, a) + v + s.subrange(b + 2, s.len() as int),
                ),
            }
        }
    }
}

/// True when iterating [`subst_step`] from `s` reaches the outcome `r`
/// (the finished component, or the name of a missing variable) within
/// `n` steps.
pub open spec fn subst_reaches(
    s: Seq<char>,
    ctx: VarContext,
    r: Result<Seq<char>, Seq<char>>,
    n: nat,
) -> bool
    decreases n,
{
    match subst_step(s, ctx) {
        SubstStep::Finished => r == Result::<Seq<char>, Seq<char>>::Ok(s),
        SubstStep::Missing(name) => r == Result::<Seq<char>, Seq<char>>::Err(name),
        SubstStep::Replaced(t) => n > 0 && subst_reaches(t, ctx, r, (n - 1) as nat),
    }
}

/// True when at least `n` consecutive splices are possible from `s`: a
/// context whose values reintroduce tokens can make substitution run
/// without bound.
pub open spec fn subst_runs_at_least(s: Seq<char>, ctx: VarContext, n: nat) -> bool
    decreases n,
{
    n == 0 || (subst_step(s, ctx) matches SubstStep::Replaced(t) && subst_runs_at_least(
        t,
        ctx,
        (n - 1) as nat,
    ))
}

/// True when iterated substitution finishes `s`, yielding `t`.
pub open spec fn component_subst_ok(s: Seq<char>, ctx: VarContext, t: Seq<char>) -> bool {
    exists|n: nat| subst_reaches(s, ctx, Result::Ok(t), n)
}

/// True when iterated substitution of `s` stops on the missing
/// variable `name`.
pub open spec fn component_subst_missing(s: Seq<char>, ctx: VarContext, name: Seq<char>) -> bool {
    exists|n: nat| subst_reaches(s, ctx, Result::Err(name), n)
}

/// The number of splices a component is allowed before substitution
/// gives up; values that keep reintroducing tokens would otherwise
/// never finish.
pub const SUBST_STEP_LIMIT: usize = 10000;

/// How substituting one component ended when it did not finish.
pub enum ComponentFailure {
    /// A token named a variable absent from the context.
    Missing(String),
    /// The component was still being rewritten after
    /// [`SUBST_STEP_LIMIT`] splices.
    StepLimit,
}

/// The component value after `k` substitution splices from `s`; a step
/// that cannot splice leaves the value as it stands.
pub open spec fn subst_iter(s: Seq<char>, ctx: VarContext, k: nat) -> Seq<char>
    decreases k,
{
    if k == 0 {
        s
    } else {
        match subst_step(s, ctx) {
            SubstStep::Replaced(t) => subst_iter(t, ctx, (k - 1) as nat),
            _ => s,
        }
    }
}

proof fn subst_iter_unfold_right(s: Seq<char>, ctx: VarContext, k: nat)
    ensures
        subst_iter(s, ctx, (k + 1) as nat) == (match subst_step(subst_iter(s, ctx, k), ctx) {
            SubstStep::Replaced(t) => t,
            _ => subst_iter(s, ctx, k),
        }),
    decreases k,
{
    assert(subst_iter(s, ctx, 0) == s);
    if k > 0 {
        match subst_step(s, ctx) {
            SubstStep::Replaced(t) => {
                assert(subst_iter(s, ctx, k) == subst_iter(t, ctx, (k - 1) as nat));
                assert(subst_iter(s, ctx, (k + 1) as nat) == subst_iter(t, ctx, k));
                subst_iter_unfold_right(t, ctx, (k - 1) as nat);
            },
            _ => {
                assert(subst_iter(s, ctx, k) == s);
                assert(subst_iter(s, ctx, (k + 1) as nat) == s);
            },
        }
    } else {
        match subst_step(s, ctx) {
            SubstStep::Replaced(t) => {
                assert(subst_iter(t, ctx, 0) == t);
                assert(subst_iter(s, ctx, 1) == t);
            },
            _ => {
                assert(subst_iter(s, ctx, 1) == s);
            },
        }
    }
}

proof fn subst_iter_reaches(s: Seq<char>, ctx: VarContext, k: nat, r: Result<Seq<char>, Seq<char>>)
    requires
        match subst_step(subst_iter(s, ctx, k), ctx) {
            SubstStep::Finished => r == Result::<Seq<char>, Seq<char>>::Ok(subst_iter(s, ctx, k)),
            SubstStep::Missing(nm) => r == Result::<Seq<char>, Seq<char>>::Err(nm),
            SubstStep::Replaced(..) => false,
        },
    ensures
        subst_reaches(s, ctx, r, k),
    decreases k,
{
    if k > 0 {
        match subst_step(s, ctx) {
            SubstStep::Replaced(t) => {
                subst_iter_reaches(t, ctx, (k - 1) as nat, r);
            },
            _ => {},
        }
    }
}

proof fn runs_at_least_snoc(s: Seq<char>, ctx: VarContext, k: nat)
    requires
        subst_runs_at_least(s, ctx, k),
        subst_step(subst_iter(s, ctx, k), ctx) matches SubstStep::Replaced(..),
    ensures
        subst_runs_at_least(s, ctx, (k + 1) as nat),
    decreases k,
{
    assert(subst_iter(s, ctx, 0) == s);
    if k > 0 {
        match subst_step(s, ctx) {
            SubstStep::Replaced(t) => {
                assert(subst_runs_at_least(t, ctx, (k - 1) as nat));
                assert(subst_iter(s, ctx, k) == subst_iter(t, ctx, (k - 1) as nat));
                runs_at_least_snoc(t, ctx, (k - 1) as nat);
                assert(subst_runs_at_least(t, ctx, k));
                assert(subst_runs_at_least(s, ctx, (k + 1) as nat));
            },
            _ => {},
        }
    } else {
        match subst_step(s, ctx) {
            SubstStep::Replaced(t) => {
                assert(subst_runs_at_least(t, ctx, 0));
                assert(subst_runs_at_least(s, ctx, 1));
            },
            _ => {},
        }
    }
}

/// Substitutes every placeholder token in one path component.
#[verifier::rlimit(60)]
pub fn substitute_component(s: &str, context: &VarContext) -> (r: Result<String, ComponentFailure>)
    ensures
        r matches Ok(t) ==> component_subst_ok(s@, *context, t@),
        r matches Err(ComponentFailure::Missing(name)) ==> component_subst_missing(
            s@,
            *context,
            name@,
        ),
        r matches Err(ComponentFailure::StepLimit) ==> subst_runs_at_least(
            s@,
            *context,
            SUBST_STEP_LIMIT as nat,
        ),
{
    let mut cur: Vec<char> = crate::chars::str_to_chars(s);
    let mut k: usize = 0;
    while k < SUBST_STEP_LIMIT
        invariant
            k <= SUBST_STEP_LIMIT,
            cur@ == subst_iter(s@, *context, k as nat),
            subst_runs_at_least(s@, *context, k as nat),
        decreases SUBST_STEP_LIMIT - k,
    {
        let n = cur.len();
        let a = match crate::chars::find_pair(&cur, 0, '{', '{') {
            Option::Some(a) => a,
            Option::None => {
                let done = crate::chars::chars_to_string(&cur);
                proof {
                    subst_iter_reaches(s@, *context, k as nat, Result::Ok(cur@));
                    assert(subst_reaches(s@, *context, Result::Ok(done@), k as nat));
                    assert(component_subst_ok(s@, *context, done@));
                }
                return Ok(done);
            },
        };
        let b = match crate::chars::find_pair(&cur, a + 2, '}', '}') {
            Option::Some(b) => b,
            Option::None => {
                let done = crate::chars::chars_to_string(&cur);
                proof {
                    subst_iter_reaches(s@, *context, k as nat, Result::Ok(cur@));
                    assert(subst_reaches(s@, *context, Result::Ok(done@), k as nat));
                    assert(component_subst_ok(s@, *context, done@));
                }
                return Ok(done);
            },
        };
        let name_chars = crate::chars::extract_trimmed(&cur, a + 2, b);
        let name = crate::chars::chars_to_string(&name_chars);
        let value = match context.get(name.as_str()) {
            Option::Some(v) => v,
            Option::None => {
                proof {
                    assert(subst_step(cur@, *context) == SubstStep::Missing(name@));
                    subst_iter_reaches(s@, *context, k as nat, Result::Err(name@));
                    assert(component_subst_missing(s@, *context, name@));
                }
                return Err(ComponentFailure::Missing(name));
            },
        };
        let mut next: Vec<char> = Vec::new();
        crate::chars::append_range(&mut next, &cur, 0, a);
        crate::chars::append_str_chars(&mut next, value.as_str());
        crate::chars::append_range(&mut next, &cur, b + 2, n);
        proof {
            assert(subst_step(cur@, *context) == SubstStep::Replaced(next@));
            subst_iter_unfold_right(s@, *context, k as nat);
            runs_at_least_snoc(s@, *context, k as nat);
        }
        cur = next;
        k += 1;
    }
    Err(ComponentFailure::StepLimit)
}

/// The path `p` joined with `/`, for error messages.
pub open spec fn spec_joined_path(p: Seq<Seq<char>>) -> Seq<char> {
    join_with(p, '/')
}

/// Joins path components with `/`.
pub fn join_components(path: &Vec<String>) -> (r: String)
    ensures
        r@ == spec_joined_path(path.deep_view()),
{
    let ghost ws = path.deep_view();
    let mut acc: Vec<char> = Vec::new();
    let mut j: usize = 0;
    while j < path.len()
        invariant
            j <= path@.len(),
            ws == path.deep_view(),
            acc@ == join_with(ws.take(j as int), '/'),
        decreases path@.len() - j,
    {
        if j > 0 {
            acc.push('/');
        }
        crate::chars::append_str_chars(&mut acc, path[j].as_str());
        j += 1;
        proof {
            assert(ws.take(j as int) =~= ws.take(j - 1).push(ws[j - 1]));
            crate::naming::join_with_push(ws.take(j - 1), '/', ws[j - 1]);
            assert(ws.take(j - 1).len() == (j - 1) as int);
            assert(acc@ =~= join_with(ws.take(j as int), '/'));
        }
    }
    proof {
        assert(ws.take(ws.len() as int) =~= ws);
    }
    crate::chars::chars_to_string(&acc)
}

/// True when substituting every component of `p` succeeds and yields
/// `q`, component by component.
pub open spec fn path_subst_ok(p: Seq<Seq<char>>, ctx: VarContext, q: Seq<Seq<char>>) -> bool {
    &&& q.len() == p.len()
    &&& forall|i: int| 0 <= i < p.len() ==> component_subst_ok(#[trigger] p[i], ctx, #[trigger] q[i])
}

/// True when substitution of the single component `s` finishes, with
/// whatever value.
pub open spec fn component_substitutable(s: Seq<char>, ctx: VarContext) -> bool {
    exists|t: Seq<char>| component_subst_ok(s, ctx, t)
}

/// True when every component of `p` before position `i` substitutes
/// without failing.
pub open spec fn prefix_subst_ok(p: Seq<Seq<char>>, ctx: VarContext, i: int) -> bool {
    forall|j: int| #![trigger p[j]] 0 <= j < i ==> component_substitutable(p[j], ctx)
}

/// True when substitution of `p` first fails at component `i`, on the
/// variable `name`.
pub open spec fn path_subst_missing_at(
    p: Seq<Seq<char>>,
    ctx: VarContext,
    name: Seq<char>,
    i: int,
) -> bool {
    0 <= i < p.len() && component_subst_missing(p[i], ctx, name) && prefix_subst_ok(p, ctx, i)
}

/// True when substituting the components of `p` in order fails on the
/// variable `name`, every earlier component substituting fine.
pub open spec fn path_subst_missing(
    p: Seq<Seq<char>>,
    ctx: VarContext,
    name: Seq<char>,
) -> bool {
    exists|i: int| path_subst_missing_at(p, ctx, name, i)
}

/// True when component `i` of `p` admits at least
/// [`SUBST_STEP_LIMIT`] consecutive splices, every earlier component
/// substituting fine.
pub open spec fn path_subst_diverges_at(p: Seq<Seq<char>>, ctx: VarContext, i: int) -> bool {
    0 <= i < p.len() && subst_runs_at_least(p[i], ctx, SUBST_STEP_LIMIT as nat)
        && prefix_subst_ok(p, ctx, i)
}

/// True when some component of `p`, every earlier one substituting
/// fine, admits at least [`SUBST_STEP_LIMIT`] consecutive splices.
pub open spec fn path_subst_diverges(p: Seq<Seq<char>>, ctx: VarContext) -> bool {
    exists|i: int| path_subst_diverges_at(p, ctx, i)
}

/// Rewrites every placeholder token found in any component of `path`,
/// failing when a referenced variable is absent from the context; the
/// error names the variable and the path it occurred in.
pub fn substitute_path_variables(path: &Vec<String>, context: &VarContext) -> (r: Result<
    Vec<String>,
    ScaffoldError,
>)
    ensures
        match r {
            Ok(q) => path_subst_ok(path.deep_view(), *context, q.deep_view()),
            Err(e) => match e {
                ScaffoldError::MissingVariable { name, path: p } => path_subst_missing(
                    path.deep_view(),
                    *context,
                    name@,
                ) && p@ == spec_joined_path(path.deep_view()),
                ScaffoldError::RenderError { template, .. } => path_subst_diverges(
                    path.deep_view(),
                    *context,
                ) && template@ == spec_joined_path(path.deep_view()),
                _ => false,
            },
        },
{
    let ghost ps = path.deep_view();
    let mut out: Vec<String> = Vec::new();
    let mut i: usize = 0;
    while i < path.len()
        invariant
            i <= path@.len(),
            ps == path.deep_view(),
            out.deep_view().len() == i as int,
            forall|j: int|
                0 <= j < i ==> component_subst_ok(#[trigger] ps[j], *context, out.deep_view()[j]),
        decreases path@.len() - i,
    {
        proof {
            assert(ps[i as int] == path@[i as int]@);
        }
        let ghost prev_out = out.deep_view();
        match substitute_component(path[i].as_str(), context) {
            Ok(t) => {
                let ghost tv = t@;
                out.push(t);
                proof {
                    assert(out.deep_view() =~= prev_out.push(tv));
                    assert forall|j: int| 0 <= j < i + 1 implies component_subst_ok(
                        #[trigger] ps[j],
                        *context,
                        out.deep_view()[j],
                    ) by {
                        if j < i {
                            assert(out.deep_view()[j] == prev_out[j]);
                        } else {
                            assert(out.deep_view()[j] == tv);
                        }
                    }
                }
            },
            Err(ComponentFailure::Missing(name)) => {
                let joined = join_components(path);
                proof {
                    let k = i as int;
                    assert forall|j: int|
                        #![trigger ps[j]]
                        0 <= j < k implies component_substitutable(ps[j], *context) by {
                        assert(component_subst_ok(ps[j], *context, out.deep_view()[j]));
                    }
                    assert(prefix_subst_ok(ps, *context, k));
                    assert(component_subst_missing(path@[k]@, *context, name@));
                    assert(component_subst_missing(ps[k], *context, name@));
                    assert(path_subst_missing_at(ps, *context, name@, k));
                    assert(path_subst_missing(ps, *context, name@));
                }
                return Err(ScaffoldError::MissingVariable { name, path: joined });
            },
            Err(ComponentFailure::StepLimit) => {
                let joined = join_components(path);
                proof {
                    let k = i as int;
                    assert forall|j: int|
                        #![trigger ps[j]]
                        0 <= j < k implies component_substitutable(ps[j], *context) by {
                        assert(component_subst_ok(ps[j], *context, out.deep_view()[j]));
                    }
                    assert(prefix_subst_ok(ps, *context, k));
                    assert(subst_runs_at_least(ps[k], *context, SUBST_STEP_LIMIT as nat));
                    assert(path_subst_diverges_at(ps, *context, k));
                    assert(path_subst_diverges(ps, *context));
                }
                return Err(
                    ScaffoldError::RenderError {
                        template: joined,
                        message: "placeholder substitution exceeded the step limit".to_owned(),
                    },
                );
            },
        }
        i += 1;
    }
    proof {
        assert(out.deep_view().len() == ps.len());
    }
    Ok(out)
}

} // verus!

