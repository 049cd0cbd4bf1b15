//! The variable context: a mapping from placeholder names to string
//! values, built once per invocation and read-only during rendering.

use vstd::prelude::*;

use crate::naming::spec_classify;
use crate::naming::spec_to_kebab;
use crate::naming::spec_to_pascal;

verus! {

/// First-match lookup of `k` among the key/value pairs of `ps`, scanning
/// from position `i`.
pub open spec fn lookup_from(
    ps: Seq<(Seq<char>, Seq<char>)>,
    k: Seq<char>,
    i: int,
) -> Option<Seq<char>>
    decreases ps.len() - i,
{
    if i < 0 || i >= ps.len() {
        None
    } else if ps[i].0 == k {
        Some(ps[i].1)
    } else {
        lookup_from(ps, k, i + 1)
    }
}

proof fn lookup_nomatch_prefix(ps: Seq<(Seq<char>, Seq<char>)>, k: Seq<char>, i: int, m: int)
    requires
        0 <= i <= m <= ps.len(),
        forall|j: int| i <= j < m ==> (#[trigger] ps[j]).0 != k,
    ensures
        lookup_from(ps, k, i) == lookup_from(ps, k, m),
    decreases m - i,
{
    if i < m {
        lookup_nomatch_prefix(ps, k, i + 1, m);
    }
}

proof fn lookup_update_other(
    ps: Seq<(Seq<char>, Seq<char>)>,
    j: int,
    p: (Seq<char>, Seq<char>),
    k: Seq<char>,
    i: int,
)
    requires
        0 <= j < ps.len(),
        ps[j].0 == p.0,
        k != p.0,
        0 <= i <= ps.len(),
    ensures
        lookup_from(ps.update(j, p), k, i) == lookup_from(ps, k, i),
    decreases ps.len() - i,
{
    if i < ps.len() {
        lookup_update_other(ps, j, p, k, i + 1);
    }
}

proof fn lookup_push_other(
    ps: Seq<(Seq<char>, Seq<char>)>,
    p: (Seq<char>, Seq<char>),
    k: Seq<char>,
    i: int,
)
    requires
        k != p.0,
        0 <= i <= ps.len(),
    ensures
        lookup_from(ps.push(p), k, i) == lookup_from(ps, k, i),
    decreases ps.len() + 1 - i,
{
    if i < ps.len() {
        lookup_push_other(ps, p, k, i + 1);
    } else {
        assert(ps.push(p)[i].0 != k);
        assert(lookup_from(ps.push(p), k, i + 1) is None);
    }
}

/// A mapping from variable names to string values. Keys are unique;
/// inserting an existing key overwrites its value.
pub struct VarContext {
    pairs: Vec<(String, String)>,
}

impl VarContext {
    /// The key/value pairs held, as sequences of characters.
    pub closed spec fn pairs_view(self) -> Seq<(Seq<char>, Seq<char>)> {
        self.pairs.deep_view()
    }

    /// The value bound to `k`, if any.
    pub open spec fn spec_get(self, k: Seq<char>) -> Option<Seq<char>> {
        lookup_from(self.pairs_view(), k, 0)
    }

    /// Keys are pairwise distinct.
    pub closed spec fn wf(self) -> bool {
        forall|i: int, j: int|
            0 <= i < j < self.pairs_view().len() ==> (#[trigger] self.pairs_view()[i]).0 != (
            #[trigger] self.pairs_view()[j]).0
    }

    /// An empty context: no name is bound.
    pub fn new() -> (ctx: VarContext)
        ensures
            forall|k: Seq<char>| ctx.spec_get(k) is None,
            ctx.wf(),
    {
        let ctx = VarContext { pairs: Vec::new() };
        proof {
            assert(ctx.pairs.deep_view() =~= Seq::<(Seq<char>, Seq<char>)>::empty());
        }
        ctx
    }

    /// Binds `key` to `value`, replacing any earlier binding of `key` and
    /// leaving every other binding unchanged.
    pub fn insert(&mut self, key: &str, value: &str)
        ensures
            final(self).spec_get(key@) == Some(value@),
            forall|k: Seq<char>|
                k != key@ ==> (#[trigger] final(self).spec_get(k)) == old(self).spec_get(k),
            old(self).wf() ==> final(self).wf(),
    {
        let ghost ps = self.pairs.deep_view();
        let n = self.pairs.len();
        let mut j: usize = 0;
        while j < n
            invariant
                n == self.pairs@.len(),
                self.pairs@ == old(self).pairs@,
                ps == self.pairs.deep_view(),
                ps == old(self).pairs.deep_view(),
                j <= n,
                forall|jj: int| 0 <= jj < j ==> (#[trigger] ps[jj]).0 != key@,
            decreases n - j,
        {
            if crate::chars::str_eq(self.pairs[j].0.as_str(), key) {
                let ghost jj = j as int;
                let ghost p = (key@, value@);
                self.pairs[j] = (key.to_owned(), value.to_owned());
                proof {
                    assert(self.pairs.deep_view() =~= ps.update(jj, p));
                    let newv = self.pairs.deep_view();
                    assert(newv == ps.update(jj, p));
                    assert forall|x: int| 0 <= x < jj implies (#[trigger] newv[x]).0 != key@ by {
                        assert(newv[x] == ps[x]);
                    }
                    lookup_nomatch_prefix(newv, key@, 0, jj);
                    assert(newv[jj] == p);
                    assert(lookup_from(newv, key@, jj) == Some(value@));
                    assert(self.spec_get(key@) == Some(value@));
                    assert forall|k: Seq<char>| k != key@ implies self.spec_get(k) == lookup_from(
                        ps,
                        k,
                        0,
                    ) by {
                        lookup_update_other(ps, jj, p, k, 0);
                    }
                    assert forall|x: int| 0 <= x < newv.len() implies (#[trigger] newv[x]).0 == ps[
                        x
                    ].0 by {
                        if x != jj {
                            assert(newv[x] == ps[x]);
                        }
                    }
                }
                return ;
            }
            j += 1;
        }
        let ghost p = (key@, value@);
        self.pairs.push((key.to_owned(), value.to_owned()));
        proof {
            assert(self.pairs.deep_view() =~= ps.push(p));
            let newv = self.pairs.deep_view();
            assert(newv == ps.push(p));
            assert forall|x: int| 0 <= x < ps.len() implies (#[trigger] newv[x]).0 != key@ by {
                assert(newv[x] == ps[x]);
            }
            lookup_nomatch_prefix(newv, key@, 0, ps.len() as int);
            assert(newv[ps.len() as int] == p);
            assert(lookup_from(newv, key@, ps.len() as int) == Some(value@));
            assert(self.spec_get(key@) == Some(value@));
            assert forall|k: Seq<char>| k != key@ implies self.spec_get(k) == lookup_from(
                ps,
                k,
                0,
            ) by {
                lookup_push_other(ps, p, k, 0);
            }
        }
    }

    /// Looks `key` up, returning a copy of its value.
    pub fn get(&self, key: &str) -> (r: Option<String>)
        ensures
            match r {
                Some(v) => self.spec_get(key@) == Some(v@),
                None => self.spec_get(key@) is None,
            },
    {
        let ghost ps = self.pairs.deep_view();
        let n = self.pairs.len();
        let mut j: usize = 0;
        while j < n
            invariant
                n == self.pairs@.len(),
                ps == self.pairs.deep_view(),
                j <= n,
                lookup_from(ps, key@, 0) == lookup_from(ps, key@, j as int),
            decreases n - j,
        {
            if crate::chars::str_eq(self.pairs[j].0.as_str(), key) {
                return Some(self.pairs[j].1.clone());
            }
            j += 1;
        }
        None
    }
}

/// Assembles the rendering context for a scaffold run: the project name
/// with its kebab-case and PascalCase variants (derived from the name's
/// detected casing), the crate versions fetched by the caller, and the
/// rendering-method identifiers.
pub fn build_context(
    project_name: &str,
    engine_version: &str,
    rendering_method: &str,
    rendering_method_formatted: &str,
    godot_version: &str,
    bevy_ecs_version: &str,
) -> (ctx: VarContext)
    ensures
        ctx.wf(),
        ctx.spec_get("project_name"@) == Some(project_name@),
        ctx.spec_get("project_kebab_name"@) == Some(
            spec_to_kebab(project_name@, spec_classify(project_name@)),
        ),
        ctx.spec_get("struct_name"@) == Some(
            spec_to_pascal(project_name@, spec_classify(project_name@)),
        ),
        ctx.spec_get("godot_version"@) == Some(godot_version@),
        ctx.spec_get("bevy_ecs_version"@) == Some(bevy_ecs_version@),
        ctx.spec_get("engine_version"@) == Some(engine_version@),
        ctx.spec_get("rendering_method"@) == Some(rendering_method@),
        ctx.spec_get("rendering_method_formatted"@) == Some(rendering_method_formatted@),
{
    proof {
        reveal_strlit("project_name");
        reveal_strlit("project_kebab_name");
        reveal_strlit("struct_name");
        reveal_strlit("godot_version");
        reveal_strlit("bevy_ecs_version");
        reveal_strlit("engine_version");
        reveal_strlit("rendering_method");
        reveal_strlit("rendering_method_formatted");
        assert("project_name"@.len() == 12);
        assert("project_kebab_name"@.len() == 18);
        assert("struct_name"@.len() == 11);
        assert("godot_version"@.len() == 13);
        assert("bevy_ecs_version"@.len() == 16);
        assert("engine_version"@.len() == 14);
        assert("rendering_method"@.len() == 16);
        assert("rendering_method_formatted"@.len() == 26);
        assert("bevy_ecs_version"@[0] == 'b');
        assert("rendering_method"@[0] == 'r');
    }
    let detected = crate::naming::detect_casing(project_name);
    let kebab_name = crate::naming::split_into_kebab_case(project_name, detected);
    let pascal_name = crate::naming::split_into_pascal_case(&project_name.to_owned(), detected);
    let mut ctx = VarContext::new();
    ctx.insert("project_name", project_name);
    ctx.insert("project_kebab_name", kebab_name.as_str());
    proof {
        assert(ctx.spec_get("project_name"@) == Some(project_name@));
    }
    ctx.insert("struct_name", pascal_name.as_str());
    proof {
        assert(ctx.spec_get("project_name"@) == Some(project_name@));
        assert(ctx.spec_get("project_kebab_name"@) == Some(kebab_name@));
    }
    ctx.insert("godot_version", godot_version);
    proof {
        assert(ctx.spec_get("project_name"@) == Some(project_name@));
        assert(ctx.spec_get("project_kebab_name"@) == Some(kebab_name@));
        assert(ctx.spec_get("struct_name"@) == Some(pascal_name@));
    }
    ctx.insert("bevy_ecs_version", bevy_ecs_version);
    proof {
        assert(ctx.spec_get("project_name"@) == Some(project_name@));
        assert(ctx.spec_get("project_kebab_name"@) == Some(kebab_name@));
        assert(ctx.spec_get("struct_name"@) == Some(pascal_name@));
        assert(ctx.spec_get("godot_version"@) == Some(godot_version@));
    }
    ctx.insert("engine_version", engine_version);
    proof {
        assert(ctx.spec_get("project_name"@) == Some(project_name@));
        assert(ctx.spec_get("project_kebab_name"@) == Some(kebab_name@));
        assert(ctx.spec_get("struct_name"@) == Some(pascal_name@));
        assert(ctx.spec_get("godot_version"@) == Some(godot_version@));
        assert(ctx.spec_get("bevy_ecs_version"@) == Some(bevy_ecs_version@));
    }
    ctx.insert("rendering_method", rendering_method);
    proof {
        assert(ctx.spec_get("project_name"@) == Some(project_name@));
        assert(ctx.spec_get("project_kebab_name"@) == Some(kebab_name@));
        assert(ctx.spec_get("struct_name"@) == Some(pascal_name@));
        assert(ctx.spec_get("godot_version"@) == Some(godot_version@));
        assert(ctx.spec_get("bevy_ecs_version"@) == Some(bevy_ecs_version@));
        assert(ctx.spec_get("engine_version"@) == Some(engine_version@));
    }
    ctx.insert("rendering_method_formatted", rendering_method_formatted);
    proof {
        assert(ctx.spec_get("project_name"@) == Some(project_name@));
        assert(ctx.spec_get("project_kebab_name"@) == Some(kebab_name@));
        assert(ctx.spec_get("struct_name"@) == Some(pascal_name@));
        assert(ctx.spec_get("godot_version"@) == Some(godot_version@));
        assert(ctx.spec_get("bevy_ecs_version"@) == Some(bevy_ecs_version@));
        assert(ctx.spec_get("engine_version"@) == Some(engine_version@));
        assert(ctx.spec_get("rendering_method"@) == Some(rendering_method@));
    }
    ctx
}

} // verus!
