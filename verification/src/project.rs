//! The project being scaffolded: the path templates for its core and
//! engine directories, its rendering method, and the directory layout
//! derived from a project name.

use vstd::prelude::*;
use vstd::string::StringExecFns;

use crate::naming::Casing;
use crate::naming::spec_to_kebab;

verus! {

/// Index of the first occurrence of the token `{}` in `s` at or after
/// position `i`; negative when there is none.
pub open spec fn find_braces_from(s: Seq<char>, i: int) -> int
    recommends
        0 <= i,
    decreases s.len() - i,
{
    if i < 0 || i + 2 > s.len() {
        -1
    } else if s[i] == '{' && s[i + 1] == '}' {
        i
    } else {
        find_braces_from(s, i + 1)
    }
}

/// `s` with its first `{}` token, if any, replaced by `v`.
pub open spec fn spec_replace_first_braces(s: Seq<char>, v: Seq<char>) -> Seq<char> {
    let i = find_braces_from(s, 0);
    if i < 0 {
        s
    } else {
        s.subrange(0, i) + v + s.subrange(i + 2, s.len() as int)
    }
}

/// Replaces the first `{}` token of `s`, if any, with `value`.
fn replace_first_braces(s: &str, value: &str) -> (r: String)
    ensures
        r@ == spec_replace_first_braces(s@, value@),
{
    let v = crate::chars::str_to_chars(s);
    let n = v.len();
    let mut i: usize = 0;
    while i < n
        invariant
            n == v@.len(),
            v@ == s@,
            i <= n,
            find_braces_from(s@, 0) == find_braces_from(s@, i as int),
        decreases n - i,
    {
        if v[i] == '{' && i + 1 < n && v[i + 1] == '}' {
            let mut acc: Vec<char> = Vec::new();
            let mut k: usize = 0;
            while k < i
                invariant
                    k <= i < n,
                    n == v@.len(),
                    acc@ == v@.subrange(0, k as int),
                decreases i - k,
            {
                acc.push(v[k]);
                k += 1;
                proof {
                    assert(acc@ =~= v@.subrange(0, k as int));
                }
            }
            let w = crate::chars::str_to_chars(value);
            let mut k2: usize = 0;
            while k2 < w.len()
                invariant
                    k2 <= w@.len(),
                    w@ == value@,
                    i < n,
                    n == v@.len(),
                    acc@ == v@.subrange(0, i as int) + w@.subrange(0, k2 as int),
                decreases w@.len() - k2,
            {
                acc.push(w[k2]);
                k2 += 1;
                proof {
                    assert(acc@ =~= v@.subrange(0, i as int) + w@.subrange(0, k2 as int));
                }
            }
            let mut k3: usize = i + 2;
            while k3 < n
                invariant
                    i + 2 <= k3 <= n,
                    n == v@.len(),
                    w@ == value@,
                    acc@ == v@.subrange(0, i as int) + w@ + v@.subrange(i + 2, k3 as int),
                decreases n - k3,
            {
                acc.push(v[k3]);
                k3 += 1;
                proof {
                    assert(acc@ =~= v@.subrange(0, i as int) + w@ + v@.subrange(
                        i + 2,
                        k3 as int,
                    ));
                }
            }
            proof {
                assert(w@.subrange(0, 0) =~= Seq::<char>::empty());
                assert(v@.subrange(0, i as int) + w@.subrange(0, 0) =~= v@.subrange(0, i as int));
                assert(v@.subrange(i + 2, (i + 2) as int) =~= Seq::<char>::empty());
                assert(v@.subrange(0, i as int) + w@ + v@.subrange(i + 2, (i + 2) as int) =~= v@
                    .subrange(0, i as int) + w@);
                assert(acc@ =~= spec_replace_first_braces(s@, value@));
            }
            return crate::chars::chars_to_string(&acc);
        }
        i += 1;
    }
    proof {
        assert(find_braces_from(s@, i as int) == -1);
    }
    s.to_owned()
}

/// The rendering method: its display name and its identifier.
struct RenderingMethod {
    method: String,
    identifier: String,
}

/// A project to scaffold: path templates for the core (library) and
/// engine directories, and the rendering method.
pub struct Project {
    core_project: String,
    engine_project: String,
    rendering_method: RenderingMethod,
}

impl Project {
    /// The path template of the core directory.
    pub closed spec fn core_template(self) -> Seq<char> {
        self.core_project@
    }

    /// The path template of the engine directory.
    pub closed spec fn engine_template(self) -> Seq<char> {
        self.engine_project@
    }

    /// The rendering method's display name.
    pub closed spec fn method_name(self) -> Seq<char> {
        self.rendering_method.method@
    }

    /// The rendering method's identifier.
    pub closed spec fn method_identifier(self) -> Seq<char> {
        self.rendering_method.identifier@
    }
}

impl Default for Project {
    /// The default project layout: the engine directory under the
    /// kebab-case root, the core directory beside it, and the Forward
    /// Plus rendering method.
    fn default() -> (p: Project)
        ensures
            p.core_template() == "{}/{}_core"@,
            p.engine_template() == "{}/{}"@,
            p.method_name() == "Forward Plus"@,
            p.method_identifier() == "forward_plus"@,
    {
        Project {
            core_project: "{}/{}_core".to_owned(),
            engine_project: "{}/{}".to_owned(),
            rendering_method: RenderingMethod {
                method: "Forward Plus".to_owned(),
                identifier: "forward_plus".to_owned(),
            },
        }
    }
}

/// The directory paths that scaffolding a project named `name` creates,
/// in creation order: the kebab-case root, the engine directory, the
/// core directory, and the core's source directory.
pub open spec fn spec_structure_paths(p: Project, name: Seq<char>) -> Seq<Seq<char>> {
    let kebab = spec_to_kebab(name, Casing::SnakeCase);
    let core = spec_replace_first_braces(spec_replace_first_braces(p.core_template(), kebab), name);
    let engine = spec_replace_first_braces(
        spec_replace_first_braces(p.engine_template(), kebab),
        kebab,
    );
    seq![kebab, engine, core, core + "/src"@]
}

impl Project {
    /// Computes the directory paths [`spec_structure_paths`] describes.
    /// Creating them on disk is the caller's task; this function only
    /// derives the layout.
    pub fn structure_paths(&self, name: &str) -> (r: Vec<String>)
        ensures
            r.deep_view() == spec_structure_paths(*self, name@),
    {
        let kebab = crate::naming::split_into_kebab_case(name, Casing::SnakeCase);
        let core1 = replace_first_braces(self.core_project.as_str(), kebab.as_str());
        let core = replace_first_braces(core1.as_str(), name);
        let engine1 = replace_first_braces(self.engine_project.as_str(), kebab.as_str());
        let engine = replace_first_braces(engine1.as_str(), kebab.as_str());
        let core_src = core.clone().concat("/src");
        let mut r: Vec<String> = Vec::new();
        r.push(kebab);
        r.push(engine);
        r.push(core);
        r.push(core_src);
        proof {
            assert(r.deep_view() =~= spec_structure_paths(*self, name@));
        }
        r
    }

    /// Maps a rendering-method identifier to its display name, falling
    /// back to `Forward Plus` for anything unrecognised.
    pub fn format_rendering_method(identifier: &str) -> (r: String)
        ensures
            r@ == crate::rendering_method::spec_format_rendering_method(identifier@),
    {
        if crate::chars::str_eq(identifier, "forward_plus") {
            "Forward Plus".to_owned()
        } else if crate::chars::str_eq(identifier, "gl_compatibility") {
            "GL Compatibility".to_owned()
        } else if crate::chars::str_eq(identifier, "mobile") {
            "Mobile".to_owned()
        } else {
            "Forward Plus".to_owned()
        }
    }
}

} // verus!
