//! The base directory layout derived from a project name: the
//! kebab-case root, the engine directory under it, and the core library
//! directory with its source folder.

use vstd::prelude::*;
use vstd::string::StringExecFns;

use crate::naming::Casing;
use crate::naming::spec_to_kebab;

verus! {

/// The directories scaffolding creates for a snake_case project name,
/// in creation order.
pub open spec fn spec_structure_paths(name: Seq<char>) -> Seq<Seq<char>> {
    let kebab = spec_to_kebab(name, Casing::SnakeCase);
    seq![
        kebab,
        kebab + "/"@ + kebab,
        kebab + "/"@ + name + "_core"@,
        kebab + "/"@ + name + "_core/src"@,
    ]
}

/// Computes the base directory paths for the project `name`: the
/// kebab-case root, the engine directory named like the root inside it,
/// and the core directory with its source folder. Creating them on disk
/// is the caller's task.
pub fn structure_paths(name: &String) -> (r: Vec<String>)
    ensures
        r.deep_view() == spec_structure_paths(name@),
{
    let kebab = crate::naming::split_into_kebab_case(name.as_str(), Casing::SnakeCase);
    let engine = kebab.clone().concat("/").concat(kebab.as_str());
    let core = kebab.clone().concat("/").concat(name.as_str()).concat("_core");
    let core_src = kebab.clone().concat("/").concat(name.as_str()).concat("_core/src");
    let mut r: Vec<String> = Vec::new();
    r.push(kebab);
    r.push(engine);
    r.push(core);
    r.push(core_src);
    proof {
        assert(r.deep_view() =~= spec_structure_paths(name@));
    }
    r
}

} // verus!
