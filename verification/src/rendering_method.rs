//! Formatting of the rendering-method identifier into its display name.

use vstd::prelude::*;

verus! {

/// The display name of a rendering-method identifier; an unknown
/// identifier falls back to the default method's display name.
pub open spec fn spec_format_rendering_method(s: Seq<char>) -> Seq<char> {
    if s == "forward_plus"@ {
        "Forward Plus"@
    } else if s == "gl_compatibility"@ {
        "GL Compatibility"@
    } else if s == "mobile"@ {
        "Mobile"@
    } else {
        "Forward Plus"@
    }
}

/// Maps a rendering-method identifier to its display name, falling back
/// to `Forward Plus` for anything unrecognised.
pub fn format_rendering_method(rendering_method: &String) -> (r: String)
    ensures
        r@ == spec_format_rendering_method(rendering_method@),
{
    if crate::chars::str_eq(rendering_method.as_str(), "forward_plus") {
        "Forward Plus".to_owned()
    } else if crate::chars::str_eq(rendering_method.as_str(), "gl_compatibility") {
        "GL Compatibility".to_owned()
    } else if crate::chars::str_eq(rendering_method.as_str(), "mobile") {
        "Mobile".to_owned()
    } else {
        "Forward Plus".to_owned()
    }
}

} // verus!
