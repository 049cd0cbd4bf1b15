//! The errors the scaffolding pipeline can report before or instead of
//! writing anything.

use vstd::prelude::*;

verus! {

/// What went wrong while discovering, validating or rendering a
/// template tree. Filesystem failures stay with the caller; these are
/// the pipeline's own error kinds.
#[derive(Debug)]
pub enum ScaffoldError {
    /// The destination root does not exist.
    NotFound,
    /// Every destination path that already exists, in the order the
    /// pipeline would have written them.
    Conflicts(Vec<String>),
    /// A placeholder referenced a name absent from the context; `path`
    /// names the path or template in which it occurred.
    MissingVariable { name: String, path: String },
    /// A path or file content is not representable as text.
    InvalidEncoding { path: String },
    /// A template could not be rendered: malformed placeholder syntax,
    /// or a destination name left without its template marker.
    RenderError { template: String, message: String },
}

impl ScaffoldError {
    /// A short description of the error kind, for display by callers.
    pub fn kind_message(&self) -> (r: String)
        ensures
            r@ == match *self {
                ScaffoldError::NotFound => "destination directory does not exist"@,
                ScaffoldError::Conflicts(..) => "destination has conflicting files"@,
                ScaffoldError::MissingVariable { .. } => "variable not found in context"@,
                ScaffoldError::InvalidEncoding { .. } => "invalid encoding"@,
                ScaffoldError::RenderError { .. } => "failed to render template"@,
            },
    {
        match self {
            ScaffoldError::NotFound => "destination directory does not exist".to_owned(),
            ScaffoldError::Conflicts(..) => "destination has conflicting files".to_owned(),
            ScaffoldError::MissingVariable { .. } => "variable not found in context".to_owned(),
            ScaffoldError::InvalidEncoding { .. } => "invalid encoding".to_owned(),
            ScaffoldError::RenderError { .. } => "failed to render template".to_owned(),
        }
    }
}

} // verus!
