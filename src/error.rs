use vstd::prelude::*;

verus! {

/// The kinds of failure that the pipeline reports to its caller.
#[derive(Debug, Clone, Copy, PartialEq, Eq, Structural)]
pub enum RangleError {
    /// The display back end failed to present a frame.
    DisplayBackend,
    /// A mesh file could not be opened or read.
    Io,
    /// A mesh file held a malformed number.
    ParseFloat,
    /// A mesh file held a malformed index.
    ParseInt,
    /// A per-vertex attribute was added under a name already present.
    DuplicateShaderAttributes,
    /// Reserved: a uniform was set twice under stricter semantics.
    DuplicateShaderUniforms,
    /// Reserved: a required shader stage was missing.
    MissingShader,
}

} // verus!
