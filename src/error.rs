use vstd::prelude::*;
use crate::kind::ShaderKind;

verus! {

/// What can go wrong while building a tree of shaders.
#[derive(Debug)]
pub enum Error {
    /// A requested kind has no known source extension.
    UnsupportedKind(ShaderKind),
    /// The search expression built for a kind was refused by the pattern matcher.
    BadGlobPattern(String),
    /// Walking the matches of a search expression failed at some entry.
    GlobTraversal(String),
    /// A file could not be read, created or written.
    Io(String),
    /// The compiler could not be set up.
    CompilerInit,
    /// The compiler refused a source.
    Compilation(String),
    /// Some sources failed to compile; one error per failed source, in order.
    BatchError(Vec<Error>),
}

} // verus!
