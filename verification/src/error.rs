//! Error values.

use vstd::prelude::*;

verus! {

/// Why the scene buffer refused an operation.  A refused operation leaves the
/// buffer as it was.
#[derive(Clone, Copy, Debug, PartialEq, Eq, Structural)]
pub enum MeshError {
    /// The parallel arrays handed to the constructor do not line up.
    LengthMismatch,
    /// The geometry does not fit the storage that was sized up front.
    CapacityExceeded,
    /// A chunk index that no registered chunk has.
    UnknownChunk,
    /// A triangle that names a missing vertex, or whose vertices disagree
    /// with each other or with the triangle on chunk or priority.
    MalformedTriangle,
    /// The window is wider or taller than the hard maximum.
    WindowTooLarge,
    /// The bin table is too short for the window's cell grid.
    BinTableTooSmall,
    /// The per-frame facts do not cover every chunk, triangle and vertex.
    FrameMismatch,
}

/// An error raised while preparing or running a shader.
#[derive(Debug)]
pub struct ShaderError {
    pub details: String,
}

/// The text that a shader error with the details `details` is reported as:
/// the tag `[Shader Error] ` followed by the details as `std` renders a
/// string for debugging, in quotes and with escapes.
pub uninterp spec fn shader_report(details: Seq<char>) -> Seq<char>;

/// `format!` from `std` with the pattern `[Shader Error] {:?}` on the
/// details.  The contract names the text and says nothing more of it.
#[verifier::external_body]
fn report(details: &String) -> (text: String)
    ensures
        text@ == shader_report(details@),
{
    format!("[Shader Error] {:?}", details)
}

impl ShaderError {
    pub fn new(details: String) -> (r: Self)
        ensures
            r.details == details,
    {
        ShaderError { details }
    }

    /// The error as one line of text.
    pub fn describe(&self) -> (text: String)
        ensures
            text@ == shader_report(self.details@),
    {
        report(&self.details)
    }
}

} // verus!
