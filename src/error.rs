use vstd::prelude::*;

verus! {

/// The ways in which rewriting a chapter can fail.
#[derive(Debug, Clone, Copy, PartialEq, Eq, Structural)]
pub enum UwuError {
    /// The scratch buffers for a text span cannot be sized: the bound that the
    /// transform needs does not fit in `usize`.
    BufferBound,
    /// The transform produced bytes that are not UTF-8.
    NotUtf8,
    /// The rewritten events could not be rendered back into Markdown.
    Serialize,
}

impl UwuError {
    /// A short description of the error.
    pub fn message(&self) -> (r: &'static str) {
        match self {
            UwuError::BufferBound => "text span too long for the transform buffers",
            UwuError::NotUtf8 => "transform produced invalid UTF-8",
            UwuError::Serialize => "could not render the rewritten events as Markdown",
        }
    }
}

} // verus!
