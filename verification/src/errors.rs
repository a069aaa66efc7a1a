//! The two-variant error union carried through the pipeline.

use vstd::prelude::*;

verus! {

/// A failure of a pipeline stage: either the network transport (including a
/// response body that is not JSON at all), or the decoding of the payload
/// into a weather reading. Each variant carries the underlying failure's
/// message and nothing more.
#[derive(Debug)]
pub enum OperationError {
    Transport(String),
    Decode(String),
}

impl OperationError {
    pub open spec fn spec_message(self) -> Seq<char> {
        match self {
            OperationError::Transport(m) => m@,
            OperationError::Decode(m) => m@,
        }
    }

    /// The underlying failure's message, with no context added.
    pub fn message(&self) -> (r: &str)
        ensures
            r@ == self.spec_message(),
    {
        match self {
            OperationError::Transport(m) => m.as_str(),
            OperationError::Decode(m) => m.as_str(),
        }
    }
}

} // verus!
