//! The model-facing message an agent record wraps.
use vstd::prelude::*;
use crate::transcript::body::MessageBody;
use crate::transcript::usage::Usage;

verus! {

/// The model-facing message an agent record wraps.
#[derive(Debug, Default)]
pub struct Message {
    pub role: Option<String>,
    pub content: MessageBody,
    /// What the model was sent and produced: on an assistant record and on
    /// nothing else.
    pub usage: Option<Usage>,
    /// Which model is working, for display: nothing branches on it.
    pub model: Option<String>,
}

} // verus!
