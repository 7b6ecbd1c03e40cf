use vstd::prelude::*;

verus! {

/// What one model request cost, as the agent recorded it.
#[derive(Debug, Clone, Copy, Default, PartialEq, Eq, Structural)]
pub struct Usage {
    pub input_tokens: u64,
    pub output_tokens: u64,
    pub cache_written: u64,
    pub cache_read: u64,
}

/// `a + b`, held at `u64::MAX` rather than wrapping.
pub open spec fn saturated(a: int, b: int) -> int {
    if a + b > u64::MAX {
        u64::MAX as int
    } else {
        a + b
    }
}

impl Usage {
    /// Everything the model was sent for this request, cached and uncached,
    /// saturating at `u64::MAX`.
    pub fn context_used(&self) -> (used: u64)
        ensures
            used == saturated(
                saturated(self.input_tokens as int, self.cache_written as int),
                self.cache_read as int,
            ),
    {
        self.input_tokens.saturating_add(self.cache_written).saturating_add(self.cache_read)
    }

    /// Whether this record carried a usage block at all.
    pub fn is_empty(&self) -> (empty: bool)
        ensures
            empty <==> (self.input_tokens == 0 && self.output_tokens == 0 && self.cache_written
                == 0 && self.cache_read == 0),
    {
        self.input_tokens == 0 && self.output_tokens == 0 && self.cache_written == 0
            && self.cache_read == 0
    }
}

} // verus!
