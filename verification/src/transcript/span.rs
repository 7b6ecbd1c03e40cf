use vstd::prelude::*;

verus! {

/// Where one record's line sits in the file: the index holds these rather
/// than the lines themselves.
#[derive(Debug, Clone, Copy, PartialEq, Eq, Structural)]
pub struct RecordSpan {
    pub offset: u64,
    pub len: usize,
}

} // verus!
