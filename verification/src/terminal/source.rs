use vstd::prelude::*;

verus! {

/// Where a pane's bytes come from, which decides who answers the pane's
/// device queries.
///
/// `Streamed`: the pane publishes its own bytes and this process owns the far
/// end, so this process is the terminal. `Relayed`: the program's own bytes,
/// relayed by a shim that is itself the terminal and has already answered.
#[derive(Debug, Clone, Copy, PartialEq, Eq, Structural)]
pub enum PaneSource {
    Streamed,
    Relayed,
}

impl PaneSource {
    /// Whether this process answers the pane's device queries: exactly one
    /// thing may answer a `DSR` or a `DA`, and for a relayed pane it is the shim.
    pub fn answers_queries(self) -> (answers: bool)
        ensures
            answers <==> self == PaneSource::Streamed,
    {
        match self {
            PaneSource::Streamed => true,
            PaneSource::Relayed => false,
        }
    }
}

} // verus!
