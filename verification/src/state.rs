use vstd::prelude::*;
use crate::error::Error;
use crate::frame::{ColV, DataFrame, res_view};

verus! {

/// The execution context an operator runs under: the cooperative stop
/// flag, the verbosity flag, whether per-node timing is active, and the
/// timing-record handle (here, the list of recorded profiling labels).
/// The operator reads everything but the record handle.
pub struct ExecutionState {
    pub cancelled: bool,
    pub verbose: bool,
    pub node_timer: bool,
    pub records: Vec<String>,
}

impl ExecutionState {
    /// A fresh context: nothing cancelled, nothing recorded, no timing.
    pub fn new() -> (s: ExecutionState)
        ensures
            !s.cancelled,
            !s.verbose,
            !s.node_timer,
            s.records@ =~= Seq::<String>::empty(),
    {
        ExecutionState { cancelled: false, verbose: false, node_timer: false, records: Vec::new() }
    }

    /// Queries the cooperative stop flag; polled exactly once per call,
    /// at entry.
    pub fn should_stop(&self) -> (b: bool)
        ensures
            b == self.cancelled,
    {
        self.cancelled
    }

    /// Whether per-node timing is active.
    pub fn has_node_timer(&self) -> (b: bool)
        ensures
            b == self.node_timer,
    {
        self.node_timer
    }

    /// Appends one profiling label to the timing record.
    pub fn record(&mut self, label: String)
        ensures
            final(self).records@ == old(self).records@.push(label),
            final(self).cancelled == old(self).cancelled,
            final(self).verbose == old(self).verbose,
            final(self).node_timer == old(self).node_timer,
    {
        self.records.push(label);
    }
}

/// The wrapped input operator: pulling it yields the configured table or
/// the configured failure, and counts the pull.
pub struct Source {
    /// What every pull yields, fixed at construction.
    pub data: Result<DataFrame, Error>,
    /// How often the operator has been pulled.
    pub pulls: u64,
}

/// What pulling a source yields, at the view level.
pub open spec fn spec_pull(s: Source) -> Result<Seq<ColV>, Error> {
    match s.data {
        Ok(df) => Ok(df@),
        Err(e) => Err(e),
    }
}

impl Source {
    /// An operator that yields `df` on every pull.
    pub fn from_frame(df: DataFrame) -> (s: Source)
        ensures
            s.data == Ok::<DataFrame, Error>(df),
            s.pulls == 0,
    {
        Source { data: Ok(df), pulls: 0 }
    }

    /// Pulls the operator once: yields the configured outcome and counts
    /// the pull (the count saturates rather than wrap).
    pub fn execute(&mut self) -> (r: Result<DataFrame, Error>)
        ensures
            res_view(r) == spec_pull(*old(self)),
            final(self).data == old(self).data,
            old(self).pulls < u64::MAX ==> final(self).pulls == old(self).pulls + 1,
            old(self).pulls == u64::MAX ==> final(self).pulls == u64::MAX,
    {
        if self.pulls < u64::MAX {
            self.pulls = self.pulls + 1;
        }
        match &self.data {
            Ok(df) => Ok(df.duplicate()),
            Err(e) => Err(*e),
        }
    }
}

} // verus!
