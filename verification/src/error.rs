use vstd::prelude::*;

verus! {

/// Failure taxonomy of the rolling group-by operator.
///
/// Every failure propagates to the caller unchanged: the operator performs no
/// local recovery and no retries. A zero-group result is not an error; it is
/// an ordinary empty table.
#[derive(Clone, Copy, Debug, PartialEq, Eq, Structural)]
pub enum Error {
    /// The windowed-grouping capability is disabled for this configuration;
    /// every call fails immediately with this error.
    ConfigurationUnavailable,
    /// The cooperative stop flag was set when the call began.
    Cancelled,
    /// The wrapped input operator failed; its error is surfaced verbatim.
    Upstream,
    /// A key or aggregation expression failed to evaluate or to resolve its
    /// output name against the schema.
    Expression,
    /// The grouper rejected its input (bad window options, missing or
    /// non-monotonic ordering column).
    Grouping,
    /// The per-group user callback failed.
    UserCallback,
    /// The final table could not be assembled (duplicate column names or
    /// inconsistent column lengths).
    Assembly,
    /// A group set referred to a row outside the table it was built for.
    /// Group indices are an internal invariant, so this is reported as an
    /// internal-consistency failure rather than treated as unreachable.
    InternalConsistency,
}

} // verus!
