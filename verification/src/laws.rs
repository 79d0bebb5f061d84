use vstd::prelude::*;
use crate::error::Error;
use crate::expr::{AggExpr, lemma_eval_aggs_names, lemma_eval_keys_names, spec_eval_aggs, spec_eval_keys};
use crate::frame::{ColV, df_names, df_wf, df_height, spec_slice};
use crate::groups::{gv_len, gv_slice};
use crate::rolling::spec_rolling;
use crate::state::ExecutionState;
use crate::exec::{GroupByRollingExec, key_names, spec_aligned_keys, spec_core, spec_execute};
use crate::udf::DataFrameUdf;

verus! {

/// Idempotence: under a fixed input and a fixed configuration — no
/// callback, no result window — and a fresh cancellation state, repeated
/// calls yield identical outputs: the outcome does not depend on how
/// often the input has been pulled or on what the timing record already
/// holds.
pub proof fn lemma_execute_idempotent<F: DataFrameUdf>(
    e1: GroupByRollingExec<F>,
    e2: GroupByRollingExec<F>,
    st1: ExecutionState,
    st2: ExecutionState,
)
    requires
        e1.apply is None,
        e1.slice is None,
        e2.apply is None,
        e2.slice is None,
        e1.input.data == e2.input.data,
        e1.keys@ == e2.keys@,
        e1.aggs@ == e2.aggs@,
        e1.options == e2.options,
        e1.input_schema@ == e2.input_schema@,
        e1.enabled == e2.enabled,
        !st1.cancelled,
        !st2.cancelled,
        st1.node_timer == st2.node_timer,
    ensures
        spec_execute(e1, st1) == spec_execute(e2, st2),
{
    if e1.enabled {
        match e1.input.data {
            Ok(df) => {
                assert(spec_core(e1, df@) == spec_core(e2, df@));
            },
            Err(_) => {},
        }
    }
}

/// Slice correctness, forward case: a result window with offset ≥ 0
/// retains exactly the groups of `[offset, offset + length)`, clipped
/// to the available group count.
pub proof fn lemma_result_window_forward(gv: crate::groups::GroupsV, offset: int, length: int)
    requires
        0 <= offset,
        0 <= length,
    ensures
        gv_slice(gv, offset, length).1 == gv.1.subrange(
            if offset <= gv.1.len() {
                offset
            } else {
                gv.1.len() as int
            },
            if offset + length <= gv.1.len() {
                offset + length
            } else {
                gv.1.len() as int
            },
        ),
{
    crate::frame::lemma_slice_forward(gv.1, offset, length);
}

/// Slice correctness, tail case: a result window with a negative offset
/// counts from the end; with `length == -offset` it retains the last
/// `|offset|` groups, bounded by the available count.
pub proof fn lemma_result_window_tail(gv: crate::groups::GroupsV, offset: int)
    requires
        offset < 0,
    ensures
        gv_slice(gv, offset, -offset).1 == gv.1.subrange(
            if gv.1.len() + offset >= 0 {
                gv.1.len() + offset
            } else {
                0
            },
            gv.1.len() as int,
        ),
{
    crate::frame::lemma_slice_tail(gv.1, offset);
}

/// The number of groups a call retains: the grouper's group count, cut
/// by the result window.
pub open spec fn retained_groups<F: DataFrameUdf>(e: GroupByRollingExec<F>, df: Seq<ColV>) -> nat {
    match spec_rolling(df, e.options) {
        Ok(rg) => {
            match e.slice {
                Some(w) => gv_len(gv_slice(rg.1, w.0 as int, w.1 as int)),
                None => gv_len(rg.1),
            }
        },
        Err(_) => 0,
    }
}

/// Column order and row-count consistency of the vectorized strategy:
/// a successful result holds exactly the key columns in configured
/// order, then the anchor column, then the aggregation outputs in
/// configured order — and every one of those columns has exactly one
/// row per retained group.
pub proof fn lemma_vectorized_shape<F: DataFrameUdf>(
    e: GroupByRollingExec<F>,
    df: Seq<ColV>,
    out: Seq<ColV>,
)
    requires
        e.apply is None,
        spec_core(e, df) == Ok::<Seq<ColV>, Error>(out),
    ensures
        df_names(out) =~= key_names(e.keys@) + seq![e.options.index_column@] + e.aggs@.map_values(
            |a: AggExpr| a.spec_out_name(),
        ),
        out.len() == e.keys@.len() + 1 + e.aggs@.len(),
        forall|c: int| 0 <= c < out.len() ==> (#[trigger] out[c]).1.len() == retained_groups(e, df),
{
    let names = key_names(e.keys@);
    let key_cols = spec_eval_keys(df, names)->Ok_0;
    lemma_eval_keys_names(df, names);
    let rg = spec_rolling(df, e.options)->Ok_0;
    let anchor = rg.0;
    let gv = rg.1;
    let gv2 = match e.slice {
        Some(w) => gv_slice(gv, w.0 as int, w.1 as int),
        None => gv,
    };
    let anchor2 = match e.slice {
        Some(w) => (anchor.0, spec_slice(anchor.1, w.0 as int, w.1 as int)),
        None => anchor,
    };
    let aligned = spec_aligned_keys(key_cols, gv2.0);
    let agg_cols = spec_eval_aggs(df, e.aggs@, gv2.1)->Ok_0;
    lemma_eval_aggs_names(df, e.aggs@, gv2.1);
    assert(out == aligned + seq![anchor2] + agg_cols);
    assert(anchor.1.len() == gv.0.len());
    assert(gv2.0.len() == gv2.1.len());
    assert(anchor2.1.len() == gv2.1.len());
    assert forall|c: int| 0 <= c < out.len() implies (#[trigger] out[c]).1.len() == gv_len(gv2) by {
        if c < aligned.len() {
            assert(out[c] == aligned[c]);
        } else if c == aligned.len() {
            assert(out[c] == anchor2);
        } else {
            assert(out[c] == agg_cols[c - aligned.len() - 1]);
        }
    }
    assert forall|c: int| 0 <= c < out.len() implies df_names(out)[c] == (key_names(e.keys@)
        + seq![e.options.index_column@] + e.aggs@.map_values(|a: AggExpr| a.spec_out_name()))[c] by {
        if c < aligned.len() {
            assert(out[c] == aligned[c]);
            assert(aligned[c].0 == key_cols[c].0);
        } else if c == aligned.len() {
            assert(out[c] == anchor2);
        } else {
            assert(out[c] == agg_cols[c - aligned.len() - 1]);
        }
    }
}

/// A successful vectorized result is a well-formed table whose height is
/// the retained group count.
pub proof fn lemma_vectorized_height<F: DataFrameUdf>(
    e: GroupByRollingExec<F>,
    df: Seq<ColV>,
    out: Seq<ColV>,
)
    requires
        e.apply is None,
        spec_core(e, df) == Ok::<Seq<ColV>, Error>(out),
    ensures
        df_wf(out),
        df_height(out) == retained_groups(e, df),
{
    lemma_vectorized_shape(e, df, out);
    assert(out[0].1.len() == retained_groups(e, df));
}

} // verus!
