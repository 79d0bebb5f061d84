use vstd::prelude::*;
use vstd::string::StringExecFns;
use crate::error::Error;
use crate::expr::{
    AggExpr, KeyExpr, lemma_eval_keys_push, spec_eval_key, spec_eval_keys, spec_eval_aggs,
    evaluate_aggs,
};
use crate::frame::{
    ColV, Column, DataFrame, cols_view, df_height, df_wf, res_view, same_schema, spec_concat,
    spec_df_slice, spec_gather, spec_gather_int, spec_slice, concat_frames, lemma_index_of,
};
use crate::groups::{GroupsType, GroupsV, gv_in_bounds, gv_slice, gv_wf};
use crate::rolling::{RollingGroupOptions, rolling, spec_rolling};
use crate::state::{ExecutionState, Source, spec_pull};
use crate::udf::{DataFrameUdf, apply_groups, spec_apply};

verus! {

/// The rolling group-by operator: transforms the wrapped input into a
/// grouped result whose membership is defined by windows over a monotonic
/// ordering column. All configuration is fixed at construction; every call
/// recomputes the transient grouping state and drops it on return.
pub struct GroupByRollingExec<F: DataFrameUdf> {
    /// The wrapped input operator.
    pub input: Source,
    /// Key expressions, in configured order.
    pub keys: Vec<KeyExpr>,
    /// Aggregation expressions, used only when no callback is configured.
    pub aggs: Vec<AggExpr>,
    /// Windowing options, passed through to the grouper.
    pub options: RollingGroupOptions,
    /// Input schema, used to resolve key names for the profiling label.
    pub input_schema: Vec<String>,
    /// Optional `(offset, length)` result window.
    pub slice: Option<(i64, usize)>,
    /// Optional per-group user callback; when set, it owns the output
    /// shape and the aggregation expressions play no role.
    pub apply: Option<F>,
    /// The windowed-grouping capability flag; disabled, every call fails.
    pub enabled: bool,
}

/// The names of the key expressions, in configured order.
pub open spec fn key_names(keys: Seq<KeyExpr>) -> Seq<Seq<char>> {
    keys.map_values(|k: KeyExpr| k.name@)
}

/// Whether a schema carries a column of the given name.
pub open spec fn resolvable(schema: Seq<String>, name: Seq<char>) -> bool {
    exists|i: int| 0 <= i < schema.len() && (#[trigger] schema[i])@ == name
}

/// Whether every key name resolves against the schema.
pub open spec fn all_resolvable(schema: Seq<String>, names: Seq<Seq<char>>) -> bool {
    forall|k: int| 0 <= k < names.len() ==> resolvable(schema, #[trigger] names[k])
}

/// One `",name"` piece per key name, in order.
pub open spec fn commas(names: Seq<Seq<char>>) -> Seq<char>
    decreases names.len(),
{
    if names.len() == 0 {
        Seq::empty()
    } else {
        ","@ + names[0] + commas(names.drop_first())
    }
}

/// Adding the last name appends its piece.
pub proof fn lemma_commas_push(names: Seq<Seq<char>>, n: Seq<char>)
    ensures
        commas(names.push(n)) == commas(names) + ","@ + n,
    decreases names.len(),
{
    if names.len() == 0 {
        assert(names.push(n).drop_first() =~= names);
        assert(","@ + n + commas(names) =~= commas(names) + ","@ + n);
    } else {
        assert(names.push(n).drop_first() =~= names.drop_first().push(n));
        assert(names.push(n)[0] == names[0]);
        lemma_commas_push(names.drop_first(), n);
        assert(","@ + names[0] + (commas(names.drop_first()) + ","@ + n) =~= (","@ + names[0]
            + commas(names.drop_first())) + ","@ + n);
    }
}

/// The profiling label: the operator's name followed by one `",name"`
/// piece per key expression.
pub open spec fn spec_label(names: Seq<Seq<char>>) -> Seq<char> {
    "group_by_rolling"@ + commas(names)
}

/// The profiling labels held by a timing record.
pub open spec fn recs(rs: Seq<String>) -> Seq<Seq<char>> {
    rs.map_values(|s: String| s@)
}

/// Resolves every key expression's output name against the schema and
/// builds the profiling label; an unresolvable name is an expression
/// failure.
#[verifier::loop_isolation(false)]
pub fn profile_label(keys: &Vec<KeyExpr>, schema: &Vec<String>) -> (r: Result<String, Error>)
    ensures
        all_resolvable(schema@, key_names(keys@)) ==> (r matches Ok(l) && l@ == spec_label(
            key_names(keys@),
        )),
        !all_resolvable(schema@, key_names(keys@)) ==> r == Err::<String, Error>(Error::Expression),
{
    let ghost names = key_names(keys@);
    let mut s = String::from_str("group_by_rolling");
    let mut k: usize = 0;
    while k < keys.len()
        invariant
            k <= keys@.len(),
            forall|t: int| 0 <= t < k ==> resolvable(schema@, #[trigger] names[t]),
            s@ == "group_by_rolling"@ + commas(names.take(k as int)),
        decreases keys@.len() - k,
    {
        match keys[k].to_field(schema) {
            Ok(n) => {
                s.append(",");
                s.append(n.as_str());
                proof {
                    lemma_commas_push(names.take(k as int), names[k as int]);
                    assert(names.take(k + 1) =~= names.take(k as int).push(names[k as int]));
                    assert("group_by_rolling"@ + commas(names.take(k as int)) + ","@ + n@
                        =~= "group_by_rolling"@ + (commas(names.take(k as int)) + ","@ + n@));
                }
            },
            Err(e) => {
                proof {
                    assert(!resolvable(schema@, names[k as int]));
                }
                return Err(e);
            },
        }
        k = k + 1;
    }
    proof {
        assert(names.take(names.len() as int) =~= names);
    }
    Ok(s)
}

/// Whether every (mathematical) row position lies below `len`.
pub open spec fn rows_in_bounds(rows: Seq<int>, len: nat) -> bool {
    forall|i: int| 0 <= i < rows.len() ==> 0 <= #[trigger] rows[i] < len
}

/// The key columns projected down to one representative value per group.
pub open spec fn spec_aligned_keys(key_cols: Seq<ColV>, firsts: Seq<int>) -> Seq<ColV> {
    key_cols.map_values(|c: ColV| (c.0, spec_gather_int(c.1, firsts)))
}

/// Realigns the key columns from one-value-per-row to one-value-per-group
/// by gathering each at the group set's representative rows: an index
/// list's predefined first member, a contiguous range's start. A
/// representative outside a column is an internal-consistency failure and
/// leaves the columns untouched.
#[verifier::loop_isolation(false)]
pub fn update_keys(keys: &mut Vec<Column>, groups: &GroupsType) -> (r: Result<(), Error>)
    requires
        gv_wf(groups@),
    ensures
        (forall|c: int|
            0 <= c < old(keys)@.len() ==> rows_in_bounds(
                groups@.0,
                (#[trigger] old(keys)@[c])@.1.len(),
            )) ==> (r is Ok && cols_view(final(keys)@) == spec_aligned_keys(
            cols_view(old(keys)@),
            groups@.0,
        )),
        !(forall|c: int|
            0 <= c < old(keys)@.len() ==> rows_in_bounds(
                groups@.0,
                (#[trigger] old(keys)@[c])@.1.len(),
            )) ==> (r == Err::<(), Error>(Error::InternalConsistency) && final(keys)@ == old(keys)@),
{
    let firsts = groups.first_indices();
    let mut out: Vec<Column> = Vec::new();
    let n = keys.len();
    let mut c: usize = 0;
    while c < n
        invariant
            n == keys@.len(),
            c <= n,
            keys@ == old(keys)@,
            firsts@.map_values(|x: usize| x as int) == groups@.0,
            forall|t: int| 0 <= t < c ==> rows_in_bounds(groups@.0, (#[trigger] keys@[t])@.1.len()),
            cols_view(out@) =~= spec_aligned_keys(cols_view(keys@).take(c as int), groups@.0),
        decreases n - c,
    {
        match keys[c].gather(&firsts) {
            Ok(col) => {
                proof {
                    assert forall|i: int| 0 <= i < groups@.0.len() implies 0 <= #[trigger] groups@.0[i]
                        < keys@[c as int]@.1.len() by {
                        assert(firsts@.map_values(|x: usize| x as int)[i] == firsts@[i] as int);
                    }
                    assert(spec_gather(keys@[c as int]@.1, firsts@) =~= spec_gather_int(
                        keys@[c as int]@.1,
                        groups@.0,
                    ));
                }
                out.push(col);
                proof {
                    assert(cols_view(keys@).take(c + 1) =~= cols_view(keys@).take(c as int).push(
                        keys@[c as int]@,
                    ));
                    assert(cols_view(out@) =~= spec_aligned_keys(
                        cols_view(keys@).take(c as int),
                        groups@.0,
                    ).push((keys@[c as int]@.0, spec_gather_int(keys@[c as int]@.1, groups@.0))));
                }
            },
            Err(e) => {
                proof {
                    assert forall|i: int|
                        0 <= i < firsts@.len() && (firsts@[i] as nat) >= keys@[c as int]@.1.len()
                            implies !rows_in_bounds(groups@.0, keys@[c as int]@.1.len()) by {
                        assert(groups@.0[i] == firsts@.map_values(|x: usize| x as int)[i]);
                    }
                    assert(!crate::frame::gather_in_bounds(firsts@, keys@[c as int]@.1.len()));
                }
                return Err(e);
            },
        }
        c = c + 1;
    }
    proof {
        assert(cols_view(keys@).take(n as int) =~= cols_view(keys@));
    }
    *keys = out;
    Ok(())
}

/// What the vectorized strategy yields once keys, anchor and group set
/// are in hand: the result window is applied first, the key columns are
/// realigned against the retained groups, every aggregation expression
/// produces one column, and the result is assembled as realigned keys,
/// then the anchor, then the aggregation outputs.
pub open spec fn spec_vectorized(
    df: Seq<ColV>,
    key_cols: Seq<ColV>,
    anchor: ColV,
    gv: GroupsV,
    aggs: Seq<AggExpr>,
    slc: Option<(i64, usize)>,
) -> Result<Seq<ColV>, Error> {
    let gv2 = match slc {
        Some(w) => gv_slice(gv, w.0 as int, w.1 as int),
        None => gv,
    };
    let anchor2 = match slc {
        Some(w) => (anchor.0, spec_slice(anchor.1, w.0 as int, w.1 as int)),
        None => anchor,
    };
    let aligned = spec_aligned_keys(key_cols, gv2.0);
    match spec_eval_aggs(df, aggs, gv2.1) {
        Err(e) => Err(e),
        Ok(agg_cols) => {
            let cols = aligned + seq![anchor2] + agg_cols;
            if df_wf(cols) {
                Ok(cols)
            } else {
                Err(Error::Assembly)
            }
        },
    }
}

/// What the callback strategy yields: the callback runs once per group
/// over the unwindowed group set, the returned tables are stacked in
/// group order, and the result window is applied to the stacked rows.
pub open spec fn spec_callback<F: DataFrameUdf>(
    df: Seq<ColV>,
    f: F,
    rows: Seq<Seq<int>>,
    slc: Option<(i64, usize)>,
) -> Result<Seq<ColV>, Error> {
    match spec_apply(df, f, rows) {
        Err(e) => Err(e),
        Ok(ts) => {
            if same_schema(ts) {
                let out = spec_concat(ts);
                match slc {
                    Some(w) => Ok(spec_df_slice(out, w.0 as int, w.1 as int)),
                    None => Ok(out),
                }
            } else {
                Err(Error::Assembly)
            }
        },
    }
}

/// Core execution against a pulled input table: evaluate the key
/// expressions, invoke the grouper, then dispatch on the aggregation
/// strategy. A malformed input table is an internal-consistency failure.
pub open spec fn spec_core<F: DataFrameUdf>(e: GroupByRollingExec<F>, df: Seq<ColV>) -> Result<
    Seq<ColV>,
    Error,
> {
    if !df_wf(df) {
        Err(Error::InternalConsistency)
    } else {
        match spec_eval_keys(df, key_names(e.keys@)) {
            Err(er) => Err(er),
            Ok(key_cols) => match spec_rolling(df, e.options) {
                Err(er) => Err(er),
                Ok(rg) => match e.apply {
                    Some(f) => spec_callback(df, f, rg.1.1, e.slice),
                    None => spec_vectorized(df, key_cols, rg.0, rg.1, e.aggs@, e.slice),
                },
            },
        }
    }
}

/// What one call of the operator yields: the availability gate, then the
/// cancellation poll, then the input pull, then (when timing is active)
/// key-name resolution, then core execution.
pub open spec fn spec_execute<F: DataFrameUdf>(
    e: GroupByRollingExec<F>,
    st: ExecutionState,
) -> Result<Seq<ColV>, Error> {
    if !e.enabled {
        Err(Error::ConfigurationUnavailable)
    } else if st.cancelled {
        Err(Error::Cancelled)
    } else {
        match spec_pull(e.input) {
            Err(er) => Err(er),
            Ok(dfv) => {
                if st.node_timer && !all_resolvable(e.input_schema@, key_names(e.keys@)) {
                    Err(Error::Expression)
                } else {
                    spec_core(e, dfv)
                }
            },
        }
    }
}

impl<F: DataFrameUdf> GroupByRollingExec<F> {
    /// Core execution: consolidated input in, grouped result out. The
    /// input table is held in one contiguous buffer per column already,
    /// so no compaction step is needed before random-access gathering.
    #[verifier::loop_isolation(false)]
    pub fn execute_impl(&self, df: DataFrame) -> (r: Result<DataFrame, Error>)
        ensures
            res_view(r) == spec_core(*self, df@),
    {
        if !df.check_wf() {
            return Err(Error::InternalConsistency);
        }
        let ghost names = key_names(self.keys@);

        // Evaluate each key expression against the consolidated table.
        let mut key_cols: Vec<Column> = Vec::new();
        let mut i: usize = 0;
        while i < self.keys.len()
            invariant
                i <= self.keys@.len(),
                spec_eval_keys(df@, names.take(i as int)) matches Ok(cs) && cols_view(key_cols@)
                    == cs,
                forall|c: int| 0 <= c < key_cols@.len() ==> (#[trigger] key_cols@[c])@.1.len()
                    == df_height(df@),
            decreases self.keys@.len() - i,
        {
            proof {
                lemma_eval_keys_push(df@, names.take(i as int), names[i as int]);
                assert(names.take(i + 1) =~= names.take(i as int).push(names[i as int]));
                assert(names[i as int] == self.keys@[i as int].name@);
            }
            match self.keys[i].evaluate(&df) {
                Ok(c) => {
                    proof {
                        lemma_index_of(df@, names[i as int]);
                        let cs = spec_eval_keys(df@, names.take(i as int))->Ok_0;
                        assert(cols_view(key_cols@.push(c)) =~= cs.push(
                            spec_eval_key(df@, names[i as int])->Ok_0,
                        ));
                    }
                    key_cols.push(c);
                },
                Err(e) => {
                    proof {
                        crate::expr::lemma_eval_keys_prefix_err(df@, names, i + 1);
                    }
                    return Err(e);
                },
            }
            i = i + 1;
        }
        proof {
            assert(names.take(names.len() as int) =~= names);
        }

        // Invoke the grouper: anchor column plus group set.
        let (anchor, groups) = match rolling(&df, &self.options) {
            Ok(x) => x,
            Err(e) => {
                return Err(e);
            },
        };

        // Callback strategy: the user function owns the output shape;
        // key alignment, anchor and aggregations play no role.
        if let Some(f) = &self.apply {
            let ts = match apply_groups(&df, &groups, f) {
                Ok(ts) => ts,
                Err(e) => {
                    return Err(e);
                },
            };
            let out = match concat_frames(&ts) {
                Ok(d) => d,
                Err(e) => {
                    return Err(e);
                },
            };
            return match self.slice {
                Some((offset, len)) => Ok(out.slice(offset, len)),
                None => Ok(out),
            };
        }

        // Vectorized strategy: window first, so all later steps see only
        // the retained groups.
        let (groups, anchor) = match self.slice {
            Some((offset, len)) => {
                proof {
                    lemma_gv_slice_in_bounds(groups@, offset as int, len as int, df_height(df@));
                }
                (groups.slice(offset, len), anchor.slice(offset, len))
            },
            None => (groups, anchor),
        };

        // Realign the key columns to one value per retained group. Every
        // representative row was proved inside the table, so this cannot
        // fail here.
        if key_cols.len() > 0 {
            match update_keys(&mut key_cols, &groups) {
                Ok(_) => {},
                Err(e) => {
                    proof {
                        assert(false);
                    }
                    return Err(e);
                },
            }
        }

        // One output column per aggregation expression.
        let mut agg_cols = match evaluate_aggs(&df, &self.aggs, &groups) {
            Ok(cs) => cs,
            Err(e) => {
                return Err(e);
            },
        };

        // Assemble: keys (configured order), anchor, aggregation outputs
        // (configured order); table validation rejects inconsistent
        // shapes and duplicate names.
        let ghost aligned = cols_view(key_cols@);
        let ghost anchorv = anchor@;
        let ghost aggv = cols_view(agg_cols@);
        let mut columns: Vec<Column> = key_cols;
        columns.push(anchor);
        columns.append(&mut agg_cols);
        proof {
            assert(cols_view(columns@) =~= aligned + seq![anchorv] + aggv);
        }
        DataFrame::new(columns)
    }

    /// One call of the operator. In order: the availability gate, the
    /// cancellation poll (exactly once, before the input is pulled), the
    /// input pull, and — when per-node timing is active — the profiling
    /// label, whose recording wraps core execution. Configuration is
    /// never changed; the context is only appended to through its timing
    /// record.
    pub fn execute(&mut self, state: &mut ExecutionState) -> (r: Result<DataFrame, Error>)
        ensures
            res_view(r) == spec_execute(*old(self), *old(state)),
            final(self).keys == old(self).keys,
            final(self).aggs == old(self).aggs,
            final(self).options == old(self).options,
            final(self).input_schema == old(self).input_schema,
            final(self).slice == old(self).slice,
            final(self).apply == old(self).apply,
            final(self).enabled == old(self).enabled,
            final(self).input.data == old(self).input.data,
            final(state).cancelled == old(state).cancelled,
            final(state).verbose == old(state).verbose,
            final(state).node_timer == old(state).node_timer,
            (!old(self).enabled || old(state).cancelled) ==> (*final(self) == *old(self) && *final(state) == *old(state)),
            (old(self).enabled && !old(state).cancelled && old(self).input.pulls < u64::MAX)
                ==> final(self).input.pulls == old(self).input.pulls + 1,
            (old(self).enabled && !old(state).cancelled && old(self).input.pulls == u64::MAX)
                ==> final(self).input.pulls == u64::MAX,
            (old(self).enabled && !old(state).cancelled && old(state).node_timer && spec_pull(
                old(self).input,
            ) is Ok && all_resolvable(old(self).input_schema@, key_names(old(self).keys@))) ==> recs(
                final(state).records@,
            ) == recs(old(state).records@).push(spec_label(key_names(old(self).keys@))),
            !(old(self).enabled && !old(state).cancelled && old(state).node_timer && spec_pull(
                old(self).input,
            ) is Ok && all_resolvable(old(self).input_schema@, key_names(old(self).keys@)))
                ==> final(state).records == old(state).records,
    {
        if !self.enabled {
            return Err(Error::ConfigurationUnavailable);
        }
        if state.should_stop() {
            return Err(Error::Cancelled);
        }
        let df = match self.input.execute() {
            Ok(df) => df,
            Err(e) => {
                return Err(e);
            },
        };
        if state.has_node_timer() {
            let label = match profile_label(&self.keys, &self.input_schema) {
                Ok(l) => l,
                Err(e) => {
                    return Err(e);
                },
            };
            let r = self.execute_impl(df);
            state.record(label);
            proof {
                assert(recs(state.records@) =~= recs(old(state).records@).push(
                    spec_label(key_names(old(self).keys@)),
                ));
            }
            r
        } else {
            self.execute_impl(df)
        }
    }
}

/// Slicing a group set keeps every retained row bound.
pub proof fn lemma_gv_slice_in_bounds(gv: GroupsV, offset: int, length: int, height: nat)
    requires
        length >= 0,
        gv_in_bounds(gv, height),
    ensures
        gv_in_bounds(gv_slice(gv, offset, length), height),
{
    let s = gv_slice(gv, offset, length);
    let st0 = crate::frame::slice_start(offset, gv.0.len() as int);
    let sp0 = crate::frame::slice_stop(offset, length, gv.0.len() as int);
    assert(0 <= st0 <= sp0 <= gv.0.len());
    assert forall|i: int| 0 <= i < s.0.len() implies 0 <= #[trigger] s.0[i] < height by {
        assert(s.0[i] == gv.0[st0 + i]);
    }
    let st1 = crate::frame::slice_start(offset, gv.1.len() as int);
    let sp1 = crate::frame::slice_stop(offset, length, gv.1.len() as int);
    assert(0 <= st1 <= sp1 <= gv.1.len());
    assert forall|i: int, j: int| 0 <= i < s.1.len() && 0 <= j < s.1[i].len() implies 0
        <= #[trigger] s.1[i][j] < height by {
        assert(s.1[i] == gv.1[st1 + i]);
    }
}

} // verus!
