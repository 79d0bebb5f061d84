use vstd::prelude::*;
use crate::error::Error;
use crate::frame::{
    ColV, Column, DataFrame, df_height, res_view, spec_df_take, spec_df_take_int,
    gather_in_bounds,
};
use crate::groups::{GroupsType, gv_in_bounds, gv_len, gv_wf};

verus! {

/// A user-defined per-group function: the callback strategy hands every
/// group's rows to it as an independent table and concatenates whatever
/// tables it returns. The callback owns the entire output shape.
pub trait DataFrameUdf: Sized {
    /// The outcome of the callback on a table view: implementations fix
    /// what they return so that callers can reason about the whole run.
    spec fn spec_call(&self, df: Seq<ColV>) -> Result<Seq<ColV>, Error>;

    /// Runs the user function on one group's rows.
    fn call_udf(&self, df: DataFrame) -> (r: Result<DataFrame, Error>)
        ensures
            res_view(r) == self.spec_call(df@),
    ;
}

/// A callback that answers, for each group, a one-row table holding the
/// group's row count under the configured column name.
pub struct RowCountUdf {
    pub name: String,
}

impl DataFrameUdf for RowCountUdf {
    open spec fn spec_call(&self, df: Seq<ColV>) -> Result<Seq<ColV>, Error> {
        if df_height(df) > i64::MAX {
            Err(Error::UserCallback)
        } else {
            Ok(seq![(self.name@, seq![df_height(df) as i64])])
        }
    }

    fn call_udf(&self, df: DataFrame) -> (r: Result<DataFrame, Error>)
        ensures
            res_view(r) == self.spec_call(df@),
    {
        let h = df.height();
        if h as u64 > i64::MAX as u64 {
            return Err(Error::UserCallback);
        }
        let mut values: Vec<i64> = Vec::new();
        values.push(h as i64);
        let mut columns: Vec<Column> = Vec::new();
        columns.push(Column { name: self.name.clone(), values });
        let out = DataFrame { columns };
        proof {
            assert(out@ =~~= seq![(self.name@, seq![df_height(df@) as i64])]);
        }
        Ok(out)
    }
}

/// A callback that always fails, as a user-defined function may; the
/// operator propagates its failure unchanged.
pub struct FailingUdf {}

impl DataFrameUdf for FailingUdf {
    open spec fn spec_call(&self, df: Seq<ColV>) -> Result<Seq<ColV>, Error> {
        Err(Error::UserCallback)
    }

    fn call_udf(&self, df: DataFrame) -> (r: Result<DataFrame, Error>)
        ensures
            res_view(r) == self.spec_call(df@),
    {
        Err(Error::UserCallback)
    }
}

/// What applying the callback to every group yields: the callback's
/// table for each group, in group order, or the first group's failure.
pub open spec fn spec_apply<F: DataFrameUdf>(df: Seq<ColV>, f: F, rows: Seq<Seq<int>>) -> Result<
    Seq<Seq<ColV>>,
    Error,
>
    decreases rows.len(),
{
    if rows.len() == 0 {
        Ok(Seq::empty())
    } else {
        match f.spec_call(spec_df_take_int(df, rows[0])) {
            Err(e) => Err(e),
            Ok(t) => match spec_apply(df, f, rows.drop_first()) {
                Err(e) => Err(e),
                Ok(rest) => Ok(seq![t] + rest),
            },
        }
    }
}

/// Splitting off the last group splits the application.
pub proof fn lemma_apply_push<F: DataFrameUdf>(
    df: Seq<ColV>,
    f: F,
    rows: Seq<Seq<int>>,
    g: Seq<int>,
)
    ensures
        spec_apply(df, f, rows.push(g)) == match spec_apply(df, f, rows) {
            Err(e) => Err::<Seq<Seq<ColV>>, Error>(e),
            Ok(rest) => match f.spec_call(spec_df_take_int(df, g)) {
                Err(e) => Err::<Seq<Seq<ColV>>, Error>(e),
                Ok(t) => Ok::<Seq<Seq<ColV>>, Error>(rest.push(t)),
            },
        },
    decreases rows.len(),
{
    if rows.len() == 0 {
        assert(rows.push(g).drop_first() =~= rows);
        if f.spec_call(spec_df_take_int(df, g)) is Ok {
            let t = f.spec_call(spec_df_take_int(df, g))->Ok_0;
            assert(seq![t] + Seq::<Seq<ColV>>::empty() =~= Seq::<Seq<ColV>>::empty().push(t));
        }
    } else {
        assert(rows.push(g).drop_first() =~= rows.drop_first().push(g));
        assert(rows.push(g)[0] == rows[0]);
        lemma_apply_push(df, f, rows.drop_first(), g);
        if f.spec_call(spec_df_take_int(df, rows[0])) is Ok && spec_apply(
            df,
            f,
            rows.drop_first(),
        ) is Ok && f.spec_call(spec_df_take_int(df, g)) is Ok {
            let t0 = f.spec_call(spec_df_take_int(df, rows[0]))->Ok_0;
            let rest = spec_apply(df, f, rows.drop_first())->Ok_0;
            let t = f.spec_call(spec_df_take_int(df, g))->Ok_0;
            assert(seq![t0] + rest.push(t) =~= (seq![t0] + rest).push(t));
        }
    }
}

/// An application that fails on a prefix of the groups fails identically
/// on all of them.
pub proof fn lemma_apply_prefix_err<F: DataFrameUdf>(
    df: Seq<ColV>,
    f: F,
    rows: Seq<Seq<int>>,
    n: int,
)
    requires
        0 <= n <= rows.len(),
        spec_apply(df, f, rows.take(n)) is Err,
    ensures
        spec_apply(df, f, rows) == spec_apply(df, f, rows.take(n)),
    decreases rows.len(),
{
    if n == 0 {
    } else if rows.len() == 0 {
    } else {
        assert(rows.take(n)[0] == rows[0]);
        assert(rows.take(n).drop_first() =~= rows.drop_first().take(n - 1));
        if f.spec_call(spec_df_take_int(df, rows[0])) is Ok {
            lemma_apply_prefix_err(df, f, rows.drop_first(), n - 1);
        }
    }
}

/// The grouped view over the pre-consolidation table: hands each group's
/// rows to the callback as an independent table, in group order, and
/// collects the returned tables. Within a delivered group, row order
/// matches the group set's own row order.
#[verifier::loop_isolation(false)]
pub fn apply_groups<F: DataFrameUdf>(df: &DataFrame, groups: &GroupsType, f: &F) -> (r: Result<
    Vec<DataFrame>,
    Error,
>)
    requires
        df.wf(),
        gv_wf(groups@),
        gv_in_bounds(groups@, df_height(df@)),
    ensures
        match spec_apply(df@, *f, groups@.1) {
            Ok(ts) => r matches Ok(out) && out@.map_values(|d: DataFrame| d@) == ts,
            Err(e) => r == Err::<Vec<DataFrame>, Error>(e),
        },
{
    let height = df.height();
    let k = groups.group_count();
    let mut out: Vec<DataFrame> = Vec::new();
    let mut g: usize = 0;
    while g < k
        invariant
            g <= k,
            spec_apply(df@, *f, groups@.1.take(g as int)) matches Ok(ts) && out@.map_values(
                |d: DataFrame| d@,
            ) == ts,
        decreases k - g,
    {
        proof {
            lemma_apply_push(df@, *f, groups@.1.take(g as int), groups@.1[g as int]);
            assert(groups@.1.take(g + 1) =~= groups@.1.take(g as int).push(groups@.1[g as int]));
        }
        let rows = groups.group_rows(g, height);
        proof {
            assert forall|i: int| 0 <= i < rows@.len() implies (#[trigger] rows@[i] as nat)
                < df_height(df@) by {
                assert(rows@.map_values(|x: usize| x as int)[i] == groups@.1[g as int][i]);
            }
            assert(gather_in_bounds(rows@, df_height(df@)));
            assert forall|c: int| 0 <= c < df@.len() implies #[trigger] spec_df_take(df@, rows@)[c]
                =~~= spec_df_take_int(df@, groups@.1[g as int])[c] by {
                assert(crate::frame::spec_gather(df@[c].1, rows@) =~= crate::frame::spec_gather_int(
                    df@[c].1,
                    groups@.1[g as int],
                ));
            }
            assert(spec_df_take(df@, rows@) =~~= spec_df_take_int(df@, groups@.1[g as int]));
        }
        // The group set was proved in bounds, so the row gather cannot fail.
        let sub = match df.take(&rows) {
            Ok(sub) => sub,
            Err(_) => {
                proof {
                    assert(false);
                }
                return Err(Error::InternalConsistency);
            },
        };
        match f.call_udf(sub) {
            Ok(t) => {
                out.push(t);
                proof {
                    let ts = spec_apply(df@, *f, groups@.1.take(g as int))->Ok_0;
                    assert(out@.map_values(|d: DataFrame| d@) =~= ts.push(
                        f.spec_call(spec_df_take_int(df@, groups@.1[g as int]))->Ok_0,
                    ));
                }
            },
            Err(e) => {
                proof {
                    lemma_apply_prefix_err(df@, *f, groups@.1, g + 1);
                }
                return Err(e);
            },
        }
        g = g + 1;
    }
    proof {
        assert(groups@.1.take(groups@.1.len() as int) =~= groups@.1);
    }
    Ok(out)
}

} // verus!
