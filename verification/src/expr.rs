use vstd::prelude::*;
use crate::error::Error;
use crate::frame::{ColV, Column, DataFrame, cols_view, df_height, df_wf, index_of, lemma_index_of};
use crate::groups::{GroupsType, gv_in_bounds, gv_len, gv_wf};

verus! {

/// A key expression: it names an input column and evaluates to it.
pub struct KeyExpr {
    pub name: String,
}

/// What a key expression evaluates to against a table: the named column,
/// or an expression failure when the table has no such column.
pub open spec fn spec_eval_key(df: Seq<ColV>, name: Seq<char>) -> Result<ColV, Error> {
    if index_of(df, name) >= 0 {
        Ok(df[index_of(df, name)])
    } else {
        Err(Error::Expression)
    }
}

/// What an ordered list of key expressions evaluates to: the named columns
/// in configured order, or the first expression failure.
pub open spec fn spec_eval_keys(df: Seq<ColV>, names: Seq<Seq<char>>) -> Result<
    Seq<ColV>,
    Error,
>
    decreases names.len(),
{
    if names.len() == 0 {
        Ok(Seq::empty())
    } else {
        match spec_eval_key(df, names[0]) {
            Err(e) => Err(e),
            Ok(c) => match spec_eval_keys(df, names.drop_first()) {
                Err(e) => Err(e),
                Ok(rest) => Ok(seq![c] + rest),
            },
        }
    }
}

/// Splitting off the last name splits the evaluation.
pub proof fn lemma_eval_keys_push(df: Seq<ColV>, names: Seq<Seq<char>>, n: Seq<char>)
    ensures
        spec_eval_keys(df, names.push(n)) == match spec_eval_keys(df, names) {
            Err(e) => Err::<Seq<ColV>, Error>(e),
            Ok(rest) => match spec_eval_key(df, n) {
                Err(e) => Err::<Seq<ColV>, Error>(e),
                Ok(c) => Ok::<Seq<ColV>, Error>(rest.push(c)),
            },
        },
    decreases names.len(),
{
    if names.len() == 0 {
        assert(names.push(n).drop_first() =~= names);
        if spec_eval_key(df, n) is Ok {
            let c = spec_eval_key(df, n)->Ok_0;
            assert(seq![c] + Seq::<ColV>::empty() =~= Seq::<ColV>::empty().push(c));
        }
    } else {
        assert(names.push(n).drop_first() =~= names.drop_first().push(n));
        assert(names.push(n)[0] == names[0]);
        lemma_eval_keys_push(df, names.drop_first(), n);
        if spec_eval_key(df, names[0]) is Ok && spec_eval_keys(df, names.drop_first()) is Ok
            && spec_eval_key(df, n) is Ok {
            let c0 = spec_eval_key(df, names[0])->Ok_0;
            let rest = spec_eval_keys(df, names.drop_first())->Ok_0;
            let c = spec_eval_key(df, n)->Ok_0;
            assert(seq![c0] + rest.push(c) =~= (seq![c0] + rest).push(c));
        }
    }
}

/// A successful key evaluation yields one column per name, carrying
/// exactly the requested names in order, each as long as the table is
/// high.
pub proof fn lemma_eval_keys_names(df: Seq<ColV>, names: Seq<Seq<char>>)
    requires
        df_wf(df),
        spec_eval_keys(df, names) is Ok,
    ensures
        spec_eval_keys(df, names)->Ok_0.len() == names.len(),
        forall|i: int| 0 <= i < names.len() ==> (#[trigger] spec_eval_keys(df, names)->Ok_0[i]).0
            == names[i],
        forall|i: int| 0 <= i < names.len() ==> (#[trigger] spec_eval_keys(df, names)->Ok_0[i]).1.len()
            == df_height(df),
    decreases names.len(),
{
    if names.len() == 0 {
    } else {
        lemma_index_of(df, names[0]);
        lemma_eval_keys_names(df, names.drop_first());
        let out = spec_eval_keys(df, names)->Ok_0;
        let rest = spec_eval_keys(df, names.drop_first())->Ok_0;
        assert forall|i: int| 0 <= i < names.len() implies (#[trigger] out[i]).0 == names[i] && (
        #[trigger] out[i]).1.len() == df_height(df) by {
            if i == 0 {
                assert(out[0] == df[index_of(df, names[0])]);
            } else {
                assert(out[i] == rest[i - 1]);
                assert(names.drop_first()[i - 1] == names[i]);
            }
        }
    }
}

/// A successful aggregation evaluation yields one column per expression,
/// named by the expression, with one cell per group.
pub proof fn lemma_eval_aggs_names(df: Seq<ColV>, aggs: Seq<AggExpr>, groups: Seq<Seq<int>>)
    requires
        spec_eval_aggs(df, aggs, groups) is Ok,
    ensures
        spec_eval_aggs(df, aggs, groups)->Ok_0.len() == aggs.len(),
        forall|i: int| 0 <= i < aggs.len() ==> (#[trigger] spec_eval_aggs(df, aggs, groups)->Ok_0[i]).0
            == aggs[i].spec_out_name(),
        forall|i: int| 0 <= i < aggs.len() ==> (#[trigger] spec_eval_aggs(df, aggs, groups)->Ok_0[i]).1.len()
            == groups.len(),
    decreases aggs.len(),
{
    if aggs.len() == 0 {
    } else {
        lemma_eval_aggs_names(df, aggs.drop_first(), groups);
        let out = spec_eval_aggs(df, aggs, groups)->Ok_0;
        let rest = spec_eval_aggs(df, aggs.drop_first(), groups)->Ok_0;
        assert forall|i: int| 0 <= i < aggs.len() implies (#[trigger] out[i]).0
            == aggs[i].spec_out_name() && (#[trigger] out[i]).1.len() == groups.len() by {
            if i == 0 {
            } else {
                assert(out[i] == rest[i - 1]);
                assert(aggs.drop_first()[i - 1] == aggs[i]);
            }
        }
    }
}

/// An evaluation that fails on a prefix of the names fails identically
/// on the whole list.
pub proof fn lemma_eval_keys_prefix_err(df: Seq<ColV>, names: Seq<Seq<char>>, n: int)
    requires
        0 <= n <= names.len(),
        spec_eval_keys(df, names.take(n)) is Err,
    ensures
        spec_eval_keys(df, names) == spec_eval_keys(df, names.take(n)),
    decreases names.len(),
{
    if n == 0 {
    } else if names.len() == 0 {
    } else {
        assert(names.take(n)[0] == names[0]);
        assert(names.take(n).drop_first() =~= names.drop_first().take(n - 1));
        if spec_eval_key(df, names[0]) is Ok {
            lemma_eval_keys_prefix_err(df, names.drop_first(), n - 1);
        }
    }
}

impl KeyExpr {
    /// Evaluates the expression against a table: the named column, or an
    /// expression failure when the table has no such column.
    pub fn evaluate(&self, df: &DataFrame) -> (r: Result<Column, Error>)
        ensures
            match spec_eval_key(df@, self.name@) {
                Ok(c) => r matches Ok(out) && out@ == c,
                Err(e) => r == Err::<Column, Error>(e),
            },
    {
        proof {
            lemma_index_of(df@, self.name@);
        }
        match df.find_column(&self.name) {
            Some(i) => {
                proof {
                    assert(df@[i as int] == df.columns@[i as int]@);
                }
                Ok(df.columns[i].duplicate())
            },
            None => Err(Error::Expression),
        }
    }

    /// Resolves the expression's output name against a schema, as done when
    /// building a profiling label; an unknown name is an expression failure.
    pub fn to_field(&self, schema: &Vec<String>) -> (r: Result<String, Error>)
        ensures
            (exists|i: int|
                0 <= i < schema@.len() && (#[trigger] schema@[i])@ == self.name@) ==> (r matches Ok(
                n,
            ) && n@ == self.name@),
            !(exists|i: int| 0 <= i < schema@.len() && (#[trigger] schema@[i])@ == self.name@)
                ==> r == Err::<String, Error>(Error::Expression),
    {
        let mut i: usize = 0;
        while i < schema.len()
            invariant
                i <= schema@.len(),
                forall|j: int| 0 <= j < i ==> (#[trigger] schema@[j])@ != self.name@,
            decreases schema@.len() - i,
        {
            if schema[i] == self.name {
                return Ok(self.name.clone());
            }
            i = i + 1;
        }
        Err(Error::Expression)
    }
}

/// An aggregation expression, evaluated once per retained group.
pub enum AggExpr {
    /// Sum of the named column's values over the group's rows; the output
    /// column keeps the input column's name.
    Sum { column: String },
    /// Number of member rows of the group, under the given output name.
    Count { name: String },
}

impl AggExpr {
    /// The name the expression gives its output column.
    pub open spec fn spec_out_name(&self) -> Seq<char> {
        match self {
            AggExpr::Sum { column } => column@,
            AggExpr::Count { name } => name@,
        }
    }
}

/// Sum of the first `k` of the group's rows' values.
pub open spec fn sum_prefix(values: Seq<i64>, rows: Seq<int>, k: int) -> int
    decreases k,
{
    if k <= 0 {
        0
    } else {
        sum_prefix(values, rows, k - 1) + values[rows[k - 1]]
    }
}

/// Sum of the group's rows' values.
pub open spec fn group_sum(values: Seq<i64>, rows: Seq<int>) -> int {
    sum_prefix(values, rows, rows.len() as int)
}

/// Whether a left-to-right 64-bit summation of the group stays in range.
pub open spec fn sums_fit(values: Seq<i64>, rows: Seq<int>) -> bool {
    forall|k: int| 1 <= k <= rows.len() ==> i64::MIN <= #[trigger] sum_prefix(values, rows, k)
        <= i64::MAX
}

/// What one aggregation expression evaluates to against a table and a group
/// set: one output value per group, or an expression failure (unknown
/// column, or a sum or count that does not fit a 64-bit cell).
pub open spec fn spec_eval_agg(df: Seq<ColV>, a: AggExpr, groups: Seq<Seq<int>>) -> Result<
    ColV,
    Error,
> {
    match a {
        AggExpr::Sum { column } => {
            let i = index_of(df, column@);
            if i < 0 {
                Err(Error::Expression)
            } else if exists|g: int| 0 <= g < groups.len() && !sums_fit(df[i].1, #[trigger] groups[g]) {
                Err(Error::Expression)
            } else {
                Ok(
                    (
                        column@,
                        Seq::new(groups.len(), |g: int| group_sum(df[i].1, groups[g]) as i64),
                    ),
                )
            }
        },
        AggExpr::Count { name } => {
            if exists|g: int| 0 <= g < groups.len() && (#[trigger] groups[g]).len() > i64::MAX {
                Err(Error::Expression)
            } else {
                Ok((name@, Seq::new(groups.len(), |g: int| groups[g].len() as i64)))
            }
        },
    }
}

/// What an ordered list of aggregation expressions evaluates to: one output
/// column per expression, in configured order, or the first failure.
pub open spec fn spec_eval_aggs(df: Seq<ColV>, aggs: Seq<AggExpr>, groups: Seq<Seq<int>>) -> Result<
    Seq<ColV>,
    Error,
>
    decreases aggs.len(),
{
    if aggs.len() == 0 {
        Ok(Seq::empty())
    } else {
        match spec_eval_agg(df, aggs[0], groups) {
            Err(e) => Err(e),
            Ok(c) => match spec_eval_aggs(df, aggs.drop_first(), groups) {
                Err(e) => Err(e),
                Ok(rest) => Ok(seq![c] + rest),
            },
        }
    }
}

/// Splitting off the last expression splits the evaluation.
pub proof fn lemma_eval_aggs_push(df: Seq<ColV>, aggs: Seq<AggExpr>, a: AggExpr, groups: Seq<Seq<int>>)
    ensures
        spec_eval_aggs(df, aggs.push(a), groups) == match spec_eval_aggs(df, aggs, groups) {
            Err(e) => Err::<Seq<ColV>, Error>(e),
            Ok(rest) => match spec_eval_agg(df, a, groups) {
                Err(e) => Err::<Seq<ColV>, Error>(e),
                Ok(c) => Ok::<Seq<ColV>, Error>(rest.push(c)),
            },
        },
    decreases aggs.len(),
{
    if aggs.len() == 0 {
        assert(aggs.push(a).drop_first() =~= aggs);
        if spec_eval_agg(df, a, groups) is Ok {
            let c = spec_eval_agg(df, a, groups)->Ok_0;
            assert(seq![c] + Seq::<ColV>::empty() =~= Seq::<ColV>::empty().push(c));
        }
    } else {
        assert(aggs.push(a).drop_first() =~= aggs.drop_first().push(a));
        assert(aggs.push(a)[0] == aggs[0]);
        lemma_eval_aggs_push(df, aggs.drop_first(), a, groups);
        if spec_eval_agg(df, aggs[0], groups) is Ok && spec_eval_aggs(
            df,
            aggs.drop_first(),
            groups,
        ) is Ok && spec_eval_agg(df, a, groups) is Ok {
            let c0 = spec_eval_agg(df, aggs[0], groups)->Ok_0;
            let rest = spec_eval_aggs(df, aggs.drop_first(), groups)->Ok_0;
            let c = spec_eval_agg(df, a, groups)->Ok_0;
            assert(seq![c0] + rest.push(c) =~= (seq![c0] + rest).push(c));
        }
    }
}

/// Evaluates one aggregation expression: one output cell per group.
#[verifier::loop_isolation(false)]
pub fn evaluate_agg(df: &DataFrame, a: &AggExpr, groups: &GroupsType) -> (r: Result<Column, Error>)
    requires
        df.wf(),
        gv_wf(groups@),
        gv_in_bounds(groups@, df_height(df@)),
    ensures
        match spec_eval_agg(df@, *a, groups@.1) {
            Ok(c) => r matches Ok(out) && out@ == c,
            Err(e) => r == Err::<Column, Error>(e),
        },
{
    let height = df.height();
    let k = groups.group_count();
    match a {
        AggExpr::Sum { column } => {
            proof {
                lemma_index_of(df@, column@);
            }
            let ci = match df.find_column(column) {
                Some(ci) => ci,
                None => {
                    return Err(Error::Expression);
                },
            };
            let values = &df.columns[ci].values;
            proof {
                assert(df@[ci as int].1.len() == df_height(df@));
            }
            let mut out: Vec<i64> = Vec::new();
            let mut g: usize = 0;
            while g < k
                invariant
                    df.wf(),
                    gv_wf(groups@),
                    gv_in_bounds(groups@, df_height(df@)),
                    k == gv_len(groups@),
                    height == df_height(df@),
                    0 <= ci < df@.len(),
                    df@[ci as int].1.len() == df_height(df@),
                    values@ == df@[ci as int].1,
                    g <= k,
                    forall|h: int| 0 <= h < g ==> sums_fit(df@[ci as int].1, #[trigger] groups@.1[h]),
                    out@.len() == g,
                    forall|h: int| 0 <= h < g ==> out@[h] == group_sum(
                        df@[ci as int].1,
                        #[trigger] groups@.1[h],
                    ) as i64,
                decreases k - g,
            {
                let rows = groups.group_rows(g, height);
                let ghost rows_v = groups@.1[g as int];
                let mut acc: i64 = 0;
                let mut j: usize = 0;
                while j < rows.len()
                    invariant
                        rows@.map_values(|x: usize| x as int) == rows_v,
                        forall|t: int| 0 <= t < rows_v.len() ==> 0 <= #[trigger] rows_v[t]
                            < values@.len(),
                        j <= rows@.len(),
                        acc == sum_prefix(values@, rows_v, j as int),
                        forall|t: int| 0 <= t <= j ==> i64::MIN <= #[trigger] sum_prefix(
                            values@,
                            rows_v,
                            t,
                        ) <= i64::MAX,
                    decreases rows@.len() - j,
                {
                    proof {
                        assert(rows_v[j as int] == rows@.map_values(|x: usize| x as int)[j as int]);
                        assert(rows@[j as int] < values@.len());
                    }
                    let v = values[rows[j]];
                    proof {
                        assert(sum_prefix(values@, rows_v, j + 1) == acc + v);
                    }
                    acc = match acc.checked_add(v) {
                        Some(acc2) => acc2,
                        None => {
                            proof {
                                assert(!sums_fit(df@[ci as int].1, groups@.1[g as int]));
                            }
                            return Err(Error::Expression);
                        },
                    };
                    j = j + 1;
                }
                proof {
                    assert(sums_fit(values@, rows_v));
                    assert(acc == group_sum(values@, rows_v) as i64);
                }
                out.push(acc);
                g = g + 1;
            }
            proof {
                assert(out@ =~= Seq::new(
                    groups@.1.len(),
                    |g: int| group_sum(df@[ci as int].1, groups@.1[g]) as i64,
                ));
            }
            Ok(Column { name: column.clone(), values: out })
        },
        AggExpr::Count { name } => {
            let mut out: Vec<i64> = Vec::new();
            let mut g: usize = 0;
            while g < k
                invariant
                    gv_wf(groups@),
                    gv_in_bounds(groups@, df_height(df@)),
                    k == gv_len(groups@),
                    height == df_height(df@),
                    g <= k,
                    forall|h: int| 0 <= h < g ==> (#[trigger] groups@.1[h]).len() <= i64::MAX,
                    out@.len() == g,
                    forall|h: int| 0 <= h < g ==> out@[h] == (#[trigger] groups@.1[h]).len() as i64,
                decreases k - g,
            {
                let rows = groups.group_rows(g, height);
                let n = rows.len();
                proof {
                    assert(rows@.map_values(|x: usize| x as int).len() == rows@.len());
                }
                if n as u64 > i64::MAX as u64 {
                    proof {
                        assert(groups@.1[g as int].len() == rows@.map_values(
                            |x: usize| x as int,
                        ).len());
                        assert((groups@.1[g as int]).len() > i64::MAX);
                    }
                    return Err(Error::Expression);
                }
                out.push(n as i64);
                g = g + 1;
            }
            proof {
                assert(out@ =~= Seq::new(groups@.1.len(), |g: int| groups@.1[g].len() as i64));
            }
            Ok(Column { name: name.clone(), values: out })
        },
    }
}

/// Evaluates the configured aggregation expressions in order: one output
/// column per expression, or the first failure.
pub fn evaluate_aggs(df: &DataFrame, aggs: &Vec<AggExpr>, groups: &GroupsType) -> (r: Result<
    Vec<Column>,
    Error,
>)
    requires
        df.wf(),
        gv_wf(groups@),
        gv_in_bounds(groups@, df_height(df@)),
    ensures
        match spec_eval_aggs(df@, aggs@, groups@.1) {
            Ok(cs) => r matches Ok(out) && cols_view(out@) == cs,
            Err(e) => r == Err::<Vec<Column>, Error>(e),
        },
{
    let mut out: Vec<Column> = Vec::new();
    let mut i: usize = 0;
    while i < aggs.len()
        invariant
            df.wf(),
            gv_wf(groups@),
            gv_in_bounds(groups@, df_height(df@)),
            i <= aggs@.len(),
            spec_eval_aggs(df@, aggs@.take(i as int), groups@.1) matches Ok(cs) && cols_view(out@)
                == cs,
        decreases aggs@.len() - i,
    {
        proof {
            lemma_eval_aggs_push(df@, aggs@.take(i as int), aggs@[i as int], groups@.1);
            assert(aggs@.take(i + 1) =~= aggs@.take(i as int).push(aggs@[i as int]));
        }
        match evaluate_agg(df, &aggs[i], groups) {
            Ok(c) => {
                out.push(c);
                proof {
                    let cs = spec_eval_aggs(df@, aggs@.take(i as int), groups@.1)->Ok_0;
                    assert(cols_view(out@) =~= cs.push(
                        spec_eval_agg(df@, aggs@[i as int], groups@.1)->Ok_0,
                    ));
                }
            },
            Err(e) => {
                proof {
                    assert(spec_eval_aggs(df@, aggs@.take(i + 1), groups@.1) == Err::<
                        Seq<ColV>,
                        Error,
                    >(e));
                    lemma_eval_aggs_prefix_err(df@, aggs@, groups@.1, i + 1);
                }
                return Err(e);
            },
        }
        i = i + 1;
    }
    proof {
        assert(aggs@.take(aggs@.len() as int) =~= aggs@);
    }
    Ok(out)
}

/// An evaluation that fails on a prefix fails identically on the whole
/// list.
pub proof fn lemma_eval_aggs_prefix_err(
    df: Seq<ColV>,
    aggs: Seq<AggExpr>,
    groups: Seq<Seq<int>>,
    n: int,
)
    requires
        0 <= n <= aggs.len(),
        spec_eval_aggs(df, aggs.take(n), groups) is Err,
    ensures
        spec_eval_aggs(df, aggs, groups) == spec_eval_aggs(df, aggs.take(n), groups),
    decreases aggs.len(),
{
    if n == 0 {
    } else if aggs.len() == 0 {
    } else {
        assert(aggs.take(n)[0] == aggs[0]);
        assert(aggs.take(n).drop_first() =~= aggs.drop_first().take(n - 1));
        if spec_eval_agg(df, aggs[0], groups) is Ok {
            lemma_eval_aggs_prefix_err(df, aggs.drop_first(), groups, n - 1);
        }
    }
}


} // verus!
