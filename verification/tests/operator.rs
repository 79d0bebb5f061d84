use rolling_groupby::error::Error;
use rolling_groupby::exec::GroupByRollingExec;
use rolling_groupby::expr::{AggExpr, KeyExpr};
use rolling_groupby::frame::{Column, DataFrame};
use rolling_groupby::rolling::{GroupEncoding, RollingGroupOptions};
use rolling_groupby::state::{ExecutionState, Source};
use rolling_groupby::udf::{FailingUdf, RowCountUdf};

fn col(name: &str, values: Vec<i64>) -> Column {
    Column { name: name.to_string(), values }
}

/// Five rows with hourly timestamps and values 1..=5.
fn hourly_frame() -> DataFrame {
    DataFrame {
        columns: vec![
            col("time", vec![0, 3600, 7200, 10800, 14400]),
            col("value", vec![1, 2, 3, 4, 5]),
        ],
    }
}

fn options(period: usize, every: usize, encoding: GroupEncoding) -> RollingGroupOptions {
    RollingGroupOptions { index_column: "time".to_string(), period, every, encoding }
}

fn vectorized_exec(
    df: DataFrame,
    aggs: Vec<AggExpr>,
    period: usize,
    every: usize,
    slice: Option<(i64, usize)>,
) -> GroupByRollingExec<RowCountUdf> {
    GroupByRollingExec {
        input: Source::from_frame(df),
        keys: vec![],
        aggs,
        options: options(period, every, GroupEncoding::Ranges),
        input_schema: vec!["time".to_string(), "value".to_string()],
        slice,
        apply: None,
        enabled: true,
    }
}

fn names_of(df: &DataFrame) -> Vec<String> {
    df.columns.iter().map(|c| c.name.clone()).collect()
}

#[test]
fn scenario_two_row_windows_sum() {
    // 2-row windows over 5 rows: three groups of sizes [2, 2, 1], anchors
    // at each window's start timestamp, sum(value) per group.
    let mut e = vectorized_exec(hourly_frame(), vec![AggExpr::Sum { column: "value".to_string() }], 2, 2, None);
    let mut st = ExecutionState::new();
    let out = e.execute(&mut st).unwrap();
    assert_eq!(names_of(&out), vec!["time".to_string(), "value".to_string()]);
    assert_eq!(out.columns[0].values, vec![0, 7200, 14400]);
    assert_eq!(out.columns[1].values, vec![3, 7, 5]);
}

#[test]
fn scenario_result_window_second_group() {
    // As above with ResultWindow (1, 1): exactly the second group's row.
    let mut e = vectorized_exec(hourly_frame(), vec![AggExpr::Sum { column: "value".to_string() }], 2, 2, Some((1, 1)));
    let mut st = ExecutionState::new();
    let out = e.execute(&mut st).unwrap();
    assert_eq!(out.columns[0].values, vec![7200]);
    assert_eq!(out.columns[1].values, vec![7]);
}

#[test]
fn scenario_callback_ignores_aggs() {
    // A callback returning each group's row count, with an aggregation
    // expression also configured: the expression plays no role, the
    // output is one count row per group in group order.
    let mut e = GroupByRollingExec {
        input: Source::from_frame(hourly_frame()),
        keys: vec![],
        aggs: vec![AggExpr::Sum { column: "value".to_string() }],
        options: options(2, 2, GroupEncoding::Ranges),
        input_schema: vec!["time".to_string(), "value".to_string()],
        slice: None,
        apply: Some(RowCountUdf { name: "count".to_string() }),
        enabled: true,
    };
    let mut st = ExecutionState::new();
    let out = e.execute(&mut st).unwrap();
    assert_eq!(names_of(&out), vec!["count".to_string()]);
    assert_eq!(out.columns[0].values, vec![2, 2, 1]);
}

#[test]
fn scenario_tail_window_last_group() {
    // 5 one-row groups and ResultWindow (-1, 1): the 5th group only.
    let mut e = vectorized_exec(hourly_frame(), vec![AggExpr::Sum { column: "value".to_string() }], 1, 1, Some((-1, 1)));
    let mut st = ExecutionState::new();
    let out = e.execute(&mut st).unwrap();
    assert_eq!(out.columns[0].values, vec![14400]);
    assert_eq!(out.columns[1].values, vec![5]);
}

#[test]
fn cancellation_before_pull() {
    // A set stop flag fails the call with Cancelled before the wrapped
    // input is ever pulled.
    let mut e = vectorized_exec(hourly_frame(), vec![], 2, 2, None);
    let mut st = ExecutionState::new();
    st.cancelled = true;
    let r = e.execute(&mut st);
    assert_eq!(r.err(), Some(Error::Cancelled));
    assert_eq!(e.input.pulls, 0);
}

#[test]
fn availability_gate() {
    // With the capability disabled every call fails with
    // ConfigurationUnavailable, regardless of the rest of the
    // configuration, before anything else is looked at.
    let mut e = vectorized_exec(hourly_frame(), vec![AggExpr::Sum { column: "missing".to_string() }], 0, 0, None);
    e.enabled = false;
    let mut st = ExecutionState::new();
    st.cancelled = true;
    let r = e.execute(&mut st);
    assert_eq!(r.err(), Some(Error::ConfigurationUnavailable));
    assert_eq!(e.input.pulls, 0);
}

#[test]
fn idempotent_repeated_calls() {
    // Fixed input, fixed configuration, fresh cancellation state:
    // repeated calls yield identical output tables.
    let mut e = vectorized_exec(hourly_frame(), vec![AggExpr::Sum { column: "value".to_string() }], 2, 1, None);
    let mut st = ExecutionState::new();
    let a = e.execute(&mut st).unwrap();
    let b = e.execute(&mut st).unwrap();
    assert_eq!(a.columns.len(), b.columns.len());
    for (x, y) in a.columns.iter().zip(b.columns.iter()) {
        assert_eq!(x.name, y.name);
        assert_eq!(x.values, y.values);
    }
    assert_eq!(e.input.pulls, 2);
}

#[test]
fn column_order_keys_anchor_aggs() {
    // Vectorized output columns: key names in configured order, then the
    // anchor, then aggregation names in configured order.
    let mut e = GroupByRollingExec::<RowCountUdf> {
        input: Source::from_frame(DataFrame {
            columns: vec![
                col("k", vec![9, 9, 9]),
                col("time", vec![0, 1, 2]),
                col("value", vec![4, 5, 6]),
            ],
        }),
        keys: vec![KeyExpr { name: "k".to_string() }],
        aggs: vec![
            AggExpr::Sum { column: "value".to_string() },
            AggExpr::Count { name: "n".to_string() },
        ],
        options: options(2, 1, GroupEncoding::Ranges),
        input_schema: vec!["k".to_string(), "time".to_string(), "value".to_string()],
        slice: None,
        apply: None,
        enabled: true,
    };
    let mut st = ExecutionState::new();
    let out = e.execute(&mut st).unwrap();
    assert_eq!(
        names_of(&out),
        vec!["k".to_string(), "time".to_string(), "value".to_string(), "n".to_string()]
    );
    assert_eq!(out.columns[0].values, vec![9, 9, 9]);
    assert_eq!(out.columns[2].values, vec![9, 11, 6]);
    assert_eq!(out.columns[3].values, vec![2, 2, 1]);
}

#[test]
fn row_counts_equal_retained_groups() {
    // Anchor, aligned keys and aggregation outputs all have one row per
    // retained group.
    let mut e = GroupByRollingExec::<RowCountUdf> {
        input: Source::from_frame(DataFrame {
            columns: vec![
                col("k", vec![1, 2, 3, 4, 5]),
                col("time", vec![0, 1, 2, 3, 4]),
                col("value", vec![10, 20, 30, 40, 50]),
            ],
        }),
        keys: vec![KeyExpr { name: "k".to_string() }],
        aggs: vec![AggExpr::Count { name: "n".to_string() }],
        options: options(3, 2, GroupEncoding::Ranges),
        input_schema: vec!["k".to_string(), "time".to_string(), "value".to_string()],
        slice: Some((0, 2)),
        apply: None,
        enabled: true,
    };
    let mut st = ExecutionState::new();
    let out = e.execute(&mut st).unwrap();
    for c in &out.columns {
        assert_eq!(c.values.len(), 2);
    }
}

#[test]
fn upstream_failure_propagates() {
    let mut e = GroupByRollingExec::<RowCountUdf> {
        input: Source { data: Err(Error::Upstream), pulls: 0 },
        keys: vec![],
        aggs: vec![],
        options: options(2, 2, GroupEncoding::Ranges),
        input_schema: vec![],
        slice: None,
        apply: None,
        enabled: true,
    };
    let mut st = ExecutionState::new();
    assert_eq!(e.execute(&mut st).err(), Some(Error::Upstream));
    assert_eq!(e.input.pulls, 1);
}

#[test]
fn unknown_key_is_expression_failure() {
    let mut e = GroupByRollingExec::<RowCountUdf> {
        input: Source::from_frame(hourly_frame()),
        keys: vec![KeyExpr { name: "missing".to_string() }],
        aggs: vec![],
        options: options(2, 2, GroupEncoding::Ranges),
        input_schema: vec!["time".to_string(), "value".to_string()],
        slice: None,
        apply: None,
        enabled: true,
    };
    let mut st = ExecutionState::new();
    assert_eq!(e.execute(&mut st).err(), Some(Error::Expression));
}

#[test]
fn unknown_agg_column_is_expression_failure() {
    let mut e = vectorized_exec(hourly_frame(), vec![AggExpr::Sum { column: "missing".to_string() }], 2, 2, None);
    let mut st = ExecutionState::new();
    assert_eq!(e.execute(&mut st).err(), Some(Error::Expression));
}

#[test]
fn sum_overflow_is_expression_failure() {
    let df = DataFrame {
        columns: vec![col("time", vec![0, 1]), col("value", vec![i64::MAX, 1])],
    };
    let mut e = vectorized_exec(df, vec![AggExpr::Sum { column: "value".to_string() }], 2, 2, None);
    let mut st = ExecutionState::new();
    assert_eq!(e.execute(&mut st).err(), Some(Error::Expression));
}

#[test]
fn zero_stride_is_grouping_failure() {
    let mut e = vectorized_exec(hourly_frame(), vec![], 2, 0, None);
    let mut st = ExecutionState::new();
    assert_eq!(e.execute(&mut st).err(), Some(Error::Grouping));
}

#[test]
fn missing_index_column_is_grouping_failure() {
    let mut e = vectorized_exec(hourly_frame(), vec![], 2, 2, None);
    e.options.index_column = "absent".to_string();
    let mut st = ExecutionState::new();
    assert_eq!(e.execute(&mut st).err(), Some(Error::Grouping));
}

#[test]
fn non_monotonic_index_is_grouping_failure() {
    let df = DataFrame {
        columns: vec![col("time", vec![0, 5, 3]), col("value", vec![1, 2, 3])],
    };
    let mut e = vectorized_exec(df, vec![], 2, 2, None);
    let mut st = ExecutionState::new();
    assert_eq!(e.execute(&mut st).err(), Some(Error::Grouping));
}

#[test]
fn duplicate_output_name_is_assembly_failure() {
    // A key column and an aggregation output under the same name cannot
    // be assembled into one table.
    let mut e = GroupByRollingExec::<RowCountUdf> {
        input: Source::from_frame(hourly_frame()),
        keys: vec![KeyExpr { name: "value".to_string() }],
        aggs: vec![AggExpr::Sum { column: "value".to_string() }],
        options: options(2, 2, GroupEncoding::Ranges),
        input_schema: vec!["time".to_string(), "value".to_string()],
        slice: None,
        apply: None,
        enabled: true,
    };
    let mut st = ExecutionState::new();
    assert_eq!(e.execute(&mut st).err(), Some(Error::Assembly));
}

#[test]
fn failing_callback_propagates() {
    let mut e = GroupByRollingExec {
        input: Source::from_frame(hourly_frame()),
        keys: vec![],
        aggs: vec![],
        options: options(2, 2, GroupEncoding::Ranges),
        input_schema: vec![],
        slice: None,
        apply: Some(FailingUdf {}),
        enabled: true,
    };
    let mut st = ExecutionState::new();
    assert_eq!(e.execute(&mut st).err(), Some(Error::UserCallback));
}

#[test]
fn malformed_input_is_internal_consistency_failure() {
    // Columns of unequal height cannot be grouped; the operator reports
    // the broken internal invariant instead of reading out of range.
    let df = DataFrame {
        columns: vec![col("time", vec![0, 1, 2]), col("value", vec![1])],
    };
    let mut e = vectorized_exec(df, vec![], 2, 2, None);
    let mut st = ExecutionState::new();
    assert_eq!(e.execute(&mut st).err(), Some(Error::InternalConsistency));
}

#[test]
fn node_timer_records_label() {
    let mut e = GroupByRollingExec::<RowCountUdf> {
        input: Source::from_frame(DataFrame {
            columns: vec![col("k", vec![7, 7]), col("time", vec![0, 1]), col("value", vec![1, 2])],
        }),
        keys: vec![KeyExpr { name: "k".to_string() }],
        aggs: vec![AggExpr::Sum { column: "value".to_string() }],
        options: options(2, 2, GroupEncoding::Ranges),
        input_schema: vec!["k".to_string(), "time".to_string(), "value".to_string()],
        slice: None,
        apply: None,
        enabled: true,
    };
    let mut st = ExecutionState::new();
    st.node_timer = true;
    e.execute(&mut st).unwrap();
    assert_eq!(st.records, vec!["group_by_rolling,k".to_string()]);
}

#[test]
fn node_timer_unresolvable_key_is_expression_failure() {
    // With timing active, the label resolves each key name against the
    // input schema; an unknown name surfaces as an ordinary error.
    let mut e = vectorized_exec(hourly_frame(), vec![], 2, 2, None);
    e.keys = vec![KeyExpr { name: "time".to_string() }];
    e.input_schema = vec!["other".to_string()];
    let mut st = ExecutionState::new();
    st.node_timer = true;
    assert_eq!(e.execute(&mut st).err(), Some(Error::Expression));
    assert!(st.records.is_empty());
}

#[test]
fn zero_rows_give_zero_groups() {
    // A zero-group result is a valid, schema-correct empty table.
    let df = DataFrame { columns: vec![col("time", vec![]), col("value", vec![])] };
    let mut e = vectorized_exec(df, vec![AggExpr::Sum { column: "value".to_string() }], 2, 2, None);
    let mut st = ExecutionState::new();
    let out = e.execute(&mut st).unwrap();
    assert_eq!(names_of(&out), vec!["time".to_string(), "value".to_string()]);
    assert_eq!(out.columns[0].values, Vec::<i64>::new());
    assert_eq!(out.columns[1].values, Vec::<i64>::new());
}

#[test]
fn both_encodings_agree() {
    // The two group-membership encodings describe the same groups, so
    // the grouped result is identical under either.
    let run = |enc: GroupEncoding| {
        let mut e = GroupByRollingExec::<RowCountUdf> {
            input: Source::from_frame(DataFrame {
                columns: vec![
                    col("k", vec![1, 2, 3, 4, 5]),
                    col("time", vec![0, 1, 2, 3, 4]),
                    col("value", vec![5, 6, 7, 8, 9]),
                ],
            }),
            keys: vec![KeyExpr { name: "k".to_string() }],
            aggs: vec![AggExpr::Sum { column: "value".to_string() }],
            options: options(3, 2, enc),
            input_schema: vec!["k".to_string(), "time".to_string(), "value".to_string()],
            slice: None,
            apply: None,
            enabled: true,
        };
        let mut st = ExecutionState::new();
        e.execute(&mut st).unwrap()
    };
    let a = run(GroupEncoding::Ranges);
    let b = run(GroupEncoding::Indices);
    assert_eq!(a.columns.len(), b.columns.len());
    for (x, y) in a.columns.iter().zip(b.columns.iter()) {
        assert_eq!(x.name, y.name);
        assert_eq!(x.values, y.values);
    }
}

#[test]
fn callback_result_window_over_rows() {
    // Under the callback strategy the result window is applied to the
    // concatenated output rows, after the callback ran over every group.
    let mut e = GroupByRollingExec {
        input: Source::from_frame(hourly_frame()),
        keys: vec![],
        aggs: vec![],
        options: options(2, 1, GroupEncoding::Ranges),
        input_schema: vec![],
        slice: Some((1, 2)),
        apply: Some(RowCountUdf { name: "count".to_string() }),
        enabled: true,
    };
    let mut st = ExecutionState::new();
    let out = e.execute(&mut st).unwrap();
    // 5 windows of sizes [2, 2, 2, 2, 1]; rows 1..3 of the counts remain.
    assert_eq!(out.columns[0].values, vec![2, 2]);
}
