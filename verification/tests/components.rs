use rolling_groupby::error::Error;
use rolling_groupby::exec::{profile_label, update_keys};
use rolling_groupby::expr::{AggExpr, KeyExpr, evaluate_agg, evaluate_aggs};
use rolling_groupby::frame::{Column, DataFrame, concat_frames, slice_bounds};
use rolling_groupby::groups::GroupsType;
use rolling_groupby::rolling::{GroupEncoding, RollingGroupOptions, rolling};

fn col(name: &str, values: Vec<i64>) -> Column {
    Column { name: name.to_string(), values }
}

#[test]
fn column_slice_forward_and_clipped() {
    let c = col("x", vec![10, 20, 30, 40, 50]);
    assert_eq!(c.slice(1, 2).values, vec![20, 30]);
    assert_eq!(c.slice(3, 10).values, vec![40, 50]);
    assert_eq!(c.slice(9, 2).values, Vec::<i64>::new());
    assert_eq!(c.slice(0, 0).values, Vec::<i64>::new());
}

#[test]
fn column_slice_tail_indexing() {
    let c = col("x", vec![10, 20, 30, 40, 50]);
    assert_eq!(c.slice(-1, 1).values, vec![50]);
    assert_eq!(c.slice(-3, 3).values, vec![30, 40, 50]);
    // A window laid before the start is intersected with the rows.
    assert_eq!(c.slice(-7, 7).values, vec![10, 20, 30, 40, 50]);
    assert_eq!(c.slice(-7, 3).values, vec![10]);
}

#[test]
fn slice_bounds_matches_window_placement() {
    assert_eq!(slice_bounds(1, 2, 5), (1, 3));
    assert_eq!(slice_bounds(-2, 2, 5), (3, 5));
    assert_eq!(slice_bounds(7, 4, 5), (5, 5));
    assert_eq!(slice_bounds(-9, 5, 5), (0, 1));
}

#[test]
fn gather_checks_bounds() {
    let c = col("x", vec![10, 20, 30]);
    assert_eq!(c.gather(&vec![2, 0, 2]).unwrap().values, vec![30, 10, 30]);
    assert_eq!(c.gather(&vec![1, 3]).err(), Some(Error::InternalConsistency));
}

#[test]
fn frame_new_validates() {
    assert!(DataFrame::new(vec![col("a", vec![1, 2]), col("b", vec![3, 4])]).is_ok());
    assert_eq!(
        DataFrame::new(vec![col("a", vec![1, 2]), col("a", vec![3, 4])]).err(),
        Some(Error::Assembly)
    );
    assert_eq!(
        DataFrame::new(vec![col("a", vec![1, 2]), col("b", vec![3])]).err(),
        Some(Error::Assembly)
    );
}

#[test]
fn groups_first_indices_and_slice() {
    let g = GroupsType::Slice { groups: vec![(0, 2), (2, 2), (4, 1)] };
    assert_eq!(g.first_indices(), vec![0, 2, 4]);
    let s = g.slice(1, 2);
    assert_eq!(s.first_indices(), vec![2, 4]);
    let gi = GroupsType::Idx { first: vec![5, 6], groups: vec![vec![5, 1], vec![6]] };
    assert_eq!(gi.first_indices(), vec![5, 6]);
    assert_eq!(gi.slice(-1, 1).first_indices(), vec![6]);
}

#[test]
fn group_rows_keep_order() {
    // An index list keeps grouper-defined membership order; a range
    // keeps source order.
    let gi = GroupsType::Idx { first: vec![3], groups: vec![vec![3, 0, 2]] };
    assert_eq!(gi.group_rows(0, 4), vec![3, 0, 2]);
    let gr = GroupsType::Slice { groups: vec![(1, 3)] };
    assert_eq!(gr.group_rows(0, 4), vec![1, 2, 3]);
}

#[test]
fn key_evaluate_and_resolve() {
    let df = DataFrame { columns: vec![col("a", vec![1]), col("b", vec![2])] };
    let k = KeyExpr { name: "b".to_string() };
    assert_eq!(k.evaluate(&df).unwrap().values, vec![2]);
    let missing = KeyExpr { name: "c".to_string() };
    assert_eq!(missing.evaluate(&df).err(), Some(Error::Expression));
    assert_eq!(k.to_field(&vec!["a".to_string(), "b".to_string()]).unwrap(), "b".to_string());
    assert_eq!(k.to_field(&vec!["a".to_string()]).err(), Some(Error::Expression));
}

#[test]
fn evaluate_agg_sum_and_count() {
    let df = DataFrame { columns: vec![col("v", vec![1, 2, 3, 4])] };
    let g = GroupsType::Slice { groups: vec![(0, 3), (2, 2), (3, 0)] };
    let s = evaluate_agg(&df, &AggExpr::Sum { column: "v".to_string() }, &g).unwrap();
    assert_eq!(s.name, "v".to_string());
    assert_eq!(s.values, vec![6, 7, 0]);
    let n = evaluate_agg(&df, &AggExpr::Count { name: "n".to_string() }, &g).unwrap();
    assert_eq!(n.name, "n".to_string());
    assert_eq!(n.values, vec![3, 2, 0]);
}

#[test]
fn evaluate_aggs_order_and_first_error() {
    let df = DataFrame { columns: vec![col("v", vec![5, 6])] };
    let g = GroupsType::Slice { groups: vec![(0, 2)] };
    let cols = evaluate_aggs(
        &df,
        &vec![
            AggExpr::Count { name: "n".to_string() },
            AggExpr::Sum { column: "v".to_string() },
        ],
        &g,
    )
    .unwrap();
    assert_eq!(cols.len(), 2);
    assert_eq!(cols[0].name, "n".to_string());
    assert_eq!(cols[1].name, "v".to_string());
    let bad = evaluate_aggs(&df, &vec![AggExpr::Sum { column: "w".to_string() }], &g);
    assert_eq!(bad.err(), Some(Error::Expression));
}

#[test]
fn rolling_builds_overlapping_ranges() {
    // Stride below the period: overlapping windows.
    let df = DataFrame { columns: vec![col("time", vec![0, 1, 2, 3])] };
    let o = RollingGroupOptions {
        index_column: "time".to_string(),
        period: 3,
        every: 1,
        encoding: GroupEncoding::Ranges,
    };
    let (anchor, groups) = rolling(&df, &o).unwrap();
    assert_eq!(anchor.name, "time".to_string());
    assert_eq!(anchor.values, vec![0, 1, 2, 3]);
    assert_eq!(groups.group_rows(0, 4), vec![0, 1, 2]);
    assert_eq!(groups.group_rows(1, 4), vec![1, 2, 3]);
    assert_eq!(groups.group_rows(3, 4), vec![3]);
}

#[test]
fn rolling_rejects_bad_input() {
    let df = DataFrame { columns: vec![col("time", vec![0, 2, 1])] };
    let o = RollingGroupOptions {
        index_column: "time".to_string(),
        period: 2,
        every: 1,
        encoding: GroupEncoding::Ranges,
    };
    assert_eq!(rolling(&df, &o).err(), Some(Error::Grouping));
}

#[test]
fn update_keys_uses_predefined_first() {
    // The representative row is the grouper-supplied first member, kept
    // even for a structurally empty group, so the key value survives.
    let mut keys = vec![col("k", vec![10, 20, 30])];
    let g = GroupsType::Idx { first: vec![2, 1], groups: vec![vec![2, 0], vec![]] };
    update_keys(&mut keys, &g).unwrap();
    assert_eq!(keys[0].values, vec![30, 20]);
}

#[test]
fn update_keys_checks_bounds() {
    let before = vec![5, 6];
    let mut keys = vec![col("k", before.clone())];
    let g = GroupsType::Idx { first: vec![9], groups: vec![vec![]] };
    assert_eq!(update_keys(&mut keys, &g).err(), Some(Error::InternalConsistency));
    assert_eq!(keys[0].values, before);
}

#[test]
fn concat_frames_stacks_and_validates() {
    let a = DataFrame { columns: vec![col("x", vec![1, 2])] };
    let b = DataFrame { columns: vec![col("x", vec![3])] };
    let out = concat_frames(&vec![a, b]).unwrap();
    assert_eq!(out.columns[0].values, vec![1, 2, 3]);
    let c = DataFrame { columns: vec![col("x", vec![1])] };
    let d = DataFrame { columns: vec![col("y", vec![2])] };
    assert_eq!(concat_frames(&vec![c, d]).err(), Some(Error::Assembly));
    assert_eq!(concat_frames(&vec![]).unwrap().columns.len(), 0);
}

#[test]
fn profile_label_joins_key_names() {
    let schema = vec!["a".to_string(), "b".to_string()];
    let keys = vec![KeyExpr { name: "a".to_string() }, KeyExpr { name: "b".to_string() }];
    assert_eq!(profile_label(&keys, &schema).unwrap(), "group_by_rolling,a,b".to_string());
    assert_eq!(profile_label(&vec![], &schema).unwrap(), "group_by_rolling".to_string());
    let bad = vec![KeyExpr { name: "z".to_string() }];
    assert_eq!(profile_label(&bad, &schema).err(), Some(Error::Expression));
}
