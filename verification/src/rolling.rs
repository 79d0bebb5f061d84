use vstd::prelude::*;
use crate::error::Error;
use crate::frame::{ColV, Column, DataFrame, df_height, index_of, lemma_index_of, spec_gather};
use crate::groups::{GroupsType, GroupsV, gv_in_bounds, gv_wf};

verus! {

/// Which physical encoding the grouper emits for group membership.
pub enum GroupEncoding {
    /// Contiguous `(start, length)` ranges.
    Ranges,
    /// Explicit per-group row lists with an auxiliary representative row.
    Indices,
}

/// Options of the windowed grouper, fixed at construction and passed
/// through by the operator: the monotonic ordering column, the window
/// extent and stride in rows, and the membership encoding to emit.
pub struct RollingGroupOptions {
    /// Name of the ordering column windows are laid over.
    pub index_column: String,
    /// Rows per window; a window is cut short at the end of the table.
    pub period: usize,
    /// Rows between consecutive window starts; strides smaller than the
    /// period give overlapping windows.
    pub every: usize,
    /// Membership encoding of the emitted group set.
    pub encoding: GroupEncoding,
}

/// The ordering column must never decrease along the rows.
pub open spec fn monotonic(s: Seq<i64>) -> bool {
    forall|i: int, j: int| 0 <= i <= j < s.len() ==> s[i] <= s[j]
}

/// Window start rows from `from` up: `from`, `from + every`, ... while
/// below `n`.
pub open spec fn window_starts(n: int, every: int, from: int) -> Seq<int>
    decreases
            (if from >= n {
                0int
            } else {
                n - from
            }),
{
    if every < 1 || from >= n {
        Seq::empty()
    } else {
        seq![from] + window_starts(n, every, from + every)
    }
}

/// The member rows of the window starting at `s`: `period` rows, cut
/// short at the end of the table.
pub open spec fn window_rows(n: int, period: int, s: int) -> Seq<int> {
    Seq::new(
        (if n - s < period {
            n - s
        } else {
            period
        }) as nat,
        |j: int| s + j,
    )
}

/// Every window start lies in `[from, n)`.
pub proof fn lemma_window_starts_in_range(n: int, every: int, from: int)
    requires
        every >= 1,
    ensures
        forall|i: int|
            0 <= i < window_starts(n, every, from).len() ==> from <= #[trigger] window_starts(
                n,
                every,
                from,
            )[i] < n,
    decreases
            (if from >= n {
                0int
            } else {
                n - from
            }),
{
    if from >= n {
    } else {
        lemma_window_starts_in_range(n, every, from + every);
        let s = window_starts(n, every, from);
        let rest = window_starts(n, every, from + every);
        assert(s =~= seq![from] + rest);
        assert forall|i: int| 0 <= i < s.len() implies from <= #[trigger] s[i] < n by {
            if i == 0 {
                assert(s[i] == from);
            } else {
                assert(s[i] == rest[i - 1]);
            }
        }
    }
}

/// What the grouper returns for a table and options: the anchor column
/// (the ordering column's value at each window start) and the group set;
/// or a grouping failure for a zero stride, an unknown ordering column,
/// or a non-monotonic ordering column.
pub open spec fn spec_rolling(df: Seq<ColV>, o: RollingGroupOptions) -> Result<
    (ColV, GroupsV),
    Error,
> {
    if o.every == 0 {
        Err(Error::Grouping)
    } else {
        let i = index_of(df, o.index_column@);
        if i < 0 {
            Err(Error::Grouping)
        } else if !monotonic(df[i].1) {
            Err(Error::Grouping)
        } else {
            let n = df_height(df) as int;
            let starts = window_starts(n, o.every as int, 0);
            let rows = starts.map_values(|s: int| window_rows(n, o.period as int, s));
            let anchor = (o.index_column@, starts.map_values(|s: int| df[i].1[s]));
            Ok((anchor, (starts, rows)))
        }
    }
}

/// Whether the ordering column never decreases.
fn check_monotonic(values: &Vec<i64>) -> (b: bool)
    ensures
        b == monotonic(values@),
{
    let n = values.len();
    if n == 0 {
        return true;
    }
    let mut i: usize = 1;
    while i < n
        invariant
            n == values@.len(),
            1 <= i <= n,
            monotonic(values@.take(i as int)),
        decreases n - i,
    {
        if values[i - 1] > values[i] {
            proof {
                assert(!monotonic(values@));
            }
            return false;
        }
        proof {
            let t = values@.take(i + 1);
            assert forall|a: int, b: int| 0 <= a <= b < t.len() implies t[a] <= t[b] by {
                if b < i {
                    assert(values@.take(i as int)[a] <= values@.take(i as int)[b]);
                } else if a < i {
                    assert(values@.take(i as int)[a] <= values@.take(i as int)[i - 1]);
                }
            }
        }
        i = i + 1;
    }
    proof {
        assert(values@.take(n as int) =~= values@);
    }
    true
}

/// Runs the grouper: consumes the consolidated table and the options,
/// returns the anchor column and the group set in the configured encoding.
#[verifier::loop_isolation(false)]
pub fn rolling(df: &DataFrame, options: &RollingGroupOptions) -> (r: Result<
    (Column, GroupsType),
    Error,
>)
    requires
        df.wf(),
    ensures
        match spec_rolling(df@, *options) {
            Ok(out) => r matches Ok((a, g)) && a@ == out.0 && g@ == out.1 && gv_wf(g@)
                && gv_in_bounds(g@, df_height(df@)) && (options.encoding matches
            GroupEncoding::Ranges ==> g is Slice) && (options.encoding matches
            GroupEncoding::Indices ==> g is Idx),
            Err(e) => r == Err::<(Column, GroupsType), Error>(e),
        },
{
    if options.every == 0 {
        return Err(Error::Grouping);
    }
    proof {
        lemma_index_of(df@, options.index_column@);
    }
    let idx = match df.find_column(&options.index_column) {
        Some(i) => i,
        None => {
            return Err(Error::Grouping);
        },
    };
    proof {
        assert(df@[idx as int] == df.columns@[idx as int]@);
    }
    let values = &df.columns[idx].values;
    if !check_monotonic(values) {
        return Err(Error::Grouping);
    }
    let n = values.len();
    proof {
        assert(n == df_height(df@));
        lemma_window_starts_in_range(n as int, options.every as int, 0);
    }
    let ghost all_starts = window_starts(n as int, options.every as int, 0);

    // Collect the window start rows.
    let mut starts: Vec<usize> = Vec::new();
    if n > 0 {
        let mut start: usize = 0;
        let mut done: bool = false;
        while !done
            invariant
                !done ==> start < n,
                forall|i: int| 0 <= i < starts@.len() ==> #[trigger] starts@[i] < n,
                all_starts =~= starts@.map_values(|x: usize| x as int) + (if done {
                    Seq::<int>::empty()
                } else {
                    window_starts(n as int, options.every as int, start as int)
                }),
            decreases (if done {
                0int
            } else {
                n - start + 1
            }),
        {
            starts.push(start);
            proof {
                let m0 = starts@.map_values(|x: usize| x as int);
                assert(m0 =~= m0.take(m0.len() - 1).push(start as int));
                assert(window_starts(n as int, options.every as int, start as int) =~= seq![
                    start as int,
                ] + window_starts(n as int, options.every as int, start + options.every));
            }
            if options.every >= n - start {
                proof {
                    assert(window_starts(n as int, options.every as int, start + options.every)
                        =~= Seq::<int>::empty());
                    assert(all_starts =~= starts@.map_values(|x: usize| x as int) + Seq::<
                        int,
                    >::empty());
                }
                done = true;
            } else {
                start = start + options.every;
            }
        }
    }
    proof {
        assert(all_starts =~= starts@.map_values(|x: usize| x as int));
    }

    // The anchor column: the ordering column's value at each window start.
    // Every window start lies inside the table, so the gather cannot fail.
    let anchor = match df.columns[idx].gather(&starts) {
        Ok(a) => a,
        Err(_) => {
            proof {
                assert(false);
            }
            return Err(Error::InternalConsistency);
        },
    };
    proof {
        assert(spec_gather(values@, starts@) =~= all_starts.map_values(
            |s: int| df@[idx as int].1[s],
        ));
    }

    // The group set, in the configured encoding.
    let k = starts.len();
    let groups = match options.encoding {
        GroupEncoding::Ranges => {
            let mut rv: Vec<(usize, usize)> = Vec::new();
            let mut i: usize = 0;
            while i < k
                invariant
                    i <= k,
                    rv@.len() == i,
                    forall|t: int| 0 <= t < i ==> (#[trigger] rv@[t]).0 == starts@[t],
                    forall|t: int| 0 <= t < i ==> (#[trigger] rv@[t]).1 == (if n - starts@[t]
                        < options.period {
                        n - starts@[t]
                    } else {
                        options.period as int
                    }),
                decreases k - i,
            {
                let s = starts[i];
                let len = if n - s < options.period {
                    n - s
                } else {
                    options.period
                };
                rv.push((s, len));
                i = i + 1;
            }
            let g = GroupsType::Slice { groups: rv };
            proof {
                assert(g@.0 =~= all_starts);
                assert forall|t: int| 0 <= t < k implies g@.1[t] =~= all_starts.map_values(
                    |s: int| window_rows(n as int, options.period as int, s),
                )[t] by {
                    assert(g@.1[t] == Seq::new(rv@[t].1 as nat, |j: int| rv@[t].0 + j));
                }
                assert(g@.1 =~= all_starts.map_values(
                    |s: int| window_rows(n as int, options.period as int, s),
                ));
            }
            g
        },
        GroupEncoding::Indices => {
            let first = crate::groups::copy_indices(&starts);
            let mut gv: Vec<Vec<usize>> = Vec::new();
            let mut i: usize = 0;
            while i < k
                invariant
                    i <= k,
                    gv@.len() == i,
                    forall|t: int| 0 <= t < i ==> (#[trigger] gv@[t])@.map_values(
                        |x: usize| x as int,
                    ) == window_rows(n as int, options.period as int, starts@[t] as int),
                decreases k - i,
            {
                let s = starts[i];
                let len = if n - s < options.period {
                    n - s
                } else {
                    options.period
                };
                let mut row: Vec<usize> = Vec::new();
                let mut j: usize = 0;
                while j < len
                    invariant
                        j <= len,
                        s + len <= n,
                        row@.map_values(|x: usize| x as int) =~= window_rows(
                            n as int,
                            options.period as int,
                            s as int,
                        ).take(j as int),
                    decreases len - j,
                {
                    row.push(s + j);
                    proof {
                        let w = window_rows(n as int, options.period as int, s as int);
                        assert(w.take(j + 1) =~= w.take(j as int).push(s + j));
                    }
                    j = j + 1;
                }
                proof {
                    let w = window_rows(n as int, options.period as int, s as int);
                    assert(w.take(w.len() as int) =~= w);
                }
                gv.push(row);
                i = i + 1;
            }
            let g = GroupsType::Idx { first, groups: gv };
            proof {
                assert(g@.0 =~= all_starts);
                assert(g@.1 =~= all_starts.map_values(
                    |s: int| window_rows(n as int, options.period as int, s),
                ));
            }
            g
        },
    };
    proof {
        assert(gv_in_bounds(
            (
                all_starts,
                all_starts.map_values(|s: int| window_rows(n as int, options.period as int, s)),
            ),
            df_height(df@),
        ));
    }
    Ok((anchor, groups))
}

} // verus!
