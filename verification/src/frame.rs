use vstd::prelude::*;
use crate::error::Error;

verus! {

/// View of a column: its name and its cell values.
pub type ColV = (Seq<char>, Seq<i64>);

/// A named column of integer cells. Every value a column can carry (ordering
/// timestamps, keys, aggregation outputs) is a plain 64-bit integer.
#[derive(Debug)]
pub struct Column {
    pub name: String,
    pub values: Vec<i64>,
}

impl View for Column {
    type V = ColV;

    open spec fn view(&self) -> ColV {
        (self.name@, self.values@)
    }
}

/// Clamps `x` into the interval `[lo, hi]`.
pub open spec fn clamp(x: int, lo: int, hi: int) -> int {
    if x < lo {
        lo
    } else if x > hi {
        hi
    } else {
        x
    }
}

/// First row retained by a `(offset, length)` slice of `height` rows.
/// A negative offset counts from the end (tail-indexing).
pub open spec fn slice_start(offset: int, height: int) -> int {
    clamp(if offset < 0 { offset + height } else { offset }, 0, height)
}

/// One past the last row retained by a `(offset, length)` slice: the
/// requested window is laid over the rows and then intersected with them.
pub open spec fn slice_stop(offset: int, length: int, height: int) -> int {
    clamp((if offset < 0 { offset + height } else { offset }) + length, 0, height)
}

/// The subsequence a `(offset, length)` slice retains.
pub open spec fn spec_slice<A>(s: Seq<A>, offset: int, length: int) -> Seq<A> {
    s.subrange(slice_start(offset, s.len() as int), slice_stop(offset, length, s.len() as int))
}

/// Resolves a `(offset, length)` slice request against `height` rows,
/// returning the retained range as a start index and an end index.
pub fn slice_bounds(offset: i64, length: usize, height: usize) -> (r: (usize, usize))
    ensures
        r.0 == slice_start(offset as int, height as int),
        r.1 == slice_stop(offset as int, length as int, height as int),
        r.0 <= r.1 <= height,
{
    let start0: i128 = if offset < 0 {
        offset as i128 + height as i128
    } else {
        offset as i128
    };
    let stop0: i128 = start0 + length as i128;
    let h: i128 = height as i128;
    let start: i128 = if start0 < 0 {
        0
    } else if start0 > h {
        h
    } else {
        start0
    };
    let stop: i128 = if stop0 < 0 {
        0
    } else if stop0 > h {
        h
    } else {
        stop0
    };
    (start as usize, stop as usize)
}

/// A window with a non-negative offset keeps the elements of
/// `[offset, offset + length)`, clipped to the available range.
pub proof fn lemma_slice_forward<A>(s: Seq<A>, offset: int, length: int)
    requires
        0 <= offset,
        0 <= length,
    ensures
        spec_slice(s, offset, length) == s.subrange(
            if offset <= s.len() {
                offset
            } else {
                s.len() as int
            },
            if offset + length <= s.len() {
                offset + length
            } else {
                s.len() as int
            },
        ),
{
}

/// A window with a negative offset counts from the end: with
/// `length == -offset` it keeps the last `length` elements, bounded by
/// the available count.
pub proof fn lemma_slice_tail<A>(s: Seq<A>, offset: int)
    requires
        offset < 0,
    ensures
        spec_slice(s, offset, -offset) == s.subrange(
            if s.len() + offset >= 0 {
                s.len() + offset
            } else {
                0
            },
            s.len() as int,
        ),
{
}

/// Whether every index in `idx` is a valid row of a column of length `len`.
pub open spec fn gather_in_bounds(idx: Seq<usize>, len: nat) -> bool {
    forall|i: int| 0 <= i < idx.len() ==> (idx[i] as nat) < len
}

/// The values picked out of `values` at positions `idx`, in `idx` order.
pub open spec fn spec_gather(values: Seq<i64>, idx: Seq<usize>) -> Seq<i64> {
    Seq::new(idx.len(), |i: int| values[idx[i] as int])
}

impl Column {
    /// Number of cells in the column.
    pub fn len(&self) -> (n: usize)
        ensures
            n == self@.1.len(),
    {
        self.values.len()
    }

    /// Copy of the column under the same name.
    pub fn duplicate(&self) -> (c: Column)
        ensures
            c@ == self@,
    {
        Column { name: self.name.clone(), values: self.values.clone() }
    }

    /// The column restricted to a `(offset, length)` row slice.
    pub fn slice(&self, offset: i64, length: usize) -> (c: Column)
        ensures
            c@.0 == self@.0,
            c@.1 == spec_slice(self@.1, offset as int, length as int),
    {
        let (start, stop) = slice_bounds(offset, length, self.values.len());
        let mut out: Vec<i64> = Vec::new();
        let mut k: usize = start;
        while k < stop
            invariant
                start <= k <= stop,
                stop <= self.values@.len(),
                out@ == self.values@.subrange(start as int, k as int),
            decreases stop - k,
        {
            out.push(self.values[k]);
            proof {
                assert(self.values@.subrange(start as int, k + 1) =~= self.values@.subrange(
                    start as int,
                    k as int,
                ).push(self.values@[k as int]));
            }
            k = k + 1;
        }
        Column { name: self.name.clone(), values: out }
    }

    /// The values of the column at row positions `idx`, in that order, under
    /// the same name. Fails on any out-of-range index instead of reading
    /// outside the column.
    pub fn gather(&self, idx: &Vec<usize>) -> (r: Result<Column, Error>)
        ensures
            gather_in_bounds(idx@, self@.1.len()) ==> (r matches Ok(c) && c@.0 == self@.0
                && c@.1 == spec_gather(self@.1, idx@)),
            !gather_in_bounds(idx@, self@.1.len()) ==> r == Err::<Column, Error>(
                Error::InternalConsistency,
            ),
    {
        let mut out: Vec<i64> = Vec::new();
        let mut i: usize = 0;
        while i < idx.len()
            invariant
                i <= idx@.len(),
                forall|j: int| 0 <= j < i ==> (idx@[j] as nat) < self@.1.len(),
                out@ == spec_gather(self@.1, idx@.take(i as int)),
            decreases idx@.len() - i,
        {
            let j = idx[i];
            if j >= self.values.len() {
                return Err(Error::InternalConsistency);
            }
            out.push(self.values[j]);
            proof {
                assert(spec_gather(self@.1, idx@.take(i + 1)) =~= spec_gather(
                    self@.1,
                    idx@.take(i as int),
                ).push(self@.1[idx@[i as int] as int]));
            }
            i = i + 1;
        }
        proof {
            assert(idx@.take(idx@.len() as int) =~= idx@);
        }
        Ok(Column { name: self.name.clone(), values: out })
    }
}

/// View of a vector of columns as a table view.
pub open spec fn cols_view(v: Seq<Column>) -> Seq<ColV> {
    v.map_values(|c: Column| c@)
}

/// The names of the columns of a table view, in column order.
pub open spec fn df_names(df: Seq<ColV>) -> Seq<Seq<char>> {
    df.map_values(|c: ColV| c.0)
}

/// Row count of a table view; a table without columns has no rows.
pub open spec fn df_height(df: Seq<ColV>) -> nat {
    if df.len() == 0 {
        0
    } else {
        df[0].1.len()
    }
}

/// A well-formed table: column names are pairwise distinct and every column
/// has the same number of rows.
pub open spec fn df_wf(df: Seq<ColV>) -> bool {
    &&& forall|i: int, j: int| 0 <= i < j < df.len() ==> df[i].0 != df[j].0
    &&& forall|i: int| 0 <= i < df.len() ==> (#[trigger] df[i]).1.len() == df_height(df)
}

/// Position of the first column named `name`, or -1 when there is none.
pub open spec fn index_of(df: Seq<ColV>, name: Seq<char>) -> int
    decreases df.len(),
{
    if df.len() == 0 {
        -1
    } else if df[0].0 == name {
        0
    } else {
        let r = index_of(df.drop_first(), name);
        if r < 0 {
            -1
        } else {
            r + 1
        }
    }
}

/// `index_of` finds a column exactly when one carries the name, and then
/// the first such column.
pub proof fn lemma_index_of(df: Seq<ColV>, name: Seq<char>)
    ensures
        index_of(df, name) == -1 || (0 <= index_of(df, name) < df.len()),
        index_of(df, name) == -1 ==> forall|i: int| 0 <= i < df.len() ==> df[i].0 != name,
        index_of(df, name) >= 0 ==> df[index_of(df, name)].0 == name,
        index_of(df, name) >= 0 ==> forall|i: int| 0 <= i < index_of(df, name) ==> df[i].0 != name,
    decreases df.len(),
{
    if df.len() == 0 {
    } else if df[0].0 == name {
    } else {
        lemma_index_of(df.drop_first(), name);
        assert forall|i: int| 1 <= i < df.len() implies df.drop_first()[i - 1] == df[i] by {}
    }
}

/// The table restricted to the rows `idx`, in that order.
pub open spec fn spec_df_take(df: Seq<ColV>, idx: Seq<usize>) -> Seq<ColV> {
    df.map_values(|c: ColV| (c.0, spec_gather(c.1, idx)))
}

/// The table restricted to a `(offset, length)` row slice.
pub open spec fn spec_df_slice(df: Seq<ColV>, offset: int, length: int) -> Seq<ColV> {
    df.map_values(|c: ColV| (c.0, spec_slice(c.1, offset, length)))
}

/// A table: an ordered collection of equally long, uniquely named columns.
#[derive(Debug)]
pub struct DataFrame {
    pub columns: Vec<Column>,
}

impl View for DataFrame {
    type V = Seq<ColV>;

    open spec fn view(&self) -> Seq<ColV> {
        self.columns@.map_values(|c: Column| c@)
    }
}

impl DataFrame {
    /// Well-formedness: distinct names, one shared height.
    pub open spec fn wf(&self) -> bool {
        df_wf(self@)
    }

    /// The table with no columns (and hence no rows).
    pub fn empty() -> (df: DataFrame)
        ensures
            df@ =~= Seq::<ColV>::empty(),
            df.wf(),
    {
        DataFrame { columns: Vec::new() }
    }

    /// Number of columns.
    pub fn width(&self) -> (n: usize)
        ensures
            n == self@.len(),
    {
        self.columns.len()
    }

    /// Number of rows.
    pub fn height(&self) -> (n: usize)
        ensures
            n == df_height(self@),
    {
        if self.columns.len() == 0 {
            0
        } else {
            self.columns[0].len()
        }
    }

    /// Whether the columns form a well-formed table.
    pub fn check_wf(&self) -> (b: bool)
        ensures
            b == self.wf(),
    {
        let h = self.height();
        let n = self.columns.len();
        let mut i: usize = 0;
        while i < n
            invariant
                n == self@.len(),
                h == df_height(self@),
                i <= n,
                forall|a: int, b: int| 0 <= a < b < i ==> self@[a].0 != self@[b].0,
                forall|a: int| 0 <= a < i ==> (#[trigger] self@[a]).1.len() == h,
            decreases n - i,
        {
            if self.columns[i].len() != h {
                proof {
                    assert(self@[i as int].1.len() != df_height(self@));
                }
                return false;
            }
            let mut j: usize = 0;
            while j < i
                invariant
                    n == self@.len(),
                    i < n,
                    j <= i,
                    forall|a: int| 0 <= a < j ==> self@[a].0 != self@[i as int].0,
                decreases i - j,
            {
                if self.columns[j].name == self.columns[i].name {
                    proof {
                        assert(self@[j as int].0 == self@[i as int].0);
                    }
                    return false;
                }
                j = j + 1;
            }
            i = i + 1;
        }
        true
    }

    /// Builds a table out of `columns`, validating shape consistency and
    /// name uniqueness; on any violation the table is rejected whole.
    pub fn new(columns: Vec<Column>) -> (r: Result<DataFrame, Error>)
        ensures
            df_wf(columns@.map_values(|c: Column| c@)) ==> (r matches Ok(d) && d@
                == columns@.map_values(|c: Column| c@)),
            !df_wf(columns@.map_values(|c: Column| c@)) ==> r == Err::<DataFrame, Error>(
                Error::Assembly,
            ),
    {
        let df = DataFrame { columns };
        if df.check_wf() {
            Ok(df)
        } else {
            Err(Error::Assembly)
        }
    }

    /// Position of the first column named `name`, if any.
    pub fn find_column(&self, name: &String) -> (r: Option<usize>)
        ensures
            index_of(self@, name@) < 0 ==> r is None,
            index_of(self@, name@) >= 0 ==> (r matches Some(i) && i as int == index_of(
                self@,
                name@,
            )),
    {
        proof {
            lemma_index_of(self@, name@);
        }
        let n = self.columns.len();
        let mut i: usize = 0;
        while i < n
            invariant
                n == self@.len(),
                i <= n,
                forall|a: int| 0 <= a < i ==> self@[a].0 != name@,
            decreases n - i,
        {
            if self.columns[i].name == *name {
                proof {
                    lemma_index_of_found(self@, name@, i as int);
                }
                return Some(i);
            }
            i = i + 1;
        }
        None
    }

    /// The rows `idx` of every column, in that order. Any out-of-range
    /// index is an internal-consistency failure.
    pub fn take(&self, idx: &Vec<usize>) -> (r: Result<DataFrame, Error>)
        requires
            self.wf(),
        ensures
            (self@.len() == 0 || gather_in_bounds(idx@, df_height(self@))) ==> (r matches Ok(d)
                && d@ =~= spec_df_take(self@, idx@)),
            !(self@.len() == 0 || gather_in_bounds(idx@, df_height(self@))) ==> r == Err::<
                DataFrame,
                Error,
            >(Error::InternalConsistency),
    {
        let mut out: Vec<Column> = Vec::new();
        let n = self.columns.len();
        let mut i: usize = 0;
        while i < n
            invariant
                self.wf(),
                n == self@.len(),
                i <= n,
                i > 0 ==> gather_in_bounds(idx@, df_height(self@)),
                out@.map_values(|c: Column| c@) =~= spec_df_take(self@.take(i as int), idx@),
            decreases n - i,
        {
            match self.columns[i].gather(idx) {
                Ok(c) => {
                    out.push(c);
                },
                Err(e) => {
                    proof {
                        assert(self@[i as int].1.len() == df_height(self@));
                        assert(!gather_in_bounds(idx@, df_height(self@)));
                    }
                    return Err(e);
                },
            }
            proof {
                assert(spec_df_take(self@.take(i + 1), idx@) =~= spec_df_take(
                    self@.take(i as int),
                    idx@,
                ).push((self@[i as int].0, spec_gather(self@[i as int].1, idx@))));
            }
            i = i + 1;
        }
        proof {
            assert(self@.take(n as int) =~= self@);
        }
        Ok(DataFrame { columns: out })
    }

    /// Copy of the table, column by column.
    pub fn duplicate(&self) -> (d: DataFrame)
        ensures
            d@ == self@,
    {
        let mut out: Vec<Column> = Vec::new();
        let n = self.columns.len();
        let mut i: usize = 0;
        while i < n
            invariant
                n == self@.len(),
                i <= n,
                out@.map_values(|c: Column| c@) =~= self@.take(i as int),
            decreases n - i,
        {
            out.push(self.columns[i].duplicate());
            proof {
                assert(self@.take(i + 1) =~= self@.take(i as int).push(self@[i as int]));
            }
            i = i + 1;
        }
        proof {
            assert(self@.take(n as int) =~= self@);
            assert(out@.map_values(|c: Column| c@) == self@);
        }
        DataFrame { columns: out }
    }

    /// The `(offset, length)` row slice of every column.
    pub fn slice(&self, offset: i64, length: usize) -> (d: DataFrame)
        ensures
            d@ =~= spec_df_slice(self@, offset as int, length as int),
    {
        let mut out: Vec<Column> = Vec::new();
        let n = self.columns.len();
        let mut i: usize = 0;
        while i < n
            invariant
                n == self@.len(),
                i <= n,
                out@.map_values(|c: Column| c@) =~= spec_df_slice(
                    self@.take(i as int),
                    offset as int,
                    length as int,
                ),
            decreases n - i,
        {
            let c = self.columns[i].slice(offset, length);
            out.push(c);
            proof {
                assert(spec_df_slice(self@.take(i + 1), offset as int, length as int)
                    =~= spec_df_slice(self@.take(i as int), offset as int, length as int).push((
                    self@[i as int].0,
                    spec_slice(self@[i as int].1, offset as int, length as int),
                )));
            }
            i = i + 1;
        }
        proof {
            assert(self@.take(n as int) =~= self@);
        }
        DataFrame { columns: out }
    }
}

/// The table-or-error a fallible table computation yields, seen at the
/// view level.
pub open spec fn res_view(r: Result<DataFrame, Error>) -> Result<Seq<ColV>, Error> {
    match r {
        Ok(d) => Ok(d@),
        Err(e) => Err(e),
    }
}

/// The values picked out of `values` at the (mathematical) row positions
/// `rows`, in that order.
pub open spec fn spec_gather_int(values: Seq<i64>, rows: Seq<int>) -> Seq<i64> {
    Seq::new(rows.len(), |i: int| values[rows[i]])
}

/// The table restricted to the (mathematical) row positions `rows`.
pub open spec fn spec_df_take_int(df: Seq<ColV>, rows: Seq<int>) -> Seq<ColV> {
    df.map_values(|c: ColV| (c.0, spec_gather_int(c.1, rows)))
}

/// Whether a list of table views can be stacked: each is well-formed and
/// carries the same column names, in the same order, as the first.
pub open spec fn same_schema(dfs: Seq<Seq<ColV>>) -> bool {
    forall|i: int|
        0 <= i < dfs.len() ==> df_wf(#[trigger] dfs[i]) && df_names(dfs[i]) == df_names(dfs[0])
}

/// Column `c`'s cells of the vertical concatenation of `dfs`.
pub open spec fn concat_col(dfs: Seq<Seq<ColV>>, c: int) -> Seq<i64>
    decreases dfs.len(),
{
    if dfs.len() == 0 {
        Seq::empty()
    } else {
        dfs[0][c].1 + concat_col(dfs.drop_first(), c)
    }
}

/// The vertical concatenation of a list of table views: the first table's
/// schema over all tables' rows, in list order. An empty list
/// concatenates to the empty table.
pub open spec fn spec_concat(dfs: Seq<Seq<ColV>>) -> Seq<ColV> {
    if dfs.len() == 0 {
        Seq::empty()
    } else {
        Seq::new(dfs[0].len(), |c: int| (dfs[0][c].0, concat_col(dfs, c)))
    }
}

/// Stacking one more table appends its cells to every column.
pub proof fn lemma_concat_col_push(dfs: Seq<Seq<ColV>>, d: Seq<ColV>, c: int)
    ensures
        concat_col(dfs.push(d), c) == concat_col(dfs, c) + d[c].1,
    decreases dfs.len(),
{
    if dfs.len() == 0 {
        assert(dfs.push(d).drop_first() =~= dfs);
        assert(d[c].1 + concat_col(dfs, c) =~= concat_col(dfs, c) + d[c].1);
    } else {
        assert(dfs.push(d).drop_first() =~= dfs.drop_first().push(d));
        assert(dfs.push(d)[0] == dfs[0]);
        lemma_concat_col_push(dfs.drop_first(), d, c);
        assert(dfs[0][c].1 + (concat_col(dfs.drop_first(), c) + d[c].1) =~= (dfs[0][c].1
            + concat_col(dfs.drop_first(), c)) + d[c].1);
    }
}

/// View of a vector of tables as a list of table views.
pub open spec fn frames_view(s: Seq<DataFrame>) -> Seq<Seq<ColV>> {
    s.map_values(|d: DataFrame| d@)
}

/// Stacks a list of tables vertically: the first table's schema over all
/// tables' rows, in list order. A well-formedness or schema mismatch is
/// an assembly failure; an empty list stacks to the empty table.
#[verifier::loop_isolation(false)]
pub fn concat_frames(dfs: &Vec<DataFrame>) -> (r: Result<DataFrame, Error>)
    ensures
        same_schema(frames_view(dfs@)) ==> (r matches Ok(d) && d@ =~= spec_concat(
            frames_view(dfs@),
        )),
        !same_schema(frames_view(dfs@)) ==> r == Err::<DataFrame, Error>(Error::Assembly),
{
    let ghost fv = frames_view(dfs@);
    let m = dfs.len();
    if m == 0 {
        return Ok(DataFrame::empty());
    }
    // Validate every table and its schema against the first.
    let w = dfs[0].width();
    let mut t: usize = 0;
    while t < m
        invariant
            t <= m,
            forall|u: int| 0 <= u < t ==> df_wf(#[trigger] fv[u]) && df_names(fv[u]) == df_names(
                fv[0],
            ),
        decreases m - t,
    {
        proof {
            assert(fv[t as int] == dfs@[t as int]@);
        }
        if !dfs[t].check_wf() {
            return Err(Error::Assembly);
        }
        if dfs[t].width() != w {
            proof {
                assert(df_names(fv[t as int]).len() != df_names(fv[0]).len());
            }
            return Err(Error::Assembly);
        }
        let mut c: usize = 0;
        while c < w
            invariant
                t < m,
                w == fv[0].len(),
                w == fv[t as int].len(),
                c <= w,
                forall|cc: int| 0 <= cc < c ==> df_names(fv[t as int])[cc] == df_names(fv[0])[cc],
            decreases w - c,
        {
            if dfs[t].columns[c].name != dfs[0].columns[c].name {
                proof {
                    assert(df_names(fv[t as int])[c as int] != df_names(fv[0])[c as int]);
                }
                return Err(Error::Assembly);
            }
            proof {
                assert(df_names(fv[t as int])[c as int] == fv[t as int][c as int].0);
            }
            c = c + 1;
        }
        proof {
            assert(df_names(fv[t as int]) =~= df_names(fv[0]));
        }
        t = t + 1;
    }
    proof {
        assert(same_schema(fv));
    }
    // Stack the cells column by column.
    let mut out: Vec<Column> = Vec::new();
    let mut c: usize = 0;
    while c < w
        invariant
            c <= w,
            out@.len() == c,
            forall|cc: int| 0 <= cc < c ==> (#[trigger] out@[cc])@ == (
                fv[0][cc].0,
                concat_col(fv, cc),
            ),
        decreases w - c,
    {
        let mut vals: Vec<i64> = Vec::new();
        let mut t: usize = 0;
        while t < m
            invariant
                c < w,
                t <= m,
                vals@ =~= concat_col(fv.take(t as int), c as int),
            decreases m - t,
        {
            proof {
                assert(fv[t as int] == dfs@[t as int]@);
                assert(df_names(fv[t as int]).len() == df_names(fv[0]).len());
                assert(fv[t as int][c as int] == dfs@[t as int].columns@[c as int]@);
            }
            let src = &dfs[t].columns[c].values;
            let mut j: usize = 0;
            while j < src.len()
                invariant
                    t < m,
                    c < w,
                    j <= src@.len(),
                    src@ == fv[t as int][c as int].1,
                    vals@ =~= concat_col(fv.take(t as int), c as int) + src@.take(j as int),
                decreases src@.len() - j,
            {
                vals.push(src[j]);
                proof {
                    assert(src@.take(j + 1) =~= src@.take(j as int).push(src@[j as int]));
                    assert(concat_col(fv.take(t as int), c as int) + src@.take(j + 1)
                        =~= (concat_col(fv.take(t as int), c as int) + src@.take(j as int)).push(
                        src@[j as int],
                    ));
                }
                j = j + 1;
            }
            proof {
                lemma_concat_col_push(fv.take(t as int), fv[t as int], c as int);
                assert(fv.take(t + 1) =~= fv.take(t as int).push(fv[t as int]));
                assert(src@.take(src@.len() as int) =~= src@);
            }
            t = t + 1;
        }
        proof {
            assert(fv.take(m as int) =~= fv);
        }
        out.push(Column { name: dfs[0].columns[c].name.clone(), values: vals });
        c = c + 1;
    }
    proof {
        assert(out@.map_values(|col: Column| col@) =~= spec_concat(fv));
    }
    Ok(DataFrame { columns: out })
}

/// When column `i` carries `name` and no earlier column does, `index_of`
/// answers `i`.
pub proof fn lemma_index_of_found(df: Seq<ColV>, name: Seq<char>, i: int)
    requires
        0 <= i < df.len(),
        df[i].0 == name,
        forall|j: int| 0 <= j < i ==> df[j].0 != name,
    ensures
        index_of(df, name) == i,
    decreases df.len(),
{
    if i == 0 {
    } else {
        lemma_index_of_found(df.drop_first(), name, i - 1);
        assert forall|j: int| 0 <= j < df.drop_first().len() implies df.drop_first()[j] == df[j
            + 1] by {}
    }
}


} // verus!
