use vstd::prelude::*;
use crate::frame::spec_slice;

verus! {

/// View of a group set: the representative ("first") row of every group,
/// and the member rows of every group, in group order.
pub type GroupsV = (Seq<int>, Seq<Seq<int>>);

/// Membership of every group, in one of two physical encodings.
///
/// Group indices always refer into the single consolidated input table the
/// set was built for; the rows of distinct groups may overlap, since rolling
/// windows are not a partition.
#[derive(Debug)]
pub enum GroupsType {
    /// Per-group explicit row lists, with an auxiliary representative row
    /// per group. The representative is carried separately so that even a
    /// structurally empty group keeps its identity row.
    Idx { first: Vec<usize>, groups: Vec<Vec<usize>> },
    /// Per-group contiguous `(start, length)` ranges; the representative
    /// row of a group is its range start.
    Slice { groups: Vec<(usize, usize)> },
}

impl View for GroupsType {
    type V = GroupsV;

    open spec fn view(&self) -> GroupsV {
        match self {
            GroupsType::Idx { first, groups } => (
                first@.map_values(|x: usize| x as int),
                groups@.map_values(|g: Vec<usize>| g@.map_values(|x: usize| x as int)),
            ),
            GroupsType::Slice { groups } => (
                groups@.map_values(|r: (usize, usize)| r.0 as int),
                groups@.map_values(
                    |r: (usize, usize)| Seq::new(r.1 as nat, |j: int| r.0 + j),
                ),
            ),
        }
    }
}

/// Number of groups in a group-set view.
pub open spec fn gv_len(g: GroupsV) -> nat {
    g.1.len()
}

/// A well-formed view pairs one representative row with every group.
pub open spec fn gv_wf(g: GroupsV) -> bool {
    g.0.len() == g.1.len()
}

/// Every representative row and every member row lies below `height`.
pub open spec fn gv_in_bounds(g: GroupsV, height: nat) -> bool {
    &&& forall|i: int| 0 <= i < g.0.len() ==> 0 <= #[trigger] g.0[i] < height
    &&& forall|i: int, j: int|
        0 <= i < g.1.len() && 0 <= j < g.1[i].len() ==> 0 <= #[trigger] g.1[i][j] < height
}

/// The `(offset, length)` slice of a group-set view: representatives and
/// member lists are cut in lockstep.
pub open spec fn gv_slice(g: GroupsV, offset: int, length: int) -> GroupsV {
    (spec_slice(g.0, offset, length), spec_slice(g.1, offset, length))
}

impl GroupsType {
    /// Number of groups.
    pub fn group_count(&self) -> (n: usize)
        requires
            gv_wf(self@),
        ensures
            n == gv_len(self@),
    {
        match self {
            GroupsType::Idx { first: _, groups } => groups.len(),
            GroupsType::Slice { groups } => groups.len(),
        }
    }

    /// The representative row of every group, in group order.
    pub fn first_indices(&self) -> (r: Vec<usize>)
        ensures
            r@.map_values(|x: usize| x as int) == self@.0,
    {
        match self {
            GroupsType::Idx { first, groups: _ } => copy_indices(first),
            GroupsType::Slice { groups } => {
                let mut out: Vec<usize> = Vec::new();
                let mut i: usize = 0;
                while i < groups.len()
                    invariant
                        i <= groups@.len(),
                        out@.map_values(|x: usize| x as int) =~= groups@.map_values(
                            |r: (usize, usize)| r.0 as int,
                        ).take(i as int),
                    decreases groups@.len() - i,
                {
                    out.push(groups[i].0);
                    proof {
                        let m = groups@.map_values(|r: (usize, usize)| r.0 as int);
                        assert(m.take(i + 1) =~= m.take(i as int).push(m[i as int]));
                    }
                    i = i + 1;
                }
                proof {
                    assert(self@.0.take(self@.0.len() as int) =~= self@.0);
                }
                out
            },
        }
    }

    /// The member rows of group `g`, in the group's own order: an index
    /// list keeps grouper-defined membership order, a contiguous range
    /// keeps source order.
    pub fn group_rows(&self, g: usize, height: usize) -> (r: Vec<usize>)
        requires
            gv_wf(self@),
            g < gv_len(self@),
            gv_in_bounds(self@, height as nat),
        ensures
            r@.map_values(|x: usize| x as int) == self@.1[g as int],
    {
        match self {
            GroupsType::Idx { first: _, groups } => copy_indices(&groups[g]),
            GroupsType::Slice { groups } => {
                let (start, len) = groups[g];
                let mut out: Vec<usize> = Vec::new();
                let mut j: usize = 0;
                proof {
                    assert(self@.1[g as int] == Seq::new(len as nat, |j: int| start + j));
                    if len > 0 {
                        assert(self@.1[g as int][len - 1] == start + (len - 1));
                    }
                }
                while j < len
                    invariant
                        j <= len,
                        len > 0 ==> start + len <= usize::MAX + 1,
                        out@.map_values(|x: usize| x as int) =~= Seq::new(
                            len as nat,
                            |j: int| start + j,
                        ).take(j as int),
                    decreases len - j,
                {
                    out.push(start + j);
                    proof {
                        i_take_push(len as nat, start as int, j as int);
                    }
                    j = j + 1;
                }
                proof {
                    let full = Seq::new(len as nat, |j: int| start + j);
                    assert(full.take(len as int) =~= full);
                }
                out
            },
        }
    }

    /// The `(offset, length)` slice of the group set: retained groups keep
    /// their encoding, representatives and member lists are cut in lockstep.
    pub fn slice(&self, offset: i64, length: usize) -> (r: GroupsType)
        requires
            gv_wf(self@),
        ensures
            r@ == gv_slice(self@, offset as int, length as int),
            gv_wf(r@),
            self is Idx ==> r is Idx,
            self is Slice ==> r is Slice,
    {
        match self {
            GroupsType::Idx { first, groups } => {
                let first_out = slice_indices(first, offset, length);
                let (start, stop) = crate::frame::slice_bounds(offset, length, groups.len());
                let mut out: Vec<Vec<usize>> = Vec::new();
                let mut k: usize = start;
                while k < stop
                    invariant
                        start <= k <= stop,
                        stop <= groups@.len(),
                        out@.map_values(|g: Vec<usize>| g@.map_values(|x: usize| x as int))
                            =~= groups@.map_values(
                            |g: Vec<usize>| g@.map_values(|x: usize| x as int),
                        ).subrange(start as int, k as int),
                    decreases stop - k,
                {
                    let row = copy_indices(&groups[k]);
                    out.push(row);
                    proof {
                        let m = groups@.map_values(
                            |g: Vec<usize>| g@.map_values(|x: usize| x as int),
                        );
                        assert(m.subrange(start as int, k + 1) =~= m.subrange(
                            start as int,
                            k as int,
                        ).push(m[k as int]));
                    }
                    k = k + 1;
                }
                GroupsType::Idx { first: first_out, groups: out }
            },
            GroupsType::Slice { groups } => {
                let (start, stop) = crate::frame::slice_bounds(offset, length, groups.len());
                let mut out: Vec<(usize, usize)> = Vec::new();
                let mut k: usize = start;
                while k < stop
                    invariant
                        start <= k <= stop,
                        stop <= groups@.len(),
                        out@ =~= groups@.subrange(start as int, k as int),
                    decreases stop - k,
                {
                    out.push(groups[k]);
                    proof {
                        assert(groups@.subrange(start as int, k + 1) =~= groups@.subrange(
                            start as int,
                            k as int,
                        ).push(groups@[k as int]));
                    }
                    k = k + 1;
                }
                proof {
                    let r0 = groups@.subrange(start as int, stop as int);
                    assert(r0.map_values(|r: (usize, usize)| r.0 as int) =~= spec_slice(
                        self@.0,
                        offset as int,
                        length as int,
                    ));
                    assert(r0.map_values(
                        |r: (usize, usize)| Seq::new(r.1 as nat, |j: int| r.0 + j),
                    ) =~= spec_slice(self@.1, offset as int, length as int));
                }
                GroupsType::Slice { groups: out }
            },
        }
    }
}

/// `take` of one more element of an arithmetic index sequence appends the
/// next index.
proof fn i_take_push(len: nat, start: int, j: int)
    requires
        0 <= j < len,
    ensures
        Seq::new(len, |k: int| start + k).take(j + 1) =~= Seq::new(len, |k: int| start + k).take(
            j,
        ).push(start + j),
{
}

/// Plain copy of a row-index vector.
pub(crate) fn copy_indices(v: &Vec<usize>) -> (r: Vec<usize>)
    ensures
        r@ == v@,
{
    let mut out: Vec<usize> = Vec::new();
    let mut i: usize = 0;
    while i < v.len()
        invariant
            i <= v@.len(),
            out@ =~= v@.take(i as int),
        decreases v@.len() - i,
    {
        out.push(v[i]);
        proof {
            assert(v@.take(i + 1) =~= v@.take(i as int).push(v@[i as int]));
        }
        i = i + 1;
    }
    proof {
        assert(v@.take(v@.len() as int) =~= v@);
    }
    out
}

/// The `(offset, length)` slice of a row-index vector.
fn slice_indices(v: &Vec<usize>, offset: i64, length: usize) -> (r: Vec<usize>)
    ensures
        r@.map_values(|x: usize| x as int) == spec_slice(
            v@.map_values(|x: usize| x as int),
            offset as int,
            length as int,
        ),
{
    let (start, stop) = crate::frame::slice_bounds(offset, length, v.len());
    let mut out: Vec<usize> = Vec::new();
    let mut k: usize = start;
    while k < stop
        invariant
            start <= k <= stop,
            stop <= v@.len(),
            out@ =~= v@.subrange(start as int, k as int),
        decreases stop - k,
    {
        out.push(v[k]);
        proof {
            assert(v@.subrange(start as int, k + 1) =~= v@.subrange(start as int, k as int).push(
                v@[k as int],
            ));
        }
        k = k + 1;
    }
    proof {
        let m = v@.map_values(|x: usize| x as int);
        assert(out@.map_values(|x: usize| x as int) =~= m.subrange(start as int, stop as int));
    }
    out
}

} // verus!
