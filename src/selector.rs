use vstd::prelude::*;

verus! {

/// The ids `start .. start + count`.
#[derive(Clone, Copy, Debug, PartialEq, Eq, Structural)]
pub struct IntRange {
    pub start: u32,
    pub count: u32,
}

pub open spec fn range_ids(r: IntRange) -> Seq<u32> {
    Seq::new(r.count as nat, |i: int| (r.start + i) as u32)
}

pub open spec fn range_wf(r: IntRange) -> bool {
    r.start + r.count <= u32::MAX + 1
}

/// The ids that `ranges` enumerate, range after range.
pub open spec fn ranges_ids(ranges: Seq<IntRange>) -> Seq<u32>
    decreases ranges.len(),
{
    if ranges.len() == 0 {
        Seq::empty()
    } else {
        ranges_ids(ranges.drop_last()) + range_ids(ranges.last())
    }
}

/// A set of ids written as a list of intervals.
#[derive(Clone, Debug)]
pub struct IntArray {
    ranges: Vec<IntRange>,
}

impl IntArray {
    pub closed spec fn view(&self) -> Seq<IntRange> {
        self.ranges@
    }

    pub open spec fn wf(&self) -> bool {
        forall|i: int| 0 <= i < self@.len() ==> range_wf(#[trigger] self@[i])
    }

    /// The ids of the array, in the order the intervals give them.
    pub open spec fn spec_ids(&self) -> Seq<u32> {
        ranges_ids(self@)
    }

    /// An array of the given intervals; each must stay within `u32`.
    pub fn from_ranges(ranges: Vec<IntRange>) -> (r: IntArray)
        requires
            forall|i: int| 0 <= i < ranges@.len() ==> range_wf(#[trigger] ranges@[i]),
        ensures
            r.wf(),
            r@ == ranges@,
    {
        IntArray { ranges }
    }

    /// An array that enumerates `ids` in their order; consecutive ids share an
    /// interval.
    pub fn from_ids(ids: &Vec<u32>) -> (r: IntArray)
        ensures
            r.wf(),
            r.spec_ids() == ids@,
    {
        let mut ranges: Vec<IntRange> = Vec::new();
        let mut k: usize = 0;
        while k < ids.len()
            invariant
                0 <= k <= ids@.len(),
                forall|i: int| 0 <= i < ranges@.len() ==> range_wf(#[trigger] ranges@[i]),
                ranges_ids(ranges@) == ids@.take(k as int),
            decreases ids@.len() - k,
        {
            let id = ids[k];
            let n = ranges.len();
            let ghost before = ranges@;
            if n > 0 && ranges[n - 1].count < u32::MAX && ranges[n - 1].start as u64 + ranges[n - 1].count as u64 == id as u64 {
                let last = ranges[n - 1];
                ranges.set(n - 1, IntRange { start: last.start, count: last.count + 1 });
                proof {
                    assert(ranges@.drop_last() == before.drop_last());
                    assert(range_ids(ranges@.last()) == range_ids(last).push(id));
                    assert(ranges_ids(before) == ranges_ids(before.drop_last()) + range_ids(last));
                }
            } else {
                ranges.push(IntRange { start: id, count: 1 });
                proof {
                    assert(ranges@.drop_last() == before);
                    assert(range_ids(ranges@.last()) == seq![id]);
                }
            }
            k += 1;
            proof {
                assert(ids@.take(k as int) == ids@.take(k - 1).push(id));
                assert(ranges_ids(ranges@) == ranges_ids(ranges@.drop_last()) + range_ids(
                    ranges@.last(),
                ));
            }
        }
        proof {
            assert(ids@.take(k as int) == ids@);
        }
        IntArray { ranges }
    }

    /// The ids of the array, in order.
    pub fn iter(&self) -> (r: Vec<u32>)
        requires
            self.wf(),
        ensures
            r@ == self.spec_ids(),
    {
        let mut r: Vec<u32> = Vec::new();
        let mut k: usize = 0;
        while k < self.ranges.len()
            invariant
                self.wf(),
                0 <= k <= self.ranges@.len(),
                r@ == ranges_ids(self.ranges@.take(k as int)),
            decreases self.ranges@.len() - k,
        {
            let range = self.ranges[k];
            let ghost start = r@;
            assert(range_wf(self@[k as int]));
            let mut j: u32 = 0;
            while j < range.count
                invariant
                    j <= range.count,
                    range.start + range.count <= u32::MAX + 1,
                    r@ == start + range_ids(range).take(j as int),
                decreases range.count - j,
            {
                r.push(range.start + j);
                j += 1;
                proof {
                    assert(range_ids(range).take(j as int) == range_ids(range).take(j - 1).push(
                        (range.start + j - 1) as u32,
                    ));
                }
            }
            proof {
                assert(range_ids(range).take(j as int) == range_ids(range));
                assert(self.ranges@.take(k + 1).drop_last() == self.ranges@.take(k as int));
            }
            k += 1;
        }
        proof {
            assert(self.ranges@.take(k as int) == self.ranges@);
        }
        r
    }
}

/// Names a set of ids: all of them, the `n` greatest, or the ids of an array.
#[derive(Clone, Debug)]
pub enum IdSelector {
    All,
    LastN(u32),
    Specific(IntArray),
}

impl IdSelector {
    pub open spec fn wf(&self) -> bool {
        self matches IdSelector::Specific(a) ==> a.wf()
    }
}

/// The `n` greatest of the ascending ids `ids`, greatest first.
pub open spec fn last_n(ids: Seq<u32>, n: nat) -> Seq<u32> {
    let m = if n < ids.len() {
        n
    } else {
        ids.len()
    };
    Seq::new(m, |i: int| ids[ids.len() - 1 - i])
}

/// What `selector` names among the ascending ids `ids`.
pub open spec fn resolved(selector: IdSelector, ids: Seq<u32>) -> Seq<u32> {
    match selector {
        IdSelector::All => ids,
        IdSelector::LastN(n) => last_n(ids, n as nat),
        IdSelector::Specific(a) => a.spec_ids(),
    }
}

/// `LastN(n)` names at most `n` ids, greatest first, and every id it leaves out
/// is smaller than each one it names.
pub proof fn lemma_last_n(ids: Seq<u32>, n: nat)
    requires
        forall|i: int, j: int| 0 <= i < j < ids.len() ==> ids[i] < ids[j],
    ensures
        last_n(ids, n).len() <= n,
        last_n(ids, n).len() == n || last_n(ids, n).len() == ids.len(),
        forall|i: int, j: int|
            0 <= i < j < last_n(ids, n).len() ==> last_n(ids, n)[i] > last_n(ids, n)[j],
        forall|x: u32| #[trigger] last_n(ids, n).contains(x) ==> ids.contains(x),
        forall|x: u32, k: int|
            #[trigger] ids.contains(x) && !last_n(ids, n).contains(x) && 0 <= k < last_n(
                ids,
                n,
            ).len() ==> x < #[trigger] last_n(ids, n)[k],
{
    let r = last_n(ids, n);
    assert forall|x: u32| #[trigger] r.contains(x) implies ids.contains(x) by {
        let i = choose|i: int| 0 <= i < r.len() && r[i] == x;
        assert(ids[ids.len() - 1 - i] == x);
    };
    assert forall|x: u32, k: int|
        #[trigger] ids.contains(x) && !r.contains(x) && 0 <= k < r.len() implies x < #[trigger] r[k] by {
        let p = choose|p: int| 0 <= p < ids.len() && ids[p] == x;
        if p >= ids.len() - r.len() {
            let i = ids.len() - 1 - p;
            assert(r[i] == x);
        }
    };
}

/// Resolving an array selector names exactly the ids of the array, whatever
/// the registry holds; resolving it twice gives the same ids.
pub proof fn lemma_resolve_specific(a: IntArray, ids1: Seq<u32>, ids2: Seq<u32>)
    ensures
        resolved(IdSelector::Specific(a), ids1) == a.spec_ids(),
        resolved(IdSelector::Specific(a), ids1) == resolved(IdSelector::Specific(a), ids2),
{
}

} // verus!
