//! Records in the order of their steps.
use super::{record_views, RecordView, StepRecord};
use vstd::prelude::*;

verus! {

/// The records are in the order of their steps.
pub open spec fn in_order(records: Seq<RecordView>) -> bool {
    forall|i: int, j: int|
        0 <= i <= j < records.len() ==> (#[trigger] records[i]).i <= (#[trigger] records[j]).i
}

/// The records of step `k`, in order.
pub open spec fn of_step(records: Seq<RecordView>, k: usize) -> Seq<RecordView>
    decreases records.len(),
{
    if records.len() == 0 {
        seq![]
    } else if records.last().i == k {
        of_step(records.drop_last(), k).push(records.last())
    } else {
        of_step(records.drop_last(), k)
    }
}

proof fn lemma_of_step_joins(a: Seq<RecordView>, b: Seq<RecordView>, k: usize)
    ensures
        of_step(a + b, k) == of_step(a, k) + of_step(b, k),
    decreases b.len(),
{
    if b.len() == 0 {
        assert(a + b =~= a);
        assert(of_step(a, k) + seq![] =~= of_step(a, k));
    } else {
        lemma_of_step_joins(a, b.drop_last(), k);
        assert((a + b).drop_last() =~= a + b.drop_last());
        assert(of_step(a + b, k) =~= of_step(a, k) + of_step(b, k));
    }
}

proof fn lemma_of_step_none(b: Seq<RecordView>, k: usize)
    requires
        forall|i: int| 0 <= i < b.len() ==> (#[trigger] b[i]).i != k,
    ensures
        of_step(b, k) == Seq::<RecordView>::empty(),
    decreases b.len(),
{
    if b.len() > 0 {
        assert(b[b.len() - 1].i != k);
        assert forall|i: int| 0 <= i < b.drop_last().len() implies (
        #[trigger] b.drop_last()[i]).i != k by {
            assert(b[i].i != k);
        }
        lemma_of_step_none(b.drop_last(), k);
    }
}

proof fn lemma_of_step_insert(s: Seq<RecordView>, p: int, x: RecordView, k: usize)
    requires
        0 <= p <= s.len(),
        forall|i: int| p <= i < s.len() ==> (#[trigger] s[i]).i > x.i,
    ensures
        of_step(s.insert(p, x), k) == of_step(s.push(x), k),
{
    let a = s.take(p);
    let b = s.skip(p);
    let one = seq![x];
    assert(s.insert(p, x) =~= a + one + b);
    assert(s.push(x) =~= a + b + one);
    lemma_of_step_joins(a + one, b, k);
    lemma_of_step_joins(a, one, k);
    lemma_of_step_joins(a + b, one, k);
    lemma_of_step_joins(a, b, k);
    if k == x.i {
        lemma_of_step_none(b, k);
        assert(of_step(a, k) + of_step(one, k) + seq![] =~= of_step(a, k) + of_step(one, k));
        assert(of_step(a, k) + seq![] =~= of_step(a, k));
    } else {
        lemma_of_step_none(one, k);
        assert(of_step(a, k) + seq![] + of_step(b, k) =~= of_step(a, k) + of_step(b, k) + seq![]);
    }
}

/// The records in the order of their steps; records of one step keep their
/// order.
pub fn sort_by_step(records: Vec<StepRecord>) -> (r: Vec<StepRecord>)
    ensures
        in_order(record_views(r@)),
        forall|k: usize|
            #[trigger] of_step(record_views(r@), k) == of_step(record_views(records@), k),
        r@.len() == records@.len(),
{
    let mut sorted: Vec<StepRecord> = Vec::new();
    let ghost all = record_views(records@);
    proof {
        assert(all.take(0) =~= record_views(sorted@));
    }
    for record in iter: records
        invariant
            iter.seq() == records@,
            all == record_views(records@),
            sorted@.len() == iter.index(),
            in_order(record_views(sorted@)),
            forall|k: usize|
                #[trigger] of_step(record_views(sorted@), k) == of_step(
                    all.take(iter.index() as int),
                    k,
                ),
    {
        let ghost n = iter.index() as int;
        let ghost x = record@;
        let ghost before = record_views(sorted@);
        let mut p: usize = sorted.len();
        while p > 0 && sorted[p - 1].i > record.i
            invariant
                p <= sorted@.len(),
                before == record_views(sorted@),
                x == record@,
                forall|i: int| p <= i < before.len() ==> (#[trigger] before[i]).i > x.i,
            decreases p,
        {
            proof {
                assert(before[p - 1] == sorted@[p - 1]@);
            }
            p = p - 1;
        }
        proof {
            if p > 0 {
                assert(before[p - 1] == sorted@[p - 1]@);
            }
        }
        sorted.insert(p, record);
        proof {
            let after = record_views(sorted@);
            assert(after =~= before.insert(p as int, x));
            assert(all[n] == x);
            assert(all.take(n + 1) =~= all.take(n).push(x));
            assert forall|k: usize|
                #[trigger] of_step(after, k) == of_step(all.take(n + 1), k) by {
                lemma_of_step_insert(before, p as int, x, k);
                assert(before.push(x).drop_last() =~= before);
                assert(all.take(n + 1).drop_last() =~= all.take(n));
                assert(of_step(before, k) == of_step(all.take(n), k));
            }
            assert forall|i: int, j: int| 0 <= i <= j < after.len() implies (
            #[trigger] after[i]).i <= (#[trigger] after[j]).i by {
                let q = p as int;
                if i < q && j > q {
                    assert(before[i].i <= before[j - 1].i);
                } else if i < q && j == q {
                    assert(before[i].i <= before[q - 1].i);
                } else if i < q && j < q {
                    assert(before[i].i <= before[j].i);
                } else if i > q {
                    assert(before[i - 1].i <= before[j - 1].i);
                } else if i == q && j > q {
                    assert(before[j - 1].i > x.i);
                }
            }
        }
    }
    proof {
        assert(all.take(all.len() as int) =~= all);
    }
    sorted
}

/// The records of a step are those that say so, all of them, in order.
pub proof fn law_records_of_a_step(records: Seq<RecordView>, r: RecordView, k: usize)
    ensures
        of_step(seq![], k) == Seq::<RecordView>::empty(),
        r.i == k ==> of_step(records.push(r), k) == of_step(records, k).push(r),
        r.i != k ==> of_step(records.push(r), k) == of_step(records, k),
{
    assert(records.push(r).drop_last() =~= records);
}

/// Two lists in the order of their steps with the same records of every step are
/// the same list: the order is the only freedom that sorting has, and it is
/// taken.
pub proof fn law_sorting_has_one_result(a: Seq<RecordView>, b: Seq<RecordView>)
    requires
        in_order(a),
        in_order(b),
        a.len() == b.len(),
        forall|k: usize| #[trigger] of_step(a, k) == of_step(b, k),
    ensures
        a == b,
    decreases a.len(),
{
    if a.len() > 0 {
        let (x, y) = (a.last(), b.last());
        let (a0, b0) = (a.drop_last(), b.drop_last());
        assert(a =~= a0.push(x));
        assert(b =~= b0.push(y));
        if x.i != y.i {
            if x.i > y.i {
                lemma_none_above(b, x.i);
                assert(of_step(a, x.i) == of_step(b, x.i));
                assert(of_step(a, x.i).len() > 0);
            } else {
                lemma_none_above(a, y.i);
                assert(of_step(a, y.i) == of_step(b, y.i));
                assert(of_step(b, y.i).len() > 0);
            }
        }
        assert(of_step(a, x.i) == of_step(b, x.i));
        assert(of_step(a, x.i).last() == x);
        assert(of_step(b, x.i).last() == y);
        assert forall|k: usize| #[trigger] of_step(a0, k) == of_step(b0, k) by {
            assert(of_step(a, k) == of_step(b, k));
            if k == x.i {
                assert(of_step(a, k).drop_last() =~= of_step(a0, k));
                assert(of_step(b, k).drop_last() =~= of_step(b0, k));
            }
        }
        assert(in_order(a0)) by {
            assert forall|i: int, j: int| 0 <= i <= j < a0.len() implies (#[trigger] a0[i]).i <= (
            #[trigger] a0[j]).i by {
                assert(a[i].i <= a[j].i);
            }
        }
        assert(in_order(b0)) by {
            assert forall|i: int, j: int| 0 <= i <= j < b0.len() implies (#[trigger] b0[i]).i <= (
            #[trigger] b0[j]).i by {
                assert(b[i].i <= b[j].i);
            }
        }
        law_sorting_has_one_result(a0, b0);
    }
}

proof fn lemma_none_above(s: Seq<RecordView>, k: usize)
    requires
        in_order(s),
        s.len() > 0,
        s.last().i < k,
    ensures
        of_step(s, k).len() == 0,
{
    assert forall|i: int| 0 <= i < s.len() implies (#[trigger] s[i]).i != k by {
        assert(s[i].i <= s[s.len() - 1].i);
    }
    lemma_of_step_none(s, k);
}

} // verus!
