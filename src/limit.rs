use vstd::prelude::*;
use crate::batch::{total_rows, views_of, Batch, BatchView};

verus! {

/// What the row budget does with the next batch of a stream.
#[derive(Debug, Clone, Copy, PartialEq, Eq)]
pub enum LimitStep {
    /// Emit the batch whole and keep pulling.
    Pass,
    /// Emit the batch whole; the budget is then spent, so stop pulling.
    PassLast,
    /// Emit only the first `n` rows of the batch, then stop pulling.
    Prefix(usize),
}

/// The budget's decision after `emitted` rows, for a batch of `rows` rows;
/// a limit of 0 is no limit.
pub open spec fn limit_step_spec(emitted: nat, limit: nat, rows: nat) -> LimitStep {
    if limit == 0 {
        LimitStep::Pass
    } else if emitted + rows > limit {
        LimitStep::Prefix((limit - emitted) as usize)
    } else if emitted + rows == limit {
        LimitStep::PassLast
    } else {
        LimitStep::Pass
    }
}

/// Decides what to do with the next batch of a stream under a row budget.
pub fn limit_step(emitted: usize, limit: usize, batch_rows: usize) -> (r: LimitStep)
    requires
        limit == 0 || emitted < limit,
    ensures
        r == limit_step_spec(emitted as nat, limit as nat, batch_rows as nat),
{
    if limit == 0 {
        LimitStep::Pass
    } else if batch_rows > limit - emitted {
        LimitStep::Prefix(limit - emitted)
    } else if batch_rows == limit - emitted {
        LimitStep::PassLast
    } else {
        LimitStep::Pass
    }
}

/// The batches that a budget of `limit` rows lets through after `emitted`
/// rows: whole batches while they fit, the batch that crosses the limit cut
/// to the rows that fit, and nothing after the limit is reached.
pub open spec fn truncated_from(bs: Seq<BatchView>, limit: nat, emitted: nat) -> Seq<BatchView>
    decreases bs.len(),
{
    if bs.len() == 0 {
        Seq::empty()
    } else if emitted + bs[0].rows > limit {
        seq![bs[0].prefix((limit - emitted) as nat)]
    } else if emitted + bs[0].rows == limit {
        seq![bs[0]]
    } else {
        seq![bs[0]] + truncated_from(bs.drop_first(), limit, emitted + bs[0].rows)
    }
}

/// The batches that a budget of `limit` rows lets through; 0 is no limit.
pub open spec fn truncated(bs: Seq<BatchView>, limit: nat) -> Seq<BatchView> {
    if limit == 0 {
        bs
    } else {
        truncated_from(bs, limit, 0)
    }
}

/// Enforces a row budget over a sequence of batches (0 is no limit).
pub fn truncate_batches(batches: Vec<Batch>, limit: usize) -> (r: Vec<Batch>)
    requires
        forall|i: int| 0 <= i < batches@.len() ==> (#[trigger] batches@[i]).wf(),
    ensures
        views_of(r@) == truncated(views_of(batches@), limit as nat),
        forall|i: int| 0 <= i < r@.len() ==> (#[trigger] r@[i]).wf(),
{
    if limit == 0 {
        return batches;
    }
    let ghost all = views_of(batches@);
    let mut rest = batches;
    let mut out: Vec<Batch> = Vec::new();
    let mut emitted: usize = 0;
    assert(views_of(out@) + truncated_from(views_of(rest@), limit as nat, 0) =~= truncated_from(
        views_of(rest@),
        limit as nat,
        0,
    ));
    while rest.len() > 0
        invariant
            limit > 0,
            emitted < limit,
            all == views_of(batches@),
            forall|i: int| 0 <= i < rest@.len() ==> (#[trigger] rest@[i]).wf(),
            forall|i: int| 0 <= i < out@.len() ==> (#[trigger] out@[i]).wf(),
            truncated(all, limit as nat) == views_of(out@) + truncated_from(
                views_of(rest@),
                limit as nat,
                emitted as nat,
            ),
        decreases rest@.len(),
    {
        let ghost rv = views_of(rest@);
        let b = rest.remove(0);
        assert(views_of(rest@) =~= rv.drop_first());
        assert(rv[0] == b.view());
        let rows = b.num_rows();
        let ghost before = views_of(out@);
        match limit_step(emitted, limit, rows) {
            LimitStep::Pass => {
                out.push(b);
                assert(views_of(out@) =~= before + seq![b.view()]);
                assert(before + (seq![b.view()] + truncated_from(
                    views_of(rest@),
                    limit as nat,
                    (emitted + rows) as nat,
                )) =~= views_of(out@) + truncated_from(
                    views_of(rest@),
                    limit as nat,
                    (emitted + rows) as nat,
                ));
                emitted = emitted + rows;
            },
            LimitStep::PassLast => {
                assert(truncated_from(rv, limit as nat, emitted as nat) == seq![b.view()]);
                out.push(b);
                assert(views_of(out@) =~= before + seq![b.view()]);
                return out;
            },
            LimitStep::Prefix(n) => {
                assert(truncated_from(rv, limit as nat, emitted as nat) == seq![
                    b.view().prefix(n as nat),
                ]);
                out.push(b.prefix(n));
                assert(views_of(out@) =~= before + seq![b.view().prefix(n as nat)]);
                return out;
            },
        }
    }
    assert(views_of(out@) + Seq::<BatchView>::empty() =~= views_of(out@));
    out
}

/// Counting rows from the front gives the same total.
pub proof fn lemma_total_rows_front(bs: Seq<BatchView>)
    requires
        bs.len() > 0,
    ensures
        total_rows(bs) == bs[0].rows + total_rows(bs.drop_first()),
    decreases bs.len(),
{
    if bs.len() > 1 {
        lemma_total_rows_front(bs.drop_last());
        assert(bs.drop_last().drop_first() =~= bs.drop_first().drop_last());
        assert(bs.drop_last()[0] == bs[0]);
        assert(bs.drop_first().last() == bs.last());
        assert(total_rows(bs.drop_first()) == total_rows(bs.drop_first().drop_last())
            + bs.drop_first().last().rows);
    } else {
        assert(bs.drop_first().len() == 0);
        assert(bs.drop_last().len() == 0);
        assert(total_rows(bs.drop_first()) == 0);
        assert(total_rows(bs.drop_last()) == 0);
    }
}

proof fn lemma_truncated_from_idempotent(bs: Seq<BatchView>, limit: nat, emitted: nat)
    requires
        emitted < limit,
    ensures
        truncated_from(truncated_from(bs, limit, emitted), limit, emitted) == truncated_from(
            bs,
            limit,
            emitted,
        ),
    decreases bs.len(),
{
    if bs.len() > 0 {
        let t = truncated_from(bs, limit, emitted);
        if emitted + bs[0].rows > limit {
            assert(t[0] == bs[0].prefix((limit - emitted) as nat));
            assert(t.drop_first().len() == 0);
        } else if emitted + bs[0].rows == limit {
            assert(t.drop_first().len() == 0);
        } else {
            let e2 = emitted + bs[0].rows;
            lemma_truncated_from_idempotent(bs.drop_first(), limit, e2);
            assert(t[0] == bs[0]);
            assert(t.drop_first() =~= truncated_from(bs.drop_first(), limit, e2));
        }
    }
}

/// Cutting a stream to a row budget twice is cutting it once.
pub proof fn lemma_truncate_idempotent(bs: Seq<BatchView>, limit: nat)
    ensures
        truncated(truncated(bs, limit), limit) == truncated(bs, limit),
{
    if limit > 0 {
        lemma_truncated_from_idempotent(bs, limit, 0);
    }
}

proof fn lemma_truncated_from_bounds(bs: Seq<BatchView>, limit: nat, emitted: nat)
    requires
        emitted < limit,
    ensures
        emitted + total_rows(truncated_from(bs, limit, emitted)) <= limit,
        emitted + total_rows(bs) < limit ==> truncated_from(bs, limit, emitted) == bs,
        emitted + total_rows(bs) <= limit ==> total_rows(truncated_from(bs, limit, emitted))
            == total_rows(bs),
    decreases bs.len(),
{
    let t = truncated_from(bs, limit, emitted);
    if bs.len() == 0 {
        assert(t.len() == 0);
        assert(bs =~= t);
    } else {
        lemma_total_rows_front(bs);
        lemma_total_rows_front(t);
        if emitted + bs[0].rows > limit {
            assert(t.drop_first().len() == 0);
        } else if emitted + bs[0].rows == limit {
            assert(t.drop_first().len() == 0);
            assert(t[0] == bs[0]);
        } else {
            let e2 = emitted + bs[0].rows;
            lemma_truncated_from_bounds(bs.drop_first(), limit, e2);
            assert(t[0] == bs[0]);
            assert(t.drop_first() =~= truncated_from(bs.drop_first(), limit, e2));
            if emitted + total_rows(bs) < limit {
                assert(t =~= bs) by {
                    assert(t =~= seq![bs[0]] + bs.drop_first());
                }
            }
        }
    }
}

/// The budget's guarantees: a limit of 0 lets everything through; a
/// positive limit lets through at most that many rows; a limit of at least
/// the total lets every row through, and one above the total every batch.
pub proof fn lemma_truncate_bounds(bs: Seq<BatchView>, limit: nat)
    ensures
        limit == 0 ==> truncated(bs, limit) == bs,
        limit > 0 ==> total_rows(truncated(bs, limit)) <= limit,
        limit >= total_rows(bs) ==> total_rows(truncated(bs, limit)) == total_rows(bs),
        limit > total_rows(bs) ==> truncated(bs, limit) == bs,
{
    if limit > 0 {
        lemma_truncated_from_bounds(bs, limit, 0);
    }
}

} // verus!
