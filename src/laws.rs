use vstd::prelude::*;
use crate::batch::{concat_view, BatchView};
use crate::chunked::chunked_view;
use crate::engine::{sort_limit_view, topk_batches, topk_query, projected};
use crate::error::ErrorView;
use crate::limit::truncated;
use crate::sort::SpecView;

verus! {

/// On a source of a single batch and a positive `k`, the top-k path
/// returns what sorting the whole source and keeping `k` rows returns:
/// the batch's first `k` rows in the key's order (nulls last, direction
/// honoured). With several batches the top-k path sorts within each batch
/// only, and no such equality is claimed.
pub proof fn lemma_topk_single_batch_is_full_sort(b: BatchView, s: SpecView, k: nat)
    requires
        b.wf(),
        b.rows <= u32::MAX,
        k > 0,
    ensures
        topk_batches(seq![b], s, k) == sort_limit_view(seq![b], None, seq![s], Some(k)),
{
    let bs = seq![b];
    let ps = bs.map_values(|x: BatchView| projected(x, None)->Some_0);
    assert(ps =~= bs);
    let m = concat_view(ps);
    assert(crate::batch::total_rows(ps.drop_last()) == 0);
    assert(crate::batch::total_rows(ps) == b.rows);
    assert(m.columns =~= b.columns);
    assert(m =~= b);
    assert(bs.drop_first() =~= Seq::<BatchView>::empty());
    assert(topk_batches(bs.drop_first(), s, k) == Ok::<Seq<BatchView>, ErrorView>(
        Seq::empty(),
    ));
    assert(bs[0] == b);
    match crate::engine::order_for(b, seq![s]) {
        Ok(o) => {
            let t = crate::engine::top_k_view(b, o, k);
            assert(seq![t] + Seq::<BatchView>::empty() =~= seq![t]);
            let kept = crate::engine::kept_rows(Some(k), o.len());
            assert(crate::engine::min_nat(kept, o.len()) == crate::engine::min_nat(k, o.len()));
            assert(crate::engine::top_k_view(m, o, kept) == t);
            assert(topk_batches(bs, s, k) == Ok::<Seq<BatchView>, ErrorView>(seq![t]));
        },
        Err(_) => {},
    }
}

/// An empty source gives an empty result, with no error, on every path:
/// top-k, the whole-source sort, the chunked sort and the row budget.
pub proof fn lemma_empty_source_empty_result(
    args: Seq<Seq<char>>,
    sel: Option<Seq<Seq<char>>>,
    proj: Option<Seq<Seq<char>>>,
    specs: Seq<SpecView>,
    limit: nat,
    lim: Option<nat>,
)
    ensures
        topk_query(Seq::empty(), args, sel, limit) == Ok::<Seq<BatchView>, ErrorView>(Seq::empty()),
        sort_limit_view(Seq::empty(), proj, specs, lim) == Ok::<Seq<BatchView>, ErrorView>(
            Seq::empty(),
        ),
        chunked_view(Seq::empty(), proj, specs, limit) == Ok::<Seq<BatchView>, ErrorView>(
            Seq::empty(),
        ),
        truncated(Seq::empty(), limit) == Seq::<BatchView>::empty(),
{
}

} // verus!
