use vstd::prelude::*;
use crate::batch::{
    concat_batches, concat_view, first_absent, name_index, total_rows, uniform, views_of, Batch,
    BatchView, Cells, Column,
};
use crate::error::{ErrorView, ViewError};
use crate::kernels::{
    key_tie, keys_view, lexsort_indices, lexsort_order, rows_in_order, KeyView, SortKey,
};
use crate::sort::{
    names_of, parse_sort_specs, parse_tokens, specs_view, validate_sort_columns,
    validation, SortSpec, SpecView,
};

verus! {

/// The key that sorts batch `b` by `s`; nulls always go last.
pub open spec fn key_of(b: BatchView, s: SpecView) -> KeyView {
    KeyView {
        cells: b.columns[name_index(b.names, s.column)],
        descending: !s.ascending,
        nulls_first: false,
    }
}

pub open spec fn spec_columns(specs: Seq<SpecView>) -> Seq<Seq<char>> {
    specs.map_values(|s: SpecView| s.column)
}

/// The keys that sort `b` by `specs`, or the first sort column it lacks.
pub open spec fn keys_for(b: BatchView, specs: Seq<SpecView>) -> Result<Seq<KeyView>, ErrorView> {
    if forall|i: int| 0 <= i < specs.len() ==> b.names.contains(#[trigger] specs[i].column) {
        Ok(specs.map_values(|s: SpecView| key_of(b, s)))
    } else {
        Err(ErrorView::ColumnNotFound(first_absent(b.names, spec_columns(specs))))
    }
}

/// The last key of every sort: the row's position, so that rows that tie
/// on all requested keys keep their order.
pub open spec fn position_key(n: nat) -> KeyView {
    KeyView {
        cells: Cells::Int64(Seq::new(n, |i: int| Some(i as i64))),
        descending: false,
        nulls_first: false,
    }
}

/// Rows `i` and `j` tie on every key.
pub open spec fn ties_on_all(keys: Seq<KeyView>, i: int, j: int) -> bool {
    forall|t: int| 0 <= t < keys.len() ==> key_tie(#[trigger] keys[t], i, j)
}

/// The rows of `b` in their order under `specs`: arrow's lexicographic
/// order on the keys and then the position, or the rows as they stand when
/// there are no keys.
pub open spec fn order_for(b: BatchView, specs: Seq<SpecView>) -> Result<Seq<u32>, ErrorView> {
    match keys_for(b, specs) {
        Err(e) => Err(e),
        Ok(ks) => if specs.len() == 0 {
            Ok(Seq::new(b.rows, |i: int| i as u32))
        } else {
            Ok(lexsort_order(ks.push(position_key(b.rows))))
        },
    }
}

/// `o` lists every row of `b` once, sorted on the keys of `specs` in turn,
/// with rows that tie on all of them in their original order.
pub open spec fn is_stable_order(b: BatchView, specs: Seq<SpecView>, o: Seq<u32>) -> bool {
    let ks = keys_for(b, specs)->Ok_0;
    &&& o.len() == b.rows
    &&& indexes_rows(o, b.rows)
    &&& forall|a: int|
        0 <= a < o.len() - 1 ==> {
            &&& rows_in_order(ks, 0, #[trigger] o[a] as int, o[a + 1] as int)
            &&& ties_on_all(ks, o[a] as int, o[a + 1] as int) ==> o[a] < o[a + 1]
        }
}

/// `out` is the first `k` rows of `b` in some stable sorted order on `s`.
pub open spec fn locally_sorted_top_k(b: BatchView, s: SpecView, k: nat, out: BatchView) -> bool {
    exists|o: Seq<u32>| is_stable_order(b, seq![s], o) && out == top_k_view(b, o, k)
}

/// Under the keys followed by the position key, rows go in the keys'
/// order, and rows that tie on all keys go in position order.
proof fn lemma_position_breaks_ties(ks: Seq<KeyView>, n: nat, t: int, i: int, j: int)
    requires
        0 <= t <= ks.len(),
        0 <= i < n,
        0 <= j < n,
        i != j,
        n <= u32::MAX,
        rows_in_order(ks.push(position_key(n)), t, i, j),
    ensures
        rows_in_order(ks, t, i, j),
        (forall|u: int| t <= u < ks.len() ==> key_tie(#[trigger] ks[u], i, j)) ==> i < j,
    decreases ks.len() - t,
{
    let all = ks.push(position_key(n));
    if t == ks.len() {
        assert(all[t] == position_key(n));
    } else {
        assert(all[t] == ks[t]);
        if key_tie(ks[t], i, j) {
            lemma_position_breaks_ties(ks, n, t + 1, i, j);
        }
    }
}

/// Every position in `idx` is a row of a batch with `rows` rows.
pub open spec fn indexes_rows(idx: Seq<u32>, rows: nat) -> bool {
    forall|a: int| 0 <= a < idx.len() ==> (#[trigger] idx[a] as int) < rows
}

/// The keys that sort `batch` by `specs`.
fn sort_keys(batch: &Batch, specs: &[SortSpec]) -> (r: Result<Vec<SortKey>, ViewError>)
    requires
        batch.wf(),
    ensures
        match r {
            Ok(ks) => keys_for(batch.view(), specs_view(specs@)) == Ok::<Seq<KeyView>, ErrorView>(
                keys_view(ks@),
            ) && ks@.len() == specs@.len() && forall|k: int|
                0 <= k < ks@.len() ==> (#[trigger] ks@[k]).column.cells().len() == batch.view().rows,
            Err(e) => keys_for(batch.view(), specs_view(specs@)) == Err::<Seq<KeyView>, ErrorView>(
                e.view(),
            ),
        },
{
    let ghost b = batch.view();
    let ghost sv = specs_view(specs@);
    let mut keys: Vec<SortKey> = Vec::new();
    let mut i: usize = 0;
    while i < specs.len()
        invariant
            batch.wf(),
            b == batch.view(),
            sv == specs_view(specs@),
            0 <= i <= specs@.len(),
            keys@.len() == i,
            forall|k: int| 0 <= k < i ==> b.names.contains(#[trigger] sv[k].column),
            forall|k: int| 0 <= k < i ==> (#[trigger] keys@[k]).view() == key_of(b, sv[k]),
            forall|k: int| 0 <= k < i ==> (#[trigger] keys@[k]).column.cells().len() == b.rows,
        decreases specs@.len() - i,
    {
        match batch.column_index(&specs[i].column) {
            Some(c) => {
                proof {
                    crate::batch::lemma_name_index_hit(b.names, sv[i as int].column, 0);
                }
                assert(b.names[c as int] == sv[i as int].column);
                assert(b.names.contains(sv[i as int].column));
                assert(b.columns[c as int] == batch.columns@[c as int].cells());
                let column = batch.columns[c].prefix(batch.num_rows);
                assert(batch.columns@[c as int].cells().prefix(batch.num_rows as int)
                    == batch.columns@[c as int].cells()) by {
                    match batch.columns@[c as int].cells() {
                        crate::batch::Cells::Int64(v) => {
                            assert(v.take(batch.num_rows as int) =~= v);
                        },
                        crate::batch::Cells::Utf8(v) => {
                            assert(v.take(batch.num_rows as int) =~= v);
                        },
                    }
                }
                keys.push(
                    SortKey { column, descending: !specs[i].ascending, nulls_first: false },
                );
            },
            None => {
                let ghost cols = spec_columns(sv);
                assert(!b.names.contains(cols[i as int]));
                assert forall|p: int|
                    0 <= p < cols.len() && !b.names.contains(cols[p]) && (forall|q: int|
                        0 <= q < p ==> b.names.contains(#[trigger] cols[q])) implies p == i by {
                    if p < i {
                        assert(b.names.contains(sv[p].column));
                    } else if p > i {
                        assert(b.names.contains(cols[i as int]));
                    }
                }
                assert(!(forall|k: int|
                    0 <= k < sv.len() ==> b.names.contains(#[trigger] sv[k].column))) by {
                    assert(!b.names.contains(sv[i as int].column));
                }
                return Err(ViewError::ColumnNotFound(specs[i].column.clone()));
            },
        }
        i = i + 1;
    }
    assert(keys_view(keys@) =~= sv.map_values(|s: SpecView| key_of(b, s)));
    Ok(keys)
}

/// The order of the rows of `batch` under `specs`: sorted on the keys in
/// turn, nulls last, and stable (rows that tie keep their order).
pub fn sorted_order(batch: &Batch, specs: &[SortSpec]) -> (r: Result<Vec<u32>, ViewError>)
    requires
        batch.wf(),
        batch.view().rows <= u32::MAX,
    ensures
        match r {
            Ok(idx) => order_for(batch.view(), specs_view(specs@)) == Ok::<Seq<u32>, ErrorView>(
                idx@,
            ),
            Err(e) => order_for(batch.view(), specs_view(specs@)) == Err::<Seq<u32>, ErrorView>(
                e.view(),
            ),
        },
        r matches Ok(idx) ==> idx@.len() == batch.view().rows && indexes_rows(
            idx@,
            batch.view().rows,
        ),
        r matches Ok(idx) ==> is_stable_order(batch.view(), specs_view(specs@), idx@),
{
    let keys = match sort_keys(batch, specs) {
        Ok(k) => k,
        Err(e) => return Err(e),
    };
    if specs.len() == 0 {
        let mut idx: Vec<u32> = Vec::new();
        let mut i: usize = 0;
        while i < batch.num_rows
            invariant
                0 <= i <= batch.num_rows <= u32::MAX,
                idx@ =~= Seq::new(i as nat, |a: int| a as u32),
            decreases batch.num_rows - i,
        {
            idx.push(i as u32);
            i = i + 1;
        }
        return Ok(idx);
    }
    let ghost ks = keys_view(keys@);
    let mut positions: Vec<Option<i64>> = Vec::new();
    let mut i: usize = 0;
    while i < batch.num_rows
        invariant
            0 <= i <= batch.num_rows <= u32::MAX,
            positions@ =~= Seq::new(i as nat, |k: int| Some(k as i64)),
        decreases batch.num_rows - i,
    {
        positions.push(Some(i as i64));
        i = i + 1;
    }
    let mut keys = keys;
    keys.push(SortKey { column: Column::Int64(positions), descending: false, nulls_first: false });
    assert(keys_view(keys@) =~= ks.push(position_key(batch.view().rows)));
    assert(keys@[0].column.cells().len() == batch.view().rows);
    match lexsort_indices(&keys) {
        Ok(idx) => {
            let ghost n = batch.view().rows;
            assert(keys_view(keys@)[0].cells.len() == n);
            assert forall|a: int| 0 <= a < idx@.len() - 1 implies {
                &&& rows_in_order(ks, 0, #[trigger] idx@[a] as int, idx@[a + 1] as int)
                &&& ties_on_all(ks, idx@[a] as int, idx@[a + 1] as int) ==> idx@[a] < idx@[a + 1]
            } by {
                assert(idx@[a] != idx@[a + 1]);
                assert((idx@[a] as int) < n && (idx@[a + 1] as int) < n);
                lemma_position_breaks_ties(ks, n, 0, idx@[a] as int, idx@[a + 1] as int);
            }
            Ok(idx)
        },
        Err(_) => {
            assert(false);
            Err(ViewError::EngineExecution)
        },
    }
}

pub open spec fn min_nat(a: nat, b: nat) -> nat {
    if a <= b {
        a
    } else {
        b
    }
}

pub open spec fn batches_result_view(r: Result<Vec<Batch>, ViewError>) -> Result<
    Seq<BatchView>,
    ErrorView,
> {
    match r {
        Ok(v) => Ok(views_of(v@)),
        Err(e) => Err(e.view()),
    }
}

pub open spec fn selection_view(sel: Option<&[String]>) -> Option<Seq<Seq<char>>> {
    match sel {
        Some(c) => Some(names_of(c@)),
        None => None,
    }
}

/// The first `k` rows of `b` in the order `order`, or all of them when there are fewer.
pub open spec fn top_k_view(b: BatchView, order: Seq<u32>, k: nat) -> BatchView {
    b.take(order.take(min_nat(k, order.len()) as int))
}

/// One batch's top-k under the key `s`.
pub open spec fn topk_batch(b: BatchView, s: SpecView, k: nat) -> Result<BatchView, ErrorView> {
    match order_for(b, seq![s]) {
        Err(e) => Err(e),
        Ok(o) => Ok(top_k_view(b, o, k)),
    }
}

/// Each batch's top-k, in batch order; the first failing batch decides the error.
pub open spec fn topk_batches(bs: Seq<BatchView>, s: SpecView, k: nat) -> Result<
    Seq<BatchView>,
    ErrorView,
>
    decreases bs.len(),
{
    if bs.len() == 0 {
        Ok(Seq::empty())
    } else {
        match topk_batch(bs[0], s, k) {
            Err(e) => Err(e),
            Ok(v) => match topk_batches(bs.drop_first(), s, k) {
                Err(e) => Err(e),
                Ok(rest) => Ok(seq![v] + rest),
            },
        }
    }
}

/// The top-k path: parse the tokens, check them against the first batch's
/// columns and the projection, then select within each batch on the first key.
/// No source, no work.
pub open spec fn topk_query(
    bs: Seq<BatchView>,
    args: Seq<Seq<char>>,
    sel: Option<Seq<Seq<char>>>,
    k: nat,
) -> Result<Seq<BatchView>, ErrorView> {
    if bs.len() == 0 {
        Ok(Seq::empty())
    } else {
        match parse_tokens(args) {
            Err(e) => Err(e),
            Ok(specs) => match validation(specs, sel, bs[0].names) {
                Err(e) => Err(e),
                Ok(_) => topk_batches(bs, specs[0], k),
            },
        }
    }
}

/// The first `k` rows of `batch` in the order `order`.
pub fn top_k_of_batch(batch: &Batch, order: &Vec<u32>, k: usize) -> (r: Batch)
    requires
        batch.wf(),
        indexes_rows(order@, batch.view().rows),
    ensures
        r.wf(),
        r.view() == top_k_view(batch.view(), order@, k as nat),
{
    let n = if k < order.len() {
        k
    } else {
        order.len()
    };
    let mut idx: Vec<u32> = Vec::new();
    let mut i: usize = 0;
    while i < n
        invariant
            0 <= i <= n <= order@.len(),
            idx@ =~= order@.take(i as int),
        decreases n - i,
    {
        idx.push(order[i]);
        i = i + 1;
    }
    batch.take_rows(&idx)
}

/// Sorts each batch on the first key and keeps its first `k` rows, after
/// checking the keys against the first batch's columns and the projection.
/// Batches are not merged: the result is sorted within each batch only.
pub fn apply_topk_sorting(
    batches: Vec<Batch>,
    sort_args: &[String],
    selected_columns: Option<&[String]>,
    k: usize,
) -> (r: Result<Vec<Batch>, ViewError>)
    requires
        sort_args@.len() >= 1,
        forall|i: int|
            0 <= i < batches@.len() ==> (#[trigger] batches@[i]).wf() && batches@[i].view().rows
                <= u32::MAX,
    ensures
        batches_result_view(r) == topk_query(
            views_of(batches@),
            names_of(sort_args@),
            selection_view(selected_columns),
            k as nat,
        ),
        batches@.len() == 0 ==> (r matches Ok(v) && v@.len() == 0),
        r matches Ok(v) ==> forall|i: int| 0 <= i < v@.len() ==> (#[trigger] v@[i]).wf(),
        r matches Ok(v) ==> forall|i: int|
            0 <= i < v@.len() ==> (#[trigger] v@[i]).view().rows == min_nat(
                k as nat,
                batches@[i].view().rows,
            ),
        r matches Ok(v) ==> v@.len() == batches@.len() && forall|i: int|
            0 <= i < v@.len() ==> locally_sorted_top_k(
                batches@[i].view(),
                parse_tokens(names_of(sort_args@))->Ok_0[0],
                k as nat,
                #[trigger] v@[i].view(),
            ),
{
    let ghost vs = views_of(batches@);
    if batches.len() == 0 {
        assert(views_of(batches@) =~= Seq::<BatchView>::empty());
        return Ok(batches);
    }
    let specs = match parse_sort_specs(sort_args) {
        Ok(s) => s,
        Err(e) => return Err(e),
    };
    assert(names_of(batches@[0].names@) == vs[0].names);
    let all_columns = batches[0].names.as_slice();
    assert(names_of(all_columns@) == vs[0].names);
    match validate_sort_columns(specs.as_slice(), selected_columns, all_columns) {
        Ok(_) => {},
        Err(e) => return Err(e),
    }
    let first = SortSpec { column: specs[0].column.clone(), ascending: specs[0].ascending };
    let one: Vec<SortSpec> = vec![first];
    let ghost s0 = specs_view(specs@)[0];
    assert(specs_view(one@) =~= seq![s0]);
    let mut out: Vec<Batch> = Vec::new();
    let mut i: usize = 0;
    let ghost total = topk_batches(vs, s0, k as nat);
    assert(selection_view(selected_columns) == match selected_columns {
        Some(c) => Some(names_of(c@)),
        None => None::<Seq<Seq<char>>>,
    });
    assert(topk_query(vs, names_of(sort_args@), selection_view(selected_columns), k as nat)
        == total);
    assert(vs.subrange(0, vs.len() as int) =~= vs);
    proof {
        match total {
            Ok(rest) => {
                assert(views_of(out@) + rest =~= rest);
            },
            Err(_) => {},
        }
    }
    while i < batches.len()
        invariant
            vs == views_of(batches@),
            specs_view(one@) == seq![s0],
            total == topk_batches(vs, s0, k as nat),
            topk_query(vs, names_of(sort_args@), selection_view(selected_columns), k as nat)
                == total,
            forall|j: int|
                0 <= j < batches@.len() ==> (#[trigger] batches@[j]).wf() && batches@[j].view().rows
                    <= u32::MAX,
            0 <= i <= batches@.len(),
            out@.len() == i,
            forall|j: int| 0 <= j < i ==> (#[trigger] out@[j]).wf(),
            s0 == parse_tokens(names_of(sort_args@))->Ok_0[0],
            forall|j: int|
                0 <= j < i ==> (#[trigger] out@[j]).view().rows == min_nat(
                    k as nat,
                    batches@[j].view().rows,
                ),
            forall|j: int|
                0 <= j < i ==> locally_sorted_top_k(
                    batches@[j].view(),
                    s0,
                    k as nat,
                    #[trigger] out@[j].view(),
                ),
            total == match topk_batches(vs.subrange(i as int, vs.len() as int), s0, k as nat) {
                Ok(rest) => Ok(views_of(out@) + rest),
                Err(e) => Err(e),
            },
        decreases batches@.len() - i,
    {
        let ghost tail = vs.subrange(i as int, vs.len() as int);
        assert(tail[0] == batches@[i as int].view());
        assert(tail.drop_first() =~= vs.subrange(i + 1, vs.len() as int));
        let order = match sorted_order(&batches[i], one.as_slice()) {
            Ok(o) => o,
            Err(e) => {
                assert(order_for(tail[0], seq![s0]) == Err::<Seq<u32>, ErrorView>(e.view()));
                assert(topk_batch(tail[0], s0, k as nat) == Err::<BatchView, ErrorView>(e.view()));
                assert(topk_batches(tail, s0, k as nat) == Err::<Seq<BatchView>, ErrorView>(
                    e.view(),
                ));
                return Err(e);
            },
        };
        let b = top_k_of_batch(&batches[i], &order, k);
        assert(is_stable_order(batches@[i as int].view(), seq![s0], order@));
        assert(locally_sorted_top_k(batches@[i as int].view(), s0, k as nat, b.view()));
        let ghost before = out@;
        out.push(b);
        assert(views_of(out@) =~= views_of(before) + seq![b.view()]);
        proof {
            match topk_batches(vs.subrange(i + 1, vs.len() as int), s0, k as nat) {
                Ok(rest) => {
                    assert(views_of(before) + (seq![b.view()] + rest) =~= views_of(out@) + rest);
                },
                Err(_) => {},
            }
        }
        i = i + 1;
    }
    assert(vs.subrange(i as int, vs.len() as int) =~= Seq::<BatchView>::empty());
    assert(views_of(out@) + Seq::<BatchView>::empty() =~= views_of(out@));
    Ok(out)
}

/// A plan for an engine that sorts a whole source: scan the batches, keep
/// the projected columns if a projection is given, sort stably on all keys
/// in order with nulls last, and keep the first `limit` rows if a limit is given.
#[derive(Debug)]
pub struct SortPlan {
    pub projection: Option<Vec<String>>,
    pub sort: Vec<SortSpec>,
    pub limit: Option<usize>,
}

/// The plan for a sort request; a row limit of 0 adds no limit step.
pub fn build_sort_plan(
    columns: Option<Vec<String>>,
    sort_specs: Vec<SortSpec>,
    limit: usize,
) -> (r: SortPlan)
    ensures
        r.projection == columns,
        r.sort == sort_specs,
        r.limit == (if limit > 0 {
            Some(limit)
        } else {
            None
        }),
{
    SortPlan {
        projection: columns,
        sort: sort_specs,
        limit: if limit > 0 {
            Some(limit)
        } else {
            None
        },
    }
}

pub open spec fn projection_view(p: Option<Vec<String>>) -> Option<Seq<Seq<char>>> {
    match p {
        Some(c) => Some(names_of(c@)),
        None => None,
    }
}

pub open spec fn limit_view(l: Option<usize>) -> Option<nat> {
    match l {
        Some(n) => Some(n as nat),
        None => None,
    }
}

/// A batch with only the projected columns, if it has them all.
pub open spec fn projected(b: BatchView, proj: Option<Seq<Seq<char>>>) -> Option<BatchView> {
    match proj {
        None => Some(b),
        Some(c) => b.project(c),
    }
}

/// How many of `n` sorted rows a limit keeps.
pub open spec fn kept_rows(limit: Option<nat>, n: nat) -> nat {
    match limit {
        None => n,
        Some(l) => min_nat(l, n),
    }
}

/// What a sort plan yields on a source: nothing for no batches; else the
/// projected batches joined into one, sorted by the keys, cut to the limit.
/// More rows than the sort kernel's 32-bit row indexes can address is an
/// engine failure.
pub open spec fn sort_limit_view(
    bs: Seq<BatchView>,
    proj: Option<Seq<Seq<char>>>,
    specs: Seq<SpecView>,
    limit: Option<nat>,
) -> Result<Seq<BatchView>, ErrorView> {
    if bs.len() == 0 {
        Ok(Seq::empty())
    } else if projected(bs[0], proj) is None {
        Err(ErrorView::ColumnNotFound(first_absent(bs[0].names, proj->Some_0)))
    } else if total_rows(bs.map_values(|b: BatchView| projected(b, proj)->Some_0)) > u32::MAX {
        Err(ErrorView::EngineExecution)
    } else {
        let m = concat_view(bs.map_values(|b: BatchView| projected(b, proj)->Some_0));
        match order_for(m, specs) {
            Err(e) => Err(e),
            Ok(o) => Ok(seq![top_k_view(m, o, kept_rows(limit, o.len()))]),
        }
    }
}

/// Projection keeps the rows: the projected batches hold as many rows as the source.
pub(crate) proof fn lemma_projected_rows(bs: Seq<BatchView>, proj: Option<Seq<Seq<char>>>)
    requires
        forall|k: int| 0 <= k < bs.len() ==> (#[trigger] projected(bs[k], proj)) is Some,
    ensures
        total_rows(bs.map_values(|b: BatchView| projected(b, proj)->Some_0)) == total_rows(bs),
    decreases bs.len(),
{
    let ps = bs.map_values(|b: BatchView| projected(b, proj)->Some_0);
    if bs.len() > 0 {
        let d = bs.drop_last();
        assert forall|k: int| 0 <= k < d.len() implies (#[trigger] projected(d[k], proj)) is Some by {
            assert(d[k] == bs[k]);
        }
        lemma_projected_rows(d, proj);
        assert(ps.drop_last() =~= d.map_values(|b: BatchView| projected(b, proj)->Some_0));
        assert(projected(bs[bs.len() - 1], proj) is Some);
        assert(ps.last() == projected(bs.last(), proj)->Some_0);
    }
}

/// The projected batches of a uniform source share one schema.
pub(crate) proof fn lemma_projected_uniform(bs: Seq<BatchView>, proj: Option<Seq<Seq<char>>>)
    requires
        bs.len() > 0,
        uniform(bs),
        projected(bs[0], proj) is Some,
    ensures
        forall|k: int| 0 <= k < bs.len() ==> (#[trigger] projected(bs[k], proj)) is Some,
        uniform(bs.map_values(|b: BatchView| projected(b, proj)->Some_0)),
{
    let ps = bs.map_values(|b: BatchView| projected(b, proj)->Some_0);
    assert forall|k: int| 0 <= k < bs.len() implies (#[trigger] projected(bs[k], proj)) is Some by {
        assert(bs[k].same_schema(bs[0]));
    }
    match proj {
        None => {
            assert(ps =~= bs);
        },
        Some(c) => {
            assert forall|k: int| 0 <= k < ps.len() implies (#[trigger] ps[k]).wf() && ps[k].same_schema(
                ps[0],
            ) by {
                assert(bs[k].same_schema(bs[0]));
                assert(bs[k].wf());
                assert(bs[0].wf());
                assert forall|j: int| 0 <= j < ps[k].columns.len() implies (
                #[trigger] ps[k].columns[j]).len() == ps[k].rows && ps[k].columns[j].same_kind(
                    ps[0].columns[j],
                ) by {
                    assert(bs[k].names.contains(c[j]));
                    crate::batch::lemma_name_index_found(bs[k].names, c[j], 0);
                    let ni = name_index(bs[k].names, c[j]);
                    assert(0 <= ni < bs[k].columns.len());
                    assert(bs[k].columns[ni].same_kind(bs[0].columns[ni]));
                }
            }
        },
    }
}

/// The projected batches of a non-empty uniform source.
fn project_all(source: &Vec<Batch>, projection: &Option<Vec<String>>) -> (r: Result<
    Vec<Batch>,
    ViewError,
>)
    requires
        source@.len() > 0,
        uniform(views_of(source@)),
    ensures
        match r {
            Ok(parts) => projected(views_of(source@)[0], projection_view(*projection)) is Some
                && views_of(parts@) == views_of(source@).map_values(
                |b: BatchView| projected(b, projection_view(*projection))->Some_0,
            ) && uniform(views_of(parts@)),
            Err(e) => projected(views_of(source@)[0], projection_view(*projection)) is None
                && e.view() == ErrorView::ColumnNotFound(
                first_absent(views_of(source@)[0].names, projection_view(*projection)->Some_0),
            ),
        },
{
    let ghost vs = views_of(source@);
    let ghost proj = projection_view(*projection);
    assert(vs[0] == source@[0].view());
    let mut parts: Vec<Batch> = Vec::new();
    let mut k: usize = 0;
    while k < source.len()
        invariant
            vs == views_of(source@),
            proj == projection_view(*projection),
            uniform(vs),
            source@.len() > 0,
            0 <= k <= source@.len(),
            parts@.len() == k,
            forall|i: int|
                0 <= i < k ==> Some((#[trigger] parts@[i]).view()) == projected(vs[i], proj),
        decreases source@.len() - k,
    {
        assert(vs[k as int] == source@[k as int].view());
        assert(vs[k as int].wf());
        match projection {
            Some(cols) => {
                match source[k].project(cols.as_slice()) {
                    Ok(b) => parts.push(b),
                    Err(e) => {
                        assert(vs[k as int].same_schema(vs[0]));
                        return Err(e);
                    },
                }
            },
            None => {
                parts.push(source[k].prefix(source[k].num_rows));
                proof {
                    let b = vs[k as int];
                    assert(b.prefix(b.rows) =~= b) by {
                        assert forall|j: int| 0 <= j < b.columns.len() implies (
                        #[trigger] b.columns[j]).prefix(b.rows as int) == b.columns[j] by {
                            match b.columns[j] {
                                Cells::Int64(v) => {
                                    assert(v.take(b.rows as int) =~= v);
                                },
                                Cells::Utf8(v) => {
                                    assert(v.take(b.rows as int) =~= v);
                                },
                            }
                        }
                        assert(b.prefix(b.rows).columns =~= b.columns);
                    }
                }
            },
        }
        k = k + 1;
    }
    assert(Some(parts@[0].view()) == projected(vs[0], proj));
    proof {
        lemma_projected_uniform(vs, proj);
    }
    assert(views_of(parts@) =~= vs.map_values(|b: BatchView| projected(b, proj)->Some_0));
    Ok(parts)
}

/// Whether the batches hold few enough rows for the sort kernel's 32-bit row indexes.
fn fits_sort_kernel(parts: &Vec<Batch>) -> (r: bool)
    ensures
        r == (total_rows(views_of(parts@)) <= u32::MAX),
{
    let ghost vs = views_of(parts@);
    let mut rows: usize = 0;
    let mut k: usize = 0;
    while k < parts.len()
        invariant
            vs == views_of(parts@),
            0 <= k <= parts@.len(),
            rows <= u32::MAX,
            rows == total_rows(vs.take(k as int)),
        decreases parts@.len() - k,
    {
        proof {
            crate::batch::lemma_total_rows_prefix(vs, k as int);
            crate::batch::lemma_total_rows_prefix(vs, k + 1);
        }
        assert(vs[k as int] == parts@[k as int].view());
        if parts[k].num_rows() > u32::MAX as usize - rows {
            return false;
        }
        rows = rows + parts[k].num_rows();
        k = k + 1;
    }
    assert(vs.take(k as int) =~= vs);
    true
}

/// The projected batches of a source joined into one.
pub open spec fn merged_view(bs: Seq<BatchView>, proj: Option<Seq<Seq<char>>>) -> BatchView {
    concat_view(bs.map_values(|b: BatchView| projected(b, proj)->Some_0))
}

/// Runs a sort plan over the batches of a source held in memory.
pub fn execute_sort_plan(plan: &SortPlan, source: &Vec<Batch>) -> (r: Result<Vec<Batch>, ViewError>)
    requires
        uniform(views_of(source@)),
    ensures
        r matches Ok(v) ==> source@.len() > 0 ==> v@.len() == 1 && v@[0].view().rows == kept_rows(
            limit_view(plan.limit),
            merged_view(views_of(source@), projection_view(plan.projection)).rows,
        ) && merged_view(views_of(source@), projection_view(plan.projection)).rows == total_rows(
            views_of(source@),
        ),
        r matches Ok(v) ==> source@.len() > 0 ==> v@.len() == 1 && exists|o: Seq<u32>|
            is_stable_order(
                merged_view(views_of(source@), projection_view(plan.projection)),
                specs_view(plan.sort@),
                o,
            ) && #[trigger] v@[0].view() == top_k_view(
                merged_view(views_of(source@), projection_view(plan.projection)),
                o,
                kept_rows(limit_view(plan.limit), o.len()),
            ),
        batches_result_view(r) == sort_limit_view(
            views_of(source@),
            projection_view(plan.projection),
            specs_view(plan.sort@),
            limit_view(plan.limit),
        ),
        source@.len() == 0 ==> (r matches Ok(v) && v@.len() == 0),
        r matches Ok(v) ==> forall|i: int| 0 <= i < v@.len() ==> (#[trigger] v@[i]).wf(),
{
    if source.len() == 0 {
        let out: Vec<Batch> = Vec::new();
        assert(views_of(out@) =~= Seq::<BatchView>::empty());
        return Ok(out);
    }
    let parts = match project_all(source, &plan.projection) {
        Ok(p) => p,
        Err(e) => return Err(e),
    };
    if !fits_sort_kernel(&parts) {
        return Err(ViewError::EngineExecution);
    }
    proof {
        crate::batch::lemma_total_rows_prefix(views_of(parts@), 0);
    }
    let merged = concat_batches(&parts);
    let order = match sorted_order(&merged, plan.sort.as_slice()) {
        Ok(o) => o,
        Err(e) => return Err(e),
    };
    let n = match plan.limit {
        Some(l) => if l < order.len() {
            l
        } else {
            order.len()
        },
        None => order.len(),
    };
    let out = top_k_of_batch(&merged, &order, n);
    proof {
        let vs = views_of(source@);
        let proj = projection_view(plan.projection);
        lemma_projected_uniform(vs, proj);
        lemma_projected_rows(vs, proj);
    }
    assert(min_nat(n as nat, order@.len()) == kept_rows(limit_view(plan.limit), order@.len()));
    assert(merged.view() == merged_view(views_of(source@), projection_view(plan.projection)));
    assert(is_stable_order(merged.view(), specs_view(plan.sort@), order@));
    let result = vec![out];
    assert(views_of(result@) =~= seq![out.view()]);
    Ok(result)
}

} // verus!
