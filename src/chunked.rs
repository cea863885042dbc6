use vstd::prelude::*;
use crate::batch::{total_rows, uniform, views_of, Batch, BatchView, Cells};
use crate::engine::{
    batches_result_view, execute_sort_plan, kept_rows, limit_view, min_nat, projected, projection_view,
    sort_limit_view, top_k_view, SortPlan,
};
use crate::error::{ErrorView, ViewError};
use crate::limit::{truncate_batches, truncated};
use crate::sort::{names_of, specs_view, validate_sort_columns, validation, SortSpec, SpecView};

verus! {

/// A chunk is closed once its batches hold at least this many rows.
pub const CHUNK_ROWS: usize = 100000;

/// The provisional limit of each chunk: twice the limit (held within
/// `usize`), and none for no limit. The margin is a heuristic: nothing
/// guarantees that it keeps every row of the true top rows.
pub open spec fn chunk_limit(limit: nat) -> Option<nat> {
    if limit == 0 {
        None
    } else if 2 * limit <= usize::MAX {
        Some(2 * limit)
    } else {
        Some(usize::MAX as nat)
    }
}

/// The limit of the final merge: none for 0.
pub open spec fn final_limit(limit: nat) -> Option<nat> {
    if limit == 0 {
        None
    } else {
        Some(limit)
    }
}

/// Where the chunk pass stands: the batches of the open chunk, the rows
/// they hold, the candidates collected so far, and whether the pass has
/// stopped pulling.
pub struct ChunkStateView {
    pub chunk: Seq<BatchView>,
    pub acc: nat,
    pub cands: Seq<BatchView>,
    pub done: bool,
}

/// The state before any batch is pulled.
pub open spec fn initial_chunk_state() -> ChunkStateView {
    ChunkStateView { chunk: Seq::empty(), acc: 0, cands: Seq::empty(), done: false }
}

/// One pulled batch `b`: it joins the open chunk; if the chunk then holds at
/// least `CHUNK_ROWS` rows it is projected, sorted and cut to the chunk
/// limit, its rows join the candidates, and with a limit the pass stops
/// pulling once the candidates hold more rows than the limit.
pub open spec fn chunk_step(
    st: ChunkStateView,
    b: BatchView,
    proj: Option<Seq<Seq<char>>>,
    specs: Seq<SpecView>,
    limit: nat,
) -> Result<ChunkStateView, ErrorView> {
    let chunk = st.chunk.push(b);
    if st.acc + b.rows >= CHUNK_ROWS {
        match sort_limit_view(chunk, proj, specs, chunk_limit(limit)) {
            Err(e) => Err(e),
            Ok(out) => Ok(
                ChunkStateView {
                    chunk: Seq::empty(),
                    acc: 0,
                    cands: st.cands + out,
                    done: limit > 0 && total_rows(st.cands + out) > limit,
                },
            ),
        }
    } else {
        Ok(ChunkStateView { chunk, acc: st.acc + b.rows, cands: st.cands, done: false })
    }
}

/// The end of the pass: an open chunk is processed as it is; then the
/// candidates are merged, sorted on all keys, cut to the limit, and held to
/// the row budget. No candidates, no rows.
pub open spec fn chunk_finish(
    st: ChunkStateView,
    proj: Option<Seq<Seq<char>>>,
    specs: Seq<SpecView>,
    limit: nat,
) -> Result<Seq<BatchView>, ErrorView> {
    let cands = if st.chunk.len() > 0 {
        match sort_limit_view(st.chunk, proj, specs, chunk_limit(limit)) {
            Err(e) => Err(e),
            Ok(out) => Ok(st.cands + out),
        }
    } else {
        Ok(st.cands)
    };
    match cands {
        Err(e) => Err(e),
        Ok(c) => if c.len() == 0 {
            Ok(Seq::empty())
        } else {
            match sort_limit_view(c, None, specs, final_limit(limit)) {
                Err(e) => Err(e),
                Ok(o) => Ok(truncated(o, limit)),
            }
        },
    }
}

/// The pass over the batches `bs` from state `st`: pull while the pass
/// has not stopped and batches remain, then finish.
pub open spec fn chunk_run(
    bs: Seq<BatchView>,
    st: ChunkStateView,
    proj: Option<Seq<Seq<char>>>,
    specs: Seq<SpecView>,
    limit: nat,
) -> Result<Seq<BatchView>, ErrorView>
    decreases bs.len(),
{
    if st.done || bs.len() == 0 {
        chunk_finish(st, proj, specs, limit)
    } else {
        match chunk_step(st, bs[0], proj, specs, limit) {
            Err(e) => Err(e),
            Ok(next) => chunk_run(bs.drop_first(), next, proj, specs, limit),
        }
    }
}

/// What the chunked sort yields on a source.
pub open spec fn chunked_view(
    bs: Seq<BatchView>,
    proj: Option<Seq<Seq<char>>>,
    specs: Seq<SpecView>,
    limit: nat,
) -> Result<Seq<BatchView>, ErrorView> {
    chunk_run(bs, initial_chunk_state(), proj, specs, limit)
}

/// The chunked sort of a source with schema `names`: the keys are checked
/// against the schema and the projection first.
pub open spec fn chunked_query(
    bs: Seq<BatchView>,
    names: Seq<Seq<char>>,
    proj: Option<Seq<Seq<char>>>,
    specs: Seq<SpecView>,
    limit: nat,
) -> Result<Seq<BatchView>, ErrorView> {
    match validation(specs, proj, names) {
        Err(e) => Err(e),
        Ok(_) => chunked_view(bs, proj, specs, limit),
    }
}

/// Every batch is well formed with the schema `s`.
pub open spec fn all_with_schema(bs: Seq<BatchView>, s: BatchView) -> bool {
    forall|k: int| 0 <= k < bs.len() ==> (#[trigger] bs[k]).wf() && bs[k].same_schema(s)
}

/// The output of a sort plan on a uniform source is one well-formed batch
/// with the projected schema of the source.
proof fn lemma_sort_limit_schema(
    bs: Seq<BatchView>,
    proj: Option<Seq<Seq<char>>>,
    specs: Seq<SpecView>,
    lim: Option<nat>,
)
    requires
        bs.len() > 0,
        uniform(bs),
        sort_limit_view(bs, proj, specs, lim) is Ok,
    ensures
        projected(bs[0], proj) is Some,
        sort_limit_view(bs, proj, specs, lim)->Ok_0.len() == 1,
        all_with_schema(sort_limit_view(bs, proj, specs, lim)->Ok_0, projected(bs[0], proj)->Some_0),
{
    crate::engine::lemma_projected_uniform(bs, proj);
    let ps = bs.map_values(|b: BatchView| projected(b, proj)->Some_0);
    let m = crate::batch::concat_view(ps);
    let out = sort_limit_view(bs, proj, specs, lim)->Ok_0;
    assert(ps[0] == projected(bs[0], proj)->Some_0);
    assert(ps[0].wf());
    let o = crate::engine::order_for(m, specs)->Ok_0;
    let t = top_k_view(m, o, kept_rows(lim, o.len()));
    assert(out == seq![t]);
    assert forall|j: int| 0 <= j < t.columns.len() implies (#[trigger] t.columns[j]).len() == t.rows
        && t.columns[j].same_kind(ps[0].columns[j]) by {
        crate::batch::lemma_concat_cells_len(ps, j);
        assert(m.columns[j] == crate::batch::concat_cells(ps, j));
        match m.columns[j] {
            Cells::Int64(v) => {},
            Cells::Utf8(v) => {},
        }
    }
    assert(t.wf());
    assert(t.same_schema(ps[0]));
}

/// A run of batches of a uniform source is uniform.
proof fn lemma_uniform_subrange(bs: Seq<BatchView>, a: int, b: int)
    requires
        uniform(bs),
        0 <= a < b <= bs.len(),
    ensures
        uniform(bs.subrange(a, b)),
{
    let sub = bs.subrange(a, b);
    assert forall|k: int| 0 <= k < sub.len() implies (#[trigger] sub[k]).wf() && sub[k].same_schema(
        sub[0],
    ) by {
        assert(sub[k] == bs[a + k]);
        assert(bs[a + k].same_schema(bs[0]));
        assert(bs[a].same_schema(bs[0]));
    }
}

/// Batches that all have one schema are uniform.
proof fn lemma_uniform_of_schema(bs: Seq<BatchView>, s: BatchView)
    requires
        bs.len() > 0,
        all_with_schema(bs, s),
    ensures
        uniform(bs),
{
    assert forall|k: int| 0 <= k < bs.len() implies (#[trigger] bs[k]).wf() && bs[k].same_schema(
        bs[0],
    ) by {
        assert(bs[0].same_schema(s));
        assert(bs[k].same_schema(s));
    }
}

/// Copies of the sort keys.
fn copy_specs(specs: &[SortSpec]) -> (r: Vec<SortSpec>)
    ensures
        specs_view(r@) == specs_view(specs@),
{
    let mut out: Vec<SortSpec> = Vec::new();
    let mut i: usize = 0;
    while i < specs.len()
        invariant
            0 <= i <= specs@.len(),
            out@.len() == i,
            forall|k: int| 0 <= k < i ==> (#[trigger] out@[k]).view() == specs@[k].view(),
        decreases specs@.len() - i,
    {
        out.push(SortSpec { column: specs[i].column.clone(), ascending: specs[i].ascending });
        i = i + 1;
    }
    assert(specs_view(out@) =~= specs_view(specs@));
    out
}

/// Sorts and cuts one chunk by the chunk plan and adds its rows to the
/// candidates; returns the number of rows added.
fn close_chunk(
    plan: &SortPlan,
    chunk: &Vec<Batch>,
    cands: &mut Vec<Batch>,
    Ghost(first): Ghost<BatchView>,
) -> (r: Result<usize, ViewError>)
    requires
        chunk@.len() > 0,
        uniform(views_of(chunk@)),
        first.wf(),
        views_of(chunk@)[0].same_schema(first),
        old(cands)@.len() > 0 ==> (projected(first, projection_view(plan.projection)) is Some
            && all_with_schema(
            views_of(old(cands)@),
            projected(first, projection_view(plan.projection))->Some_0,
        )),
    ensures
        match r {
            Ok(n) => sort_limit_view(
                views_of(chunk@),
                projection_view(plan.projection),
                specs_view(plan.sort@),
                limit_view(plan.limit),
            ) == Ok::<Seq<BatchView>, ErrorView>(views_of(final(cands)@).subrange(
                old(cands)@.len() as int,
                final(cands)@.len() as int,
            )) && views_of(final(cands)@) == views_of(old(cands)@) + seq![
                views_of(final(cands)@).last(),
            ] && n == views_of(final(cands)@).last().rows && n == kept_rows(
                limit_view(plan.limit),
                total_rows(views_of(chunk@)),
            ) && projected(
                first,
                projection_view(plan.projection),
            ) is Some && all_with_schema(
                views_of(final(cands)@),
                projected(first, projection_view(plan.projection))->Some_0,
            ),
            Err(e) => sort_limit_view(
                views_of(chunk@),
                projection_view(plan.projection),
                specs_view(plan.sort@),
                limit_view(plan.limit),
            ) == Err::<Seq<BatchView>, ErrorView>(e.view()),
        },
{
    let ghost cv = views_of(chunk@);
    let ghost proj = projection_view(plan.projection);
    let ghost old_cands = views_of(cands@);
    let mut out = match execute_sort_plan(plan, chunk) {
        Ok(o) => o,
        Err(e) => return Err(e),
    };
    let ghost ov = views_of(out@);
    proof {
        lemma_sort_limit_schema(cv, proj, specs_view(plan.sort@), limit_view(plan.limit));
        crate::engine::lemma_projected_uniform(cv, proj);
        assert(cv[0].names == first.names);
        let p0 = projected(cv[0], proj)->Some_0;
        let pf = projected(first, proj)->Some_0;
        assert(p0.same_schema(pf)) by {
            match proj {
                None => {},
                Some(c) => {
                    assert forall|j: int| 0 <= j < p0.columns.len() implies (
                    #[trigger] p0.columns[j]).same_kind(pf.columns[j]) by {
                        assert(cv[0].names.contains(c[j]));
                        crate::batch::lemma_name_index_found(cv[0].names, c[j], 0);
                    }
                },
            }
        }
    }
    let ob = out.remove(0);
    let n = ob.num_rows();
    assert(ov =~= seq![ob.view()]);
    cands.push(ob);
    assert(views_of(cands@) =~= old_cands + ov);
    assert(views_of(cands@).subrange(old_cands.len() as int, views_of(cands@).len() as int) =~= ov);
    proof {
        let pf = projected(first, proj)->Some_0;
        let all = views_of(cands@);
        assert forall|k: int| 0 <= k < all.len() implies (#[trigger] all[k]).wf()
            && all[k].same_schema(pf) by {
            if k < old_cands.len() {
                assert(all[k] == old_cands[k]);
            } else {
                assert(all[k] == ov[0]);
                let p0 = projected(cv[0], proj)->Some_0;
                assert(ov[0].same_schema(p0));
            }
        }
    }
    Ok(n)
}

/// The chunk pass over a source that is pulled batch by batch. Feed it the
/// batches in order with `push_batch` while it asks for more, then call
/// `finish`.
pub struct ChunkedSort {
    /// Projection, keys and the chunk limit (twice the limit; none for 0).
    pub chunk_plan: SortPlan,
    /// The keys and the limit of the final merge.
    pub final_plan: SortPlan,
    pub limit: usize,
    /// The batches of the open chunk.
    pub chunk: Vec<Batch>,
    /// The rows the open chunk holds.
    pub acc: usize,
    /// The candidates so far.
    pub cands: Vec<Batch>,
    /// The rows of the candidates, kept while a limit is given.
    pub cand_rows: usize,
    /// Whether the pass has stopped pulling.
    pub done: bool,
    /// The first batch pulled, whose schema every batch shares.
    pub first: Ghost<Option<BatchView>>,
    /// The rows pulled so far.
    pub pulled: Ghost<nat>,
}

/// The rows a chunk pass that pulled `pulled` rows yields: the limit if it
/// stopped early, else all of them for no limit, else at most the limit.
pub open spec fn pass_rows(pulled: nat, limit: nat, done: bool) -> nat {
    if done {
        limit
    } else if limit == 0 {
        pulled
    } else {
        min_nat(limit, pulled)
    }
}

impl ChunkedSort {
    pub open spec fn proj(&self) -> Option<Seq<Seq<char>>> {
        projection_view(self.chunk_plan.projection)
    }

    pub open spec fn specs(&self) -> Seq<SpecView> {
        specs_view(self.chunk_plan.sort@)
    }

    pub open spec fn state(&self) -> ChunkStateView {
        ChunkStateView {
            chunk: views_of(self.chunk@),
            acc: self.acc as nat,
            cands: views_of(self.cands@),
            done: self.done,
        }
    }

    /// The pass's bookkeeping holds together.
    pub open spec fn wf(&self) -> bool {
        &&& limit_view(self.chunk_plan.limit) == chunk_limit(self.limit as nat)
        &&& self.final_plan.projection is None
        &&& specs_view(self.final_plan.sort@) == self.specs()
        &&& limit_view(self.final_plan.limit) == final_limit(self.limit as nat)
        &&& self.acc < CHUNK_ROWS
        &&& (self.chunk@.len() == 0 ==> self.acc == 0)
        &&& (self.done ==> self.chunk@.len() == 0)
        &&& (self.limit > 0 && !self.done ==> self.cand_rows == total_rows(views_of(self.cands@))
            && self.cand_rows <= self.limit)
        &&& (self.chunk@.len() > 0 || self.cands@.len() > 0 ==> self.first@ is Some)
        &&& (self.first@ matches Some(f) ==> f.wf() && all_with_schema(views_of(self.chunk@), f))
        &&& (self.cands@.len() > 0 ==> (self.first@ matches Some(f) && projected(f, self.proj())
            is Some && all_with_schema(views_of(self.cands@), projected(f, self.proj())->Some_0)))
        &&& self.acc == total_rows(views_of(self.chunk@))
        &&& self.acc <= self.pulled@
        &&& total_rows(views_of(self.cands@)) <= self.pulled@ - self.acc
        &&& (self.limit == 0 ==> total_rows(views_of(self.cands@)) == self.pulled@ - self.acc
            && !self.done)
        &&& (self.limit > 0 && !self.done ==> total_rows(views_of(self.cands@)) >= min_nat(
            self.limit as nat,
            (self.pulled@ - self.acc) as nat,
        ))
        &&& (self.done ==> total_rows(views_of(self.cands@)) > self.limit)
    }

    /// Whether a pulled batch fits the pass: well formed, with the schema of
    /// the first batch pulled.
    pub open spec fn accepts(&self, b: BatchView) -> bool {
        &&& b.wf()
        &&& (self.first@ matches Some(f) ==> b.same_schema(f))
    }

    /// Starts a pass, after checking the keys against the source's column
    /// names and the projection.
    pub fn new(
        columns: Option<Vec<String>>,
        sort_specs: Vec<SortSpec>,
        limit: usize,
        all_columns: &[String],
    ) -> (r: Result<ChunkedSort, ViewError>)
        ensures
            match r {
                Ok(s) => validation(
                    specs_view(sort_specs@),
                    projection_view(columns),
                    names_of(all_columns@),
                ) is Ok && s.wf() && s.state() == initial_chunk_state() && s.pulled@ == 0 && s.proj()
                    == projection_view(columns) && s.specs() == specs_view(sort_specs@) && s.limit
                    == limit && s.first@ is None,
                Err(e) => validation(
                    specs_view(sort_specs@),
                    projection_view(columns),
                    names_of(all_columns@),
                ) == Err::<(), ErrorView>(e.view()),
            },
    {
        let checked = match &columns {
            Some(c) => validate_sort_columns(sort_specs.as_slice(), Some(c.as_slice()), all_columns),
            None => validate_sort_columns(sort_specs.as_slice(), None, all_columns),
        };
        match checked {
            Ok(_) => {},
            Err(e) => return Err(e),
        }
        let final_specs = copy_specs(sort_specs.as_slice());
        let cap = if limit == 0 {
            None
        } else if limit <= usize::MAX / 2 {
            Some(limit * 2)
        } else {
            Some(usize::MAX)
        };
        let s = ChunkedSort {
            chunk_plan: SortPlan { projection: columns, sort: sort_specs, limit: cap },
            final_plan: SortPlan {
                projection: None,
                sort: final_specs,
                limit: if limit > 0 {
                    Some(limit)
                } else {
                    None
                },
            },
            limit,
            chunk: Vec::new(),
            acc: 0,
            cands: Vec::new(),
            cand_rows: 0,
            done: false,
            first: Ghost(None),
            pulled: Ghost(0),
        };
        assert(views_of(s.chunk@) =~= Seq::<BatchView>::empty());
        assert(views_of(s.cands@) =~= Seq::<BatchView>::empty());
        Ok(s)
    }

    /// Takes the next pulled batch; returns whether to keep pulling.
    pub fn push_batch(&mut self, b: Batch) -> (r: Result<bool, ViewError>)
        requires
            old(self).wf(),
            !old(self).done,
            old(self).accepts(b.view()),
        ensures
            final(self).proj() == old(self).proj(),
            final(self).specs() == old(self).specs(),
            final(self).limit == old(self).limit,
            match r {
                Ok(more) => chunk_step(
                    old(self).state(),
                    b.view(),
                    old(self).proj(),
                    old(self).specs(),
                    old(self).limit as nat,
                ) == Ok::<ChunkStateView, ErrorView>(final(self).state()) && more
                    == !final(self).done && final(self).wf() && (old(self).first@ is Some
                    ==> final(self).first@ == old(self).first@) && (old(self).first@ is None
                    ==> final(self).first@ == Some(b.view())) && final(self).pulled@ == old(
                    self,
                ).pulled@ + b.view().rows,
                Err(e) => chunk_step(
                    old(self).state(),
                    b.view(),
                    old(self).proj(),
                    old(self).specs(),
                    old(self).limit as nat,
                ) == Err::<ChunkStateView, ErrorView>(e.view()),
            },
    {
        let ghost old_chunk = views_of(self.chunk@);
        let ghost old_cands = views_of(self.cands@);
        let ghost f: BatchView = match self.first@ {
            Some(f) => f,
            None => b.view(),
        };
        self.first = Ghost(Some(f));
        let ghost old_acc = self.acc as nat;
        let ghost old_pulled = self.pulled@;
        let ghost old_total = total_rows(old_cands);
        let rows = b.num_rows();
        self.pulled = Ghost((self.pulled@ + rows) as nat);
        self.chunk.push(b);
        assert(views_of(self.chunk@) =~= old_chunk.push(b.view()));
        assert(views_of(self.chunk@).drop_last() =~= old_chunk);
        assert(total_rows(views_of(self.chunk@)) == old_acc + rows);
        assert(all_with_schema(views_of(self.chunk@), f));
        if rows >= CHUNK_ROWS - self.acc {
            proof {
                lemma_uniform_of_schema(views_of(self.chunk@), f);
                assert(views_of(self.chunk@)[0].same_schema(f));
            }
            let out_rows = match close_chunk(&self.chunk_plan, &self.chunk, &mut self.cands, Ghost(f))
            {
                Ok(n) => n,
                Err(e) => return Err(e),
            };
            proof {
                let all = views_of(self.cands@);
                assert(all.drop_last() =~= old_cands);
                assert(old_cands + all.subrange(old_cands.len() as int, all.len() as int) =~= all);
                assert(total_rows(all) == old_total + out_rows);
            }
            self.chunk = Vec::new();
            self.acc = 0;
            assert(views_of(self.chunk@) =~= Seq::<BatchView>::empty());
            if self.limit > 0 {
                if out_rows > self.limit - self.cand_rows {
                    self.done = true;
                } else {
                    self.cand_rows = self.cand_rows + out_rows;
                }
            }
        } else {
            self.acc = self.acc + rows;
        }
        Ok(!self.done)
    }

    /// Ends the pass and merges the candidates.
    pub fn finish(self) -> (r: Result<Vec<Batch>, ViewError>)
        requires
            self.wf(),
        ensures
            batches_result_view(r) == chunk_finish(
                self.state(),
                self.proj(),
                self.specs(),
                self.limit as nat,
            ),
            r matches Ok(v) ==> forall|i: int| 0 <= i < v@.len() ==> (#[trigger] v@[i]).wf(),
            r matches Ok(v) ==> total_rows(views_of(v@)) == pass_rows(
                self.pulled@,
                self.limit as nat,
                self.done,
            ),
    {
        let ghost total_pulled = self.pulled@;
        let ghost was_done = self.done;
        let ChunkedSort {
            chunk_plan,
            final_plan,
            limit,
            chunk,
            acc: _,
            mut cands,
            cand_rows: _,
            done: _,
            first,
            pulled: _,
        } = self;
        if chunk.len() > 0 {
            let ghost f = first@->Some_0;
            proof {
                lemma_uniform_of_schema(views_of(chunk@), f);
            }
            let ghost old_cands = views_of(cands@);
            match close_chunk(&chunk_plan, &chunk, &mut cands, Ghost(f)) {
                Ok(_) => {},
                Err(e) => return Err(e),
            }
            assert(old_cands + views_of(cands@).subrange(old_cands.len() as int, cands@.len() as int)
                =~= views_of(cands@));
            assert(views_of(cands@).drop_last() =~= old_cands);
        }
        proof {
            let t = total_rows(views_of(cands@));
            assert(t <= total_pulled);
            if limit == 0 {
                assert(t == total_pulled);
            } else if !was_done {
                assert(t >= min_nat(limit as nat, total_pulled));
            } else {
                assert(t > limit);
            }
        }
        if cands.len() == 0 {
            assert(views_of(cands@) =~= Seq::<BatchView>::empty());
            return Ok(cands);
        }
        proof {
            let f = first@->Some_0;
            lemma_uniform_of_schema(views_of(cands@), projected(f, projection_view(chunk_plan.projection))->Some_0);
        }
        let merged = match execute_sort_plan(&final_plan, &cands) {
            Ok(m) => m,
            Err(e) => return Err(e),
        };
        proof {
            let mv = views_of(merged@);
            assert(mv =~= seq![merged@[0].view()]);
            assert(mv.drop_last() =~= Seq::<BatchView>::empty());
            assert(total_rows(mv.drop_last()) == 0);
            crate::limit::lemma_truncate_bounds(mv, limit as nat);
        }
        Ok(truncate_batches(merged, limit))
    }
}

/// Sorts a source that can only be read batch by batch: batches are
/// gathered into chunks of at least `CHUNK_ROWS` rows; each chunk is
/// projected, sorted on all keys and cut to twice the limit; once the
/// candidates exceed the limit no further chunk is formed or sorted; the
/// candidates are then sorted again, cut to the limit, and held to the row
/// budget. A limit of 0 is no limit. The keys are checked against the
/// source's column names first. The result is exact when the margin kept
/// every row of the true top rows; nothing guarantees that it does. A
/// source read lazily should drive `ChunkedSort` itself, so that batches
/// after the stop are never pulled.
pub fn chunked_external_sort(
    source: Vec<Batch>,
    columns: Option<Vec<String>>,
    sort_specs: Vec<SortSpec>,
    limit: usize,
    all_columns: &[String],
) -> (r: Result<Vec<Batch>, ViewError>)
    requires
        uniform(views_of(source@)),
    ensures
        batches_result_view(r) == chunked_query(
            views_of(source@),
            names_of(all_columns@),
            projection_view(columns),
            specs_view(sort_specs@),
            limit as nat,
        ),
        r matches Ok(v) ==> forall|i: int| 0 <= i < v@.len() ==> (#[trigger] v@[i]).wf(),
        r matches Ok(v) ==> total_rows(views_of(v@)) == (if limit == 0 {
            total_rows(views_of(source@))
        } else {
            min_nat(limit as nat, total_rows(views_of(source@)))
        }),
{
    let ghost vs = views_of(source@);
    let ghost proj = projection_view(columns);
    let ghost sv = specs_view(sort_specs@);
    let mut pass = match ChunkedSort::new(columns, sort_specs, limit, all_columns) {
        Ok(p) => p,
        Err(e) => return Err(e),
    };
    let mut rest = source;
    let ghost mut i: int = 0;
    let mut more = true;
    assert(views_of(rest@) =~= vs.subrange(0, vs.len() as int));
    while more && rest.len() > 0
        invariant
            vs == views_of(source@),
            uniform(vs),
            0 <= i <= vs.len(),
            views_of(rest@) == vs.subrange(i, vs.len() as int),
            pass.wf(),
            pass.proj() == proj,
            pass.specs() == sv,
            pass.limit == limit,
            more == !pass.done,
            validation(sv, proj, names_of(all_columns@)) is Ok,
            proj == projection_view(columns),
            sv == specs_view(sort_specs@),
            pass.pulled@ == total_rows(vs.take(i)),
            i == 0 ==> pass.first@ is None,
            i > 0 ==> pass.first@ == Some(vs[0]),
            chunked_view(vs, proj, sv, limit as nat) == chunk_run(
                vs.subrange(i, vs.len() as int),
                pass.state(),
                proj,
                sv,
                limit as nat,
            ),
        decreases vs.len() - i,
    {
        let ghost rv = views_of(rest@);
        let ghost old_rest = rest@;
        assert(rv.len() == rest@.len());
        let b = rest.remove(0);
        assert(rv[0] == b.view());
        assert(b.view() == vs[i]);
        assert(rest@ =~= old_rest.drop_first());
        assert(views_of(rest@) =~= rv.drop_first());
        assert(views_of(rest@) =~= vs.subrange(i + 1, vs.len() as int));
        assert(vs[i].wf() && vs[i].same_schema(vs[0]));
        let ghost before = pass.state();
        let ghost sub = vs.subrange(i, vs.len() as int);
        assert(sub[0] == vs[i]);
        assert(sub.drop_first() =~= vs.subrange(i + 1, vs.len() as int));
        proof {
            crate::batch::lemma_total_rows_prefix(vs, i);
        }
        match pass.push_batch(b) {
            Ok(m) => more = m,
            Err(e) => {
                assert(chunk_run(sub, before, proj, sv, limit as nat) == Err::<
                    Seq<BatchView>,
                    ErrorView,
                >(e.view()));
                return Err(e);
            },
        }
        proof {
            i = i + 1;
        }
    }
    proof {
        crate::batch::lemma_total_rows_prefix(vs, i);
        if i == vs.len() {
            assert(vs.take(i) =~= vs);
        }
    }
    let ghost tail = vs.subrange(i, vs.len() as int);
    assert(chunk_run(tail, pass.state(), proj, sv, limit as nat) == chunk_finish(
        pass.state(),
        proj,
        sv,
        limit as nat,
    ));
    pass.finish()
}

} // verus!
