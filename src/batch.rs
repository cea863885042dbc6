use vstd::prelude::*;
use crate::error::{ErrorView, ViewError};
use crate::sort::names_of;

verus! {

/// The values of one column; a null is `None`.
#[derive(Debug, Clone, PartialEq, Eq)]
pub enum Column {
    Int64(Vec<Option<i64>>),
    Utf8(Vec<Option<String>>),
}

/// The values of a column over plain values.
pub enum Cells {
    Int64(Seq<Option<i64>>),
    Utf8(Seq<Option<Seq<char>>>),
}

pub open spec fn text_cell(o: Option<String>) -> Option<Seq<char>> {
    match o {
        Some(s) => Some(s@),
        None => None,
    }
}

impl Cells {
    pub open spec fn len(self) -> nat {
        match self {
            Cells::Int64(v) => v.len(),
            Cells::Utf8(v) => v.len(),
        }
    }

    pub open spec fn same_kind(self, o: Cells) -> bool {
        (self is Int64) == (o is Int64)
    }

    /// The cells at the given positions, in the order given.
    pub open spec fn take(self, idx: Seq<u32>) -> Cells {
        match self {
            Cells::Int64(v) => Cells::Int64(idx.map_values(|i: u32| v[i as int])),
            Cells::Utf8(v) => Cells::Utf8(idx.map_values(|i: u32| v[i as int])),
        }
    }

    /// The first `n` cells.
    pub open spec fn prefix(self, n: int) -> Cells {
        match self {
            Cells::Int64(v) => Cells::Int64(v.take(n)),
            Cells::Utf8(v) => Cells::Utf8(v.take(n)),
        }
    }

    /// These cells followed by those of a column of the same kind.
    pub open spec fn append(self, o: Cells) -> Cells {
        match (self, o) {
            (Cells::Int64(a), Cells::Int64(b)) => Cells::Int64(a + b),
            (Cells::Utf8(a), Cells::Utf8(b)) => Cells::Utf8(a + b),
            _ => self,
        }
    }
}

impl Column {
    pub open spec fn cells(&self) -> Cells {
        match self {
            Column::Int64(v) => Cells::Int64(v@),
            Column::Utf8(v) => Cells::Utf8(v@.map_values(|o: Option<String>| text_cell(o))),
        }
    }

    pub fn len(&self) -> (r: usize)
        ensures
            r == self.cells().len(),
    {
        match self {
            Column::Int64(v) => v.len(),
            Column::Utf8(v) => v.len(),
        }
    }

    /// The cells at the given positions, in the order given.
    pub fn take(&self, idx: &Vec<u32>) -> (r: Column)
        requires
            forall|i: int| 0 <= i < idx@.len() ==> (#[trigger] idx@[i] as int) < self.cells().len(),
        ensures
            r.cells() == self.cells().take(idx@),
    {
        match self {
            Column::Int64(v) => {
                let mut out: Vec<Option<i64>> = Vec::new();
                let mut i: usize = 0;
                while i < idx.len()
                    invariant
                        0 <= i <= idx@.len(),
                        forall|j: int| 0 <= j < idx@.len() ==> (#[trigger] idx@[j] as int) < v@.len(),
                        out@ =~= idx@.take(i as int).map_values(|k: u32| v@[k as int]),
                    decreases idx@.len() - i,
                {
                    out.push(v[idx[i] as usize]);
                    i = i + 1;
                    assert(out@ =~= idx@.take(i as int).map_values(|k: u32| v@[k as int]));
                }
                assert(idx@.take(i as int) =~= idx@);
                Column::Int64(out)
            },
            Column::Utf8(v) => {
                let mut out: Vec<Option<String>> = Vec::new();
                let mut i: usize = 0;
                while i < idx.len()
                    invariant
                        0 <= i <= idx@.len(),
                        forall|j: int| 0 <= j < idx@.len() ==> (#[trigger] idx@[j] as int) < v@.len(),
                        out@ =~= idx@.take(i as int).map_values(|k: u32| v@[k as int]),
                    decreases idx@.len() - i,
                {
                    let cell = match &v[idx[i] as usize] {
                        Some(s) => Some(s.clone()),
                        None => None,
                    };
                    assert(cell == v@[idx@[i as int] as int]);
                    out.push(cell);
                    i = i + 1;
                    assert(out@ =~= idx@.take(i as int).map_values(|k: u32| v@[k as int]));
                }
                assert(idx@.take(i as int) =~= idx@);
                assert(out@.map_values(|o: Option<String>| text_cell(o)) =~= idx@.map_values(
                    |k: u32| v@.map_values(|o: Option<String>| text_cell(o))[k as int],
                ));
                Column::Utf8(out)
            },
        }
    }

    /// The first `n` cells.
    pub fn prefix(&self, n: usize) -> (r: Column)
        requires
            n <= self.cells().len(),
        ensures
            r.cells() == self.cells().prefix(n as int),
    {
        match self {
            Column::Int64(v) => {
                let mut out: Vec<Option<i64>> = Vec::new();
                let mut i: usize = 0;
                while i < n
                    invariant
                        0 <= i <= n <= v@.len(),
                        out@ =~= v@.take(i as int),
                    decreases n - i,
                {
                    out.push(v[i]);
                    i = i + 1;
                }
                Column::Int64(out)
            },
            Column::Utf8(v) => {
                let mut out: Vec<Option<String>> = Vec::new();
                let mut i: usize = 0;
                while i < n
                    invariant
                        0 <= i <= n <= v@.len(),
                        out@ =~= v@.take(i as int),
                    decreases n - i,
                {
                    let cell = match &v[i] {
                        Some(s) => Some(s.clone()),
                        None => None,
                    };
                    assert(cell == v@[i as int]);
                    out.push(cell);
                    i = i + 1;
                }
                assert(out@.map_values(|o: Option<String>| text_cell(o)) =~= v@.map_values(
                    |o: Option<String>| text_cell(o),
                ).take(n as int));
                Column::Utf8(out)
            },
        }
    }
}

/// A chunk of rows: named columns of equal length.
#[derive(Debug, Clone, PartialEq, Eq)]
pub struct Batch {
    pub names: Vec<String>,
    pub columns: Vec<Column>,
    pub num_rows: usize,
}

/// A batch over plain values.
pub struct BatchView {
    pub names: Seq<Seq<char>>,
    pub columns: Seq<Cells>,
    pub rows: nat,
}

/// Position of the first `name` in `names` at or after `i`, or -1.
pub open spec fn name_index_from(names: Seq<Seq<char>>, name: Seq<char>, i: int) -> int
    decreases names.len() - i,
{
    if i < 0 || i >= names.len() {
        -1
    } else if names[i] == name {
        i
    } else {
        name_index_from(names, name, i + 1)
    }
}

/// Position of the first `name` in `names`, or -1.
pub open spec fn name_index(names: Seq<Seq<char>>, name: Seq<char>) -> int {
    name_index_from(names, name, 0)
}

impl BatchView {
    /// Every column holds one cell per row.
    pub open spec fn wf(self) -> bool {
        &&& self.names.len() == self.columns.len()
        &&& forall|j: int| 0 <= j < self.columns.len() ==> (#[trigger] self.columns[j]).len()
            == self.rows
    }

    /// Same column names and kinds.
    pub open spec fn same_schema(self, o: BatchView) -> bool {
        &&& self.names == o.names
        &&& self.columns.len() == o.columns.len()
        &&& forall|j: int| 0 <= j < self.columns.len() ==> (#[trigger] self.columns[j]).same_kind(
            o.columns[j],
        )
    }

    /// The rows at the given positions, in the order given.
    pub open spec fn take(self, idx: Seq<u32>) -> BatchView {
        BatchView {
            names: self.names,
            columns: self.columns.map_values(|c: Cells| c.take(idx)),
            rows: idx.len(),
        }
    }

    /// The first `n` rows.
    pub open spec fn prefix(self, n: nat) -> BatchView {
        BatchView {
            names: self.names,
            columns: self.columns.map_values(|c: Cells| c.prefix(n as int)),
            rows: n,
        }
    }

    /// These rows followed by those of a batch with the same schema.
    pub open spec fn append(self, o: BatchView) -> BatchView {
        BatchView {
            names: self.names,
            columns: Seq::new(self.columns.len(), |j: int| self.columns[j].append(o.columns[j])),
            rows: self.rows + o.rows,
        }
    }

    /// The named columns, in the order named; `None` if one is absent.
    pub open spec fn project(self, cols: Seq<Seq<char>>) -> Option<BatchView> {
        if forall|i: int| 0 <= i < cols.len() ==> self.names.contains(#[trigger] cols[i]) {
            Some(
                BatchView {
                    names: cols,
                    columns: cols.map_values(
                        |c: Seq<char>| self.columns[name_index(self.names, c)],
                    ),
                    rows: self.rows,
                },
            )
        } else {
            None
        }
    }
}

/// The cells of column `j` of the batches, one batch after another.
pub open spec fn concat_cells(bs: Seq<BatchView>, j: int) -> Cells
    decreases bs.len(),
{
    if bs.len() <= 1 {
        bs[0].columns[j]
    } else {
        concat_cells(bs.drop_last(), j).append(bs.last().columns[j])
    }
}

/// The number of rows of all the batches.
pub open spec fn total_rows(bs: Seq<BatchView>) -> nat
    decreases bs.len(),
{
    if bs.len() == 0 {
        0
    } else {
        total_rows(bs.drop_last()) + bs.last().rows
    }
}

/// The rows of the batches, one batch after another, under the first batch's names.
pub open spec fn concat_view(bs: Seq<BatchView>) -> BatchView {
    BatchView {
        names: bs[0].names,
        columns: Seq::new(bs[0].columns.len(), |j: int| concat_cells(bs, j)),
        rows: total_rows(bs),
    }
}

/// The batches are well formed and share the first one's schema.
pub open spec fn uniform(bs: Seq<BatchView>) -> bool {
    forall|k: int| 0 <= k < bs.len() ==> (#[trigger] bs[k]).wf() && bs[k].same_schema(bs[0])
}

pub open spec fn views_of(bs: Seq<Batch>) -> Seq<BatchView> {
    bs.map_values(|b: Batch| b.view())
}

/// The first name of `cols` that `names` lacks.
pub open spec fn first_absent(names: Seq<Seq<char>>, cols: Seq<Seq<char>>) -> Seq<char> {
    let i = choose|i: int|
        0 <= i < cols.len() && !names.contains(cols[i]) && forall|k: int|
            0 <= k < i ==> names.contains(#[trigger] cols[k]);
    cols[i]
}

impl Batch {
    pub open spec fn view(&self) -> BatchView {
        BatchView {
            names: names_of(self.names@),
            columns: self.columns@.map_values(|c: Column| c.cells()),
            rows: self.num_rows as nat,
        }
    }

    pub open spec fn wf(&self) -> bool {
        self.view().wf()
    }

    /// A batch from names and columns; `None` unless there is one name per
    /// column and all columns have the same length. No columns means no rows.
    pub fn new(names: Vec<String>, columns: Vec<Column>) -> (r: Option<Batch>)
        ensures
            match r {
                Some(b) => b.wf() && b.names@ == names@ && b.columns@ == columns@,
                None => !(names@.len() == columns@.len() && forall|j: int, k: int|
                    0 <= j < columns@.len() && 0 <= k < columns@.len()
                        ==> #[trigger] columns@[j].cells().len() == #[trigger] columns@[k].cells().len()),
            },
    {
        if names.len() != columns.len() {
            return None;
        }
        let rows = if columns.len() == 0 {
            0
        } else {
            columns[0].len()
        };
        let mut j: usize = 0;
        while j < columns.len()
            invariant
                0 <= j <= columns@.len(),
                columns@.len() > 0 ==> rows == columns@[0].cells().len(),
                forall|k: int| 0 <= k < j ==> (#[trigger] columns@[k]).cells().len() == rows,
            decreases columns@.len() - j,
        {
            if columns[j].len() != rows {
                return None;
            }
            j = j + 1;
        }
        let b = Batch { names, columns, num_rows: rows };
        assert(b.wf()) by {
            assert forall|k: int| 0 <= k < b.view().columns.len() implies (
            #[trigger] b.view().columns[k]).len() == b.view().rows by {
                assert(b.columns@[k].cells().len() == rows);
            }
        }
        Some(b)
    }

    pub fn num_rows(&self) -> (r: usize)
        ensures
            r == self.view().rows,
    {
        self.num_rows
    }

    /// Position of the first column called `name`.
    pub fn column_index(&self, name: &String) -> (r: Option<usize>)
        ensures
            match r {
                Some(i) => i as int == name_index(self.view().names, name@) && 0 <= i
                    < self.names@.len(),
                None => name_index(self.view().names, name@) == -1 && !self.view().names.contains(
                    name@,
                ),
            },
    {
        let ghost names = self.view().names;
        let mut i: usize = 0;
        while i < self.names.len()
            invariant
                0 <= i <= self.names@.len(),
                names == names_of(self.names@),
                name_index(names, name@) == name_index_from(names, name@, i as int),
                forall|k: int| 0 <= k < i ==> names[k] != name@,
            decreases self.names@.len() - i,
        {
            if self.names[i] == *name {
                return Some(i);
            }
            i = i + 1;
        }
        assert(!names.contains(name@)) by {
            assert forall|k: int| 0 <= k < names.len() implies names[k] != name@ by {}
        }
        None
    }

    /// The rows at the given positions, in the order given.
    pub fn take_rows(&self, idx: &Vec<u32>) -> (r: Batch)
        requires
            self.wf(),
            forall|i: int| 0 <= i < idx@.len() ==> (#[trigger] idx@[i] as int) < self.view().rows,
        ensures
            r.wf(),
            r.view() == self.view().take(idx@),
    {
        let mut cols: Vec<Column> = Vec::new();
        let mut j: usize = 0;
        while j < self.columns.len()
            invariant
                self.wf(),
                0 <= j <= self.columns@.len(),
                forall|i: int| 0 <= i < idx@.len() ==> (#[trigger] idx@[i] as int) < self.view().rows,
                cols@.len() == j,
                forall|k: int| 0 <= k < j ==> (#[trigger] cols@[k]).cells() == self.view().columns[k].take(idx@),
            decreases self.columns@.len() - j,
        {
            assert(self.view().columns[j as int] == self.columns@[j as int].cells());
            let c = self.columns[j].take(idx);
            cols.push(c);
            j = j + 1;
        }
        let r = Batch { names: self.names.clone(), columns: cols, num_rows: idx.len() };
        assert(r.view().names =~= self.view().names);
        assert(r.view().columns =~= self.view().take(idx@).columns);
        r
    }

    /// The first `n` rows.
    pub fn prefix(&self, n: usize) -> (r: Batch)
        requires
            self.wf(),
            n <= self.view().rows,
        ensures
            r.wf(),
            r.view() == self.view().prefix(n as nat),
    {
        let mut cols: Vec<Column> = Vec::new();
        let mut j: usize = 0;
        while j < self.columns.len()
            invariant
                self.wf(),
                n <= self.view().rows,
                0 <= j <= self.columns@.len(),
                cols@.len() == j,
                forall|k: int| 0 <= k < j ==> (#[trigger] cols@[k]).cells() == self.view().columns[k].prefix(n as int),
            decreases self.columns@.len() - j,
        {
            assert(self.view().columns[j as int] == self.columns@[j as int].cells());
            let c = self.columns[j].prefix(n);
            cols.push(c);
            j = j + 1;
        }
        let r = Batch { names: self.names.clone(), columns: cols, num_rows: n };
        assert(r.view().names =~= self.view().names);
        assert(r.view().columns =~= self.view().prefix(n as nat).columns);
        r
    }

    /// The named columns, in the order named.
    pub fn project(&self, cols: &[String]) -> (r: Result<Batch, ViewError>)
        requires
            self.wf(),
        ensures
            match r {
                Ok(b) => b.wf() && self.view().project(names_of(cols@)) == Some(b.view()),
                Err(e) => self.view().project(names_of(cols@)) is None && e.view()
                    == ErrorView::ColumnNotFound(first_absent(self.view().names, names_of(cols@))),
            },
    {
        let ghost want = names_of(cols@);
        let ghost names = self.view().names;
        let mut out_names: Vec<String> = Vec::new();
        let mut out_cols: Vec<Column> = Vec::new();
        let mut k: usize = 0;
        while k < cols.len()
            invariant
                self.wf(),
                want == names_of(cols@),
                names == self.view().names,
                0 <= k <= cols@.len(),
                out_names@.len() == k,
                out_cols@.len() == k,
                forall|i: int| 0 <= i < k ==> names.contains(#[trigger] want[i]),
                forall|i: int| 0 <= i < k ==> (#[trigger] out_names@[i])@ == want[i],
                forall|i: int|
                    0 <= i < k ==> (#[trigger] out_cols@[i]).cells() == self.view().columns[name_index(
                        names,
                        want[i],
                    )],
            decreases cols@.len() - k,
        {
            match self.column_index(&cols[k]) {
                Some(i) => {
                    assert(self.view().columns[i as int] == self.columns@[i as int].cells());
                    out_cols.push(self.columns[i].prefix(self.num_rows));
                    assert(self.columns@[i as int].cells().prefix(self.num_rows as int)
                        == self.columns@[i as int].cells()) by {
                        match self.columns@[i as int].cells() {
                            Cells::Int64(v) => {
                                assert(v.take(self.num_rows as int) =~= v);
                            },
                            Cells::Utf8(v) => {
                                assert(v.take(self.num_rows as int) =~= v);
                            },
                        }
                    }
                    out_names.push(cols[k].clone());
                    proof {
                        lemma_name_index_hit(names, want[k as int], 0);
                    }
                    assert(names[i as int] == want[k as int]);
                },
                None => {
                    let ghost fa = first_absent(names, want);
                    assert(0 <= k < want.len() && !names.contains(want[k as int]) && forall|q: int|
                        0 <= q < k ==> names.contains(#[trigger] want[q]));
                    assert forall|p: int|
                        0 <= p < want.len() && !names.contains(want[p]) && (forall|q: int|
                            0 <= q < p ==> names.contains(#[trigger] want[q])) implies p == k by {
                        if p < k {
                            assert(names.contains(want[p]));
                        } else if p > k {
                            assert(names.contains(want[k as int]));
                        }
                    }
                    return Err(ViewError::ColumnNotFound(cols[k].clone()));
                },
            }
            k = k + 1;
        }
        let r = Batch { names: out_names, columns: out_cols, num_rows: self.num_rows };
        assert(r.view().names =~= want);
        assert(r.view().columns =~= want.map_values(
            |c: Seq<char>| self.view().columns[name_index(names, c)],
        ));
        assert(r.wf()) by {
            assert forall|j: int| 0 <= j < r.view().columns.len() implies (
            #[trigger] r.view().columns[j]).len() == r.view().rows by {
                let ni = name_index(names, want[j]);
                assert(names.contains(want[j]));
                assert(0 <= ni < names.len()) by {
                    lemma_name_index_found(names, want[j], 0);
                }
            }
        }
        Ok(r)
    }
}

/// A found position holds the name.
pub proof fn lemma_name_index_hit(names: Seq<Seq<char>>, name: Seq<char>, i: int)
    requires
        0 <= i,
    ensures
        name_index_from(names, name, i) == -1 || (i <= name_index_from(names, name, i)
            < names.len() && names[name_index_from(names, name, i)] == name),
    decreases names.len() - i,
{
    if i < names.len() && names[i] != name {
        lemma_name_index_hit(names, name, i + 1);
    }
}

/// A name that `names` holds at or after `i` is found there.
pub proof fn lemma_name_index_found(names: Seq<Seq<char>>, name: Seq<char>, i: int)
    requires
        0 <= i,
        exists|k: int| i <= k < names.len() && names[k] == name,
    ensures
        i <= name_index_from(names, name, i) < names.len(),
        names[name_index_from(names, name, i)] == name,
    decreases names.len() - i,
{
    if names[i] != name {
        let k = choose|k: int| i <= k < names.len() && names[k] == name;
        assert(k != i);
        lemma_name_index_found(names, name, i + 1);
    }
}

/// Adding up the first batches gives no more than all of them.
pub proof fn lemma_total_rows_prefix(bs: Seq<BatchView>, k: int)
    requires
        0 <= k <= bs.len(),
    ensures
        total_rows(bs.take(k)) <= total_rows(bs),
        k < bs.len() ==> total_rows(bs.take(k + 1)) == total_rows(bs.take(k)) + bs[k].rows,
    decreases bs.len() - k,
{
    if k < bs.len() {
        assert(bs.take(k + 1).drop_last() =~= bs.take(k));
        lemma_total_rows_prefix(bs, k + 1);
    } else {
        assert(bs.take(k) =~= bs);
    }
}

/// Column `j` of every batch, one after another.
fn concat_column(bs: &Vec<Batch>, j: usize) -> (r: Column)
    requires
        bs@.len() > 0,
        uniform(views_of(bs@)),
        j < bs@[0].columns@.len(),
    ensures
        r.cells() == concat_cells(views_of(bs@), j as int),
{
    let ghost vs = views_of(bs@);
    assert(vs.take(bs@.len() as int) =~= vs);
    assert(vs[0].columns[j as int] == bs@[0].columns@[j as int].cells());
    match &bs[0].columns[j] {
        Column::Int64(_) => {
            let mut out: Vec<Option<i64>> = Vec::new();
            let mut k: usize = 0;
            while k < bs.len()
                invariant
                    vs == views_of(bs@),
                    uniform(vs),
                    j < vs[0].columns.len(),
                    vs[0].columns[j as int] is Int64,
                    0 <= k <= bs@.len(),
                    k == 0 ==> out@.len() == 0,
                    k > 0 ==> Cells::Int64(out@) == concat_cells(vs.take(k as int), j as int),
                decreases bs@.len() - k,
            {
                assert(vs[k as int].columns[j as int] == bs@[k as int].columns@[j as int].cells());
                assert(vs[k as int].columns[j as int].same_kind(vs[0].columns[j as int]));
                let ghost acc = out@;
                match &bs[k].columns[j] {
                    Column::Int64(v) => {
                        let mut i: usize = 0;
                        while i < v.len()
                            invariant
                                0 <= i <= v@.len(),
                                out@ =~= acc + v@.take(i as int),
                            decreases v@.len() - i,
                        {
                            out.push(v[i]);
                            i = i + 1;
                        }
                        assert(v@.take(i as int) =~= v@);
                    },
                    Column::Utf8(_) => {},
                }
                assert(vs.take(k + 1).drop_last() =~= vs.take(k as int));
                if k == 0 {
                    assert(acc + vs[0].columns[j as int]->Int64_0 =~= out@) by {
                        assert(acc.len() == 0);
                    }
                }
                k = k + 1;
            }
            Column::Int64(out)
        },
        Column::Utf8(_) => {
            let mut out: Vec<Option<String>> = Vec::new();
            let mut k: usize = 0;
            while k < bs.len()
                invariant
                    vs == views_of(bs@),
                    uniform(vs),
                    j < vs[0].columns.len(),
                    vs[0].columns[j as int] is Utf8,
                    0 <= k <= bs@.len(),
                    k == 0 ==> out@.len() == 0,
                    k > 0 ==> Cells::Utf8(out@.map_values(|o: Option<String>| text_cell(o)))
                        == concat_cells(vs.take(k as int), j as int),
                decreases bs@.len() - k,
            {
                assert(vs[k as int].columns[j as int] == bs@[k as int].columns@[j as int].cells());
                assert(vs[k as int].columns[j as int].same_kind(vs[0].columns[j as int]));
                let ghost acc = out@.map_values(|o: Option<String>| text_cell(o));
                match &bs[k].columns[j] {
                    Column::Utf8(v) => {
                        let mut i: usize = 0;
                        while i < v.len()
                            invariant
                                0 <= i <= v@.len(),
                                out@.map_values(|o: Option<String>| text_cell(o)) =~= acc + v@.take(
                                    i as int,
                                ).map_values(|o: Option<String>| text_cell(o)),
                            decreases v@.len() - i,
                        {
                            let cell = match &v[i] {
                                Some(s) => Some(s.clone()),
                                None => None,
                            };
                            assert(cell == v@[i as int]);
                            let ghost before = out@;
                            out.push(cell);
                            assert(out@ =~= before.push(cell));
                            assert(v@.take(i + 1) =~= v@.take(i as int).push(cell));
                            assert(out@.map_values(|o: Option<String>| text_cell(o))
                                =~= before.map_values(|o: Option<String>| text_cell(o)).push(
                                text_cell(cell),
                            ));
                            assert(v@.take(i + 1).map_values(|o: Option<String>| text_cell(o))
                                =~= v@.take(i as int).map_values(
                                |o: Option<String>| text_cell(o),
                            ).push(text_cell(cell)));
                            i = i + 1;
                        }
                        assert(v@.take(i as int) =~= v@);
                    },
                    Column::Int64(_) => {},
                }
                assert(vs.take(k + 1).drop_last() =~= vs.take(k as int));
                if k == 0 {
                    assert(acc + vs[0].columns[j as int]->Utf8_0 =~= out@.map_values(
                        |o: Option<String>| text_cell(o),
                    )) by {
                        assert(acc.len() == 0);
                    }
                }
                k = k + 1;
            }
            Column::Utf8(out)
        },
    }
}

/// The rows of the batches, one batch after another.
pub fn concat_batches(bs: &Vec<Batch>) -> (r: Batch)
    requires
        bs@.len() > 0,
        uniform(views_of(bs@)),
        total_rows(views_of(bs@)) <= usize::MAX,
    ensures
        r.wf(),
        r.view() == concat_view(views_of(bs@)),
{
    let ghost vs = views_of(bs@);
    let mut rows: usize = 0;
    let mut k: usize = 0;
    while k < bs.len()
        invariant
            vs == views_of(bs@),
            0 <= k <= bs@.len(),
            total_rows(vs) <= usize::MAX,
            rows == total_rows(vs.take(k as int)),
        decreases bs@.len() - k,
    {
        proof {
            lemma_total_rows_prefix(vs, k as int);
            lemma_total_rows_prefix(vs, k + 1);
        }
        rows = rows + bs[k].num_rows;
        k = k + 1;
    }
    assert(vs.take(k as int) =~= vs);
    let mut cols: Vec<Column> = Vec::new();
    let mut j: usize = 0;
    assert(vs[0].wf());
    while j < bs[0].columns.len()
        invariant
            vs == views_of(bs@),
            bs@.len() > 0,
            uniform(vs),
            0 <= j <= bs@[0].columns@.len(),
            cols@.len() == j,
            forall|i: int| 0 <= i < j ==> (#[trigger] cols@[i]).cells() == concat_cells(vs, i),
        decreases bs@[0].columns@.len() - j,
    {
        cols.push(concat_column(bs, j));
        j = j + 1;
    }
    let r = Batch { names: bs[0].names.clone(), columns: cols, num_rows: rows };
    assert(r.view().names =~= vs[0].names);
    assert(r.view().columns =~= concat_view(vs).columns);
    assert(r.wf()) by {
        assert forall|i: int| 0 <= i < r.view().columns.len() implies (
        #[trigger] r.view().columns[i]).len() == r.view().rows by {
            lemma_concat_cells_len(vs, i);
        }
    }
    r
}

/// Concatenated cells hold every batch's rows.
pub proof fn lemma_concat_cells_len(bs: Seq<BatchView>, j: int)
    requires
        bs.len() > 0,
        uniform(bs),
        0 <= j < bs[0].columns.len(),
    ensures
        concat_cells(bs, j).len() == total_rows(bs),
        concat_cells(bs, j).same_kind(bs[0].columns[j]),
    decreases bs.len(),
{
    if bs.len() > 1 {
        let d = bs.drop_last();
        assert(uniform(d)) by {
            assert forall|k: int| 0 <= k < d.len() implies (#[trigger] d[k]).wf() && d[k].same_schema(
                d[0],
            ) by {
                assert(d[k] == bs[k]);
            }
        }
        lemma_concat_cells_len(d, j);
        assert(bs.last() == bs[bs.len() - 1]);
        assert(bs[bs.len() - 1].wf());
        assert(bs[bs.len() - 1].columns[j].same_kind(bs[0].columns[j]));
        assert(d[0] == bs[0]);
        let a = concat_cells(d, j);
        let b = bs.last().columns[j];
        assert(a.append(b).len() == a.len() + b.len()) by {
            match (a, b) {
                (Cells::Int64(x), Cells::Int64(y)) => {},
                (Cells::Utf8(x), Cells::Utf8(y)) => {},
                _ => {},
            }
        }
    } else {
        assert(bs[0].wf());
        assert(bs.drop_last().len() == 0);
        assert(total_rows(bs.drop_last()) == 0);
    }
}

} // verus!
