use vstd::prelude::*;
use std::sync::Arc;
use arrow::array::{ArrayRef, Int64Array, LargeStringArray};
use arrow::compute::{lexsort_to_indices, SortColumn};
use arrow::error::ArrowError;
use arrow_schema::SortOptions;
use crate::batch::{Cells, Column};

verus! {

#[verifier::external_type_specification]
#[verifier::external_body]
pub struct ExArrowError(ArrowError);

/// One key of a multi-key sort: its values and how they order.
pub struct SortKey {
    pub column: Column,
    pub descending: bool,
    pub nulls_first: bool,
}

/// A sort key over plain values.
pub struct KeyView {
    pub cells: Cells,
    pub descending: bool,
    pub nulls_first: bool,
}

impl SortKey {
    pub open spec fn view(&self) -> KeyView {
        KeyView {
            cells: self.column.cells(),
            descending: self.descending,
            nulls_first: self.nulls_first,
        }
    }
}

pub open spec fn keys_view(ks: Seq<SortKey>) -> Seq<KeyView> {
    ks.map_values(|k: SortKey| k.view())
}

/// `a` comes strictly before `b` in code-point order (for UTF-8 text this
/// is also the order of the bytes).
pub open spec fn text_lt(a: Seq<char>, b: Seq<char>) -> bool
    decreases a.len(),
{
    if a.len() == 0 {
        b.len() > 0
    } else if b.len() == 0 {
        false
    } else if a[0] == b[0] {
        text_lt(a.drop_first(), b.drop_first())
    } else {
        (a[0] as u32) < (b[0] as u32)
    }
}

pub open spec fn cell_is_null(c: Cells, i: int) -> bool {
    match c {
        Cells::Int64(v) => v[i] is None,
        Cells::Utf8(v) => v[i] is None,
    }
}

/// The value in row `i` is smaller than the value in row `j`; both are non-null.
pub open spec fn value_lt(c: Cells, i: int, j: int) -> bool {
    match c {
        Cells::Int64(v) => v[i]->Some_0 < v[j]->Some_0,
        Cells::Utf8(v) => text_lt(v[i]->Some_0, v[j]->Some_0),
    }
}

/// Rows `i` and `j` tie on the key: both null, or the same value.
pub open spec fn key_tie(k: KeyView, i: int, j: int) -> bool {
    match k.cells {
        Cells::Int64(v) => v[i] == v[j],
        Cells::Utf8(v) => v[i] == v[j],
    }
}

/// Row `i` goes strictly before row `j` on the key: a null goes first or
/// last as `nulls_first` says, whatever the direction; values go in their
/// order, reversed when descending.
pub open spec fn key_before(k: KeyView, i: int, j: int) -> bool {
    let ni = cell_is_null(k.cells, i);
    let nj = cell_is_null(k.cells, j);
    if ni && nj {
        false
    } else if ni {
        k.nulls_first
    } else if nj {
        !k.nulls_first
    } else if k.descending {
        value_lt(k.cells, j, i)
    } else {
        value_lt(k.cells, i, j)
    }
}

/// Row `i` may go before row `j` under the keys from `t` on: the first
/// key on which they do not tie decides.
pub open spec fn rows_in_order(keys: Seq<KeyView>, t: int, i: int, j: int) -> bool
    decreases keys.len() - t,
{
    if t < 0 || t >= keys.len() {
        true
    } else if key_tie(keys[t], i, j) {
        rows_in_order(keys, t + 1, i, j)
    } else {
        key_before(keys[t], i, j)
    }
}

/// `idx` lists each row of the keys once, in the keys' order.
pub open spec fn is_sorted_permutation(keys: Seq<KeyView>, idx: Seq<u32>) -> bool {
    let n = keys[0].cells.len();
    &&& idx.len() == n
    &&& forall|a: int| 0 <= a < idx.len() ==> (#[trigger] idx[a] as int) < n
    &&& forall|a: int, b: int| 0 <= a < b < idx.len() ==> idx[a] != idx[b]
    &&& forall|a: int|
        0 <= a < idx.len() - 1 ==> rows_in_order(keys, 0, #[trigger] idx[a] as int, idx[a + 1] as int)
}

/// The row order that arrow's lexicographic sort gives for these keys.
pub uninterp spec fn lexsort_order(keys: Seq<KeyView>) -> Seq<u32>;

/// Relies on `arrow::compute::lexsort_to_indices` (no limit): it returns
/// every row index once, ordered by the keys in turn, each with its own
/// direction and null placement. It fails only for no columns, columns of
/// unequal length or an unsupported type, which the requirements and the
/// Int64 / LargeUtf8 arrays rule out. The result is a function of the keys.
/// Text goes in as a `LargeStringArray`, whose 64-bit offsets cannot overflow.
#[verifier::external_body]
pub(crate) fn lexsort_indices(keys: &Vec<SortKey>) -> (r: Result<Vec<u32>, ArrowError>)
    requires
        keys@.len() > 0,
        forall|k: int|
            0 <= k < keys@.len() ==> (#[trigger] keys@[k]).column.cells().len()
                == keys@[0].column.cells().len(),
        keys@[0].column.cells().len() <= u32::MAX,
    ensures
        r is Ok,
        r matches Ok(idx) ==> idx@ == lexsort_order(keys_view(keys@)) && is_sorted_permutation(
            keys_view(keys@),
            idx@,
        ),
{
    let cols: Vec<SortColumn> = keys.iter().map(|k| SortColumn {
        values: match &k.column {
            Column::Int64(v) => Arc::new(Int64Array::from(v.clone())) as ArrayRef,
            Column::Utf8(v) => Arc::new(LargeStringArray::from(v.clone())) as ArrayRef,
        },
        options: Some(SortOptions { descending: k.descending, nulls_first: k.nulls_first }),
    }).collect();
    lexsort_to_indices(&cols, None).map(|a| a.values().to_vec())
}

} // verus!
