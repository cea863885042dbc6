use vstd::prelude::*;
use vstd::string::*;
use crate::error::{ErrorView, ViewError};

verus! {

/// One sort key: a column and its direction.
#[derive(Debug, Clone, PartialEq, Eq)]
pub struct SortSpec {
    pub column: String,
    pub ascending: bool,
}

/// A sort key over plain text.
pub struct SpecView {
    pub column: Seq<char>,
    pub ascending: bool,
}

impl SortSpec {
    pub open spec fn view(&self) -> SpecView {
        SpecView { column: self.column@, ascending: self.ascending }
    }
}

/// `c` is `l` itself or its ASCII upper-case form; `l` is a lower-case ASCII letter.
pub open spec fn folds_to_char(c: char, l: char) -> bool {
    c == l || (c as u32) + 32 == (l as u32)
}

/// `w` spells the lower-case ASCII word `word`, ignoring ASCII case.
pub open spec fn folds_to(w: Seq<char>, word: Seq<char>) -> bool {
    &&& w.len() == word.len()
    &&& forall|i: int| 0 <= i < w.len() ==> folds_to_char(#[trigger] w[i], word[i])
}

pub open spec fn word_asc() -> Seq<char> {
    seq!['a', 's', 'c']
}

pub open spec fn word_ascending() -> Seq<char> {
    seq!['a', 's', 'c', 'e', 'n', 'd', 'i', 'n', 'g']
}

pub open spec fn word_desc() -> Seq<char> {
    seq!['d', 'e', 's', 'c']
}

pub open spec fn word_descending() -> Seq<char> {
    seq!['d', 'e', 's', 'c', 'e', 'n', 'd', 'i', 'n', 'g']
}

/// The direction an order word names: `Some(true)` for ascending,
/// `Some(false)` for descending, `None` for anything else.
pub open spec fn order_word(w: Seq<char>) -> Option<bool> {
    if folds_to(w, word_asc()) || folds_to(w, word_ascending()) {
        Some(true)
    } else if folds_to(w, word_desc()) || folds_to(w, word_descending()) {
        Some(false)
    } else {
        None
    }
}

/// `p` is the position of the first `:` in `t`.
pub open spec fn first_colon_at(t: Seq<char>, p: int) -> bool {
    &&& 0 <= p < t.len()
    &&& t[p] == ':'
    &&& forall|q: int| 0 <= q < p ==> t[q] != ':'
}

pub open spec fn has_colon(t: Seq<char>) -> bool {
    exists|p: int| 0 <= p < t.len() && t[p] == ':'
}

/// The meaning of one sort token `t`:
/// empty is rejected; a trailing `+` or `-` gives the direction of the rest;
/// otherwise `col:order` splits at the first colon and the order word decides;
/// a bare column sorts ascending.
pub open spec fn parse_token(t: Seq<char>) -> Result<SpecView, ErrorView> {
    if t.len() == 0 {
        Err(ErrorView::EmptySortSpec)
    } else if t.last() == '+' {
        Ok(SpecView { column: t.drop_last(), ascending: true })
    } else if t.last() == '-' {
        Ok(SpecView { column: t.drop_last(), ascending: false })
    } else if has_colon(t) {
        let p = choose|p: int| first_colon_at(t, p);
        let order = t.subrange(p + 1, t.len() as int);
        match order_word(order) {
            Some(asc) => Ok(SpecView { column: t.subrange(0, p), ascending: asc }),
            None => Err(ErrorView::InvalidSortOrder(order)),
        }
    } else {
        Ok(SpecView { column: t, ascending: true })
    }
}

/// The meaning of a list of tokens: each parsed in order, the first
/// rejected one deciding the error.
pub open spec fn parse_tokens(ts: Seq<Seq<char>>) -> Result<Seq<SpecView>, ErrorView>
    decreases ts.len(),
{
    if ts.len() == 0 {
        Ok(Seq::empty())
    } else {
        match parse_token(ts[0]) {
            Err(e) => Err(e),
            Ok(s) => match parse_tokens(ts.drop_first()) {
                Err(e) => Err(e),
                Ok(rest) => Ok(seq![s] + rest),
            },
        }
    }
}

pub open spec fn spec_result_view(r: Result<SortSpec, ViewError>) -> Result<SpecView, ErrorView> {
    match r {
        Ok(s) => Ok(s.view()),
        Err(e) => Err(e.view()),
    }
}

pub open spec fn specs_view(s: Seq<SortSpec>) -> Seq<SpecView> {
    s.map_values(|x: SortSpec| x.view())
}

/// Whether `w` spells `word` ignoring ASCII case.
fn folds_to_word(w: &str, word: &[char]) -> (r: bool)
    requires
        forall|i: int| 0 <= i < word@.len() ==> 'a' <= #[trigger] word@[i] <= 'z',
    ensures
        r == folds_to(w@, word@),
{
    let n = w.unicode_len();
    if n != word.len() {
        return false;
    }
    let mut i: usize = 0;
    while i < n
        invariant
            n == w@.len(),
            n == word@.len(),
            0 <= i <= n,
            forall|j: int| 0 <= j < i ==> folds_to_char(#[trigger] w@[j], word@[j]),
        decreases n - i,
    {
        let c = w.get_char(i);
        let l = word[i];
        if !(c == l || (c as u32) + 32 == (l as u32)) {
            return false;
        }
        i = i + 1;
    }
    true
}

/// The direction named by an order word, ignoring ASCII case.
fn order_of_word(w: &str) -> (r: Option<bool>)
    ensures
        r == order_word(w@),
{
    let asc: [char; 3] = ['a', 's', 'c'];
    let ascending: [char; 9] = ['a', 's', 'c', 'e', 'n', 'd', 'i', 'n', 'g'];
    let desc: [char; 4] = ['d', 'e', 's', 'c'];
    let descending: [char; 10] = ['d', 'e', 's', 'c', 'e', 'n', 'd', 'i', 'n', 'g'];
    assert(asc@ == word_asc());
    assert(ascending@ == word_ascending());
    assert(desc@ == word_desc());
    assert(descending@ == word_descending());
    if folds_to_word(w, &asc) || folds_to_word(w, &ascending) {
        Some(true)
    } else if folds_to_word(w, &desc) || folds_to_word(w, &descending) {
        Some(false)
    } else {
        None
    }
}

/// Parses one sort token (see `parse_token`).
pub fn parse_single_sort_spec(spec: &str) -> (r: Result<SortSpec, ViewError>)
    ensures
        spec_result_view(r) == parse_token(spec@),
{
    let n = spec.unicode_len();
    if n == 0 {
        return Err(ViewError::EmptySortSpec);
    }
    let last = spec.get_char(n - 1);
    if last == '+' {
        let column = String::from_str(spec.substring_char(0, n - 1));
        return Ok(SortSpec { column, ascending: true });
    }
    if last == '-' {
        let column = String::from_str(spec.substring_char(0, n - 1));
        return Ok(SortSpec { column, ascending: false });
    }
    let mut p: usize = 0;
    while p < n
        invariant
            n == spec@.len(),
            0 <= p <= n,
            n > 0,
            spec@.last() != '+',
            spec@.last() != '-',
            forall|q: int| 0 <= q < p ==> spec@[q] != ':',
        decreases n - p,
    {
        if spec.get_char(p) == ':' {
            let order = spec.substring_char(p + 1, n);
            assert(first_colon_at(spec@, p as int));
            assert(spec@[p as int] == ':');
            assert(has_colon(spec@));
            let column = String::from_str(spec.substring_char(0, p));
            let r = match order_of_word(order) {
                Some(ascending) => Ok(SortSpec { column, ascending }),
                None => Err(ViewError::InvalidSortOrder(String::from_str(order))),
            };
            assert forall|q: int| #[trigger] first_colon_at(spec@, q) implies q == p by {
                if q < p {
                } else if q > p {
                    assert(spec@[p as int] == ':');
                }
            }
            return r;
        }
        p = p + 1;
    }
    assert(!has_colon(spec@));
    Ok(SortSpec { column: String::from_str(spec), ascending: true })
}

} // verus!

verus! {

/// The column names of a list of strings.
pub open spec fn names_of(s: Seq<String>) -> Seq<Seq<char>> {
    s.map_values(|x: String| x@)
}

/// Parses each token in order; the first rejected token decides the error.
pub fn parse_sort_specs(sort_args: &[String]) -> (r: Result<Vec<SortSpec>, ViewError>)
    ensures
        match r {
            Ok(v) => parse_tokens(names_of(sort_args@)) == Ok::<Seq<SpecView>, ErrorView>(
                specs_view(v@),
            ) && v@.len() == sort_args@.len(),
            Err(e) => parse_tokens(names_of(sort_args@)) == Err::<Seq<SpecView>, ErrorView>(
                e.view(),
            ),
        },
{
    let ghost all = names_of(sort_args@);
    let mut specs: Vec<SortSpec> = Vec::new();
    let mut i: usize = 0;
    assert(all.subrange(0, all.len() as int) =~= all);
    proof {
        match parse_tokens(all) {
            Ok(rest) => {
                assert(specs_view(specs@) + rest =~= rest);
            },
            Err(e) => {},
        }
    }
    while i < sort_args.len()
        invariant
            0 <= i <= sort_args@.len(),
            specs@.len() == i,
            all == names_of(sort_args@),
            parse_tokens(all) == match parse_tokens(all.subrange(i as int, all.len() as int)) {
                Ok(rest) => Ok(specs_view(specs@) + rest),
                Err(e) => Err(e),
            },
        decreases sort_args@.len() - i,
    {
        let ghost tail = all.subrange(i as int, all.len() as int);
        assert(tail[0] == sort_args@[i as int]@);
        assert(tail.drop_first() =~= all.subrange(i + 1, all.len() as int));
        match parse_single_sort_spec(sort_args[i].as_str()) {
            Ok(s) => {
                let ghost old_specs = specs@;
                specs.push(s);
                assert(specs_view(specs@) =~= specs_view(old_specs) + seq![s.view()]);
                proof {
                    match parse_tokens(all.subrange(i + 1, all.len() as int)) {
                        Ok(rest) => {
                            assert(specs_view(old_specs) + (seq![s.view()] + rest) =~= specs_view(
                                specs@,
                            ) + rest);
                        },
                        Err(e) => {},
                    }
                }
            },
            Err(e) => {
                return Err(e);
            },
        }
        i = i + 1;
    }
    assert(all.subrange(i as int, all.len() as int) =~= Seq::<Seq<char>>::empty());
    assert(specs_view(specs@) + Seq::<SpecView>::empty() =~= specs_view(specs@));
    Ok(specs)
}


/// The outcome of checking `specs[i..]` against the schema `all` and the
/// optional projection `sel`.
pub open spec fn validation_from(
    specs: Seq<SpecView>,
    sel: Option<Seq<Seq<char>>>,
    all: Seq<Seq<char>>,
    i: int,
) -> Result<(), ErrorView>
    decreases specs.len() - i,
{
    if i < 0 || i >= specs.len() {
        Ok(())
    } else if !all.contains(specs[i].column) {
        Err(ErrorView::ColumnNotFound(specs[i].column))
    } else if sel matches Some(cols) && !cols.contains(specs[i].column) {
        Err(ErrorView::SortColumnNotInSelection(specs[i].column))
    } else {
        validation_from(specs, sel, all, i + 1)
    }
}

pub open spec fn spec_unit_view(r: Result<(), ViewError>) -> Result<(), ErrorView> {
    match r {
        Ok(_) => Ok(()),
        Err(e) => Err(e.view()),
    }
}

/// Every sort column must be in the schema and, when a projection is given,
/// in the projection; the first spec that fails decides the error.
pub open spec fn validation(
    specs: Seq<SpecView>,
    sel: Option<Seq<Seq<char>>>,
    all: Seq<Seq<char>>,
) -> Result<(), ErrorView> {
    validation_from(specs, sel, all, 0)
}

fn contains_name(names: &[String], name: &String) -> (r: bool)
    ensures
        r == names_of(names@).contains(name@),
{
    let mut i: usize = 0;
    while i < names.len()
        invariant
            0 <= i <= names@.len(),
            forall|j: int| 0 <= j < i ==> names@[j]@ != name@,
        decreases names@.len() - i,
    {
        if names[i] == *name {
            assert(names_of(names@)[i as int] == name@);
            return true;
        }
        i = i + 1;
    }
    assert(!names_of(names@).contains(name@)) by {
        assert forall|j: int| 0 <= j < names_of(names@).len() implies names_of(names@)[j]
            != name@ by {
            assert(names@[j]@ != name@);
        }
    }
    false
}

/// Checks the sort columns against the schema and the projection.
pub fn validate_sort_columns(
    sort_specs: &[SortSpec],
    selected_columns: Option<&[String]>,
    all_columns: &[String],
) -> (r: Result<(), ViewError>)
    ensures
        spec_unit_view(r) == validation(
            specs_view(sort_specs@),
            match selected_columns {
                Some(c) => Some(names_of(c@)),
                None => None,
            },
            names_of(all_columns@),
        ),
{
    let ghost sel = match selected_columns {
        Some(c) => Some(names_of(c@)),
        None => None::<Seq<Seq<char>>>,
    };
    let ghost all = names_of(all_columns@);
    let mut i: usize = 0;
    while i < sort_specs.len()
        invariant
            0 <= i <= sort_specs@.len(),
            all == names_of(all_columns@),
            sel == match selected_columns {
                Some(c) => Some(names_of(c@)),
                None => None::<Seq<Seq<char>>>,
            },
            validation(specs_view(sort_specs@), sel, all) == validation_from(
                specs_view(sort_specs@),
                sel,
                all,
                i as int,
            ),
        decreases sort_specs@.len() - i,
    {
        let spec = &sort_specs[i];
        if !contains_name(all_columns, &spec.column) {
            let c = spec.column.clone();
            return Err(ViewError::ColumnNotFound(c));
        }
        match selected_columns {
            Some(cols) => {
                if !contains_name(cols, &spec.column) {
                    return Err(ViewError::SortColumnNotInSelection(spec.column.clone()));
                }
            },
            None => {},
        }
        i = i + 1;
    }
    Ok(())
}

/// How a sorted query is answered.
#[derive(Debug, Clone, Copy, PartialEq, Eq)]
pub enum StrategyDecision {
    /// Per-batch sort and truncate in memory.
    TopK,
    /// A genuine sort of the whole source followed by the limit.
    External,
}

/// Limits below this count as small enough for the top-k path.
pub const TOPK_LIMIT_THRESHOLD: usize = 1000;

/// The cheap path pays only for a small limit on exactly one sort key.
/// A limit of 0 counts as small here.
pub fn should_use_topk(limit: usize, sort_specs: &[SortSpec]) -> (r: bool)
    ensures
        r == (limit < TOPK_LIMIT_THRESHOLD && sort_specs@.len() == 1),
{
    limit < TOPK_LIMIT_THRESHOLD && sort_specs.len() == 1
}

/// Picks the strategy for a query, once.
pub fn select_strategy(limit: usize, sort_specs: &[SortSpec]) -> (r: StrategyDecision)
    ensures
        r == (if limit < TOPK_LIMIT_THRESHOLD && sort_specs@.len() == 1 {
            StrategyDecision::TopK
        } else {
            StrategyDecision::External
        }),
{
    if should_use_topk(limit, sort_specs) {
        StrategyDecision::TopK
    } else {
        StrategyDecision::External
    }
}

/// The spellings of one direction agree: for a plain column name `c`,
/// `c-` and `c:desc` parse to the same key, and so do `c`, `c+` and `c:asc`.
pub proof fn lemma_direction_spellings_agree(c: Seq<char>)
    requires
        c.len() > 0,
        !has_colon(c),
        c.last() != '+',
        c.last() != '-',
    ensures
        parse_token(c.push('-')) == parse_token(c + seq![':', 'd', 'e', 's', 'c']),
        parse_token(c.push('-')) == Ok::<SpecView, ErrorView>(
            SpecView { column: c, ascending: false },
        ),
        parse_token(c) == parse_token(c.push('+')),
        parse_token(c) == parse_token(c + seq![':', 'a', 's', 'c']),
        parse_token(c) == Ok::<SpecView, ErrorView>(SpecView { column: c, ascending: true }),
{
    let n = c.len() as int;
    assert(c.push('-').drop_last() =~= c);
    assert(c.push('+').drop_last() =~= c);
    let td = c + seq![':', 'd', 'e', 's', 'c'];
    let ta = c + seq![':', 'a', 's', 'c'];
    assert(td[n] == ':');
    assert(ta[n] == ':');
    assert(first_colon_at(td, n));
    assert(first_colon_at(ta, n));
    assert forall|q: int| #[trigger] first_colon_at(td, q) implies q == n by {
        if q > n {
            assert(td[n] == ':');
        }
    }
    assert forall|q: int| #[trigger] first_colon_at(ta, q) implies q == n by {
        if q > n {
            assert(ta[n] == ':');
        }
    }
    assert(td.subrange(0, n) =~= c);
    assert(ta.subrange(0, n) =~= c);
    assert(td.subrange(n + 1, td.len() as int) =~= word_desc());
    assert(ta.subrange(n + 1, ta.len() as int) =~= word_asc());
    assert(folds_to(word_desc(), word_desc()));
    assert(folds_to(word_asc(), word_asc()));
    assert(!folds_to(word_desc(), word_asc()));
    assert(!folds_to(word_desc(), word_ascending()));
    assert(has_colon(td));
    assert(has_colon(ta));
}

} // verus!
