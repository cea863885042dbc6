use vstd::prelude::*;
use crate::error::{ErrorView, ViewError};
use crate::reader::FileType;
use crate::engine::selection_view;
use crate::sort::{
    names_of, parse_sort_specs, parse_tokens, should_use_topk, specs_view, validate_sort_columns,
    validation, SortSpec, SpecView, TOPK_LIMIT_THRESHOLD,
};

verus! {

/// Which engine answers a sorted view.
#[derive(Debug, Clone, Copy, PartialEq, Eq)]
pub enum SortPath {
    /// Per-batch sort and truncate of the materialized source.
    TopK,
    /// A whole-source sort plan run by an engine that reads the file itself.
    PlanSort,
    /// The chunked sort over a source read batch by batch.
    ChunkedSort,
}

/// How a view request is answered.
#[derive(Debug)]
pub enum ViewPlan {
    /// No sort tokens: rows in file order.
    Unsorted,
    /// The parsed keys and the engine that sorts by them.
    Sorted { specs: Vec<SortSpec>, path: SortPath },
}

/// The engine for parsed keys: top-k for a small limit on one key, else a
/// whole-source sort, planned for Parquet and chunked for ORC.
pub open spec fn sort_path_for(file_type: FileType, limit: nat, n_specs: nat) -> SortPath {
    if limit < TOPK_LIMIT_THRESHOLD && n_specs == 1 {
        SortPath::TopK
    } else {
        match file_type {
            FileType::Parquet => SortPath::PlanSort,
            FileType::Orc => SortPath::ChunkedSort,
        }
    }
}

/// How a sorted view is answered: the tokens parsed (the first bad one is
/// the error), the keys checked against the file's columns and the
/// projection, then an engine chosen once for the query.
pub open spec fn sorted_view_plan(
    file_type: FileType,
    limit: nat,
    args: Seq<Seq<char>>,
    sel: Option<Seq<Seq<char>>>,
    all: Seq<Seq<char>>,
) -> Result<(Seq<SpecView>, SortPath), ErrorView> {
    match parse_tokens(args) {
        Err(e) => Err(e),
        Ok(specs) => match validation(specs, sel, all) {
            Err(e) => Err(e),
            Ok(_) => Ok((specs, sort_path_for(file_type, limit, specs.len()))),
        },
    }
}

/// Decides how to answer a view of a file with columns `all_columns`:
/// unsorted without sort tokens, else as `sorted_view_plan` says.
pub fn plan_view(
    file_type: FileType,
    limit: usize,
    sort: &Option<Vec<String>>,
    selected_columns: Option<&[String]>,
    all_columns: &[String],
) -> (r: Result<ViewPlan, ViewError>)
    ensures
        match sort {
            None => r matches Ok(ViewPlan::Unsorted),
            Some(args) => if args@.len() == 0 {
                r matches Ok(ViewPlan::Unsorted)
            } else {
                match r {
                    Ok(ViewPlan::Sorted { specs, path }) => sorted_view_plan(
                        file_type,
                        limit as nat,
                        names_of(args@),
                        selection_view(selected_columns),
                        names_of(all_columns@),
                    ) == Ok::<(Seq<SpecView>, SortPath), ErrorView>((specs_view(specs@), path)),
                    Ok(ViewPlan::Unsorted) => false,
                    Err(e) => sorted_view_plan(
                        file_type,
                        limit as nat,
                        names_of(args@),
                        selection_view(selected_columns),
                        names_of(all_columns@),
                    ) == Err::<(Seq<SpecView>, SortPath), ErrorView>(e.view()),
                }
            },
        },
{
    match sort {
        None => Ok(ViewPlan::Unsorted),
        Some(args) => {
            if args.len() == 0 {
                return Ok(ViewPlan::Unsorted);
            }
            let specs = match parse_sort_specs(args.as_slice()) {
                Ok(s) => s,
                Err(e) => return Err(e),
            };
            match validate_sort_columns(specs.as_slice(), selected_columns, all_columns) {
                Ok(_) => {},
                Err(e) => return Err(e),
            }
            let path = if should_use_topk(limit, specs.as_slice()) {
                SortPath::TopK
            } else {
                match file_type {
                    FileType::Parquet => SortPath::PlanSort,
                    FileType::Orc => SortPath::ChunkedSort,
                }
            };
            Ok(ViewPlan::Sorted { specs, path })
        },
    }
}

} // verus!
