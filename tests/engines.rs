use colview::batch::{Batch, Column};
use colview::chunked::{chunked_external_sort, ChunkedSort};
use colview::engine::{apply_topk_sorting, build_sort_plan, execute_sort_plan, top_k_of_batch};
use colview::error::ViewError;
use colview::limit::{limit_step, truncate_batches, LimitStep};
use colview::reader::FileType;
use colview::sort::{parse_sort_specs, SortSpec};
use colview::view::{plan_view, SortPath, ViewPlan};

fn strings(v: &[&str]) -> Vec<String> {
    v.iter().map(|s| s.to_string()).collect()
}

fn batch(names: &[&str], columns: Vec<Column>) -> Batch {
    Batch::new(strings(names), columns).unwrap()
}

fn ints(b: &Batch, j: usize) -> Vec<Option<i64>> {
    match &b.columns[j] {
        Column::Int64(v) => v.clone(),
        Column::Utf8(_) => panic!("not an integer column"),
    }
}

fn texts(b: &Batch, j: usize) -> Vec<Option<String>> {
    match &b.columns[j] {
        Column::Utf8(v) => v.clone(),
        Column::Int64(_) => panic!("not a text column"),
    }
}

fn int_batch(name: &str, values: Vec<Option<i64>>) -> Batch {
    batch(&[name], vec![Column::Int64(values)])
}

fn spec(column: &str, ascending: bool) -> SortSpec {
    SortSpec { column: column.to_string(), ascending }
}

fn total_rows(bs: &[Batch]) -> usize {
    bs.iter().map(|b| b.num_rows).sum()
}

#[test]
fn top_five_by_age_descending() {
    let ids: Vec<Option<i64>> = (0..1000).map(Some).collect();
    let ages: Vec<Option<i64>> = (0..1000).map(|i| Some((i * 37) % 1000)).collect();
    let source = batch(&["id", "age"], vec![Column::Int64(ids), Column::Int64(ages)]);
    let args = strings(&["age-"]);
    match plan_view(FileType::Parquet, 5, &Some(args.clone()), None, &strings(&["id", "age"])).unwrap() {
        ViewPlan::Sorted { path, .. } => assert_eq!(path, SortPath::TopK),
        ViewPlan::Unsorted => panic!("expected a sorted view"),
    }
    let out = apply_topk_sorting(vec![source], &args, None, 5).unwrap();
    let out = truncate_batches(out, 5);
    assert_eq!(out.len(), 1);
    assert_eq!(ints(&out[0], 1), vec![Some(999), Some(998), Some(997), Some(996), Some(995)]);
    for (id, age) in ints(&out[0], 0).iter().zip(ints(&out[0], 1).iter()) {
        assert_eq!((id.unwrap() * 37) % 1000, age.unwrap());
    }
}

fn two_key_source() -> Batch {
    let a: Vec<Option<i64>> = (0..200).map(|i| Some(i % 10)).collect();
    let b: Vec<Option<i64>> = (0..200).map(Some).collect();
    batch(&["a", "b"], vec![Column::Int64(a), Column::Int64(b)])
}

fn expected_two_key_rows() -> Vec<(i64, i64)> {
    let mut rows: Vec<(i64, i64)> = (0..200).map(|i| (i % 10, i)).collect();
    rows.sort_by(|x, y| x.0.cmp(&y.0).then(y.1.cmp(&x.1)));
    rows.truncate(50);
    rows
}

fn rows_of(b: &Batch) -> Vec<(i64, i64)> {
    ints(b, 0).iter().zip(ints(b, 1).iter()).map(|(a, b)| (a.unwrap(), b.unwrap())).collect()
}

#[test]
fn two_keys_take_the_external_path() {
    let args = strings(&["a", "b:desc"]);
    match plan_view(FileType::Parquet, 50, &Some(args.clone()), None, &strings(&["a", "b"])).unwrap() {
        ViewPlan::Sorted { specs, path } => {
            assert_eq!(path, SortPath::PlanSort);
            assert_eq!(specs.len(), 2);
        },
        ViewPlan::Unsorted => panic!("expected a sorted view"),
    }
    match plan_view(FileType::Orc, 50, &Some(args.clone()), None, &strings(&["a", "b"])).unwrap() {
        ViewPlan::Sorted { path, .. } => assert_eq!(path, SortPath::ChunkedSort),
        ViewPlan::Unsorted => panic!("expected a sorted view"),
    }
    let specs = parse_sort_specs(&args).unwrap();
    let plan = build_sort_plan(None, specs, 50);
    assert_eq!(plan.limit, Some(50));
    let out = execute_sort_plan(&plan, &vec![two_key_source()]).unwrap();
    let out = truncate_batches(out, 50);
    assert_eq!(out.len(), 1);
    assert_eq!(rows_of(&out[0]), expected_two_key_rows());
    assert_eq!(rows_of(&out[0])[0], (0, 190));
    assert_eq!(rows_of(&out[0])[20], (1, 191));
}

#[test]
fn whole_source_sort_merges_batches() {
    let whole = two_key_source();
    let first: Vec<u32> = (0..120).collect();
    let second: Vec<u32> = (120..200).collect();
    let source = vec![whole.take_rows(&first), whole.take_rows(&second)];
    let plan = build_sort_plan(None, vec![spec("a", true), spec("b", false)], 50);
    let out = execute_sort_plan(&plan, &source).unwrap();
    assert_eq!(rows_of(&out[0]), expected_two_key_rows());
}

#[test]
fn small_streaming_source_is_one_chunk() {
    let out = chunked_external_sort(
        vec![two_key_source()],
        None,
        vec![spec("a", true), spec("b", false)],
        50,
        &strings(&["a", "b"]),
    )
    .unwrap();
    assert_eq!(out.len(), 1);
    assert_eq!(rows_of(&out[0]), expected_two_key_rows());
}

fn streaming_source(rows: i64, batch_rows: i64) -> Vec<Batch> {
    let mut out = Vec::new();
    let mut start = 0;
    while start < rows {
        let end = std::cmp::min(start + batch_rows, rows);
        out.push(int_batch("v", (start..end).map(Some).collect()));
        start = end;
    }
    out
}

#[test]
fn chunked_sort_returns_the_limit_in_order() {
    let source = streaming_source(250_000, 10_000);
    let out = chunked_external_sort(source, None, vec![spec("v", true)], 100, &strings(&["v"])).unwrap();
    assert_eq!(total_rows(&out), 100);
    let expected: Vec<Option<i64>> = (0..100).map(Some).collect();
    assert_eq!(ints(&out[0], 0), expected);
}

#[test]
fn chunked_sort_stops_once_candidates_exceed_the_limit() {
    let source = streaming_source(250_000, 10_000);
    let out = chunked_external_sort(source, None, vec![spec("v", false)], 100, &strings(&["v"])).unwrap();
    assert_eq!(total_rows(&out), 100);
    let first_chunk_top: Vec<Option<i64>> = (99_900..100_000).rev().map(Some).collect();
    assert_eq!(ints(&out[0], 0), first_chunk_top);
}

#[test]
fn chunked_sort_without_limit_sorts_every_chunk() {
    let source = streaming_source(250_000, 10_000);
    let out = chunked_external_sort(source, None, vec![spec("v", false)], 0, &strings(&["v"])).unwrap();
    assert_eq!(total_rows(&out), 250_000);
    let values = ints(&out[0], 0);
    assert_eq!(values[0], Some(249_999));
    assert_eq!(values[249_999], Some(0));
}

#[test]
fn chunked_sort_projects_each_chunk() {
    let out = chunked_external_sort(
        vec![two_key_source()],
        Some(strings(&["b", "a"])),
        vec![spec("a", true), spec("b", false)],
        3,
        &strings(&["a", "b"]),
    )
    .unwrap();
    assert_eq!(out[0].names, strings(&["b", "a"]));
    assert_eq!(ints(&out[0], 0), vec![Some(190), Some(180), Some(170)]);
}

#[test]
fn single_batch_top_k_equals_full_sort() {
    let b = int_batch("x", vec![Some(4), None, Some(-2), Some(9), Some(4), None, Some(0)]);
    for &asc in &[true, false] {
        let token = if asc { "x" } else { "x-" };
        let top = apply_topk_sorting(vec![b.clone()], &strings(&[token]), None, 3).unwrap();
        let plan = build_sort_plan(None, vec![spec("x", asc)], 3);
        let full = execute_sort_plan(&plan, &vec![b.clone()]).unwrap();
        assert_eq!(top, full);
    }
}

#[test]
fn nulls_sort_last_in_both_directions() {
    let b = int_batch("x", vec![None, Some(2), None, Some(1), Some(3)]);
    let asc = execute_sort_plan(&build_sort_plan(None, vec![spec("x", true)], 0), &vec![b.clone()])
        .unwrap();
    assert_eq!(ints(&asc[0], 0), vec![Some(1), Some(2), Some(3), None, None]);
    let desc = execute_sort_plan(&build_sort_plan(None, vec![spec("x", false)], 0), &vec![b])
        .unwrap();
    assert_eq!(ints(&desc[0], 0), vec![Some(3), Some(2), Some(1), None, None]);
}

#[test]
fn text_sorts_by_code_point() {
    let names: Vec<Option<String>> =
        vec![Some("pear".to_string()), None, Some("Apple".to_string()), Some("apple".to_string())];
    let b = batch(&["name"], vec![Column::Utf8(names)]);
    let out =
        execute_sort_plan(&build_sort_plan(None, vec![spec("name", true)], 0), &vec![b]).unwrap();
    assert_eq!(
        texts(&out[0], 0),
        vec![Some("Apple".to_string()), Some("apple".to_string()), Some("pear".to_string()), None]
    );
}

#[test]
fn top_k_sorts_within_each_batch_only() {
    let b1 = int_batch("x", vec![Some(5), Some(1), Some(3)]);
    let b2 = int_batch("x", vec![Some(0), Some(9)]);
    let out = apply_topk_sorting(vec![b1, b2], &strings(&["x"]), None, 2).unwrap();
    assert_eq!(out.len(), 2);
    assert_eq!(ints(&out[0], 0), vec![Some(1), Some(3)]);
    assert_eq!(ints(&out[1], 0), vec![Some(0), Some(9)]);
    let cut = truncate_batches(out, 3);
    assert_eq!(ints(&cut[1], 0), vec![Some(0)]);
}

#[test]
fn top_k_with_limit_zero_keeps_no_rows() {
    let b = int_batch("x", vec![Some(5), Some(1)]);
    let out = apply_topk_sorting(vec![b], &strings(&["x"]), None, 0).unwrap();
    assert_eq!(out[0].num_rows, 0);
}

#[test]
fn top_k_reports_bad_requests() {
    let b = int_batch("x", vec![Some(1)]);
    assert_eq!(
        apply_topk_sorting(vec![b.clone()], &strings(&["y"]), None, 3),
        Err(ViewError::ColumnNotFound("y".to_string()))
    );
    let sel = strings(&["z"]);
    assert_eq!(
        apply_topk_sorting(vec![b.clone()], &strings(&["x"]), Some(&sel), 3),
        Err(ViewError::SortColumnNotInSelection("x".to_string()))
    );
    assert_eq!(
        apply_topk_sorting(vec![b], &strings(&["x:sideways"]), None, 3),
        Err(ViewError::InvalidSortOrder("sideways".to_string()))
    );
}

#[test]
fn sort_plan_reports_missing_columns() {
    let source = vec![two_key_source()];
    let bad_projection = build_sort_plan(Some(strings(&["a", "q"])), vec![spec("a", true)], 5);
    assert_eq!(
        execute_sort_plan(&bad_projection, &source),
        Err(ViewError::ColumnNotFound("q".to_string()))
    );
    let bad_key = build_sort_plan(Some(strings(&["a"])), vec![spec("b", true)], 5);
    assert_eq!(
        execute_sort_plan(&bad_key, &source),
        Err(ViewError::ColumnNotFound("b".to_string()))
    );
}

#[test]
fn truncating_twice_is_truncating_once() {
    let source = vec![
        int_batch("x", vec![Some(1), Some(2), Some(3)]),
        int_batch("x", vec![Some(4), Some(5), Some(6), Some(7)]),
        int_batch("x", vec![Some(8), Some(9)]),
    ];
    let once = truncate_batches(source.clone(), 5);
    let twice = truncate_batches(once.clone(), 5);
    assert_eq!(once, twice);
    assert_eq!(once.len(), 2);
    assert_eq!(ints(&once[1], 0), vec![Some(4), Some(5)]);
}

#[test]
fn limit_zero_and_large_limits_keep_everything() {
    let source = vec![int_batch("x", vec![Some(1), Some(2)]), int_batch("x", vec![Some(3)])];
    assert_eq!(truncate_batches(source.clone(), 0), source);
    assert_eq!(truncate_batches(source.clone(), 3), source);
    assert_eq!(truncate_batches(source.clone(), 100), source);
}

#[test]
fn empty_source_gives_empty_result_on_every_path() {
    let specs = vec![spec("x", true)];
    assert_eq!(apply_topk_sorting(Vec::new(), &strings(&["x"]), None, 5).unwrap().len(), 0);
    let plan = build_sort_plan(None, specs.clone(), 5);
    assert_eq!(execute_sort_plan(&plan, &Vec::new()).unwrap().len(), 0);
    assert_eq!(chunked_external_sort(Vec::new(), None, specs, 5, &strings(&["x"])).unwrap().len(), 0);
    assert_eq!(truncate_batches(Vec::new(), 5).len(), 0);
}

#[test]
fn limit_steps() {
    assert_eq!(limit_step(0, 0, 50), LimitStep::Pass);
    assert_eq!(limit_step(0, 10, 4), LimitStep::Pass);
    assert_eq!(limit_step(4, 10, 6), LimitStep::PassLast);
    assert_eq!(limit_step(4, 10, 9), LimitStep::Prefix(6));
}

#[test]
fn top_k_of_batch_takes_the_order_given() {
    let b = int_batch("x", vec![Some(10), Some(20), Some(30)]);
    let out = top_k_of_batch(&b, &vec![2, 0, 1], 2);
    assert_eq!(ints(&out, 0), vec![Some(30), Some(10)]);
}

#[test]
fn batch_needs_equal_columns() {
    assert!(Batch::new(
        strings(&["a", "b"]),
        vec![Column::Int64(vec![Some(1)]), Column::Int64(vec![Some(1), Some(2)])]
    )
    .is_none());
    assert!(Batch::new(strings(&["a"]), Vec::new()).is_none());
}

#[test]
fn unsorted_view_without_tokens() {
    assert!(matches!(plan_view(FileType::Orc, 5, &None, None, &strings(&["x"])), Ok(ViewPlan::Unsorted)));
    assert!(matches!(plan_view(FileType::Orc, 5, &Some(Vec::new()), None, &strings(&["x"])), Ok(ViewPlan::Unsorted)));
    assert!(matches!(
        plan_view(FileType::Orc, 5, &Some(strings(&[""])), None, &strings(&["x"])),
        Err(ViewError::EmptySortSpec)
    ));
}

#[test]
fn ties_keep_their_source_order() {
    let b = batch(
        &["a", "b"],
        vec![
            Column::Int64(vec![Some(1), Some(0), Some(1), Some(0), None, Some(1)]),
            Column::Int64(vec![Some(0), Some(1), Some(2), Some(3), Some(4), Some(5)]),
        ],
    );
    let asc = execute_sort_plan(&build_sort_plan(None, vec![spec("a", true)], 0), &vec![b.clone()])
        .unwrap();
    assert_eq!(ints(&asc[0], 1), vec![Some(1), Some(3), Some(0), Some(2), Some(5), Some(4)]);
    let desc = execute_sort_plan(&build_sort_plan(None, vec![spec("a", false)], 0), &vec![b])
        .unwrap();
    assert_eq!(ints(&desc[0], 1), vec![Some(0), Some(2), Some(5), Some(1), Some(3), Some(4)]);
}

#[test]
fn chunked_sort_checks_keys_even_without_rows() {
    assert_eq!(
        chunked_external_sort(Vec::new(), None, vec![spec("nope", true)], 5, &strings(&["x"])),
        Err(ViewError::ColumnNotFound("nope".to_string()))
    );
    assert_eq!(
        chunked_external_sort(
            vec![two_key_source()],
            Some(strings(&["b"])),
            vec![spec("a", true)],
            5,
            &strings(&["a", "b"]),
        ),
        Err(ViewError::SortColumnNotInSelection("a".to_string()))
    );
}

#[test]
fn view_plan_checks_keys() {
    let cols = strings(&["a", "b"]);
    let only_b = strings(&["b"]);
    assert!(matches!(
        plan_view(FileType::Parquet, 50, &Some(strings(&["zz"])), None, &cols),
        Err(ViewError::ColumnNotFound(c)) if c == "zz"
    ));
    assert!(matches!(
        plan_view(FileType::Orc, 5000, &Some(strings(&["a"])), Some(&only_b), &cols),
        Err(ViewError::SortColumnNotInSelection(c)) if c == "a"
    ));
}

#[test]
fn chunked_pass_stops_pulling_after_enough_candidates() {
    let mut pass = ChunkedSort::new(None, vec![spec("v", true)], 100, &strings(&["v"])).unwrap();
    let mut pulled = 0;
    for b in streaming_source(250_000, 10_000) {
        pulled += 1;
        if !pass.push_batch(b).unwrap() {
            break;
        }
    }
    assert_eq!(pulled, 10);
    let out = pass.finish().unwrap();
    assert_eq!(total_rows(&out), 100);
}

#[test]
fn chunked_pass_without_limit_pulls_everything() {
    let mut pass = ChunkedSort::new(None, vec![spec("v", true)], 0, &strings(&["v"])).unwrap();
    let mut pulled = 0;
    for b in streaming_source(250_000, 10_000) {
        pulled += 1;
        assert!(pass.push_batch(b).unwrap());
    }
    assert_eq!(pulled, 25);
    assert_eq!(total_rows(&pass.finish().unwrap()), 250_000);
}
