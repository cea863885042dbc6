use colview::error::ViewError;
use colview::sort::{
    parse_single_sort_spec, parse_sort_specs, select_strategy, should_use_topk,
    validate_sort_columns, SortSpec, StrategyDecision,
};

#[test]
fn test_parse_simple_column() {
    let result = parse_single_sort_spec("name").unwrap();
    assert_eq!(result.column, "name");
    assert_eq!(result.ascending, true);
}

#[test]
fn test_parse_plus_suffix() {
    let result = parse_single_sort_spec("name+").unwrap();
    assert_eq!(result.column, "name");
    assert_eq!(result.ascending, true);
}

#[test]
fn test_parse_minus_suffix() {
    let result = parse_single_sort_spec("age-").unwrap();
    assert_eq!(result.column, "age");
    assert_eq!(result.ascending, false);
}

#[test]
fn test_parse_asc_suffix() {
    let result = parse_single_sort_spec("salary:asc").unwrap();
    assert_eq!(result.column, "salary");
    assert_eq!(result.ascending, true);
}

#[test]
fn test_parse_desc_suffix() {
    let result = parse_single_sort_spec("date:desc").unwrap();
    assert_eq!(result.column, "date");
    assert_eq!(result.ascending, false);
}

#[test]
fn test_parse_multiple_specs() {
    let specs = vec![
        "name".to_string(),
        "age-".to_string(),
        "salary:desc".to_string(),
    ];
    let results = parse_sort_specs(&specs).unwrap();

    assert_eq!(results.len(), 3);
    assert_eq!(results[0].column, "name");
    assert_eq!(results[0].ascending, true);
    assert_eq!(results[1].column, "age");
    assert_eq!(results[1].ascending, false);
    assert_eq!(results[2].column, "salary");
    assert_eq!(results[2].ascending, false);
}

#[test]
fn test_invalid_order() {
    let result = parse_single_sort_spec("name:invalid");
    assert!(result.is_err());
}

#[test]
fn test_validate_sort_columns() {
    let sort_specs = vec![
        SortSpec { column: "name".to_string(), ascending: true },
        SortSpec { column: "age".to_string(), ascending: false },
    ];

    let all_columns = vec!["name".to_string(), "age".to_string(), "salary".to_string()];
    let selected_columns = vec!["name".to_string(), "age".to_string()];

    let result = validate_sort_columns(&sort_specs, Some(&selected_columns), &all_columns);
    assert!(result.is_ok());

    let limited_selection = vec!["name".to_string()];
    let result = validate_sort_columns(&sort_specs, Some(&limited_selection), &all_columns);
    assert!(result.is_err());

    let invalid_spec = vec![SortSpec { column: "nonexistent".to_string(), ascending: true }];
    let result = validate_sort_columns(&invalid_spec, None, &all_columns);
    assert!(result.is_err());
}

fn key(token: &str) -> (String, bool) {
    let s = parse_single_sort_spec(token).unwrap();
    (s.column, s.ascending)
}

#[test]
fn descending_spellings_agree() {
    assert_eq!(key("col-"), key("col:desc"));
    assert_eq!(key("col-"), ("col".to_string(), false));
    assert_eq!(key("col:descending"), ("col".to_string(), false));
}

#[test]
fn ascending_spellings_agree() {
    assert_eq!(key("col"), key("col+"));
    assert_eq!(key("col"), key("col:asc"));
    assert_eq!(key("col"), ("col".to_string(), true));
    assert_eq!(key("col:ascending"), ("col".to_string(), true));
}

#[test]
fn order_words_ignore_case() {
    assert_eq!(key("price:DESC"), ("price".to_string(), false));
    assert_eq!(key("price:Asc"), ("price".to_string(), true));
    assert_eq!(key("price:DeScEnDiNg"), ("price".to_string(), false));
}

#[test]
fn split_is_at_the_first_colon() {
    assert_eq!(
        parse_single_sort_spec("a:b:desc"),
        Err(ViewError::InvalidSortOrder("b:desc".to_string()))
    );
    assert_eq!(key("ns:col-"), ("ns:col".to_string(), false));
}

#[test]
fn empty_token_is_rejected() {
    assert_eq!(parse_single_sort_spec(""), Err(ViewError::EmptySortSpec));
}

#[test]
fn invalid_order_names_the_word() {
    assert_eq!(
        parse_single_sort_spec("name:up"),
        Err(ViewError::InvalidSortOrder("up".to_string()))
    );
}

#[test]
fn first_bad_token_decides_the_error() {
    let args = vec!["a".to_string(), "b:sideways".to_string(), "".to_string()];
    assert_eq!(
        parse_sort_specs(&args).unwrap_err(),
        ViewError::InvalidSortOrder("sideways".to_string())
    );
}

#[test]
fn validation_errors_name_the_column() {
    let specs = vec![
        SortSpec { column: "name".to_string(), ascending: true },
        SortSpec { column: "age".to_string(), ascending: false },
    ];
    let all = vec!["name".to_string(), "age".to_string()];
    let only_name = vec!["name".to_string()];
    assert_eq!(
        validate_sort_columns(&specs, Some(&only_name), &all),
        Err(ViewError::SortColumnNotInSelection("age".to_string()))
    );
    let missing = vec![SortSpec { column: "zip".to_string(), ascending: true }];
    assert_eq!(
        validate_sort_columns(&missing, Some(&only_name), &all),
        Err(ViewError::ColumnNotFound("zip".to_string()))
    );
}

#[test]
fn strategy_threshold() {
    let one = vec![SortSpec { column: "a".to_string(), ascending: true }];
    let two = vec![
        SortSpec { column: "a".to_string(), ascending: true },
        SortSpec { column: "b".to_string(), ascending: false },
    ];
    assert!(should_use_topk(999, &one));
    assert!(should_use_topk(0, &one));
    assert!(!should_use_topk(1000, &one));
    assert!(!should_use_topk(5, &two));
    assert_eq!(select_strategy(5, &one), StrategyDecision::TopK);
    assert_eq!(select_strategy(50, &two), StrategyDecision::External);
    assert_eq!(select_strategy(1000, &one), StrategyDecision::External);
}
