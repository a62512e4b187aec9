use g3_core::code_search::{
    default_concurrency, default_max_matches, CodeSearchRequest, CodeSearchResponse, Match,
    SearchResult, SearchSpec,
};
use g3_core::geometry::Rect;
use std::collections::HashMap;

fn found(file: &str, line: usize) -> Match {
    Match {
        file: file.to_string(),
        line,
        column: 0,
        text: "fn x()".to_string(),
        captures: HashMap::new(),
        context: None,
    }
}

#[test]
fn defaults_are_four_searches_and_five_hundred_matches() {
    assert_eq!(default_concurrency(), 4);
    assert_eq!(default_max_matches(), 500);
    let request = CodeSearchRequest {
        searches: vec![SearchSpec {
            name: "fns".to_string(),
            query: "(function_item) @f".to_string(),
            language: "rust".to_string(),
            paths: vec![],
            context_lines: 0,
        }],
        max_concurrency: default_concurrency(),
        max_matches_per_search: default_max_matches(),
    };
    assert_eq!(request.clone().searches.len(), 1);
}

#[test]
fn completed_search_keeps_at_most_the_cap() {
    let matches = vec![found("a.rs", 1), found("a.rs", 7), found("b.rs", 2)];
    let capped = SearchResult::completed("fns", matches, 2, 2);
    assert_eq!(capped.name, "fns");
    assert_eq!(capped.match_count, 2);
    assert_eq!(capped.matches.len(), 2);
    assert_eq!(capped.matches[1].line, 7);
    assert_eq!(capped.files_searched, 2);
    assert!(capped.error.is_none());
    let all = SearchResult::completed("fns", vec![found("a.rs", 1)], 5, 500);
    assert_eq!(all.match_count, 1);
    assert_eq!(all.files_searched, 5);
}

#[test]
fn failed_search_has_an_error_and_no_matches() {
    let failed = SearchResult::failed("bad", "Invalid query");
    assert_eq!(failed.name, "bad");
    assert!(failed.matches.is_empty());
    assert_eq!(failed.match_count, 0);
    assert_eq!(failed.files_searched, 0);
    assert_eq!(failed.error, Some("Invalid query".to_string()));
}

#[test]
fn response_totals_add_up_over_the_batch() {
    let response = CodeSearchResponse::new(vec![
        SearchResult::completed("a", vec![found("a.rs", 1), found("a.rs", 2)], 3, 500),
        SearchResult::failed("b", "Unknown language"),
        SearchResult::completed("c", vec![found("c.rs", 1)], 4, 500),
    ]);
    assert_eq!(response.total_matches, 3);
    assert_eq!(response.total_files_searched, 7);
    assert_eq!(response.searches.len(), 3);
    assert_eq!(response.searches[1].name, "b");
    let empty = CodeSearchResponse::new(vec![]);
    assert_eq!(empty.total_matches, 0);
    assert_eq!(empty.total_files_searched, 0);
}

#[test]
fn rect_holds_its_corner_and_size() {
    let r = Rect { x: -1, y: 2, width: 30, height: 40 };
    let copy = r;
    assert_eq!(copy, r);
    assert_eq!(copy.width, 30);
}
