use engine::query::surface::completion::{classify, CompletionContext, CompletionMode};

fn classify_at_end(src: &str) -> Option<CompletionContext> {
    let cursor = src.encode_utf16().count() as u32;
    classify(src, cursor)
}

#[test]
fn empty_query_is_value_start() {
    let c = classify_at_end("").unwrap();
    assert_eq!(c.mode, CompletionMode::ValueStart);
    assert_eq!(c.partial, "");
}

#[test]
fn after_from_keyword_is_value_start() {
    let c = classify_at_end("from ").unwrap();
    assert_eq!(c.mode, CompletionMode::ValueStart);
}

#[test]
fn dot_triggers_field_access_root() {
    let c = classify_at_end(".").unwrap();
    assert_eq!(c.mode, CompletionMode::FieldAccess);
    assert_eq!(c.context_query.as_deref(), Some("."));
}

#[test]
fn dot_after_path_resolves_against_path() {
    let c = classify_at_end(".users[].").unwrap();
    assert_eq!(c.mode, CompletionMode::FieldAccess);
    assert_eq!(c.context_query.as_deref(), Some(".users[]"));
}

#[test]
fn dot_in_where_clause_resolves_against_source() {
    let c = classify_at_end("from .users as u where .").unwrap();
    assert_eq!(c.mode, CompletionMode::FieldAccess);
    let ctx = c.context_query.unwrap();
    assert!(ctx.contains(".users"), "got context: {}", ctx);
}

#[test]
fn after_complete_path_is_after_expression() {
    let c = classify_at_end(".users ").unwrap();
    assert_eq!(c.mode, CompletionMode::AfterExpression);
}

#[test]
fn mid_partial_returns_partial() {
    let c = classify_at_end("fr").unwrap();
    assert_eq!(c.mode, CompletionMode::ValueStart);
    assert_eq!(c.partial, "fr");
}

#[test]
fn after_by_keyword_is_value_start() {
    let c = classify_at_end("count by ").unwrap();
    assert_eq!(c.mode, CompletionMode::ValueStart);
}

#[test]
fn after_compare_op_strips_to_input() {
    let c = classify_at_end("from .users as u where u.role == ").unwrap();
    assert_eq!(c.mode, CompletionMode::ValueStart);
}

#[test]
fn keyword_partial_does_not_match_inside_word() {
    let c = classify_at_end("goodby").unwrap();
    assert_eq!(c.partial, "goodby");
    assert_eq!(c.mode, CompletionMode::ValueStart);
}

#[test]
fn dot_inside_string_returns_none() {
    let c = classify_at_end("from .x as x where x.role == \"adm.");
    assert!(c.is_none());
}

#[test]
fn mid_number_returns_none() {
    let c = classify_at_end("limit 4");
    assert!(c.is_none());
}

#[test]
fn collect_by_then_dot() {
    let c = classify_at_end("from .users as u collect by .").unwrap();
    assert_eq!(c.mode, CompletionMode::FieldAccess);
}

#[test]
fn after_and_keyword_value_start() {
    let c = classify_at_end("from .x as x where x.role == \"a\" and ").unwrap();
    assert_eq!(c.mode, CompletionMode::ValueStart);
}

#[test]
fn aggregate_block_by_dot() {
    let c = classify_at_end("from .x as x aggregate { n: count() } by .").unwrap();
    assert_eq!(c.mode, CompletionMode::FieldAccess);
}
