use gh_discussion_export::graphql::DISCUSSION_QUERY;

#[test]
fn test_query_contains_discussion_fields() {
    assert!(DISCUSSION_QUERY.contains("title"));
    assert!(DISCUSSION_QUERY.contains("number"));
    assert!(DISCUSSION_QUERY.contains("url"));
    assert!(DISCUSSION_QUERY.contains("createdAt"));
    assert!(DISCUSSION_QUERY.contains("body"));
    assert!(DISCUSSION_QUERY.contains("author"));
}

#[test]
fn test_query_contains_comment_fields() {
    assert!(DISCUSSION_QUERY.contains("comments"));
    assert!(DISCUSSION_QUERY.contains("databaseId"));
    assert!(DISCUSSION_QUERY.contains("author"));
    assert!(DISCUSSION_QUERY.contains("login"));
    assert!(DISCUSSION_QUERY.contains("replies"));
}

#[test]
fn test_query_contains_page_info() {
    assert!(DISCUSSION_QUERY.contains("pageInfo"));
    assert!(DISCUSSION_QUERY.contains("hasNextPage"));
    assert!(DISCUSSION_QUERY.contains("endCursor"));
}

#[test]
fn test_query_variables() {
    assert!(DISCUSSION_QUERY.contains("$owner: String!"));
    assert!(DISCUSSION_QUERY.contains("$repo: String!"));
    assert!(DISCUSSION_QUERY.contains("$number: Int!"));
}

#[test]
fn test_query_syntax_basic() {
    let trimmed = DISCUSSION_QUERY.trim();
    assert!(trimmed.starts_with("query"));
    assert!(DISCUSSION_QUERY.contains("{"));
    assert!(DISCUSSION_QUERY.contains("}"));
    assert_eq!(
        DISCUSSION_QUERY.matches("{").count(),
        DISCUSSION_QUERY.matches("}").count()
    );
}
