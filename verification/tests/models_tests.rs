use std::sync::Mutex;

use gh_discussion_export::client::{GitHubClient, HttpClient};
use gh_discussion_export::error::Error;
use gh_discussion_export::fetch::parse_comments_response;
use gh_discussion_export::json::{parse_json, Json};
use gh_discussion_export::models::{DiscussionComments, PageInfo};

struct OneShot {
    response: Mutex<Option<String>>,
}

impl HttpClient for OneShot {
    fn post(&self, _url: &str, _body: &str) -> Result<String, Error> {
        match self.response.lock().unwrap().take() {
            Some(r) => Ok(r),
            None => Err(Error::Http("no scripted response left".to_string())),
        }
    }
}

fn client_with(response: &str) -> GitHubClient {
    GitHubClient::new(Box::new(OneShot {
        response: Mutex::new(Some(response.to_string())),
    }))
}

fn discussion_response(discussion_json: &str) -> String {
    format!(
        r#"{{"data": {{"repository": {{"discussion": {}}}}}}}"#,
        discussion_json
    )
}

#[test]
fn test_discussion_deserialization() {
    let discussion_json = r#"{
        "id": "discussion_123",
        "title": "Test Discussion",
        "number": 123,
        "url": "https://github.com/test/repo/discussions/123",
        "createdAt": "2024-01-15T10:30:00Z",
        "body": "This is a test discussion",
        "author": {"login": "testuser"},
        "comments": {
            "nodes": [
                {
                    "id": "comment_1",
                    "databaseId": 456,
                    "author": {"login": "testuser"},
                    "createdAt": "2024-01-15T11:00:00Z",
                    "body": "Test comment",
                    "replies": {
                        "nodes": [],
                        "pageInfo": {"hasNextPage": false, "endCursor": null}
                    }
                }
            ],
            "pageInfo": {"hasNextPage": false, "endCursor": null}
        }
    }"#;

    let client = client_with(&discussion_response(discussion_json));
    let discussion = client.execute_query("query {}", Json::Obj(vec![])).unwrap();
    assert_eq!(discussion.id, "discussion_123");
    assert_eq!(discussion.title, "Test Discussion");
    assert_eq!(discussion.number, 123);
    assert_eq!(discussion.url, "https://github.com/test/repo/discussions/123");
    assert_eq!(discussion.body, "This is a test discussion");
    assert!(discussion.author.is_some());
    assert_eq!(
        discussion.author.unwrap().login,
        Some("testuser".to_string())
    );
    assert!(discussion.comments.nodes.is_some());
}

#[test]
fn test_comment_deserialization_with_replies() {
    let discussion_json = r#"{
        "id": "d", "title": "t", "number": 1,
        "url": "u", "createdAt": "2024-01-15T10:30:00Z", "body": "b", "author": null,
        "comments": {
            "nodes": [
                {
                    "id": "comment_1",
                    "databaseId": 456,
                    "author": {"login": "testuser"},
                    "createdAt": "2024-01-15T11:00:00Z",
                    "body": "Test comment",
                    "replies": {
                        "nodes": [
                            {
                                "id": "reply_1",
                                "databaseId": 789,
                                "author": {"login": "replier"},
                                "createdAt": "2024-01-15T12:00:00Z",
                                "body": "Test reply"
                            }
                        ],
                        "pageInfo": {"hasNextPage": false, "endCursor": "cursor123"}
                    }
                }
            ],
            "pageInfo": {"hasNextPage": false, "endCursor": null}
        }
    }"#;

    let client = client_with(&discussion_response(discussion_json));
    let discussion = client.execute_query("query {}", Json::Obj(vec![])).unwrap();
    let nodes = discussion.comments.nodes.unwrap();
    let comment = nodes[0].as_ref().unwrap();
    assert_eq!(comment.id, "comment_1");
    assert_eq!(comment.database_id, 456);
    assert_eq!(comment.body, "Test comment");
    assert!(comment.author.is_some());
    assert_eq!(
        comment.author.as_ref().unwrap().login,
        Some("testuser".to_string())
    );
    assert!(comment.replies.nodes.is_some());
    let replies = comment.replies.nodes.as_ref().unwrap();
    assert_eq!(replies.len(), 1);
    assert!(replies[0].is_some());
    assert_eq!(
        comment.replies.page_info.end_cursor,
        Some("cursor123".to_string())
    );
}

#[test]
fn test_null_author_handling() {
    let response = parse_json(
        r#"{
        "data": {"node": {"comments": {
            "nodes": [{
                "id": "comment_1",
                "databaseId": 456,
                "author": null,
                "createdAt": "2024-01-15T11:00:00Z",
                "body": "Test comment",
                "replies": {
                    "nodes": [],
                    "pageInfo": {"hasNextPage": false, "endCursor": null}
                }
            }],
            "pageInfo": {"hasNextPage": false, "endCursor": null}
        }}}
    }"#,
    )
    .unwrap();

    let page = parse_comments_response(response).unwrap();
    let comment = page.nodes.unwrap().remove(0).unwrap();
    assert!(comment.author.is_none());
}

#[test]
fn test_page_info_deserialization() {
    let response = parse_json(
        r#"{
        "data": {"node": {"comments": {
            "pageInfo": {"hasNextPage": true, "endCursor": "cursor_abc123"}
        }}}
    }"#,
    )
    .unwrap();

    let page = parse_comments_response(response).unwrap();
    assert!(page.page_info.has_next_page);
    assert_eq!(page.page_info.end_cursor, Some("cursor_abc123".to_string()));
}

#[test]
fn test_page_info_with_null_cursor() {
    let response = parse_json(
        r#"{
        "data": {"node": {"comments": {
            "pageInfo": {"hasNextPage": false, "endCursor": null}
        }}}
    }"#,
    )
    .unwrap();

    let page = parse_comments_response(response).unwrap();
    assert!(!page.page_info.has_next_page);
    assert!(page.page_info.end_cursor.is_none());
}

#[test]
fn test_total_count_parsing() {
    let discussion_json = r#"{
        "id": "d", "title": "t", "number": 1,
        "url": "u", "createdAt": "2024-01-15T10:30:00Z", "body": "b", "author": null,
        "comments": {
            "totalCount": 42,
            "nodes": [
                {
                    "id": "comment_1",
                    "databaseId": 456,
                    "author": {"login": "testuser"},
                    "createdAt": "2024-01-15T11:00:00Z",
                    "body": "Test comment",
                    "replies": {
                        "totalCount": 10,
                        "nodes": [],
                        "pageInfo": {"hasNextPage": false, "endCursor": null}
                    }
                }
            ],
            "pageInfo": {"hasNextPage": false, "endCursor": null}
        }
    }"#;

    let client = client_with(&discussion_response(discussion_json));
    let discussion = client.execute_query("query {}", Json::Obj(vec![])).unwrap();
    assert_eq!(discussion.comments.total_count, Some(42));
    let nodes = discussion.comments.nodes.unwrap();
    let comment = nodes[0].as_ref().unwrap();
    assert_eq!(comment.replies.total_count, Some(10));
}

#[test]
fn test_total_count_optional() {
    let discussion_json = r#"{
        "id": "d", "title": "t", "number": 1,
        "url": "u", "createdAt": "2024-01-15T10:30:00Z", "body": "b", "author": null,
        "comments": {
            "nodes": [],
            "pageInfo": {"hasNextPage": false, "endCursor": null}
        }
    }"#;

    let client = client_with(&discussion_response(discussion_json));
    let discussion = client.execute_query("query {}", Json::Obj(vec![])).unwrap();
    assert_eq!(discussion.comments.total_count, None);
}

#[test]
fn test_discussion_with_null_author() {
    let discussion_json = r#"{
        "id": "discussion_1",
        "title": "Test",
        "number": 1,
        "url": "https://github.com/test/repo/discussions/1",
        "createdAt": "2024-01-15T10:30:00Z",
        "body": "Test body",
        "author": null,
        "comments": {
            "nodes": [
                {
                    "id": "comment_1",
                    "databaseId": 456,
                    "author": null,
                    "createdAt": "2024-01-15T11:00:00Z",
                    "body": "Comment from deleted user",
                    "replies": {
                        "nodes": [],
                        "pageInfo": {"hasNextPage": false, "endCursor": null}
                    }
                }
            ],
            "pageInfo": {"hasNextPage": false, "endCursor": null}
        }
    }"#;

    let client = client_with(&discussion_response(discussion_json));
    let discussion = client.execute_query("query {}", Json::Obj(vec![])).unwrap();
    assert!(discussion.author.is_none());
    let comments = discussion.comments.nodes.unwrap();
    assert!(comments[0].as_ref().unwrap().author.is_none());
}

#[test]
fn test_malformed_timestamp_is_rejected() {
    let discussion_json = r#"{
        "id": "d", "title": "t", "number": 1,
        "url": "u", "createdAt": "yesterday", "body": "b", "author": null
    }"#;

    let client = client_with(&discussion_response(discussion_json));
    let result = client.execute_query("query {}", Json::Obj(vec![]));
    assert!(matches!(result, Err(Error::JsonParse(_))));
}

#[test]
fn test_default_connections() {
    let page: PageInfo = Default::default();
    assert!(!page.has_next_page);
    assert!(page.end_cursor.is_none());

    let comments: DiscussionComments = Default::default();
    assert_eq!(comments.total_count, None);
    assert!(comments.nodes.is_none());
    assert!(!comments.page_info.has_next_page);
}
