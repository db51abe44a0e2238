use std::sync::Mutex;

use gh_discussion_export::client::{GitHubClient, HttpClient};
use gh_discussion_export::error::Error;
use gh_discussion_export::json::Json;

/// A scripted transport: hands out the queued responses in order.
struct StubClient {
    responses: Mutex<Vec<Result<String, Error>>>,
}

impl StubClient {
    fn new(responses: Vec<Result<String, Error>>) -> Self {
        StubClient { responses: Mutex::new(responses) }
    }

    fn boxed(responses: Vec<Result<String, Error>>) -> Box<dyn HttpClient> {
        Box::new(StubClient::new(responses))
    }
}

impl HttpClient for StubClient {
    fn post(&self, _url: &str, _body: &str) -> Result<String, Error> {
        let mut rs = self.responses.lock().unwrap();
        if rs.is_empty() {
            Err(Error::Http("no scripted response left".to_string()))
        } else {
            rs.remove(0)
        }
    }
}

fn empty_variables() -> Json {
    Json::Obj(vec![])
}

#[test]
fn test_github_client_creation() {
    let _client = GitHubClient::new(StubClient::boxed(vec![]));
}

#[test]
fn test_successful_query_execution() {
    let response = r#"{
        "data": {
            "repository": {
                "discussion": {
                    "id": "discussion_test_1",
                    "title": "Test Discussion",
                    "number": 1,
                    "url": "https://github.com/test/repo/discussions/1",
                    "createdAt": "2024-01-01T00:00:00Z",
                    "body": "Test body",
                    "author": {"login": "testuser"},
                    "comments": {
                        "nodes": [
                            {
                                "id": "1",
                                "databaseId": 1,
                                "author": {"login": "testuser"},
                                "createdAt": "2024-01-01T00:00:00Z",
                                "body": "Test comment",
                                "replies": {
                                    "nodes": [],
                                    "pageInfo": {"hasNextPage": false, "endCursor": null}
                                }
                            }
                        ],
                        "pageInfo": {"hasNextPage": false, "endCursor": null}
                    }
                }
            }
        }
    }"#;

    let client = GitHubClient::new(StubClient::boxed(vec![Ok(response.to_string())]));
    let result = client.execute_query("query {}", empty_variables());
    assert!(result.is_ok());
    let discussion = result.unwrap();
    assert_eq!(discussion.id, "discussion_test_1");
    assert_eq!(discussion.title, "Test Discussion");
    assert_eq!(discussion.number, 1);
}

#[test]
fn test_graphql_error_response() {
    let response = r#"{
        "data": null,
        "errors": [
            {
                "message": "Field 'invalid' doesn't exist on type 'Query'",
                "path": ["repository", "discussion", "invalid"]
            }
        ]
    }"#;

    let client = GitHubClient::new(StubClient::boxed(vec![Ok(response.to_string())]));
    let result = client.execute_query("query {}", empty_variables());
    assert!(result.is_err());
    match result {
        Err(Error::GraphQL(msg)) => assert!(msg.contains("invalid")),
        _ => panic!("Expected GraphQL error"),
    }
}

#[test]
fn test_http_401_error() {
    let client = GitHubClient::new(StubClient::boxed(vec![Err(Error::Authentication)]));
    let result = client.execute_query("query {}", empty_variables());
    assert!(result.is_err());
    match result {
        Err(Error::Authentication) => {}
        _ => panic!("Expected Authentication error"),
    }
}

#[test]
fn test_http_403_rate_limit_error() {
    let client = GitHubClient::new(StubClient::boxed(vec![Err(Error::RateLimit)]));
    let result = client.execute_query("query {}", empty_variables());
    assert!(result.is_err());
    match result {
        Err(Error::RateLimit) => {}
        _ => panic!("Expected RateLimit error"),
    }
}

#[test]
fn test_missing_data_field() {
    let client = GitHubClient::new(StubClient::boxed(vec![Ok("{}".to_string())]));
    let result = client.execute_query("query {}", empty_variables());
    assert!(result.is_err());
    match result {
        Err(Error::JsonParse(msg)) => assert!(msg.contains("data")),
        _ => panic!("Expected JsonParse error"),
    }
}

#[test]
fn test_missing_repository_field() {
    let client =
        GitHubClient::new(StubClient::boxed(vec![Ok(r#"{"data": {}}"#.to_string())]));
    let result = client.execute_query("query {}", empty_variables());
    assert!(result.is_err());
    match result {
        Err(Error::JsonParse(msg)) => assert!(msg.to_lowercase().contains("repository")),
        _ => panic!("Expected JsonParse error"),
    }
}

#[test]
fn test_null_discussion_field() {
    let response = r#"{"data": {"repository": {"discussion": null}}}"#;
    let client = GitHubClient::new(StubClient::boxed(vec![Ok(response.to_string())]));
    let result = client.execute_query("query {}", empty_variables());
    assert!(result.is_err());
    match result {
        Err(Error::JsonParse(msg)) => assert!(msg.to_lowercase().contains("discussion")),
        _ => panic!("Expected JsonParse error"),
    }
}

#[test]
fn test_http_403_permission_denied_error() {
    let client = GitHubClient::new(StubClient::boxed(vec![Err(Error::PermissionDenied(
        "Access denied".to_string(),
    ))]));
    let result = client.execute_query("query {}", empty_variables());
    assert!(result.is_err());
    match result {
        Err(Error::PermissionDenied(msg)) => assert!(msg.contains("Access denied")),
        _ => panic!("Expected PermissionDenied error"),
    }
}

#[test]
fn test_unparseable_response_body() {
    let client =
        GitHubClient::new(StubClient::boxed(vec![Ok("this is not json".to_string())]));
    let result = client.execute_query_raw("query {}", empty_variables());
    match result {
        Err(Error::JsonParse(msg)) => assert!(msg.starts_with("Failed to parse JSON: ")),
        _ => panic!("Expected JsonParse error"),
    }
}
