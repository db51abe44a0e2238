use gh_discussion_export::error::Error;

#[test]
fn test_error_github_cli_not_found_display() {
    let err = Error::GitHubCliNotFound;
    assert_eq!(
        err.message(),
        "GitHub CLI not found. Install from https://cli.github.com/"
    );
}

#[test]
fn test_error_authentication_display() {
    let err = Error::Authentication;
    assert_eq!(
        err.message(),
        "Failed to authenticate with GitHub CLI. Run 'gh auth login' to authenticate."
    );
}

#[test]
fn test_error_invalid_args_display() {
    let err = Error::InvalidArgs("missing required flag".to_string());
    assert_eq!(err.message(), "Invalid arguments: missing required flag");
}

#[test]
fn test_error_io_display() {
    let io_err = std::io::Error::new(std::io::ErrorKind::NotFound, "test file");
    let err = Error::from(io_err);
    assert_eq!(err.message(), "I/O error: test file");
}

#[test]
fn test_error_from_io_error() {
    let io_err = std::io::Error::new(std::io::ErrorKind::PermissionDenied, "access denied");
    let err: Error = io_err.into();
    assert!(matches!(err, Error::Io(_)));
}

#[test]
fn test_result_type_alias() {
    fn test_function() -> Result<String, Error> {
        Ok("test".to_string())
    }
    assert!(test_function().is_ok());
}

#[test]
fn test_result_type_alias_with_error() {
    fn test_function() -> Result<String, Error> {
        Err(Error::Authentication)
    }
    assert!(test_function().is_err());
}

#[test]
fn test_error_http_display() {
    let err = Error::Http("Connection failed".to_string());
    assert_eq!(err.message(), "HTTP request failed: Connection failed");
}

#[test]
fn test_error_graphql_display() {
    let err = Error::GraphQL("Syntax error".to_string());
    assert_eq!(err.message(), "GraphQL error: Syntax error");
}

#[test]
fn test_error_json_parse_display() {
    let err = Error::JsonParse("Unexpected token".to_string());
    assert_eq!(err.message(), "Failed to parse response: Unexpected token");
}

#[test]
fn test_error_rate_limit_display() {
    let err = Error::RateLimit;
    assert_eq!(
        err.message(),
        "GitHub API rate limit exceeded. Please wait before trying again."
    );
}

#[test]
fn test_error_permission_denied_display() {
    let err = Error::PermissionDenied("Access denied: details".to_string());
    assert_eq!(err.message(), "Permission denied: Access denied: details");
}

#[test]
fn test_error_api_invariant_display() {
    let err = Error::ApiInvariant("hasNextPage was true but endCursor was null".to_string());
    assert_eq!(
        err.message(),
        "API invariant violation: hasNextPage was true but endCursor was null"
    );
}
