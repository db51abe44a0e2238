use gh_discussion_export::cli::{
    CliArgs, validate_positive_number, parse_repo_spec, clean_repo_detection_output,
};
use gh_discussion_export::error::Error;

fn args(number: u64, repo: Option<&str>, output: Option<&str>) -> CliArgs {
    CliArgs {
        number,
        repo: repo.map(|s| s.to_string()),
        output: output.map(|s| s.to_string()),
    }
}

#[test]
fn test_output_path_default() {
    let cli = args(42, None, None);
    assert_eq!(cli.output_path(), "42-discussion.md");
}

#[test]
fn test_output_path_custom() {
    let cli = args(42, None, Some("my-discussion.md"));
    assert_eq!(cli.output_path(), "my-discussion.md");
}

#[test]
fn test_repo_owner_with_explicit_repo() {
    let cli = args(123, Some("rust-lang/rust"), None);
    assert_eq!(cli.repo_owner().unwrap(), "rust-lang");
}

#[test]
fn test_repo_owner_with_git_suffix() {
    let cli = args(123, Some("rust-lang/rust.git"), None);
    assert_eq!(cli.repo_owner().unwrap(), "rust-lang");
}

#[test]
fn test_repo_name_with_explicit_repo() {
    let cli = args(123, Some("rust-lang/rust"), None);
    assert_eq!(cli.repo_name().unwrap(), "rust");
}

#[test]
fn test_repo_name_with_git_suffix() {
    let cli = args(123, Some("rust-lang/rust.git"), None);
    assert_eq!(cli.repo_name().unwrap(), "rust");
}

#[test]
fn test_repo_owner_invalid_format() {
    let cli = args(123, Some("invalid-format"), None);
    assert!(cli.repo_owner().is_err());
}

#[test]
fn test_repo_name_invalid_format() {
    let cli = args(123, Some("invalid-format"), None);
    assert!(cli.repo_name().is_err());
}

#[test]
fn test_repo_components_multiple_slashes() {
    let cli = args(123, Some("rust-lang/rust/extra"), None);
    assert!(cli.repo_components().is_err());
}

#[test]
fn test_repo_components_empty_owner() {
    let cli = args(123, Some("/repo"), None);
    assert!(cli.repo_components().is_err());
}

#[test]
fn test_repo_components_empty_name() {
    let cli = args(123, Some("owner/"), None);
    assert!(cli.repo_components().is_err());
}

#[test]
fn test_repo_components_both_empty() {
    let cli = args(123, Some("/"), None);
    assert!(cli.repo_components().is_err());
}

#[test]
fn test_repo_components_with_explicit_repo() {
    let cli = args(123, Some("rust-lang/rust"), None);
    let (owner, name) = cli.repo_components().unwrap();
    assert_eq!(owner, "rust-lang");
    assert_eq!(name, "rust");
}

#[test]
fn test_repo_components_without_repo() {
    let cli = args(123, None, None);
    match cli.repo_components() {
        Err(Error::InvalidArgs(m)) => {
            assert_eq!(m, "Repository must be in OWNER/REPO format")
        }
        _ => panic!("Expected Error::InvalidArgs"),
    }
}

#[test]
fn test_validate_positive_number_accepts() {
    assert_eq!(validate_positive_number("123").unwrap(), 123);
    assert_eq!(validate_positive_number("1").unwrap(), 1);
    assert_eq!(validate_positive_number("+42").unwrap(), 42);
}

#[test]
fn test_validate_positive_number_rejects_zero() {
    assert!(validate_positive_number("0").is_err());
}

#[test]
fn test_validate_positive_number_rejects_junk() {
    assert!(validate_positive_number("").is_err());
    assert!(validate_positive_number("abc").is_err());
    assert!(validate_positive_number("-3").is_err());
    assert!(validate_positive_number("12x").is_err());
    assert!(validate_positive_number("+").is_err());
    assert!(validate_positive_number("++1").is_err());
    assert!(validate_positive_number("99999999999999999999999999").is_err());
}

#[test]
fn test_parse_repo_spec_plain() {
    assert_eq!(
        parse_repo_spec("owner/repo"),
        Some(("owner".to_string(), "repo".to_string()))
    );
    assert_eq!(parse_repo_spec("owner"), None);
}

#[test]
fn test_clean_repo_detection_output_trims() {
    assert_eq!(
        clean_repo_detection_output("  owner/repo  \n").unwrap(),
        "owner/repo"
    );
}

#[test]
fn test_clean_repo_detection_output_empty() {
    match clean_repo_detection_output("   \n  ") {
        Err(Error::InvalidArgs(msg)) => assert!(msg.contains("Could not detect repository")),
        _ => panic!("Expected Error::InvalidArgs"),
    }
}
