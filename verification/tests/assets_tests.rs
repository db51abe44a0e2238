use gh_discussion_export::assets::{
    extract_asset_uuid, detect_asset_urls, detect_markdown_assets, dedupe_asset_urls,
    content_type_to_extension, normalize_content_type, extension_from_header, validate_asset_url,
    classify_asset_status, classify_metadata_status, asset_failure_error, AssetFailure,
    asset_filename, local_asset_path, download_action, DownloadAction,
};
use gh_discussion_export::error::{categorize_io_error, Error};
use std::io::ErrorKind;

#[test]
fn test_extract_uuid_valid_url() {
    let url = "https://github.com/user-attachments/assets/6c72b402-4a5c-45cc-9b0a-50717f8a09a7";
    assert_eq!(
        extract_asset_uuid(url),
        Some("6c72b402-4a5c-45cc-9b0a-50717f8a09a7".to_string())
    );
}

#[test]
fn test_extract_uuid_non_github_url() {
    let url = "https://example.com/image.png";
    assert_eq!(extract_asset_uuid(url), None);
}

#[test]
fn test_extract_uuid_empty_string() {
    assert_eq!(extract_asset_uuid(""), None);
}

#[test]
fn test_extract_uuid_rejects_malicious_domain() {
    let malicious_url = "https://evil.com/github.com/user-attachments/assets/steal-token";
    assert_eq!(extract_asset_uuid(malicious_url), None);
}

#[test]
fn test_extract_uuid_rejects_http_not_https() {
    let http_url =
        "http://github.com/user-attachments/assets/6c72b402-4a5c-45cc-9b0a-50717f8a09a7";
    assert_eq!(extract_asset_uuid(http_url), None);
}

#[test]
fn test_extract_uuid_rejects_subdomain_attack() {
    let subdomain_url =
        "https://fake-github.com/user-attachments/assets/6c72b402-4a5c-45cc-9b0a-50717f8a09a7";
    assert_eq!(extract_asset_uuid(subdomain_url), None);
}

#[test]
fn test_extract_uuid_empty_segment() {
    assert_eq!(
        extract_asset_uuid("https://github.com/user-attachments/assets/"),
        None
    );
    assert_eq!(
        extract_asset_uuid("https://github.com/user-attachments/assets//trailing"),
        None
    );
}

#[test]
fn test_extract_uuid_stops_at_path_separator() {
    assert_eq!(
        extract_asset_uuid("https://github.com/user-attachments/assets/abc/def"),
        Some("abc".to_string())
    );
}

#[test]
fn test_detect_asset_urls_html_img_tag() {
    let html = r#"<img src="https://github.com/user-attachments/assets/6c72b402-4a5c-45cc-9b0a-50717f8a09a7" alt="Diagram" />"#;
    let urls = detect_asset_urls(html);
    assert_eq!(urls.len(), 1);
    assert_eq!(
        urls[0],
        "https://github.com/user-attachments/assets/6c72b402-4a5c-45cc-9b0a-50717f8a09a7"
    );
}

#[test]
fn test_detect_asset_urls_no_assets() {
    let html = r#"<p>This is a paragraph without images.</p>"#;
    let urls = detect_asset_urls(html);
    assert_eq!(urls.len(), 0);
}

#[test]
fn test_detect_markdown_assets_single_image() {
    let text = "![Diagram](https://github.com/user-attachments/assets/6c72b402-4a5c-45cc-9b0a-50717f8a09a7)";
    let urls = detect_markdown_assets(text);
    assert_eq!(urls.len(), 1);
    assert_eq!(
        urls[0],
        "https://github.com/user-attachments/assets/6c72b402-4a5c-45cc-9b0a-50717f8a09a7"
    );
}

#[test]
fn test_detect_markdown_assets_multiple_images() {
    let text = r#"
![Image1](https://github.com/user-attachments/assets/6c72b402-4a5c-45cc-9b0a-50717f8a09a7)
![Image2](https://github.com/user-attachments/assets/7d83c513-5b6d-46dd-a01b-61728e8b0a8b)
"#;
    let urls = detect_markdown_assets(text);
    assert_eq!(urls.len(), 2);
}

#[test]
fn test_detect_markdown_assets_no_images() {
    let text = "This is plain text without images.";
    let urls = detect_markdown_assets(text);
    assert_eq!(urls.len(), 0);
}

#[test]
fn test_detect_markdown_assets_ignores_external_images() {
    let text = "![External](https://example.com/image.png)";
    let urls = detect_markdown_assets(text);
    assert_eq!(urls.len(), 0);
}

#[test]
fn test_detect_markdown_assets_with_title() {
    let text = "![Shot](https://github.com/user-attachments/assets/uuid9 \"A title\")";
    let urls = detect_markdown_assets(text);
    assert_eq!(
        urls,
        vec!["https://github.com/user-attachments/assets/uuid9".to_string()]
    );
}

#[test]
fn test_dedupe_asset_urls_removes_duplicates() {
    let urls = vec![
        "https://github.com/user-attachments/assets/6c72b402-4a5c-45cc-9b0a-50717f8a09a7"
            .to_string(),
        "https://github.com/user-attachments/assets/6c72b402-4a5c-45cc-9b0a-50717f8a09a7"
            .to_string(),
        "https://github.com/user-attachments/assets/7d83c513-5b6d-46dd-a01b-61728e8b0a8b"
            .to_string(),
    ];
    let unique = dedupe_asset_urls(urls);
    assert_eq!(unique.len(), 2);
}

#[test]
fn test_dedupe_asset_urls_preserves_order() {
    let urls = vec![
        "https://github.com/user-attachments/assets/uuid1".to_string(),
        "https://github.com/user-attachments/assets/uuid2".to_string(),
        "https://github.com/user-attachments/assets/uuid1".to_string(),
    ];
    let unique = dedupe_asset_urls(urls);
    assert_eq!(unique.len(), 2);
    assert_eq!(unique[0], "https://github.com/user-attachments/assets/uuid1");
    assert_eq!(unique[1], "https://github.com/user-attachments/assets/uuid2");
}

#[test]
fn test_dedupe_asset_urls_empty_vector() {
    let urls: Vec<String> = vec![];
    let unique = dedupe_asset_urls(urls);
    assert_eq!(unique.len(), 0);
}

#[test]
fn test_content_type_to_extension_png() {
    assert_eq!(content_type_to_extension("image/png"), ".png");
}

#[test]
fn test_content_type_to_extension_jpeg() {
    assert_eq!(content_type_to_extension("image/jpeg"), ".jpg");
}

#[test]
fn test_content_type_to_extension_jpg() {
    assert_eq!(content_type_to_extension("image/jpg"), ".jpg");
}

#[test]
fn test_content_type_to_extension_svg() {
    assert_eq!(content_type_to_extension("image/svg+xml"), ".svg");
}

#[test]
fn test_content_type_to_extension_octet_stream() {
    assert_eq!(content_type_to_extension("application/octet-stream"), ".bin");
}

#[test]
fn test_content_type_to_extension_unknown() {
    assert_eq!(content_type_to_extension("application/unknown"), ".bin");
}

#[test]
fn test_content_type_to_extension_empty_string() {
    assert_eq!(content_type_to_extension(""), ".bin");
}

#[test]
fn test_content_type_to_extension_gif() {
    assert_eq!(content_type_to_extension("image/gif"), ".gif");
}

#[test]
fn test_content_type_to_extension_webp() {
    assert_eq!(content_type_to_extension("image/webp"), ".webp");
}

#[test]
fn test_content_type_to_extension_avif() {
    assert_eq!(content_type_to_extension("image/avif"), ".avif");
}

#[test]
fn test_categorize_io_error_permission_denied() {
    let error = std::io::Error::new(ErrorKind::PermissionDenied, "access denied");
    let result = categorize_io_error(error, "test");
    assert!(matches!(result, Error::Io(_)));
}

#[test]
fn test_categorize_io_error_storage_full_message() {
    let error = std::io::Error::new(ErrorKind::StorageFull, "no space");
    let result = categorize_io_error(error, "write file");
    match result {
        Error::Io(f) => assert_eq!(f.message, "Disk full or storage quota exceeded"),
        _ => panic!("Expected Error::Io"),
    }
}

#[test]
fn test_normalize_content_type_strips_charset() {
    assert_eq!(normalize_content_type("image/png; charset=utf-8"), "image/png");
    assert_eq!(normalize_content_type("  image/gif  "), "image/gif");
    assert_eq!(normalize_content_type(""), "");
}

#[test]
fn test_extension_from_header() {
    assert_eq!(extension_from_header(Some("image/png; charset=utf-8")), ".png");
    assert_eq!(extension_from_header(Some("text/plain")), ".bin");
    assert_eq!(extension_from_header(None), ".bin");
}

#[test]
fn test_validate_asset_url_accepts_asset() {
    let url = "https://github.com/user-attachments/assets/uuid1";
    assert_eq!(validate_asset_url(url).unwrap(), "uuid1");
}

#[test]
fn test_validate_asset_url_rejects_other() {
    let result = validate_asset_url("https://example.com/x.png");
    match result {
        Err(Error::Http(m)) => {
            assert_eq!(m, "Invalid GitHub asset URL: https://example.com/x.png")
        }
        _ => panic!("Expected Error::Http"),
    }
}

#[test]
fn test_classify_asset_status_cases() {
    let url = "https://github.com/user-attachments/assets/u";
    assert!(classify_asset_status(200, url).is_ok());
    assert!(matches!(
        classify_asset_status(401, url),
        Err(Error::Authentication)
    ));
    match classify_asset_status(404, url) {
        Err(Error::Http(m)) => assert!(m.starts_with("Asset not found (HTTP 404): ")),
        _ => panic!("Expected Error::Http"),
    }
    match classify_asset_status(403, url) {
        Err(Error::PermissionDenied(m)) => {
            assert!(m.starts_with("Authentication failed or access denied (HTTP 403): "))
        }
        _ => panic!("Expected Error::PermissionDenied"),
    }
    match classify_asset_status(500, url) {
        Err(Error::Http(m)) => assert_eq!(m, "Failed to download asset: HTTP 500"),
        _ => panic!("Expected Error::Http"),
    }
}

#[test]
fn test_classify_metadata_status_generic_message() {
    let url = "https://github.com/user-attachments/assets/u";
    match classify_metadata_status(502, url) {
        Err(Error::Http(m)) => assert_eq!(m, "Failed to get asset metadata: HTTP 502"),
        _ => panic!("Expected Error::Http"),
    }
}

#[test]
fn test_asset_failure_error_messages() {
    let url = "https://github.com/user-attachments/assets/u";
    match asset_failure_error(&AssetFailure::DownloadTimeout, url) {
        Error::Http(m) => assert_eq!(
            m,
            "Network timeout while downloading asset: https://github.com/user-attachments/assets/u"
        ),
        _ => panic!("Expected Error::Http"),
    }
    match asset_failure_error(&AssetFailure::DownloadConnect, url) {
        Error::Http(m) => assert!(m.starts_with("Failed to connect to server")),
        _ => panic!("Expected Error::Http"),
    }
    match asset_failure_error(&AssetFailure::BodyRead("boom".to_string()), url) {
        Error::Http(m) => assert_eq!(m, "Failed to read response body: boom"),
        _ => panic!("Expected Error::Http"),
    }
}

#[test]
fn test_asset_filename_and_local_path() {
    assert_eq!(asset_filename("uuid1", ".png"), "uuid1.png");
    assert_eq!(
        local_asset_path("42-discussion-assets", "uuid1", ".png"),
        "42-discussion-assets/uuid1.png"
    );
}

#[test]
fn test_download_action_skips_existing_file() {
    assert_eq!(download_action(true), DownloadAction::SkipExisting);
    assert_eq!(download_action(false), DownloadAction::Fetch);
}
