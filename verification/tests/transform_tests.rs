use gh_discussion_export::transform::{
    transform_html_img_tags, transform_markdown_images, transform_discussion_body,
    transform_comment_body, transform_reply_body, AssetMap,
};

fn map_of(entries: &[(&str, &str)]) -> AssetMap {
    let mut m = AssetMap::new();
    for (k, v) in entries {
        m.insert(k.to_string(), v.to_string());
    }
    m
}

#[test]
fn test_transform_html_img_tag_with_local_path() {
    let html = r#"<img src="https://github.com/user-attachments/assets/6c72b402-4a5c-45cc-9b0a-50717f8a09a7" alt="Diagram" />"#;
    let asset_map = map_of(&[(
        "6c72b402-4a5c-45cc-9b0a-50717f8a09a7",
        "1041-discussion-assets/6c72b402-4a5c-45cc-9b0a-50717f8a09a7.png",
    )]);

    let result = transform_html_img_tags(html, &asset_map);

    assert!(result
        .contains("src=\"1041-discussion-assets/6c72b402-4a5c-45cc-9b0a-50717f8a09a7.png\""));
    assert!(result.contains("data-original-url=\"https://github.com/user-attachments/assets/6c72b402-4a5c-45cc-9b0a-50717f8a09a7\""));
    assert!(result.contains("alt=\"Diagram\""));
}

#[test]
fn test_transform_html_img_tag_preserves_all_attributes() {
    let html = r#"<img src="https://github.com/user-attachments/assets/6c72b402-4a5c-45cc-9b0a-50717f8a09a7" alt="ER図" width="1192" height="861" loading="lazy" />"#;
    let asset_map = map_of(&[(
        "6c72b402-4a5c-45cc-9b0a-50717f8a09a7",
        "1041-discussion-assets/6c72b402-4a5c-45cc-9b0a-50717f8a09a7.png",
    )]);

    let result = transform_html_img_tags(html, &asset_map);

    assert!(result
        .contains("src=\"1041-discussion-assets/6c72b402-4a5c-45cc-9b0a-50717f8a09a7.png\""));
    assert!(result.contains("alt=\"ER図\""));
    assert!(result.contains("width=\"1192\""));
    assert!(result.contains("height=\"861\""));
    assert!(result.contains("loading=\"lazy\""));
    assert!(result.contains("data-original-url"));
}

#[test]
fn test_transform_html_img_tag_no_github_assets() {
    let html = r#"<img src="https://example.com/image.png" alt="External" />"#;
    let asset_map = AssetMap::new();

    let result = transform_html_img_tags(html, &asset_map);

    assert_eq!(result, html);
}

#[test]
fn test_transform_html_img_tag_multiple_images() {
    let html = r#"
<img src="https://github.com/user-attachments/assets/6c72b402-4a5c-45cc-9b0a-50717f8a09a7" alt="First" />
<img src="https://github.com/user-attachments/assets/7d83c513-5b6d-46dd-a01b-61728e8b0a8b" alt="Second" />
"#;
    let asset_map = map_of(&[
        (
            "6c72b402-4a5c-45cc-9b0a-50717f8a09a7",
            "1041-discussion-assets/6c72b402-4a5c-45cc-9b0a-50717f8a09a7.png",
        ),
        (
            "7d83c513-5b6d-46dd-a01b-61728e8b0a8b",
            "1041-discussion-assets/7d83c513-5b6d-46dd-a01b-61728e8b0a8b.jpg",
        ),
    ]);

    let result = transform_html_img_tags(html, &asset_map);

    assert!(result
        .contains("src=\"1041-discussion-assets/6c72b402-4a5c-45cc-9b0a-50717f8a09a7.png\""));
    assert!(result
        .contains("src=\"1041-discussion-assets/7d83c513-5b6d-46dd-a01b-61728e8b0a8b.jpg\""));
    assert!(result.contains("alt=\"First\""));
    assert!(result.contains("alt=\"Second\""));
}

#[test]
fn test_transform_markdown_image_with_local_path() {
    let text = "![ER図](https://github.com/user-attachments/assets/6c72b402-4a5c-45cc-9b0a-50717f8a09a7)";
    let asset_map = map_of(&[(
        "6c72b402-4a5c-45cc-9b0a-50717f8a09a7",
        "1041-discussion-assets/6c72b402-4a5c-45cc-9b0a-50717f8a09a7.png",
    )]);

    let result = transform_markdown_images(text, &asset_map);

    assert!(result.contains("](1041-discussion-assets/6c72b402-4a5c-45cc-9b0a-50717f8a09a7.png)"));
    assert!(result.contains("<!-- https://github.com/user-attachments/assets/6c72b402-4a5c-45cc-9b0a-50717f8a09a7 -->"));
}

#[test]
fn test_transform_markdown_image_with_existing_title() {
    let text = "![ER図](https://github.com/user-attachments/assets/6c72b402-4a5c-45cc-9b0a-50717f8a09a7 \"Existing title\")";
    let asset_map = map_of(&[(
        "6c72b402-4a5c-45cc-9b0a-50717f8a09a7",
        "1041-discussion-assets/6c72b402-4a5c-45cc-9b0a-50717f8a09a7.png",
    )]);

    let result = transform_markdown_images(text, &asset_map);

    assert!(result.contains(
        "](1041-discussion-assets/6c72b402-4a5c-45cc-9b0a-50717f8a09a7.png \"Existing title\")"
    ));
    assert!(result.contains("<!-- https://github.com/user-attachments/assets/6c72b402-4a5c-45cc-9b0a-50717f8a09a7 -->"));
}

#[test]
fn test_transform_markdown_image_preserves_title() {
    let text = "![ER図](https://github.com/user-attachments/assets/6c72b402-4a5c-45cc-9b0a-50717f8a09a7 \"Existing title\")";
    let asset_map = map_of(&[(
        "6c72b402-4a5c-45cc-9b0a-50717f8a09a7",
        "1041-discussion-assets/6c72b402-4a5c-45cc-9b0a-50717f8a09a7.png",
    )]);

    let result = transform_markdown_images(text, &asset_map);

    assert!(result.contains("\"Existing title\")"));
}

#[test]
fn test_transform_markdown_image_no_github_assets() {
    let text = "![External](https://example.com/image.png)";
    let asset_map = AssetMap::new();

    let result = transform_markdown_images(text, &asset_map);

    assert_eq!(result, text);
}

#[test]
fn test_transform_markdown_image_multiple_images() {
    let text = r#"
![Image1](https://github.com/user-attachments/assets/6c72b402-4a5c-45cc-9b0a-50717f8a09a7)
![Image2](https://github.com/user-attachments/assets/7d83c513-5b6d-46dd-a01b-61728e8b0a8b)
"#;
    let asset_map = map_of(&[
        (
            "6c72b402-4a5c-45cc-9b0a-50717f8a09a7",
            "1041-discussion-assets/6c72b402-4a5c-45cc-9b0a-50717f8a09a7.png",
        ),
        (
            "7d83c513-5b6d-46dd-a01b-61728e8b0a8b",
            "1041-discussion-assets/7d83c513-5b6d-46dd-a01b-61728e8b0a8b.jpg",
        ),
    ]);

    let result = transform_markdown_images(text, &asset_map);

    assert!(result.contains("](1041-discussion-assets/6c72b402-4a5c-45cc-9b0a-50717f8a09a7.png)"));
    assert!(result.contains("](1041-discussion-assets/7d83c513-5b6d-46dd-a01b-61728e8b0a8b.jpg)"));
    assert!(result.contains("<!-- https://github.com/user-attachments/assets/6c72b402-4a5c-45cc-9b0a-50717f8a09a7 -->"));
    assert!(result.contains("<!-- https://github.com/user-attachments/assets/7d83c513-5b6d-46dd-a01b-61728e8b0a8b -->"));
}

#[test]
fn test_original_url_preserved_in_html_output() {
    let html = r#"<img src="https://github.com/user-attachments/assets/6c72b402-4a5c-45cc-9b0a-50717f8a09a7" alt="Diagram" />"#;
    let asset_map = map_of(&[(
        "6c72b402-4a5c-45cc-9b0a-50717f8a09a7",
        "1041-discussion-assets/6c72b402-4a5c-45cc-9b0a-50717f8a09a7.png",
    )]);

    let result = transform_html_img_tags(html, &asset_map);

    assert!(result.contains("data-original-url=\"https://github.com/user-attachments/assets/6c72b402-4a5c-45cc-9b0a-50717f8a09a7\""));
}

#[test]
fn test_original_url_preserved_in_markdown_output() {
    let text = "![Diagram](https://github.com/user-attachments/assets/6c72b402-4a5c-45cc-9b0a-50717f8a09a7)";
    let asset_map = map_of(&[(
        "6c72b402-4a5c-45cc-9b0a-50717f8a09a7",
        "1041-discussion-assets/6c72b402-4a5c-45cc-9b0a-50717f8a09a7.png",
    )]);

    let result = transform_markdown_images(text, &asset_map);

    assert!(result.contains("<!-- https://github.com/user-attachments/assets/6c72b402-4a5c-45cc-9b0a-50717f8a09a7 -->"));
}

#[test]
fn test_transform_discussion_body() {
    let body = r#"
<img src="https://github.com/user-attachments/assets/6c72b402-4a5c-45cc-9b0a-50717f8a09a7" alt="HTML Image" />
![Markdown Image](https://github.com/user-attachments/assets/7d83c513-5b6d-46dd-a01b-61728e8b0a8b)
"#;
    let asset_map = map_of(&[
        (
            "6c72b402-4a5c-45cc-9b0a-50717f8a09a7",
            "1041-discussion-assets/6c72b402-4a5c-45cc-9b0a-50717f8a09a7.png",
        ),
        (
            "7d83c513-5b6d-46dd-a01b-61728e8b0a8b",
            "1041-discussion-assets/7d83c513-5b6d-46dd-a01b-61728e8b0a8b.jpg",
        ),
    ]);

    let result = transform_discussion_body(body, &asset_map);

    assert!(result
        .contains("src=\"1041-discussion-assets/6c72b402-4a5c-45cc-9b0a-50717f8a09a7.png\""));
    assert!(result.contains("](1041-discussion-assets/7d83c513-5b6d-46dd-a01b-61728e8b0a8b.jpg)"));
}

#[test]
fn test_transform_comment_body() {
    let body = "![Comment Image](https://github.com/user-attachments/assets/6c72b402-4a5c-45cc-9b0a-50717f8a09a7)";
    let asset_map = map_of(&[(
        "6c72b402-4a5c-45cc-9b0a-50717f8a09a7",
        "1041-discussion-assets/6c72b402-4a5c-45cc-9b0a-50717f8a09a7.png",
    )]);

    let result = transform_comment_body(body, &asset_map);

    assert!(result.contains("](1041-discussion-assets/6c72b402-4a5c-45cc-9b0a-50717f8a09a7.png)"));
    assert!(result.contains("<!-- https://github.com/user-attachments/assets/6c72b402-4a5c-45cc-9b0a-50717f8a09a7 -->"));
}

#[test]
fn test_transform_reply_body() {
    let body = "<img src=\"https://github.com/user-attachments/assets/6c72b402-4a5c-45cc-9b0a-50717f8a09a7\" alt=\"Reply\" />";
    let asset_map = map_of(&[(
        "6c72b402-4a5c-45cc-9b0a-50717f8a09a7",
        "1041-discussion-assets/6c72b402-4a5c-45cc-9b0a-50717f8a09a7.png",
    )]);

    let result = transform_reply_body(body, &asset_map);

    assert!(result
        .contains("src=\"1041-discussion-assets/6c72b402-4a5c-45cc-9b0a-50717f8a09a7.png\""));
    assert!(result.contains("data-original-url"));
}

#[test]
fn test_transform_preserves_trailing_newline() {
    let text = "![Image](https://github.com/user-attachments/assets/6c72b402-4a5c-45cc-9b0a-50717f8a09a7)\n";
    let asset_map = map_of(&[(
        "6c72b402-4a5c-45cc-9b0a-50717f8a09a7",
        "1041-discussion-assets/6c72b402-4a5c-45cc-9b0a-50717f8a09a7.png",
    )]);

    let result = transform_markdown_images(text, &asset_map);

    assert!(result.ends_with('\n'));
}

#[test]
fn test_transform_untouched_with_empty_map() {
    let text = "Some prose, ![Alt](https://example.com/x.png), and a\nsecond line.";
    let asset_map = AssetMap::new();
    assert_eq!(transform_markdown_images(text, &asset_map), text);
    assert_eq!(transform_discussion_body(text, &asset_map), text);
}

#[test]
fn test_transform_keeps_carriage_returns_untouched() {
    let text = "line one\r\nline two\r";
    let empty = AssetMap::new();
    assert_eq!(transform_markdown_images(text, &empty), text);
    assert_eq!(transform_discussion_body(text, &empty), text);

    let with_ref =
        "before\r\n![A](https://github.com/user-attachments/assets/u1)\r\nafter\r";
    let with_map = map_of(&[("u1", "dir/u1.png")]);
    let result = transform_markdown_images(with_ref, &with_map);
    assert_eq!(
        result,
        "before\r\n![A](dir/u1.png)<!-- https://github.com/user-attachments/assets/u1 -->\r\nafter\r"
    );
}

#[test]
fn test_transform_construct_never_spans_lines() {
    let text = "![A](https://github.com/user-attachments/assets/\nu1)";
    let with_map = map_of(&[("u1", "dir/u1.png")]);
    assert_eq!(transform_markdown_images(text, &with_map), text);
}

#[test]
fn test_transform_unmapped_identifier_untouched() {
    let text = "![Alt](https://github.com/user-attachments/assets/not-downloaded)";
    let asset_map = map_of(&[("some-other-uuid", "dir/some-other-uuid.png")]);
    assert_eq!(transform_markdown_images(text, &asset_map), text);
}
