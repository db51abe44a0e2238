use gh_discussion_export::assets::collect_discussion_asset_urls;
use gh_discussion_export::models::{
    Author, Comment, CommentReplies, Discussion, DiscussionComments, PageInfo, Reply,
};
use gh_discussion_export::output::format_discussion;
use gh_discussion_export::transform::{transform_discussion_tree, AssetMap};

fn empty_page() -> PageInfo {
    PageInfo { has_next_page: false, end_cursor: None }
}

fn tree_with_assets() -> Discussion {
    Discussion {
        id: "D_1".to_string(),
        title: "Assets everywhere".to_string(),
        number: 9,
        url: "https://github.com/o/r/discussions/9".to_string(),
        created_at: "2024-01-01T00:00:00Z".to_string(),
        body: "![One](https://github.com/user-attachments/assets/u1)".to_string(),
        author: Some(Author { login: Some("owner".to_string()) }),
        comments: DiscussionComments {
            total_count: None,
            nodes: Some(vec![Some(Comment {
                id: "c1".to_string(),
                database_id: 1,
                author: Some(Author { login: Some("user".to_string()) }),
                created_at: "2024-01-01T01:00:00Z".to_string(),
                body: "<img src=\"https://github.com/user-attachments/assets/u2\" alt=\"Two\" />"
                    .to_string(),
                replies: CommentReplies {
                    total_count: None,
                    nodes: Some(vec![Some(Reply {
                        id: "r1".to_string(),
                        database_id: 11,
                        author: Some(Author { login: Some("user".to_string()) }),
                        created_at: "2024-01-01T02:00:00Z".to_string(),
                        body: "![One again](https://github.com/user-attachments/assets/u1)"
                            .to_string(),
                    })]),
                    page_info: empty_page(),
                },
            })]),
            page_info: empty_page(),
        },
    }
}

#[test]
fn test_collect_discussion_asset_urls_in_document_order() {
    let d = tree_with_assets();
    let urls = collect_discussion_asset_urls(&d);
    assert_eq!(
        urls,
        vec![
            "https://github.com/user-attachments/assets/u1".to_string(),
            "https://github.com/user-attachments/assets/u2".to_string(),
            "https://github.com/user-attachments/assets/u1".to_string(),
        ]
    );
}

#[test]
fn test_transform_discussion_tree_rewrites_all_bodies() {
    let d = tree_with_assets();
    let mut map = AssetMap::new();
    map.insert("u1".to_string(), "9-discussion-assets/u1.png".to_string());
    map.insert("u2".to_string(), "9-discussion-assets/u2.gif".to_string());

    let t = transform_discussion_tree(d, &map);

    assert!(t.body.contains("](9-discussion-assets/u1.png)"));
    assert!(t.body.contains("<!-- https://github.com/user-attachments/assets/u1 -->"));
    let nodes = t.comments.nodes.as_ref().unwrap();
    let c = nodes[0].as_ref().unwrap();
    assert!(c.body.contains("src=\"9-discussion-assets/u2.gif\""));
    assert!(c.body.contains("data-original-url=\"https://github.com/user-attachments/assets/u2\""));
    let r = c.replies.nodes.as_ref().unwrap()[0].as_ref().unwrap();
    assert!(r.body.contains("](9-discussion-assets/u1.png)"));
}

#[test]
fn test_transform_discussion_tree_keeps_metadata() {
    let d = tree_with_assets();
    let map = AssetMap::new();
    let t = transform_discussion_tree(d.clone(), &map);
    assert_eq!(t.id, d.id);
    assert_eq!(t.title, d.title);
    assert_eq!(t.number, d.number);
    assert_eq!(t.url, d.url);
    assert_eq!(t.created_at, d.created_at);
    assert_eq!(t.author, d.author);
    assert_eq!(t.body, d.body);
}

#[test]
fn test_pipeline_produces_document_with_local_paths() {
    let d = tree_with_assets();
    let mut map = AssetMap::new();
    map.insert("u1".to_string(), "9-discussion-assets/u1.png".to_string());
    map.insert("u2".to_string(), "9-discussion-assets/u2.gif".to_string());

    let t = transform_discussion_tree(d, &map);
    let doc = format_discussion(&t, "o", "r");

    assert!(doc.contains("# Assets everywhere"));
    assert!(doc.contains("## Original Post"));
    assert!(doc.contains("### Comment 1"));
    assert!(doc.contains("#### Reply 1.1"));
    assert!(doc.contains("](9-discussion-assets/u1.png)"));
    assert!(doc.contains("src=\"9-discussion-assets/u2.gif\""));
}
