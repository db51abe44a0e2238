use gh_discussion_export::models::{
    Author, Comment, CommentReplies, Discussion, DiscussionComments, PageInfo, Reply,
};
use gh_discussion_export::output::{
    escape_headings, normalize_crlf, process_body, display_timestamp, generate_header,
    generate_original_post, generate_comments, format_discussion, get_author_login,
};

fn empty_page() -> PageInfo {
    PageInfo { has_next_page: false, end_cursor: None }
}

fn make_discussion() -> Discussion {
    Discussion {
        id: "test_id".to_string(),
        title: "Test Discussion".to_string(),
        number: 123,
        url: "https://github.com/owner/repo/discussions/123".to_string(),
        created_at: "2024-01-15T10:30:00Z".to_string(),
        body: "This is the original post body.".to_string(),
        author: Some(Author { login: Some("testuser".to_string()) }),
        comments: DiscussionComments { total_count: None, nodes: None, page_info: empty_page() },
    }
}

fn make_comment(login: Option<&str>, body: &str) -> Comment {
    Comment {
        id: "comment_id".to_string(),
        database_id: 1,
        author: login.map(|l| Author { login: Some(l.to_string()) }),
        created_at: "2024-01-15T11:00:00Z".to_string(),
        body: body.to_string(),
        replies: CommentReplies {
            total_count: None,
            nodes: Some(vec![]),
            page_info: empty_page(),
        },
    }
}

fn make_reply(login: Option<&str>, body: &str) -> Reply {
    Reply {
        id: "reply_id".to_string(),
        database_id: 2,
        author: login.map(|l| Author { login: Some(l.to_string()) }),
        created_at: "2024-01-15T12:00:00Z".to_string(),
        body: body.to_string(),
    }
}

#[test]
fn test_generate_header_with_all_fields() {
    let discussion = make_discussion();
    let header = generate_header(&discussion, "owner", "repo");

    assert!(header.contains("# Test Discussion"));
    assert!(header.contains("Discussion: owner/repo#123"));
    assert!(header.contains("URL: https://github.com/owner/repo/discussions/123"));
    assert!(header.contains("Created at: 2024-01-15 10:30:00 UTC"));
    assert!(header.contains("Author: testuser"));
    assert!(header.ends_with("---\n"));
}

#[test]
fn test_generate_header_with_deleted_author() {
    let mut discussion = make_discussion();
    discussion.author = None;
    let header = generate_header(&discussion, "owner", "repo");

    assert!(header.contains("Author: <deleted>"));
}

#[test]
fn test_generate_original_post() {
    let discussion = make_discussion();
    let post = generate_original_post(&discussion);

    assert!(post.contains("## Original Post"));
    assert!(post.contains("_author: testuser (2024-01-15 10:30:00 UTC)_"));
    assert!(post.contains("This is the original post body."));
    assert!(post.ends_with("---\n"));
}

#[test]
fn test_generate_original_post_with_deleted_author() {
    let mut discussion = make_discussion();
    discussion.author = None;
    let post = generate_original_post(&discussion);

    assert!(post.contains("_author: <deleted>"));
    assert!(post.contains("This is the original post body."));
}

#[test]
fn test_generate_comments_with_multiple_comments() {
    let mut discussion = make_discussion();
    let comment1 = make_comment(Some("user1"), "First comment");
    let comment2 = make_comment(Some("user2"), "Second comment");

    discussion.comments.nodes = Some(vec![Some(comment1), Some(comment2)]);
    let comments = generate_comments(&discussion);

    assert!(comments.contains("## Comments"));
    assert!(comments.contains("### Comment 1"));
    assert!(comments.contains("First comment"));
    assert!(comments.contains("### Comment 2"));
    assert!(comments.contains("Second comment"));
}

#[test]
fn test_generate_comments_with_no_comments() {
    let mut discussion = make_discussion();
    discussion.comments.nodes = Some(vec![]);
    let comments = generate_comments(&discussion);

    assert!(comments.contains("## Comments"));
    assert!(!comments.contains("### Comment"));
    assert!(!comments.contains("#### Reply"));
}

#[test]
fn test_heading_escape() {
    let input = "## This is a heading\nRegular text\n### Another heading";
    let escaped = escape_headings(input);

    assert_eq!(
        escaped,
        "\\## This is a heading\nRegular text\n\\### Another heading"
    );
}

#[test]
fn test_escape_headings_preserves_trailing_newline() {
    let input = "# Heading\nContent\n";
    let escaped = escape_headings(input);

    assert!(escaped.ends_with('\n'), "trailing newline should be preserved");
    assert_eq!(escaped, "\\# Heading\nContent\n");
}

#[test]
fn test_crlf_normalization() {
    let input = "Line 1\r\nLine 2\r\nLine 3";
    let normalized = normalize_crlf(input);

    assert_eq!(normalized, "Line 1\nLine 2\nLine 3");
    assert!(!normalized.contains("\r\n"));
}

#[test]
fn test_lone_cr_normalization() {
    let input = "Line 1\rLine 2\r\nLine 3\rLine 4";
    let normalized = normalize_crlf(input);

    assert_eq!(normalized, "Line 1\nLine 2\nLine 3\nLine 4");
    assert!(!normalized.contains('\r'));
}

#[test]
fn test_process_body_verbatim_with_heading_escape() {
    let input = "# Heading in body\nRegular text\n## Another heading";
    let processed = process_body(input);

    assert!(processed.contains("\\# Heading in body"));
    assert!(processed.contains("\\## Another heading"));
    assert!(processed.contains("Regular text"));
}

#[test]
fn test_process_body_crlf_normalization() {
    let input = "Line 1\r\nLine 2\r\nLine 3";
    let processed = process_body(input);

    assert!(!processed.contains("\r\n"));
    assert!(processed.contains("Line 1\nLine 2\nLine 3"));
}

#[test]
fn test_process_body_heading_escape_keeps_newline() {
    let processed = process_body("# Heading\nbody text");
    assert_eq!(processed, "\\# Heading\nbody text");
    let processed = process_body("# Heading\nbody text\n");
    assert_eq!(processed, "\\# Heading\nbody text\n");
}

#[test]
fn test_format_discussion_complete_output() {
    let discussion = make_discussion();
    let formatted = format_discussion(&discussion, "owner", "repo");

    assert!(formatted.contains("# Test Discussion"));
    assert!(formatted.contains("## Original Post"));
    assert!(formatted.contains("## Comments"));
    assert!(formatted.contains("---"));
}

#[test]
fn test_heading_hierarchy() {
    let mut discussion = make_discussion();
    let mut comment = make_comment(Some("user1"), "Comment body");
    let reply = make_reply(Some("replier"), "Reply body");

    comment.replies.nodes = Some(vec![Some(reply)]);
    discussion.comments.nodes = Some(vec![Some(comment)]);

    let formatted = format_discussion(&discussion, "owner", "repo");

    assert!(formatted.contains("# Test Discussion"));
    assert!(formatted.contains("## Original Post"));
    assert!(formatted.contains("## Comments"));
    assert!(formatted.contains("### Comment 1"));
    assert!(formatted.contains("#### Reply 1.1"));
}

#[test]
fn test_replies_with_proper_nesting() {
    let mut discussion = make_discussion();
    let mut comment1 = make_comment(Some("user1"), "Comment 1");
    let mut comment2 = make_comment(Some("user2"), "Comment 2");

    let mut reply1_1 = make_reply(Some("replier1"), "Reply 1.1");
    reply1_1.id = "reply_1_1".to_string();
    let mut reply1_2 = make_reply(Some("replier2"), "Reply 1.2");
    reply1_2.id = "reply_1_2".to_string();
    reply1_2.created_at = "2024-01-15T12:30:00Z".to_string();
    let mut reply2_1 = make_reply(Some("replier3"), "Reply 2.1");
    reply2_1.id = "reply_2_1".to_string();
    reply2_1.created_at = "2024-01-15T13:00:00Z".to_string();

    comment1.replies.nodes = Some(vec![Some(reply1_1), Some(reply1_2)]);
    comment2.replies.nodes = Some(vec![Some(reply2_1)]);
    discussion.comments.nodes = Some(vec![Some(comment1), Some(comment2)]);

    let formatted = format_discussion(&discussion, "owner", "repo");

    assert!(formatted.contains("### Comment 1"));
    assert!(formatted.contains("#### Reply 1.1"));
    assert!(formatted.contains("Reply 1.1"));
    assert!(formatted.contains("#### Reply 1.2"));
    assert!(formatted.contains("Reply 1.2"));
    assert!(formatted.contains("### Comment 2"));
    assert!(formatted.contains("#### Reply 2.1"));
    assert!(formatted.contains("Reply 2.1"));
}

#[test]
fn test_comment_with_no_replies() {
    let mut discussion = make_discussion();
    let comment = make_comment(Some("user1"), "Comment without replies");

    discussion.comments.nodes = Some(vec![Some(comment)]);
    let formatted = format_discussion(&discussion, "owner", "repo");

    assert!(formatted.contains("### Comment 1"));
    assert!(formatted.contains("Comment without replies"));
    assert!(!formatted.contains("#### Reply"));
}

#[test]
fn test_deleted_author_in_comment() {
    let mut discussion = make_discussion();
    let comment = make_comment(None, "Comment from deleted user");

    discussion.comments.nodes = Some(vec![Some(comment)]);
    let formatted = format_discussion(&discussion, "owner", "repo");

    assert!(formatted.contains("_author: <deleted>"));
    assert!(formatted.contains("Comment from deleted user"));
}

#[test]
fn test_deleted_author_in_reply() {
    let mut discussion = make_discussion();
    let mut comment = make_comment(Some("user1"), "Comment");
    let reply = make_reply(None, "Reply from deleted user");

    comment.replies.nodes = Some(vec![Some(reply)]);
    discussion.comments.nodes = Some(vec![Some(comment)]);

    let formatted = format_discussion(&discussion, "owner", "repo");

    assert!(formatted.contains("#### Reply 1.1"));
    assert!(formatted.contains("_author: <deleted>"));
    assert!(formatted.contains("Reply from deleted user"));
}

#[test]
fn test_comment_numbering_with_none_entries() {
    let mut discussion = make_discussion();
    let comment1 = make_comment(Some("user1"), "Comment 1");
    let comment2 = make_comment(Some("user2"), "Comment 2");
    let comment3 = make_comment(Some("user3"), "Comment 3");

    discussion.comments.nodes = Some(vec![
        Some(comment1),
        None,
        Some(comment2),
        None,
        Some(comment3),
    ]);

    let formatted = format_discussion(&discussion, "owner", "repo");

    assert!(formatted.contains("### Comment 1"));
    assert!(formatted.contains("Comment 1"));
    assert!(formatted.contains("### Comment 2"));
    assert!(formatted.contains("Comment 2"));
    assert!(formatted.contains("### Comment 3"));
    assert!(formatted.contains("Comment 3"));

    assert!(!formatted.contains("### Comment 4"));
    assert!(!formatted.contains("### Comment 5"));
}

#[test]
fn test_reply_numbering_with_none_entries() {
    let mut discussion = make_discussion();
    let mut comment1 = make_comment(Some("user1"), "Comment 1");

    let mut reply1 = make_reply(Some("replier1"), "Reply 1");
    reply1.id = "reply_1".to_string();
    let mut reply2 = make_reply(Some("replier2"), "Reply 2");
    reply2.id = "reply_2".to_string();
    reply2.created_at = "2024-01-15T12:30:00Z".to_string();

    comment1.replies.nodes = Some(vec![Some(reply1), None, Some(reply2)]);
    discussion.comments.nodes = Some(vec![Some(comment1)]);

    let formatted = format_discussion(&discussion, "owner", "repo");

    assert!(formatted.contains("#### Reply 1.1"));
    assert!(formatted.contains("Reply 1"));
    assert!(formatted.contains("#### Reply 1.2"));
    assert!(formatted.contains("Reply 2"));

    assert!(!formatted.contains("#### Reply 1.3"));
}

#[test]
fn test_get_author_login_sentinel() {
    assert_eq!(get_author_login(&None), "<deleted>");
    assert_eq!(
        get_author_login(&Some(Author { login: None })),
        "<deleted>"
    );
    assert_eq!(
        get_author_login(&Some(Author { login: Some("alice".to_string()) })),
        "alice"
    );
}

#[test]
fn test_display_timestamp_fixed_form() {
    assert_eq!(display_timestamp("2024-01-15T10:30:00Z"), "2024-01-15 10:30:00 UTC");
    assert_eq!(display_timestamp("not a timestamp"), "not a timestamp");
}

#[test]
fn test_end_to_end_document_order() {
    let mut discussion = make_discussion();
    let mut comment = make_comment(Some("known_author"), "A comment body");
    let reply = make_reply(None, "A reply from a deleted account");
    comment.replies.nodes = Some(vec![Some(reply)]);
    discussion.comments.nodes = Some(vec![Some(comment)]);

    let formatted = format_discussion(&discussion, "owner", "repo");

    let title_pos = formatted.find("# Test Discussion").unwrap();
    let post_pos = formatted.find("## Original Post").unwrap();
    let comments_pos = formatted.find("## Comments").unwrap();
    let comment_pos = formatted.find("### Comment 1").unwrap();
    let reply_pos = formatted.find("#### Reply 1.1").unwrap();
    assert!(title_pos < post_pos);
    assert!(post_pos < comments_pos);
    assert!(comments_pos < comment_pos);
    assert!(comment_pos < reply_pos);

    let reply_section = &formatted[reply_pos..];
    assert!(reply_section.contains("_author: <deleted>"));
}
