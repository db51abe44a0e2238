//! The discussion tree, as plain data.
//!
//! A discussion holds its comments, a comment its replies; an absent author
//! is a first-class state standing for a deleted account, not an error.
//! Creation timestamps are carried in the API's fixed
//! `YYYY-MM-DDTHH:MM:SSZ` form, on which lexicographic order is
//! chronological order. Node lists keep the `null` entries the API may
//! interleave, as absent elements.

use vstd::prelude::*;
use crate::json::Json;

verus! {

/// A user who authored the discussion, a comment or a reply.
#[derive(Debug, Clone, PartialEq)]
pub struct Author {
    /// The login name; absent when the account no longer exists.
    pub login: Option<String>,
}

/// Pagination state of one connection: whether more pages exist, and the
/// opaque continuation token for the next request.
#[derive(Debug, Clone, PartialEq)]
pub struct PageInfo {
    /// Whether the connection has more pages.
    pub has_next_page: bool,
    /// The continuation token; must be present whenever `has_next_page`.
    pub end_cursor: Option<String>,
}

impl Default for PageInfo {
    /// No further pages, no continuation token.
    fn default() -> (r: Self)
        ensures
            r.has_next_page == false,
            r.end_cursor is None,
    {
        PageInfo { has_next_page: false, end_cursor: None }
    }
}

/// A reply to a comment; a leaf of the discussion tree.
#[derive(Debug, Clone, PartialEq)]
pub struct Reply {
    /// The node identifier.
    pub id: String,
    /// The numeric database identifier.
    pub database_id: i64,
    /// The author; absent for a deleted account.
    pub author: Option<Author>,
    /// The creation timestamp, in the API's fixed form.
    pub created_at: String,
    /// The body text.
    pub body: String,
}

/// A comment's replies connection.
#[derive(Debug, Clone, PartialEq)]
pub struct CommentReplies {
    /// Total count of replies, when the query asked for it.
    pub total_count: Option<usize>,
    /// The reply nodes; absent in responses that carry only page state.
    pub nodes: Option<Vec<Option<Reply>>>,
    /// Pagination state of the connection.
    pub page_info: PageInfo,
}

/// A comment on a discussion.
#[derive(Debug, Clone, PartialEq)]
pub struct Comment {
    /// The node identifier.
    pub id: String,
    /// The numeric database identifier.
    pub database_id: i64,
    /// The author; absent for a deleted account.
    pub author: Option<Author>,
    /// The creation timestamp, in the API's fixed form.
    pub created_at: String,
    /// The body text.
    pub body: String,
    /// The comment's replies.
    pub replies: CommentReplies,
}

/// A discussion's comments connection.
#[derive(Debug, Clone, PartialEq)]
pub struct DiscussionComments {
    /// Total count of comments, when the query asked for it.
    pub total_count: Option<usize>,
    /// The comment nodes.
    pub nodes: Option<Vec<Option<Comment>>>,
    /// Pagination state of the connection.
    pub page_info: PageInfo,
}

impl Default for DiscussionComments {
    /// No nodes, no further pages.
    fn default() -> (r: Self)
        ensures
            r.total_count is None,
            r.nodes is None,
            r.page_info.has_next_page == false,
            r.page_info.end_cursor is None,
    {
        DiscussionComments {
            total_count: None,
            nodes: None,
            page_info: PageInfo { has_next_page: false, end_cursor: None },
        }
    }
}

/// A discussion with its metadata and comments.
#[derive(Debug, Clone, PartialEq)]
pub struct Discussion {
    /// The node identifier.
    pub id: String,
    /// The title.
    pub title: String,
    /// The discussion's sequence number in its repository.
    pub number: u64,
    /// The canonical URL.
    pub url: String,
    /// The creation timestamp, in the API's fixed form.
    pub created_at: String,
    /// The body text of the original post.
    pub body: String,
    /// The author; absent for a deleted account.
    pub author: Option<Author>,
    /// The comments; populated by the fetcher.
    pub comments: DiscussionComments,
}

/// One error reported in a GraphQL response.
#[derive(Debug, PartialEq)]
pub struct GraphQLError {
    /// The error message.
    pub message: String,
    /// The path of the field the error is about, if reported.
    pub path: Option<Vec<Json>>,
    /// Extra server-specific detail, if reported.
    pub extensions: Option<Json>,
}

/// The error part of a GraphQL response.
#[derive(Debug, PartialEq)]
pub struct ErrorResponse {
    /// The reported errors, if any.
    pub errors: Option<Vec<GraphQLError>>,
}

/// A GraphQL response envelope. Data and errors can both be present in the
/// same response (partial success), so both are optional.
#[derive(Debug, PartialEq)]
pub struct GraphQLResponse {
    /// The data part.
    pub data: Option<Json>,
    /// The reported errors.
    pub errors: Option<Vec<GraphQLError>>,
}

} // verus!
