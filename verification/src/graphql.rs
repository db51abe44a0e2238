//! The static, hand-authored GraphQL queries.

use vstd::prelude::*;

verus! {

/// Query for a discussion's metadata and first page of comments and
/// replies: identifier, title, number, URL, creation time, body, author,
/// and both pagination cursors.
pub const DISCUSSION_QUERY: &'static str = r#"
query ($owner: String!, $repo: String!, $number: Int!) {
    repository(owner: $owner, name: $repo) {
        discussion(number: $number) {
            id
            title
            number
            url
            createdAt
            body
            author {
                login
            }
            comments(first: 100) {
                nodes {
                    id
                    databaseId
                    author {
                        login
                    }
                    createdAt
                    body
                    replies(first: 100) {
                        nodes {
                            id
                            databaseId
                            author {
                                login
                            }
                            createdAt
                            body
                        }
                        pageInfo {
                            hasNextPage
                            endCursor
                        }
                    }
                }
                pageInfo {
                    hasNextPage
                    endCursor
                }
            }
        }
    }
}
"#;

/// Query for one page of a discussion's comments, keyed by the discussion's
/// node identifier and a continuation cursor.
pub const COMMENTS_QUERY: &'static str = r#"
query ($id: ID!, $after: String) {
    node(id: $id) {
        ... on Discussion {
            comments(first: 100, after: $after) {
                nodes {
                    id
                    databaseId
                    author {
                        login
                    }
                    createdAt
                    body
                    replies {
                        pageInfo {
                            hasNextPage
                            endCursor
                        }
                    }
                }
                pageInfo {
                    hasNextPage
                    endCursor
                }
            }
        }
    }
}
"#;

/// Query for one page of a comment's replies, keyed by the comment's node
/// identifier and a continuation cursor.
pub const REPLIES_QUERY: &'static str = r#"
query ($id: ID!, $after: String) {
    node(id: $id) {
        ... on DiscussionComment {
            replies(first: 100, after: $after) {
                nodes {
                    id
                    databaseId
                    author {
                        login
                    }
                    createdAt
                    body
                }
                pageInfo {
                    hasNextPage
                    endCursor
                }
            }
        }
    }
}
"#;

} // verus!
