//! The pagination fetcher.
//!
//! Given a discussion locator the fetcher retrieves the discussion's
//! metadata, then exhaustively paginates its comments and, per comment,
//! each comment's replies; normalizes absent authors to the deleted-account
//! sentinel; and sorts comments and replies ascending by creation
//! timestamp. Any transport failure, malformed response or error payload
//! aborts the whole fetch at once: there is no partial result and no retry.
//!
//! The decoders in this module own the response field shapes: a field of
//! the wrong type, a missing required field, or a timestamp outside the
//! API's fixed form is a malformed response.

use vstd::prelude::*;
use vstd::multiset::Multiset;
use vstd::seq_lib::lemma_multiset_commutative;
use vstd::seq_lib::group_to_multiset_ensures;
use crate::client::GitHubClient;
use crate::error::Error;
use crate::graphql::{COMMENTS_QUERY, REPLIES_QUERY};
use crate::json::{Json, spec_assoc_from};
use crate::models::{Author, Comment, CommentReplies, Discussion, DiscussionComments, PageInfo, Reply};
use crate::text::{
    str_eq,
    str_le,
    chars_of,
    reversed,
    join_with,
    spec_join_with,
    spec_str_le,
    lemma_str_le_total,
    lemma_str_le_trans,
};

verus! {

/// Whether `c` is a decimal digit.
pub open spec fn spec_is_digit(c: char) -> bool {
    48 <= (c as u32) <= 57
}

/// What may stand at position `i` of a timestamp in the API's fixed
/// `YYYY-MM-DDTHH:MM:SSZ` form.
pub open spec fn spec_ts_char_ok(s: Seq<char>, i: int) -> bool {
    if i == 4 || i == 7 {
        s[i] == '-'
    } else if i == 10 {
        s[i] == 'T'
    } else if i == 13 || i == 16 {
        s[i] == ':'
    } else if i == 19 {
        s[i] == 'Z'
    } else {
        spec_is_digit(s[i])
    }
}

/// Whether `s` is a timestamp in the API's fixed `YYYY-MM-DDTHH:MM:SSZ`
/// form. On such timestamps lexicographic order is chronological order.
pub open spec fn spec_is_timestamp(s: Seq<char>) -> bool {
    s.len() == 20 && forall|i: int| 0 <= i < 20 ==> spec_ts_char_ok(s, i)
}

/// Check that `s` is a timestamp in the API's fixed form.
pub fn is_timestamp(s: &str) -> (r: bool)
    ensures
        r == spec_is_timestamp(s@),
{
    let cs = chars_of(s);
    if cs.len() != 20 {
        return false;
    }
    let mut i: usize = 0;
    while i < 20
        invariant
            i <= 20,
            cs@ == s@,
            cs@.len() == 20,
            forall|j: int| 0 <= j < i ==> spec_ts_char_ok(s@, j),
        decreases 20 - i,
    {
        let c = cs[i];
        let ok = if i == 4 || i == 7 {
            c == '-'
        } else if i == 10 {
            c == 'T'
        } else if i == 13 || i == 16 {
            c == ':'
        } else if i == 19 {
            c == 'Z'
        } else {
            let n = c as u32;
            48 <= n && n <= 57
        };
        if !ok {
            proof {
                assert(!spec_ts_char_ok(s@, i as int));
            }
            return false;
        }
        i = i + 1;
    }
    true
}

/// A string field's value.
pub open spec fn spec_as_str_field(o: Option<Json>) -> Option<String> {
    match o {
        Some(Json::Str(s)) => Some(s),
        _ => None,
    }
}

/// Take a string field's value.
fn as_str_field(o: Option<Json>) -> (r: Option<String>)
    ensures
        r == spec_as_str_field(o),
{
    match o {
        Some(Json::Str(s)) => Some(s),
        _ => None,
    }
}

/// An integer field's value.
pub open spec fn spec_as_int_field(o: Option<Json>) -> Option<i64> {
    match o {
        Some(Json::Int(n)) => Some(n),
        _ => None,
    }
}

/// Take an integer field's value.
fn as_int_field(o: Option<Json>) -> (r: Option<i64>)
    ensures
        r == spec_as_int_field(o),
{
    match o {
        Some(Json::Int(n)) => Some(n),
        _ => None,
    }
}

/// A timestamp field's value: a string in the API's fixed form.
pub open spec fn spec_as_timestamp_field(o: Option<Json>) -> Option<String> {
    match o {
        Some(Json::Str(s)) => if spec_is_timestamp(s@) {
            Some(s)
        } else {
            None
        },
        _ => None,
    }
}

/// Take a timestamp field's value.
fn as_timestamp_field(o: Option<Json>) -> (r: Option<String>)
    ensures
        r == spec_as_timestamp_field(o),
{
    match o {
        Some(Json::Str(s)) => if is_timestamp(s.as_str()) {
            Some(s)
        } else {
            None
        },
        _ => None,
    }
}

/// An author value: `null` and a missing `login` both stand for a deleted
/// account; any other shape is malformed.
pub open spec fn spec_decode_author(v: Json) -> Option<Option<Author>> {
    match v {
        Json::Null => Some(None),
        Json::Obj(entries) => match spec_assoc_from(entries@, "login"@, 0) {
            None => Some(Some(Author { login: None })),
            Some(Json::Null) => Some(Some(Author { login: None })),
            Some(Json::Str(l)) => Some(Some(Author { login: Some(l) })),
            Some(_) => None,
        },
        _ => None,
    }
}

/// Decode an author value.
#[verifier::loop_isolation(false)]
fn decode_author(v: Json) -> (r: Option<Option<Author>>)
    ensures
        r == spec_decode_author(v),
{
    match v {
        Json::Null => Some(None),
        Json::Obj(entries) => {
            let ghost es = entries@;
            let mut entries = entries;
            let mut f_login: Option<Json> = None;
            let mut i = entries.len();
            loop
                invariant
                    i <= es.len(),
                    entries@ =~= es.subrange(0, i as int),
                    f_login == spec_assoc_from(es, "login"@, i as int),
                decreases i,
            {
                match entries.pop() {
                    Some((k, val)) => {
                        i = i - 1;
                        proof {
                            assert((k, val) == es[i as int]);
                        }
                        if str_eq(k.as_str(), "login") {
                            f_login = Some(val);
                        }
                    },
                    None => {
                        break;
                    },
                }
            }
            match f_login {
                None => Some(Some(Author { login: None })),
                Some(Json::Null) => Some(Some(Author { login: None })),
                Some(Json::Str(l)) => Some(Some(Author { login: Some(l) })),
                Some(_) => None,
            }
        },
        _ => None,
    }
}

/// An author field: a missing field stands for a deleted account.
pub open spec fn spec_author_field(o: Option<Json>) -> Option<Option<Author>> {
    match o {
        None => Some(None),
        Some(av) => spec_decode_author(av),
    }
}

/// Take an author field's value.
fn author_field(o: Option<Json>) -> (r: Option<Option<Author>>)
    ensures
        r == spec_author_field(o),
{
    match o {
        None => Some(None),
        Some(av) => decode_author(av),
    }
}

/// Pagination state: `hasNextPage` is required, `endCursor` may be absent
/// or `null`.
pub open spec fn spec_decode_page_info(v: Json) -> Option<PageInfo> {
    match v {
        Json::Obj(entries) => {
            let es = entries@;
            let has_next = match spec_assoc_from(es, "hasNextPage"@, 0) {
                Some(Json::Bool(b)) => Some(b),
                _ => None,
            };
            let cursor = match spec_assoc_from(es, "endCursor"@, 0) {
                None => Some(None::<String>),
                Some(Json::Null) => Some(None::<String>),
                Some(Json::Str(c)) => Some(Some(c)),
                Some(_) => None,
            };
            if has_next is Some && cursor is Some {
                Some(PageInfo { has_next_page: has_next->0, end_cursor: cursor->0 })
            } else {
                None
            }
        },
        _ => None,
    }
}

/// Decode pagination state.
#[verifier::loop_isolation(false)]
fn decode_page_info(v: Json) -> (r: Option<PageInfo>)
    ensures
        r == spec_decode_page_info(v),
{
    match v {
        Json::Obj(entries) => {
            proof {
                reveal_strlit("hasNextPage");
                reveal_strlit("endCursor");
            }
            let ghost es = entries@;
            let mut entries = entries;
            let mut f_has: Option<Json> = None;
            let mut f_cursor: Option<Json> = None;
            let mut i = entries.len();
            loop
                invariant
                    i <= es.len(),
                    entries@ =~= es.subrange(0, i as int),
                    f_has == spec_assoc_from(es, "hasNextPage"@, i as int),
                    f_cursor == spec_assoc_from(es, "endCursor"@, i as int),
                decreases i,
            {
                match entries.pop() {
                    Some((k, val)) => {
                        i = i - 1;
                        proof {
                            reveal_strlit("hasNextPage");
                            reveal_strlit("endCursor");
                            assert(("hasNextPage"@).len() == 11);
                            assert(("endCursor"@).len() == 9);
                            assert((k, val) == es[i as int]);
                        }
                        if str_eq(k.as_str(), "hasNextPage") {
                            f_has = Some(val);
                        } else if str_eq(k.as_str(), "endCursor") {
                            f_cursor = Some(val);
                        }
                    },
                    None => {
                        break;
                    },
                }
            }
            let has_next = match f_has {
                Some(Json::Bool(b)) => b,
                _ => {
                    return None;
                },
            };
            let end_cursor = match f_cursor {
                None => None,
                Some(Json::Null) => None,
                Some(Json::Str(c)) => Some(c),
                Some(_) => {
                    return None;
                },
            };
            Some(PageInfo { has_next_page: has_next, end_cursor })
        },
        _ => None,
    }
}

/// A reply record: `id`, `databaseId`, `createdAt` and `body` are
/// required, the author may be absent.
pub open spec fn spec_decode_reply(v: Json) -> Option<Reply> {
    match v {
        Json::Obj(entries) => {
            let es = entries@;
            let id = spec_as_str_field(spec_assoc_from(es, "id"@, 0));
            let dbid = spec_as_int_field(spec_assoc_from(es, "databaseId"@, 0));
            let author = spec_author_field(spec_assoc_from(es, "author"@, 0));
            let created = spec_as_timestamp_field(spec_assoc_from(es, "createdAt"@, 0));
            let body = spec_as_str_field(spec_assoc_from(es, "body"@, 0));
            if id is Some && dbid is Some && author is Some && created is Some && body is Some {
                Some(
                    Reply {
                        id: id->0,
                        database_id: dbid->0,
                        author: author->0,
                        created_at: created->0,
                        body: body->0,
                    },
                )
            } else {
                None
            }
        },
        _ => None,
    }
}

/// Decode a reply record.
#[verifier::loop_isolation(false)]
fn decode_reply(v: Json) -> (r: Option<Reply>)
    ensures
        r == spec_decode_reply(v),
{
    match v {
        Json::Obj(entries) => {
            proof {
                reveal_strlit("id");
                reveal_strlit("databaseId");
                reveal_strlit("author");
                reveal_strlit("createdAt");
                reveal_strlit("body");
            }
            let ghost es = entries@;
            let mut entries = entries;
            let mut f_id: Option<Json> = None;
            let mut f_dbid: Option<Json> = None;
            let mut f_author: Option<Json> = None;
            let mut f_created: Option<Json> = None;
            let mut f_body: Option<Json> = None;
            let mut i = entries.len();
            loop
                invariant
                    i <= es.len(),
                    entries@ =~= es.subrange(0, i as int),
                    f_id == spec_assoc_from(es, "id"@, i as int),
                    f_dbid == spec_assoc_from(es, "databaseId"@, i as int),
                    f_author == spec_assoc_from(es, "author"@, i as int),
                    f_created == spec_assoc_from(es, "createdAt"@, i as int),
                    f_body == spec_assoc_from(es, "body"@, i as int),
                decreases i,
            {
                match entries.pop() {
                    Some((k, val)) => {
                        i = i - 1;
                        proof {
                            reveal_strlit("id");
                            reveal_strlit("databaseId");
                            reveal_strlit("author");
                            reveal_strlit("createdAt");
                            reveal_strlit("body");
                            assert(("id"@).len() == 2);
                            assert(("databaseId"@).len() == 10);
                            assert(("author"@).len() == 6);
                            assert(("createdAt"@).len() == 9);
                            assert(("body"@).len() == 4);
                            assert((k, val) == es[i as int]);
                        }
                        if str_eq(k.as_str(), "id") {
                            f_id = Some(val);
                        } else if str_eq(k.as_str(), "databaseId") {
                            f_dbid = Some(val);
                        } else if str_eq(k.as_str(), "author") {
                            f_author = Some(val);
                        } else if str_eq(k.as_str(), "createdAt") {
                            f_created = Some(val);
                        } else if str_eq(k.as_str(), "body") {
                            f_body = Some(val);
                        }
                    },
                    None => {
                        break;
                    },
                }
            }
            let id = match as_str_field(f_id) {
                Some(s) => s,
                None => {
                    return None;
                },
            };
            let database_id = match as_int_field(f_dbid) {
                Some(n) => n,
                None => {
                    return None;
                },
            };
            let author = match author_field(f_author) {
                Some(a) => a,
                None => {
                    return None;
                },
            };
            let created_at = match as_timestamp_field(f_created) {
                Some(t) => t,
                None => {
                    return None;
                },
            };
            let body = match as_str_field(f_body) {
                Some(b) => b,
                None => {
                    return None;
                },
            };
            Some(Reply { id, database_id, author, created_at, body })
        },
        _ => None,
    }
}

/// Whether every element of a reply nodes array from `i` on is `null` or a
/// well-shaped reply.
pub open spec fn spec_reply_nodes_ok(items: Seq<Json>, i: int) -> bool
    decreases items.len() - i,
{
    if i < 0 || i >= items.len() {
        true
    } else {
        (items[i] matches Json::Null || spec_decode_reply(items[i]) is Some) && spec_reply_nodes_ok(
            items,
            i + 1,
        )
    }
}

/// Whether one decoded reply node corresponds to one array element.
pub open spec fn spec_reply_node_matches(n: Option<Reply>, v: Json) -> bool {
    match n {
        None => v matches Json::Null,
        Some(r) => spec_decode_reply(v) == Some(r),
    }
}

/// A well-shaped array stays well-shaped at each of its positions.
proof fn lemma_reply_nodes_ok_at(items: Seq<Json>, i: int)
    requires
        spec_reply_nodes_ok(items, 0),
        0 <= i < items.len(),
    ensures
        items[i] matches Json::Null || spec_decode_reply(items[i]) is Some,
{
    lemma_reply_nodes_ok_from(items, 0, i);
}

proof fn lemma_reply_nodes_ok_from(items: Seq<Json>, j: int, i: int)
    requires
        spec_reply_nodes_ok(items, j),
        0 <= j <= i < items.len(),
    ensures
        items[i] matches Json::Null || spec_decode_reply(items[i]) is Some,
    decreases i - j,
{
    if j < i {
        lemma_reply_nodes_ok_from(items, j + 1, i);
    }
}

/// Decode a reply nodes array.
#[verifier::loop_isolation(false)]
fn decode_reply_nodes(items: Vec<Json>) -> (r: Option<Vec<Option<Reply>>>)
    ensures
        match r {
            Some(ns) => ns@.len() == items@.len() && forall|j: int|
                0 <= j < items@.len() ==> spec_reply_node_matches(ns@[j], items@[j]),
            None => !spec_reply_nodes_ok(items@, 0),
        },
{
    let ghost es = items@;
    let mut items = items;
    let mut acc_rev: Vec<Option<Reply>> = Vec::new();
    let mut i = items.len();
    loop
        invariant
            i <= es.len(),
            items@ =~= es.subrange(0, i as int),
            acc_rev@.len() == es.len() - i,
            forall|j: int|
                0 <= j < acc_rev@.len() ==> spec_reply_node_matches(
                    acc_rev@[j],
                    es[es.len() - 1 - j],
                ),
        decreases i,
    {
        match items.pop() {
            Some(x) => {
                i = i - 1;
                proof {
                    assert(x == es[i as int]);
                }
                if x.is_null() {
                    acc_rev.push(None);
                } else {
                    match decode_reply(x) {
                        Some(rep) => {
                            acc_rev.push(Some(rep));
                        },
                        None => {
                            proof {
                                if spec_reply_nodes_ok(es, 0) {
                                    lemma_reply_nodes_ok_at(es, i as int);
                                }
                            }
                            return None;
                        },
                    }
                }
            },
            None => {
                break;
            },
        }
    }
    let ns = crate::text::reversed(acc_rev);
    proof {
        assert(forall|j: int|
            0 <= j < es.len() ==> spec_reply_node_matches(ns@[j], es[j]));
    }
    Some(ns)
}

/// A total count field: absent or `null` means unknown; a number must be a
/// representable non-negative count.
pub open spec fn spec_total_count_field(o: Option<Json>) -> Option<Option<usize>> {
    match o {
        None => Some(None::<usize>),
        Some(Json::Null) => Some(None::<usize>),
        Some(Json::Int(n)) => if 0 <= n <= usize::MAX {
            Some(Some(n as usize))
        } else {
            None
        },
        Some(_) => None,
    }
}

/// Take a total count field's value.
fn total_count_field(o: Option<Json>) -> (r: Option<Option<usize>>)
    ensures
        r == spec_total_count_field(o),
{
    match o {
        None => Some(None),
        Some(Json::Null) => Some(None),
        Some(Json::Int(n)) => if 0 <= n && (n as u64) <= (usize::MAX as u64) {
            Some(Some(n as usize))
        } else {
            None
        },
        Some(_) => None,
    }
}

/// Whether a replies connection is well shaped: `pageInfo` is required,
/// `totalCount` and `nodes` may be absent.
pub open spec fn spec_comment_replies_ok(v: Json) -> bool {
    match v {
        Json::Obj(entries) => {
            let es = entries@;
            &&& spec_total_count_field(spec_assoc_from(es, "totalCount"@, 0)) is Some
            &&& (match spec_assoc_from(es, "nodes"@, 0) {
                None => true,
                Some(Json::Null) => true,
                Some(Json::Arr(items)) => spec_reply_nodes_ok(items@, 0),
                Some(_) => false,
            })
            &&& (match spec_assoc_from(es, "pageInfo"@, 0) {
                Some(pv) => spec_decode_page_info(pv) is Some,
                None => false,
            })
        },
        _ => false,
    }
}

/// Whether a decoded replies connection corresponds to its JSON value.
pub open spec fn spec_comment_replies_matches(cr: CommentReplies, v: Json) -> bool {
    match v {
        Json::Obj(entries) => {
            let es = entries@;
            &&& Some(cr.total_count) == spec_total_count_field(
                spec_assoc_from(es, "totalCount"@, 0),
            )
            &&& (match spec_assoc_from(es, "nodes"@, 0) {
                None => cr.nodes is None,
                Some(Json::Null) => cr.nodes is None,
                Some(Json::Arr(items)) => cr.nodes matches Some(ns) && ns@.len() == items@.len()
                    && forall|j: int|
                    0 <= j < items@.len() ==> spec_reply_node_matches(ns@[j], items@[j]),
                Some(_) => false,
            })
            &&& Some(cr.page_info) == (match spec_assoc_from(es, "pageInfo"@, 0) {
                Some(pv) => spec_decode_page_info(pv),
                None => None::<PageInfo>,
            })
        },
        _ => false,
    }
}

/// Decode a replies connection.
#[verifier::loop_isolation(false)]
fn decode_comment_replies(v: Json) -> (r: Option<CommentReplies>)
    ensures
        match r {
            Some(cr) => spec_comment_replies_matches(cr, v),
            None => !spec_comment_replies_ok(v),
        },
{
    match v {
        Json::Obj(entries) => {
            let ghost es = entries@;
            let mut entries = entries;
            let mut f_total: Option<Json> = None;
            let mut f_nodes: Option<Json> = None;
            let mut f_page: Option<Json> = None;
            let mut i = entries.len();
            loop
                invariant
                    i <= es.len(),
                    entries@ =~= es.subrange(0, i as int),
                    f_total == spec_assoc_from(es, "totalCount"@, i as int),
                    f_nodes == spec_assoc_from(es, "nodes"@, i as int),
                    f_page == spec_assoc_from(es, "pageInfo"@, i as int),
                decreases i,
            {
                match entries.pop() {
                    Some((k, val)) => {
                        i = i - 1;
                        proof {
                            reveal_strlit("totalCount");
                            reveal_strlit("nodes");
                            reveal_strlit("pageInfo");
                            assert(("totalCount"@).len() == 10);
                            assert(("nodes"@).len() == 5);
                            assert(("pageInfo"@).len() == 8);
                            assert((k, val) == es[i as int]);
                        }
                        if str_eq(k.as_str(), "totalCount") {
                            f_total = Some(val);
                        } else if str_eq(k.as_str(), "nodes") {
                            f_nodes = Some(val);
                        } else if str_eq(k.as_str(), "pageInfo") {
                            f_page = Some(val);
                        }
                    },
                    None => {
                        break;
                    },
                }
            }
            let total_count = match total_count_field(f_total) {
                Some(t) => t,
                None => {
                    return None;
                },
            };
            let nodes = match f_nodes {
                None => None,
                Some(Json::Null) => None,
                Some(Json::Arr(items)) => match decode_reply_nodes(items) {
                    Some(ns) => Some(ns),
                    None => {
                        return None;
                    },
                },
                Some(_) => {
                    return None;
                },
            };
            let page_info = match f_page {
                Some(pv) => match decode_page_info(pv) {
                    Some(p) => p,
                    None => {
                        return None;
                    },
                },
                None => {
                    return None;
                },
            };
            Some(CommentReplies { total_count, nodes, page_info })
        },
        _ => None,
    }
}

/// Whether a comment record is well shaped: `id`, `databaseId`,
/// `createdAt`, `body` and `replies` are required, the author may be
/// absent.
pub open spec fn spec_comment_ok(v: Json) -> bool {
    match v {
        Json::Obj(entries) => {
            let es = entries@;
            &&& spec_as_str_field(spec_assoc_from(es, "id"@, 0)) is Some
            &&& spec_as_int_field(spec_assoc_from(es, "databaseId"@, 0)) is Some
            &&& spec_author_field(spec_assoc_from(es, "author"@, 0)) is Some
            &&& spec_as_timestamp_field(spec_assoc_from(es, "createdAt"@, 0)) is Some
            &&& spec_as_str_field(spec_assoc_from(es, "body"@, 0)) is Some
            &&& (match spec_assoc_from(es, "replies"@, 0) {
                Some(rv) => spec_comment_replies_ok(rv),
                None => false,
            })
        },
        _ => false,
    }
}

/// Whether a decoded comment corresponds to its JSON value.
pub open spec fn spec_comment_matches(c: Comment, v: Json) -> bool {
    match v {
        Json::Obj(entries) => {
            let es = entries@;
            &&& Some(c.id) == spec_as_str_field(spec_assoc_from(es, "id"@, 0))
            &&& Some(c.database_id) == spec_as_int_field(spec_assoc_from(es, "databaseId"@, 0))
            &&& Some(c.author) == spec_author_field(spec_assoc_from(es, "author"@, 0))
            &&& Some(c.created_at) == spec_as_timestamp_field(spec_assoc_from(es, "createdAt"@, 0))
            &&& Some(c.body) == spec_as_str_field(spec_assoc_from(es, "body"@, 0))
            &&& (match spec_assoc_from(es, "replies"@, 0) {
                Some(rv) => spec_comment_replies_matches(c.replies, rv),
                None => false,
            })
        },
        _ => false,
    }
}

/// Decode a comment record.
#[verifier::loop_isolation(false)]
fn decode_comment(v: Json) -> (r: Option<Comment>)
    ensures
        match r {
            Some(c) => spec_comment_matches(c, v),
            None => !spec_comment_ok(v),
        },
{
    match v {
        Json::Obj(entries) => {
            let ghost es = entries@;
            let mut entries = entries;
            let mut f_id: Option<Json> = None;
            let mut f_dbid: Option<Json> = None;
            let mut f_author: Option<Json> = None;
            let mut f_created: Option<Json> = None;
            let mut f_body: Option<Json> = None;
            let mut f_replies: Option<Json> = None;
            let mut i = entries.len();
            loop
                invariant
                    i <= es.len(),
                    entries@ =~= es.subrange(0, i as int),
                    f_id == spec_assoc_from(es, "id"@, i as int),
                    f_dbid == spec_assoc_from(es, "databaseId"@, i as int),
                    f_author == spec_assoc_from(es, "author"@, i as int),
                    f_created == spec_assoc_from(es, "createdAt"@, i as int),
                    f_body == spec_assoc_from(es, "body"@, i as int),
                    f_replies == spec_assoc_from(es, "replies"@, i as int),
                decreases i,
            {
                match entries.pop() {
                    Some((k, val)) => {
                        i = i - 1;
                        proof {
                            reveal_strlit("id");
                            reveal_strlit("databaseId");
                            reveal_strlit("author");
                            reveal_strlit("createdAt");
                            reveal_strlit("body");
                            reveal_strlit("replies");
                            assert(("id"@).len() == 2);
                            assert(("databaseId"@).len() == 10);
                            assert(("author"@).len() == 6);
                            assert(("createdAt"@).len() == 9);
                            assert(("body"@).len() == 4);
                            assert(("replies"@).len() == 7);
                            assert((k, val) == es[i as int]);
                        }
                        if str_eq(k.as_str(), "id") {
                            f_id = Some(val);
                        } else if str_eq(k.as_str(), "databaseId") {
                            f_dbid = Some(val);
                        } else if str_eq(k.as_str(), "author") {
                            f_author = Some(val);
                        } else if str_eq(k.as_str(), "createdAt") {
                            f_created = Some(val);
                        } else if str_eq(k.as_str(), "body") {
                            f_body = Some(val);
                        } else if str_eq(k.as_str(), "replies") {
                            f_replies = Some(val);
                        }
                    },
                    None => {
                        break;
                    },
                }
            }
            let id = match as_str_field(f_id) {
                Some(s) => s,
                None => {
                    return None;
                },
            };
            let database_id = match as_int_field(f_dbid) {
                Some(n) => n,
                None => {
                    return None;
                },
            };
            let author = match author_field(f_author) {
                Some(a) => a,
                None => {
                    return None;
                },
            };
            let created_at = match as_timestamp_field(f_created) {
                Some(t) => t,
                None => {
                    return None;
                },
            };
            let body = match as_str_field(f_body) {
                Some(b) => b,
                None => {
                    return None;
                },
            };
            let replies = match f_replies {
                Some(rv) => match decode_comment_replies(rv) {
                    Some(cr) => cr,
                    None => {
                        return None;
                    },
                },
                None => {
                    return None;
                },
            };
            Some(Comment { id, database_id, author, created_at, body, replies })
        },
        _ => None,
    }
}

/// Whether every element of a comment nodes array from `i` on is `null` or
/// a well-shaped comment.
pub open spec fn spec_comment_nodes_ok(items: Seq<Json>, i: int) -> bool
    decreases items.len() - i,
{
    if i < 0 || i >= items.len() {
        true
    } else {
        (items[i] matches Json::Null || spec_comment_ok(items[i])) && spec_comment_nodes_ok(
            items,
            i + 1,
        )
    }
}

/// Whether one decoded comment node corresponds to one array element.
pub open spec fn spec_comment_node_matches(n: Option<Comment>, v: Json) -> bool {
    match n {
        None => v matches Json::Null,
        Some(c) => spec_comment_matches(c, v) && spec_comment_ok(v),
    }
}

proof fn lemma_comment_nodes_ok_from(items: Seq<Json>, j: int, i: int)
    requires
        spec_comment_nodes_ok(items, j),
        0 <= j <= i < items.len(),
    ensures
        items[i] matches Json::Null || spec_comment_ok(items[i]),
    decreases i - j,
{
    if j < i {
        lemma_comment_nodes_ok_from(items, j + 1, i);
    }
}

/// Decode a comment nodes array.
#[verifier::loop_isolation(false)]
fn decode_comment_nodes(items: Vec<Json>) -> (r: Option<Vec<Option<Comment>>>)
    ensures
        match r {
            Some(ns) => ns@.len() == items@.len() && forall|j: int|
                0 <= j < items@.len() ==> spec_comment_node_matches(ns@[j], items@[j]),
            None => !spec_comment_nodes_ok(items@, 0),
        },
{
    let ghost es = items@;
    let mut items = items;
    let mut acc_rev: Vec<Option<Comment>> = Vec::new();
    let mut i = items.len();
    loop
        invariant
            i <= es.len(),
            items@ =~= es.subrange(0, i as int),
            acc_rev@.len() == es.len() - i,
            forall|j: int|
                0 <= j < acc_rev@.len() ==> spec_comment_node_matches(
                    acc_rev@[j],
                    es[es.len() - 1 - j],
                ),
        decreases i,
    {
        match items.pop() {
            Some(x) => {
                i = i - 1;
                proof {
                    assert(x == es[i as int]);
                }
                if x.is_null() {
                    acc_rev.push(None);
                } else {
                    let ghost xg = x;
                    match decode_comment(x) {
                        Some(c) => {
                            proof {
                                if !spec_comment_ok(xg) {
                                    assert(spec_comment_matches(c, xg));
                                    lemma_comment_matches_ok(c, xg);
                                }
                            }
                            acc_rev.push(Some(c));
                        },
                        None => {
                            proof {
                                if spec_comment_nodes_ok(es, 0) {
                                    lemma_comment_nodes_ok_from(es, 0, i as int);
                                }
                            }
                            return None;
                        },
                    }
                }
            },
            None => {
                break;
            },
        }
    }
    let ns = crate::text::reversed(acc_rev);
    proof {
        assert(forall|j: int|
            0 <= j < es.len() ==> spec_comment_node_matches(ns@[j], es[j]));
    }
    Some(ns)
}

/// Reply nodes that all correspond elementwise form a well-shaped array.
proof fn lemma_reply_nodes_matches_ok(ns: Seq<Option<Reply>>, items: Seq<Json>, i: int)
    requires
        ns.len() == items.len(),
        forall|j: int| 0 <= j < items.len() ==> spec_reply_node_matches(ns[j], items[j]),
        0 <= i <= items.len(),
    ensures
        spec_reply_nodes_ok(items, i),
    decreases items.len() - i,
{
    if i < items.len() {
        assert(spec_reply_node_matches(ns[i], items[i]));
        lemma_reply_nodes_matches_ok(ns, items, i + 1);
    }
}

/// A non-negative integer field's value.
pub open spec fn spec_as_u64_field(o: Option<Json>) -> Option<u64> {
    match o {
        Some(Json::Int(n)) => if n >= 0 {
            Some(n as u64)
        } else {
            None
        },
        _ => None,
    }
}

/// Take a non-negative integer field's value.
fn as_u64_field(o: Option<Json>) -> (r: Option<u64>)
    ensures
        r == spec_as_u64_field(o),
{
    match o {
        Some(Json::Int(n)) => if n >= 0 {
            Some(n as u64)
        } else {
            None
        },
        _ => None,
    }
}

/// Whether a comments connection is well shaped.
pub open spec fn spec_discussion_comments_ok(v: Json) -> bool {
    match v {
        Json::Obj(entries) => {
            let es = entries@;
            &&& spec_total_count_field(spec_assoc_from(es, "totalCount"@, 0)) is Some
            &&& (match spec_assoc_from(es, "nodes"@, 0) {
                None => true,
                Some(Json::Null) => true,
                Some(Json::Arr(items)) => spec_comment_nodes_ok(items@, 0),
                Some(_) => false,
            })
            &&& (match spec_assoc_from(es, "pageInfo"@, 0) {
                Some(pv) => spec_decode_page_info(pv) is Some,
                None => false,
            })
        },
        _ => false,
    }
}

/// Whether a decoded comments connection corresponds to its JSON value.
pub open spec fn spec_discussion_comments_matches(dc: DiscussionComments, v: Json) -> bool {
    match v {
        Json::Obj(entries) => {
            let es = entries@;
            &&& Some(dc.total_count) == spec_total_count_field(
                spec_assoc_from(es, "totalCount"@, 0),
            )
            &&& (match spec_assoc_from(es, "nodes"@, 0) {
                None => dc.nodes is None,
                Some(Json::Null) => dc.nodes is None,
                Some(Json::Arr(items)) => dc.nodes matches Some(ns) && ns@.len() == items@.len()
                    && forall|j: int|
                    0 <= j < items@.len() ==> spec_comment_node_matches(ns@[j], items@[j]),
                Some(_) => false,
            })
            &&& Some(dc.page_info) == (match spec_assoc_from(es, "pageInfo"@, 0) {
                Some(pv) => spec_decode_page_info(pv),
                None => None::<PageInfo>,
            })
        },
        _ => false,
    }
}

/// Decode a comments connection.
#[verifier::loop_isolation(false)]
fn decode_discussion_comments(v: Json) -> (r: Option<DiscussionComments>)
    ensures
        match r {
            Some(dc) => spec_discussion_comments_matches(dc, v),
            None => !spec_discussion_comments_ok(v),
        },
{
    match v {
        Json::Obj(entries) => {
            let ghost es = entries@;
            let mut entries = entries;
            let mut f_total: Option<Json> = None;
            let mut f_nodes: Option<Json> = None;
            let mut f_page: Option<Json> = None;
            let mut i = entries.len();
            loop
                invariant
                    i <= es.len(),
                    entries@ =~= es.subrange(0, i as int),
                    f_total == spec_assoc_from(es, "totalCount"@, i as int),
                    f_nodes == spec_assoc_from(es, "nodes"@, i as int),
                    f_page == spec_assoc_from(es, "pageInfo"@, i as int),
                decreases i,
            {
                match entries.pop() {
                    Some((k, val)) => {
                        i = i - 1;
                        proof {
                            reveal_strlit("totalCount");
                            reveal_strlit("nodes");
                            reveal_strlit("pageInfo");
                            assert(("totalCount"@).len() == 10);
                            assert(("nodes"@).len() == 5);
                            assert(("pageInfo"@).len() == 8);
                            assert((k, val) == es[i as int]);
                        }
                        if str_eq(k.as_str(), "totalCount") {
                            f_total = Some(val);
                        } else if str_eq(k.as_str(), "nodes") {
                            f_nodes = Some(val);
                        } else if str_eq(k.as_str(), "pageInfo") {
                            f_page = Some(val);
                        }
                    },
                    None => {
                        break;
                    },
                }
            }
            let total_count = match total_count_field(f_total) {
                Some(t) => t,
                None => {
                    return None;
                },
            };
            let nodes = match f_nodes {
                None => None,
                Some(Json::Null) => None,
                Some(Json::Arr(items)) => match decode_comment_nodes(items) {
                    Some(ns) => Some(ns),
                    None => {
                        return None;
                    },
                },
                Some(_) => {
                    return None;
                },
            };
            let page_info = match f_page {
                Some(pv) => match decode_page_info(pv) {
                    Some(p) => p,
                    None => {
                        return None;
                    },
                },
                None => {
                    return None;
                },
            };
            Some(DiscussionComments { total_count, nodes, page_info })
        },
        _ => None,
    }
}

/// Whether a discussion record is well shaped: everything but the author
/// and the comments connection is required.
pub open spec fn spec_discussion_ok(v: Json) -> bool {
    match v {
        Json::Obj(entries) => {
            let es = entries@;
            &&& spec_as_str_field(spec_assoc_from(es, "id"@, 0)) is Some
            &&& spec_as_str_field(spec_assoc_from(es, "title"@, 0)) is Some
            &&& spec_as_u64_field(spec_assoc_from(es, "number"@, 0)) is Some
            &&& spec_as_str_field(spec_assoc_from(es, "url"@, 0)) is Some
            &&& spec_as_timestamp_field(spec_assoc_from(es, "createdAt"@, 0)) is Some
            &&& spec_as_str_field(spec_assoc_from(es, "body"@, 0)) is Some
            &&& spec_author_field(spec_assoc_from(es, "author"@, 0)) is Some
            &&& (match spec_assoc_from(es, "comments"@, 0) {
                None => true,
                Some(cv) => spec_discussion_comments_ok(cv),
            })
        },
        _ => false,
    }
}

/// Whether a decoded discussion corresponds to its JSON value. A missing
/// comments connection decodes to the empty default.
pub open spec fn spec_discussion_matches(d: Discussion, v: Json) -> bool {
    match v {
        Json::Obj(entries) => {
            let es = entries@;
            &&& Some(d.id) == spec_as_str_field(spec_assoc_from(es, "id"@, 0))
            &&& Some(d.title) == spec_as_str_field(spec_assoc_from(es, "title"@, 0))
            &&& Some(d.number) == spec_as_u64_field(spec_assoc_from(es, "number"@, 0))
            &&& Some(d.url) == spec_as_str_field(spec_assoc_from(es, "url"@, 0))
            &&& Some(d.created_at) == spec_as_timestamp_field(
                spec_assoc_from(es, "createdAt"@, 0),
            )
            &&& Some(d.body) == spec_as_str_field(spec_assoc_from(es, "body"@, 0))
            &&& Some(d.author) == spec_author_field(spec_assoc_from(es, "author"@, 0))
            &&& (match spec_assoc_from(es, "comments"@, 0) {
                None => d.comments.total_count is None && d.comments.nodes is None
                    && d.comments.page_info.has_next_page == false
                    && d.comments.page_info.end_cursor is None,
                Some(cv) => spec_discussion_comments_matches(d.comments, cv),
            })
        },
        _ => false,
    }
}

/// Decode a discussion record.
#[verifier::loop_isolation(false)]
pub(crate) fn decode_discussion(v: Json) -> (r: Option<Discussion>)
    ensures
        match r {
            Some(d) => spec_discussion_matches(d, v),
            None => !spec_discussion_ok(v),
        },
{
    match v {
        Json::Obj(entries) => {
            let ghost es = entries@;
            let mut entries = entries;
            let mut f_id: Option<Json> = None;
            let mut f_title: Option<Json> = None;
            let mut f_number: Option<Json> = None;
            let mut f_url: Option<Json> = None;
            let mut f_created: Option<Json> = None;
            let mut f_body: Option<Json> = None;
            let mut f_author: Option<Json> = None;
            let mut f_comments: Option<Json> = None;
            let mut i = entries.len();
            loop
                invariant
                    i <= es.len(),
                    entries@ =~= es.subrange(0, i as int),
                    f_id == spec_assoc_from(es, "id"@, i as int),
                    f_title == spec_assoc_from(es, "title"@, i as int),
                    f_number == spec_assoc_from(es, "number"@, i as int),
                    f_url == spec_assoc_from(es, "url"@, i as int),
                    f_created == spec_assoc_from(es, "createdAt"@, i as int),
                    f_body == spec_assoc_from(es, "body"@, i as int),
                    f_author == spec_assoc_from(es, "author"@, i as int),
                    f_comments == spec_assoc_from(es, "comments"@, i as int),
                decreases i,
            {
                match entries.pop() {
                    Some((k, val)) => {
                        i = i - 1;
                        proof {
                            reveal_strlit("id");
                            reveal_strlit("title");
                            reveal_strlit("number");
                            reveal_strlit("url");
                            reveal_strlit("createdAt");
                            reveal_strlit("body");
                            reveal_strlit("author");
                            reveal_strlit("comments");
                            assert(("id"@).len() == 2);
                            assert(("title"@).len() == 5);
                            assert(("number"@).len() == 6);
                            assert(("url"@).len() == 3);
                            assert(("createdAt"@).len() == 9);
                            assert(("body"@).len() == 4);
                            assert(("author"@).len() == 6);
                            assert(("comments"@).len() == 8);
                            assert(("author"@) != ("number"@)) by {
                                assert(("author"@)[0] == 'a');
                                assert(("number"@)[0] == 'n');
                            }
                            assert((k, val) == es[i as int]);
                        }
                        if str_eq(k.as_str(), "id") {
                            f_id = Some(val);
                        } else if str_eq(k.as_str(), "title") {
                            f_title = Some(val);
                        } else if str_eq(k.as_str(), "number") {
                            f_number = Some(val);
                        } else if str_eq(k.as_str(), "url") {
                            f_url = Some(val);
                        } else if str_eq(k.as_str(), "createdAt") {
                            f_created = Some(val);
                        } else if str_eq(k.as_str(), "body") {
                            f_body = Some(val);
                        } else if str_eq(k.as_str(), "author") {
                            f_author = Some(val);
                        } else if str_eq(k.as_str(), "comments") {
                            f_comments = Some(val);
                        }
                    },
                    None => {
                        break;
                    },
                }
            }
            let id = match as_str_field(f_id) {
                Some(s) => s,
                None => {
                    return None;
                },
            };
            let title = match as_str_field(f_title) {
                Some(s) => s,
                None => {
                    return None;
                },
            };
            let number = match as_u64_field(f_number) {
                Some(n) => n,
                None => {
                    return None;
                },
            };
            let url = match as_str_field(f_url) {
                Some(s) => s,
                None => {
                    return None;
                },
            };
            let created_at = match as_timestamp_field(f_created) {
                Some(t) => t,
                None => {
                    return None;
                },
            };
            let body = match as_str_field(f_body) {
                Some(b) => b,
                None => {
                    return None;
                },
            };
            let author = match author_field(f_author) {
                Some(a) => a,
                None => {
                    return None;
                },
            };
            let comments = match f_comments {
                None => DiscussionComments {
                    total_count: None,
                    nodes: None,
                    page_info: PageInfo { has_next_page: false, end_cursor: None },
                },
                Some(cv) => match decode_discussion_comments(cv) {
                    Some(dc) => dc,
                    None => {
                        return None;
                    },
                },
            };
            Some(Discussion { id, title, number, url, created_at, body, author, comments })
        },
        _ => None,
    }
}

/// Comment nodes that all correspond elementwise form a well-shaped array.
proof fn lemma_comment_nodes_matches_ok(ns: Seq<Option<Comment>>, items: Seq<Json>, i: int)
    requires
        ns.len() == items.len(),
        forall|j: int| 0 <= j < items.len() ==> spec_comment_node_matches(ns[j], items[j]),
        0 <= i <= items.len(),
    ensures
        spec_comment_nodes_ok(items, i),
    decreases items.len() - i,
{
    if i < items.len() {
        assert(spec_comment_node_matches(ns[i], items[i]));
        lemma_comment_nodes_matches_ok(ns, items, i + 1);
    }
}

/// A comment that decodes is well shaped.
proof fn lemma_comment_matches_ok(c: Comment, v: Json)
    requires
        spec_comment_matches(c, v),
    ensures
        spec_comment_ok(v),
{
    match v {
        Json::Obj(entries) => {
            let es = entries@;
            match spec_assoc_from(es, "replies"@, 0) {
                Some(rv) => match rv {
                    Json::Obj(res) => {
                        match spec_assoc_from(res@, "nodes"@, 0) {
                            Some(nv) => match nv {
                                Json::Arr(items) => {
                                    let ns = c.replies.nodes->0;
                                    lemma_reply_nodes_matches_ok(ns@, items@, 0);
                                },
                                _ => {},
                            },
                            None => {},
                        }
                    },
                    _ => {},
                },
                None => {},
            }
        },
        _ => {},
    }
}

/// The message texts of the GraphQL errors from `i` on: each entry's
/// `message` field, when it is a string.
pub open spec fn spec_error_msgs(items: Seq<Json>, i: int) -> Seq<Seq<char>>
    decreases items.len() - i,
{
    if i < 0 || i >= items.len() {
        Seq::empty()
    } else {
        let rest = spec_error_msgs(items, i + 1);
        match items[i].spec_get("message"@) {
            Some(Json::Str(m)) => seq![m@] + rest,
            _ => rest,
        }
    }
}

/// The combined text of a response's reported GraphQL errors, when there
/// are any: the messages joined with `; `. An absent `errors` key, a
/// non-array value, or an empty array reports no error.
pub open spec fn spec_graphql_error_text(response: Json) -> Option<Seq<char>> {
    match response.spec_get("errors"@) {
        Some(Json::Arr(items)) => if items@.len() > 0 {
            Some(spec_join_with(spec_error_msgs(items@, 0), "; "@))
        } else {
            None
        },
        _ => None,
    }
}

/// Surface a response's reported GraphQL errors: the fetch fails with all
/// their messages exactly when the response carries a nonempty error list.
#[verifier::loop_isolation(false)]
pub fn check_graphql_errors(response: &Json) -> (r: Result<(), Error>)
    ensures
        match spec_graphql_error_text(*response) {
            Some(t) => r matches Err(e) && e matches Error::GraphQL(m) && m@ == t,
            None => r is Ok,
        },
{
    match response.get("errors") {
        Some(ev) => match ev.as_array() {
            Some(items) => {
                if items.len() > 0 {
                    let mut msgs: Vec<String> = Vec::new();
                    let mut i: usize = 0;
                    while i < items.len()
                        invariant
                            i <= items@.len(),
                            spec_error_msgs(items@, 0) =~= msgs.deep_view() + spec_error_msgs(
                                items@,
                                i as int,
                            ),
                        decreases items@.len() - i,
                    {
                        let entry = &items[i];
                        match entry.get("message") {
                            Some(mv) => match mv.as_str() {
                                Some(s) => {
                                    let ghost old_dv = msgs.deep_view();
                                    msgs.push(s.to_owned());
                                    proof {
                                        assert(msgs.deep_view() =~~= old_dv + seq![s@]);
                                    }
                                },
                                None => {},
                            },
                            None => {},
                        }
                        i = i + 1;
                        proof {
                            assert(spec_error_msgs(items@, 0) =~~= msgs.deep_view()
                                + spec_error_msgs(items@, i as int));
                        }
                    }
                    let joined = join_with(&msgs, "; ");
                    Err(Error::GraphQL(joined))
                } else {
                    Ok(())
                }
            },
            None => Ok(()),
        },
        None => Ok(()),
    }
}

/// Decide how a pagination loop goes on after one page: no further page
/// ends the loop; a further page with a present cursor continues from that
/// cursor; a further page without a cursor is a protocol-invariant
/// violation of the upstream API, fatal and never retried — the loop can
/// neither continue nor silently stop.
pub fn next_cursor(page_info: &PageInfo) -> (r: Result<Option<String>, Error>)
    ensures
        !page_info.has_next_page ==> (r matches Ok(c) && c is None),
        (page_info.has_next_page && page_info.end_cursor is Some) ==> (r matches Ok(rc)
            && rc matches Some(s) && s@ == (page_info.end_cursor->0)@),
        page_info.has_next_page && page_info.end_cursor is None ==> (r matches Err(e) && e
            matches Error::ApiInvariant(m) && m@
            == "hasNextPage was true but endCursor was null"@),
{
    if !page_info.has_next_page {
        Ok(None)
    } else {
        match &page_info.end_cursor {
            Some(c) => Ok(Some(c.clone())),
            None => Err(
                Error::ApiInvariant("hasNextPage was true but endCursor was null".to_owned()),
            ),
        }
    }
}

/// The connection under `data.node.<field>` of a response, when the path
/// is present and the node is not `null`.
pub open spec fn spec_node_connection(response: Json, field: Seq<char>) -> Option<Json> {
    match response.spec_get("data"@) {
        Some(d) => match d.spec_get("node"@) {
            Some(n) => if n is Null {
                None
            } else {
                n.spec_get(field)
            },
            None => None,
        },
        None => None,
    }
}

/// One page of a discussion's comments.
#[derive(Debug)]
pub struct CommentsResponse {
    /// The comment nodes, absent when the page carried none.
    pub nodes: Option<Vec<Option<Comment>>>,
    /// Pagination state of the comments connection.
    pub page_info: PageInfo,
}

/// One page of a comment's replies.
#[derive(Debug)]
pub struct RepliesResponse {
    /// The reply nodes, absent when the page carried none.
    pub nodes: Option<Vec<Option<Reply>>>,
    /// Pagination state of the replies connection.
    pub page_info: PageInfo,
}

/// Whether a comments page connection is well shaped: `pageInfo` is
/// required; `nodes`, when present, must be an array of `null`s and
/// well-shaped comments.
pub open spec fn spec_comments_page_ok(conn: Json) -> bool {
    match conn {
        Json::Obj(entries) => {
            let es = entries@;
            &&& (match spec_assoc_from(es, "nodes"@, 0) {
                None => true,
                Some(Json::Arr(items)) => spec_comment_nodes_ok(items@, 0),
                Some(_) => false,
            })
            &&& (match spec_assoc_from(es, "pageInfo"@, 0) {
                Some(pv) => spec_decode_page_info(pv) is Some,
                None => false,
            })
        },
        _ => false,
    }
}

/// Whether a parsed comments page corresponds to its connection value.
pub open spec fn spec_comments_page_matches(p: CommentsResponse, conn: Json) -> bool {
    match conn {
        Json::Obj(entries) => {
            let es = entries@;
            &&& (match spec_assoc_from(es, "nodes"@, 0) {
                None => p.nodes is None,
                Some(Json::Arr(items)) => p.nodes matches Some(ns) && ns@.len() == items@.len()
                    && forall|j: int|
                    0 <= j < items@.len() ==> spec_comment_node_matches(ns@[j], items@[j]),
                Some(_) => false,
            })
            &&& Some(p.page_info) == (match spec_assoc_from(es, "pageInfo"@, 0) {
                Some(pv) => spec_decode_page_info(pv),
                None => None::<PageInfo>,
            })
        },
        _ => false,
    }
}

/// Parse one page of comments out of a raw response: navigate
/// `data.node.comments`, decode the nodes and the page state. Every
/// missing step and every malformed field is a distinct parse error.
#[verifier::loop_isolation(false)]
pub fn parse_comments_response(response: Json) -> (r: Result<CommentsResponse, Error>)
    ensures
        match spec_node_connection(response, "comments"@) {
            Some(conn) => if spec_comments_page_ok(conn) {
                r matches Ok(p) && spec_comments_page_matches(p, conn)
            } else {
                r matches Err(e) && e matches Error::JsonParse(_)
            },
            None => r matches Err(e) && e matches Error::JsonParse(_),
        },
{
    let data = match response.take("data") {
        Some(d) => d,
        None => {
            return Err(Error::JsonParse("Response missing 'data' field".to_owned()));
        },
    };
    let node = match data.take("node") {
        Some(n) => n,
        None => {
            return Err(Error::JsonParse("Response missing 'node' field".to_owned()));
        },
    };
    if node.is_null() {
        return Err(
            Error::JsonParse("Node is null - the ID may not be a valid Discussion".to_owned()),
        );
    }
    let comments = match node.take("comments") {
        Some(c) => c,
        None => {
            return Err(Error::JsonParse("Response missing 'comments' field".to_owned()));
        },
    };
    match comments {
        Json::Obj(entries) => {
            let ghost es = entries@;
            let mut entries = entries;
            let mut f_nodes: Option<Json> = None;
            let mut f_page: Option<Json> = None;
            let mut i = entries.len();
            loop
                invariant
                    i <= es.len(),
                    entries@ =~= es.subrange(0, i as int),
                    f_nodes == spec_assoc_from(es, "nodes"@, i as int),
                    f_page == spec_assoc_from(es, "pageInfo"@, i as int),
                decreases i,
            {
                match entries.pop() {
                    Some((k, val)) => {
                        i = i - 1;
                        proof {
                            reveal_strlit("nodes");
                            reveal_strlit("pageInfo");
                            assert(("nodes"@).len() == 5);
                            assert(("pageInfo"@).len() == 8);
                            assert((k, val) == es[i as int]);
                        }
                        if str_eq(k.as_str(), "nodes") {
                            f_nodes = Some(val);
                        } else if str_eq(k.as_str(), "pageInfo") {
                            f_page = Some(val);
                        }
                    },
                    None => {
                        break;
                    },
                }
            }
            let nodes = match f_nodes {
                None => None,
                Some(Json::Arr(items)) => {
                    let ghost items_g = items@;
                    match decode_comment_nodes(items) {
                        Some(ns) => {
                            proof {
                                lemma_comment_nodes_matches_ok(ns@, items_g, 0);
                            }
                            Some(ns)
                        },
                        None => {
                            return Err(
                                Error::JsonParse(
                                    "Failed to parse comment nodes: unexpected shape".to_owned(),
                                ),
                            );
                        },
                    }
                },
                Some(_) => {
                    return Err(
                        Error::JsonParse(
                            "Failed to parse comment nodes: unexpected shape".to_owned(),
                        ),
                    );
                },
            };
            let page_info = match f_page {
                Some(pv) => match decode_page_info(pv) {
                    Some(p) => p,
                    None => {
                        return Err(
                            Error::JsonParse(
                                "Failed to parse PageInfo: unexpected shape".to_owned(),
                            ),
                        );
                    },
                },
                None => {
                    return Err(Error::JsonParse("Response missing 'pageInfo' field".to_owned()));
                },
            };
            Ok(CommentsResponse { nodes, page_info })
        },
        _ => Err(Error::JsonParse("Response missing 'pageInfo' field".to_owned())),
    }
}

/// Whether a replies page connection is well shaped.
pub open spec fn spec_replies_page_ok(conn: Json) -> bool {
    match conn {
        Json::Obj(entries) => {
            let es = entries@;
            &&& (match spec_assoc_from(es, "nodes"@, 0) {
                None => true,
                Some(Json::Arr(items)) => spec_reply_nodes_ok(items@, 0),
                Some(_) => false,
            })
            &&& (match spec_assoc_from(es, "pageInfo"@, 0) {
                Some(pv) => spec_decode_page_info(pv) is Some,
                None => false,
            })
        },
        _ => false,
    }
}

/// Whether a parsed replies page corresponds to its connection value.
pub open spec fn spec_replies_page_matches(p: RepliesResponse, conn: Json) -> bool {
    match conn {
        Json::Obj(entries) => {
            let es = entries@;
            &&& (match spec_assoc_from(es, "nodes"@, 0) {
                None => p.nodes is None,
                Some(Json::Arr(items)) => p.nodes matches Some(ns) && ns@.len() == items@.len()
                    && forall|j: int|
                    0 <= j < items@.len() ==> spec_reply_node_matches(ns@[j], items@[j]),
                Some(_) => false,
            })
            &&& Some(p.page_info) == (match spec_assoc_from(es, "pageInfo"@, 0) {
                Some(pv) => spec_decode_page_info(pv),
                None => None::<PageInfo>,
            })
        },
        _ => false,
    }
}

/// Parse one page of replies out of a raw response: navigate
/// `data.node.replies`, decode the nodes and the page state.
#[verifier::loop_isolation(false)]
pub fn parse_replies_response(response: Json) -> (r: Result<RepliesResponse, Error>)
    ensures
        match spec_node_connection(response, "replies"@) {
            Some(conn) => if spec_replies_page_ok(conn) {
                r matches Ok(p) && spec_replies_page_matches(p, conn)
            } else {
                r matches Err(e) && e matches Error::JsonParse(_)
            },
            None => r matches Err(e) && e matches Error::JsonParse(_),
        },
{
    let data = match response.take("data") {
        Some(d) => d,
        None => {
            return Err(Error::JsonParse("Response missing 'data' field".to_owned()));
        },
    };
    let node = match data.take("node") {
        Some(n) => n,
        None => {
            return Err(Error::JsonParse("Response missing 'node' field".to_owned()));
        },
    };
    if node.is_null() {
        return Err(
            Error::JsonParse(
                "Node is null - the ID may not be a valid DiscussionComment".to_owned(),
            ),
        );
    }
    let replies = match node.take("replies") {
        Some(c) => c,
        None => {
            return Err(Error::JsonParse("Response missing 'replies' field".to_owned()));
        },
    };
    match replies {
        Json::Obj(entries) => {
            let ghost es = entries@;
            let mut entries = entries;
            let mut f_nodes: Option<Json> = None;
            let mut f_page: Option<Json> = None;
            let mut i = entries.len();
            loop
                invariant
                    i <= es.len(),
                    entries@ =~= es.subrange(0, i as int),
                    f_nodes == spec_assoc_from(es, "nodes"@, i as int),
                    f_page == spec_assoc_from(es, "pageInfo"@, i as int),
                decreases i,
            {
                match entries.pop() {
                    Some((k, val)) => {
                        i = i - 1;
                        proof {
                            reveal_strlit("nodes");
                            reveal_strlit("pageInfo");
                            assert(("nodes"@).len() == 5);
                            assert(("pageInfo"@).len() == 8);
                            assert((k, val) == es[i as int]);
                        }
                        if str_eq(k.as_str(), "nodes") {
                            f_nodes = Some(val);
                        } else if str_eq(k.as_str(), "pageInfo") {
                            f_page = Some(val);
                        }
                    },
                    None => {
                        break;
                    },
                }
            }
            let nodes = match f_nodes {
                None => None,
                Some(Json::Arr(items)) => {
                    let ghost items_g = items@;
                    match decode_reply_nodes(items) {
                        Some(ns) => {
                            proof {
                                lemma_reply_nodes_matches_ok(ns@, items_g, 0);
                            }
                            Some(ns)
                        },
                        None => {
                            return Err(
                                Error::JsonParse(
                                    "Failed to parse reply nodes: unexpected shape".to_owned(),
                                ),
                            );
                        },
                    }
                },
                Some(_) => {
                    return Err(
                        Error::JsonParse(
                            "Failed to parse reply nodes: unexpected shape".to_owned(),
                        ),
                    );
                },
            };
            let page_info = match f_page {
                Some(pv) => match decode_page_info(pv) {
                    Some(p) => p,
                    None => {
                        return Err(
                            Error::JsonParse(
                                "Failed to parse PageInfo: unexpected shape".to_owned(),
                            ),
                        );
                    },
                },
                None => {
                    return Err(Error::JsonParse("Response missing 'pageInfo' field".to_owned()));
                },
            };
            Ok(RepliesResponse { nodes, page_info })
        },
        _ => Err(Error::JsonParse("Response missing 'pageInfo' field".to_owned())),
    }
}

/// Whether a comment's own timestamp, and every one of its replies', is
/// in the API's fixed form.
pub open spec fn spec_comment_timestamps_ok(c: Comment) -> bool {
    &&& spec_is_timestamp(c.created_at@)
    &&& (match c.replies.nodes {
        Some(rs) => forall|j: int|
            0 <= j < rs@.len() ==> ((#[trigger] rs@[j]) matches Some(rp) ==> spec_is_timestamp(
                rp.created_at@,
            )),
        None => true,
    })
}

/// Whether every timestamp in a discussion tree is in the API's fixed
/// form.
pub open spec fn spec_discussion_timestamps_ok(d: Discussion) -> bool {
    &&& spec_is_timestamp(d.created_at@)
    &&& (match d.comments.nodes {
        Some(ns) => forall|i: int|
            0 <= i < ns@.len() ==> ((#[trigger] ns@[i]) matches Some(c)
                ==> spec_comment_timestamps_ok(c)),
        None => true,
    })
}

/// A comment that decodes carries only well-formed timestamps.
proof fn lemma_comment_matches_timestamps(c: Comment, v: Json)
    requires
        spec_comment_matches(c, v),
    ensures
        spec_comment_timestamps_ok(c),
{
    match v {
        Json::Obj(entries) => {
            let es = entries@;
            match spec_assoc_from(es, "replies"@, 0) {
                Some(rv) => match rv {
                    Json::Obj(res) => {
                        match spec_assoc_from(res@, "nodes"@, 0) {
                            Some(nv) => match nv {
                                Json::Arr(items) => {
                                    let ns = c.replies.nodes->0;
                                    assert forall|j: int|
                                        0 <= j < ns@.len() implies ((#[trigger] ns@[j]) matches
                                        Some(rp) ==> spec_is_timestamp(rp.created_at@)) by {
                                        assert(spec_reply_node_matches(ns@[j], items@[j]));
                                    }
                                },
                                _ => {},
                            },
                            None => {},
                        }
                    },
                    _ => {},
                },
                None => {},
            }
        },
        _ => {},
    }
}

/// A parsed comments page carries only well-formed timestamps.
proof fn lemma_comments_page_timestamps(p: CommentsResponse, conn: Json)
    requires
        spec_comments_page_matches(p, conn),
    ensures
        p.nodes matches Some(ns) ==> forall|j: int|
            0 <= j < ns@.len() ==> ((#[trigger] ns@[j]) matches Some(c)
                ==> spec_comment_timestamps_ok(c)),
{
    match conn {
        Json::Obj(entries) => {
            match spec_assoc_from(entries@, "nodes"@, 0) {
                Some(nv) => match nv {
                    Json::Arr(items) => {
                        match p.nodes {
                            Some(ns) => {
                                assert forall|j: int|
                                    0 <= j < ns@.len() implies ((#[trigger] ns@[j]) matches Some(
                                    c,
                                ) ==> spec_comment_timestamps_ok(c)) by {
                                    assert(spec_comment_node_matches(ns@[j], items@[j]));
                                    match ns@[j] {
                                        Some(c) => {
                                            lemma_comment_matches_timestamps(c, items@[j]);
                                        },
                                        None => {},
                                    }
                                }
                            },
                            None => {},
                        }
                    },
                    _ => {},
                },
                None => {},
            }
        },
        _ => {},
    }
}

/// A parsed replies page carries only well-formed timestamps.
proof fn lemma_replies_page_timestamps(p: RepliesResponse, conn: Json)
    requires
        spec_replies_page_matches(p, conn),
    ensures
        p.nodes matches Some(ns) ==> forall|j: int|
            0 <= j < ns@.len() ==> ((#[trigger] ns@[j]) matches Some(rp) ==> spec_is_timestamp(
                rp.created_at@,
            )),
{
    match conn {
        Json::Obj(entries) => {
            match spec_assoc_from(entries@, "nodes"@, 0) {
                Some(nv) => match nv {
                    Json::Arr(items) => {
                        match p.nodes {
                            Some(ns) => {
                                assert forall|j: int|
                                    0 <= j < ns@.len() implies ((#[trigger] ns@[j]) matches Some(
                                    rp,
                                ) ==> spec_is_timestamp(rp.created_at@)) by {
                                    assert(spec_reply_node_matches(ns@[j], items@[j]));
                                }
                            },
                            None => {},
                        }
                    },
                    _ => {},
                },
                None => {},
            }
        },
        _ => {},
    }
}

/// A discussion that decodes carries only well-formed timestamps.
pub proof fn lemma_discussion_matches_timestamps(d: Discussion, v: Json)
    requires
        spec_discussion_matches(d, v),
    ensures
        spec_discussion_timestamps_ok(d),
{
    match v {
        Json::Obj(entries) => {
            let es = entries@;
            match spec_assoc_from(es, "comments"@, 0) {
                Some(cv) => match cv {
                    Json::Obj(ces) => {
                        match spec_assoc_from(ces@, "nodes"@, 0) {
                            Some(nv) => match nv {
                                Json::Arr(items) => {
                                    let ns = d.comments.nodes->0;
                                    assert forall|i: int|
                                        0 <= i < ns@.len() implies ((#[trigger] ns@[i]) matches
                                        Some(c) ==> spec_comment_timestamps_ok(c)) by {
                                        assert(spec_comment_node_matches(ns@[i], items@[i]));
                                        match ns@[i] {
                                            Some(c) => {
                                                lemma_comment_matches_timestamps(c, items@[i]);
                                            },
                                            None => {},
                                        }
                                    }
                                },
                                _ => {},
                            },
                            None => {},
                        }
                    },
                    _ => {},
                },
                None => {},
            }
        },
        _ => {},
    }
}

/// The discussion record under `data.repository.discussion`, when the
/// path is present and neither the repository nor the discussion is null.
pub open spec fn spec_repository_discussion(response: Json) -> Option<Json> {
    match response.spec_get("data"@) {
        Some(d) => match d.spec_get("repository"@) {
            Some(rv) => if rv is Null {
                None
            } else {
                match rv.spec_get("discussion"@) {
                    Some(dv) => if dv is Null {
                        None
                    } else {
                        Some(dv)
                    },
                    None => None,
                }
            },
            None => None,
        },
        None => None,
    }
}

/// Interpret a metadata response: surface any reported GraphQL errors,
/// then navigate to `data.repository.discussion` and decode the record. A
/// missing `data` field, a missing or `null` repository or discussion, and
/// a malformed record are each a distinct parse error.
pub fn parse_discussion_response(response: Json) -> (r: Result<Discussion, Error>)
    ensures
        match spec_graphql_error_text(response) {
            Some(t) => r matches Err(e) && e matches Error::GraphQL(mm) && mm@ == t,
            None => match spec_repository_discussion(response) {
                Some(dv) => if spec_discussion_ok(dv) {
                    r matches Ok(d) && spec_discussion_matches(d, dv)
                } else {
                    r matches Err(e) && e matches Error::JsonParse(_)
                },
                None => r matches Err(e) && e matches Error::JsonParse(_),
            },
        },
{
    match check_graphql_errors(&response) {
        Ok(()) => {},
        Err(e) => {
            return Err(e);
        },
    }
    let data = match response.take("data") {
        Some(d) => d,
        None => {
            return Err(Error::JsonParse("Response missing 'data' field".to_owned()));
        },
    };
    let repository = match data.take("repository") {
        Some(rv) => if rv.is_null() {
            return Err(Error::JsonParse("Repository not found".to_owned()));
        } else {
            rv
        },
        None => {
            return Err(Error::JsonParse("Repository not found".to_owned()));
        },
    };
    let discussion_value = match repository.take("discussion") {
        Some(dv) => if dv.is_null() {
            return Err(Error::JsonParse("Discussion not found".to_owned()));
        } else {
            dv
        },
        None => {
            return Err(Error::JsonParse("Discussion not found".to_owned()));
        },
    };
    let ghost dv_g = discussion_value;
    match decode_discussion(discussion_value) {
        Some(d) => {
            proof {
                lemma_discussion_matches_ok(d, dv_g);
            }
            Ok(d)
        },
        None => Err(Error::JsonParse("Failed to parse Discussion: unexpected shape".to_owned())),
    }
}

/// A discussion that decodes is well shaped.
proof fn lemma_discussion_matches_ok(d: Discussion, v: Json)
    requires
        spec_discussion_matches(d, v),
    ensures
        spec_discussion_ok(v),
{
    match v {
        Json::Obj(entries) => {
            match spec_assoc_from(entries@, "comments"@, 0) {
                Some(cv) => match cv {
                    Json::Obj(ces) => {
                        match spec_assoc_from(ces@, "nodes"@, 0) {
                            Some(nv) => match nv {
                                Json::Arr(items) => {
                                    let ns = d.comments.nodes->0;
                                    assert forall|j: int|
                                        0 <= j < items@.len() implies spec_comment_node_matches(
                                        ns@[j],
                                        items@[j],
                                    ) by {}
                                    lemma_comment_nodes_matches_ok(ns@, items@, 0);
                                },
                                _ => {},
                            },
                            None => {},
                        }
                    },
                    _ => {},
                },
                None => {},
            }
        },
        _ => {},
    }
}

/// Execute a GraphQL query and surface any reported errors: the result is
/// the raw response document, known to carry no error payload.
pub fn execute_query_checked(client: &GitHubClient, query: &str, variables: Json) -> (r: Result<
    Json,
    Error,
>)
    ensures
        r matches Ok(v) ==> spec_graphql_error_text(v) is None,
{
    let response = client.execute_query_raw(query, variables)?;
    match check_graphql_errors(&response) {
        Ok(()) => Ok(response),
        Err(e) => Err(e),
    }
}

/// Order on comments: ascending by creation timestamp.
pub open spec fn spec_comment_le(a: Comment, b: Comment) -> bool {
    spec_str_le(a.created_at@, b.created_at@)
}

/// Order on reply nodes: ascending by creation timestamp, absent entries
/// after all present ones.
pub open spec fn spec_reply_node_le(a: Option<Reply>, b: Option<Reply>) -> bool {
    match (a, b) {
        (Some(x), Some(y)) => spec_str_le(x.created_at@, y.created_at@),
        (Some(_), None) => true,
        (None, Some(_)) => false,
        (None, None) => true,
    }
}

/// Inserting an element anywhere adds exactly it to the multiset.
proof fn lemma_insert_multiset<T>(s: Seq<T>, i: int, x: T)
    requires
        0 <= i <= s.len(),
    ensures
        s.insert(i, x).to_multiset() =~= s.to_multiset().insert(x),
{
    broadcast use group_to_multiset_ensures;

    let left = s.subrange(0, i);
    let right = s.subrange(i, s.len() as int);
    assert(s.insert(i, x) =~= left + (seq![x] + right));
    lemma_multiset_commutative(left, seq![x] + right);
    lemma_multiset_commutative(seq![x], right);
    assert(seq![x] =~= Seq::<T>::empty().push(x));
    assert(seq![x].to_multiset() =~= Multiset::<T>::empty().insert(x));
    assert(s =~= left + right);
    lemma_multiset_commutative(left, right);
}

/// Whether a comment sequence is sorted non-decreasing by creation
/// timestamp.
pub open spec fn spec_comments_sorted_seq(s: Seq<Comment>) -> bool {
    forall|x: int, y: int| 0 <= x < y < s.len() ==> spec_comment_le(s[x], s[y])
}

/// Whether a reply-node sequence is sorted non-decreasing by creation
/// timestamp, absent entries last.
pub open spec fn spec_reply_nodes_sorted_seq(s: Seq<Option<Reply>>) -> bool {
    forall|x: int, y: int| 0 <= x < y < s.len() ==> spec_reply_node_le(s[x], s[y])
}

/// Whether a comment-node sequence is sorted non-decreasing by creation
/// timestamp, absent entries last.
pub open spec fn spec_comment_nodes_sorted_seq(s: Seq<Option<Comment>>) -> bool {
    forall|x: int, y: int| 0 <= x < y < s.len() ==> spec_comment_node_le(s[x], s[y])
}

/// Stable insertion of one comment into a sorted run: the new comment
/// lands after every comment not later than it, so an equal-timestamp
/// comment stays behind the ones already placed.
pub open spec fn spec_stable_insert_comment(s: Seq<Comment>, c: Comment) -> Seq<Comment>
    decreases s.len(),
{
    if s.len() == 0 {
        seq![c]
    } else if spec_comment_le(s.last(), c) {
        s.push(c)
    } else {
        spec_stable_insert_comment(s.drop_last(), c).push(s.last())
    }
}

/// The stable insertion sort of a comment sequence, processing elements
/// in input order.
pub open spec fn spec_stable_sort_comments(s: Seq<Comment>) -> Seq<Comment>
    decreases s.len(),
{
    if s.len() == 0 {
        Seq::empty()
    } else {
        spec_stable_insert_comment(spec_stable_sort_comments(s.drop_last()), s.last())
    }
}

/// Inserting at the position found by scanning back over the
/// strictly-later run is exactly the stable insertion.
proof fn lemma_stable_insert_comment_at(s: Seq<Comment>, c: Comment, idx: int)
    requires
        0 <= idx <= s.len(),
        forall|k: int| idx <= k < s.len() ==> !spec_comment_le(s[k], c),
        idx > 0 ==> spec_comment_le(s[idx - 1], c),
    ensures
        spec_stable_insert_comment(s, c) == s.insert(idx, c),
    decreases s.len() - idx,
{
    if idx < s.len() {
        assert(!spec_comment_le(s.last(), c));
        lemma_stable_insert_comment_at(s.drop_last(), c, idx);
        assert(s.drop_last().insert(idx, c).push(s.last()) =~= s.insert(idx, c));
    } else {
        if s.len() == 0 {
            assert(seq![c] =~= s.insert(idx, c));
        } else {
            assert(spec_comment_le(s.last(), c));
            assert(s.push(c) =~= s.insert(idx, c));
        }
    }
}

/// Stable insertion of one reply node into a sorted run.
pub open spec fn spec_stable_insert_reply_node(s: Seq<Option<Reply>>, c: Option<Reply>) -> Seq<
    Option<Reply>,
>
    decreases s.len(),
{
    if s.len() == 0 {
        seq![c]
    } else if spec_reply_node_le(s.last(), c) {
        s.push(c)
    } else {
        spec_stable_insert_reply_node(s.drop_last(), c).push(s.last())
    }
}

/// The stable insertion sort of a reply-node sequence, processing
/// elements in input order.
pub open spec fn spec_stable_sort_reply_nodes(s: Seq<Option<Reply>>) -> Seq<Option<Reply>>
    decreases s.len(),
{
    if s.len() == 0 {
        Seq::empty()
    } else {
        spec_stable_insert_reply_node(spec_stable_sort_reply_nodes(s.drop_last()), s.last())
    }
}

proof fn lemma_stable_insert_reply_node_at(s: Seq<Option<Reply>>, c: Option<Reply>, idx: int)
    requires
        0 <= idx <= s.len(),
        forall|k: int| idx <= k < s.len() ==> !spec_reply_node_le(s[k], c),
        idx > 0 ==> spec_reply_node_le(s[idx - 1], c),
    ensures
        spec_stable_insert_reply_node(s, c) == s.insert(idx, c),
    decreases s.len() - idx,
{
    if idx < s.len() {
        assert(!spec_reply_node_le(s.last(), c));
        lemma_stable_insert_reply_node_at(s.drop_last(), c, idx);
        assert(s.drop_last().insert(idx, c).push(s.last()) =~= s.insert(idx, c));
    } else {
        if s.len() == 0 {
            assert(seq![c] =~= s.insert(idx, c));
        } else {
            assert(spec_reply_node_le(s.last(), c));
            assert(s.push(c) =~= s.insert(idx, c));
        }
    }
}

/// Sort comments ascending by creation timestamp, stably: each comment is
/// inserted after every earlier comment not later than it — exactly
/// [`spec_stable_sort_comments`] — so same-time comments keep the order
/// the API returned them in.
#[verifier::loop_isolation(false)]
pub fn sort_comments_by_created(v: Vec<Comment>) -> (r: Vec<Comment>)
    ensures
        r@ == spec_stable_sort_comments(v@),
        spec_comments_sorted_seq(r@),
        r@.to_multiset() == v@.to_multiset(),
{
    let mut rem = reversed(v);
    let mut out: Vec<Comment> = Vec::new();
    proof {
        broadcast use group_to_multiset_ensures;

        assert(rem@ =~= v@.reverse());
        v@.lemma_reverse_to_multiset();
        assert(out@.to_multiset().len() == 0);
        assert(out@.to_multiset() =~= Multiset::<Comment>::empty());
        assert(v@.subrange(0, 0) =~= Seq::<Comment>::empty());
    }
    loop
        invariant
            spec_comments_sorted_seq(out@),
            out@.to_multiset().add(rem@.to_multiset()) =~= v@.to_multiset(),
            rem@.len() <= v@.len(),
            forall|j: int| 0 <= j < rem@.len() ==> rem@[j] == v@[v@.len() - 1 - j],
            out@ == spec_stable_sort_comments(v@.subrange(0, v@.len() - rem@.len())),
        decreases rem@.len(),
    {
        let ghost old_rem = rem@;
        let ghost done = v@.len() - old_rem.len();
        match rem.pop() {
            Some(c) => {
                proof {
                    broadcast use group_to_multiset_ensures;

                    assert(rem@.push(c) =~= old_rem);
                    assert(old_rem.to_multiset() =~= rem@.to_multiset().insert(c));
                    assert(c == v@[done]);
                }
                let mut idx: usize = out.len();
                while idx > 0 && !str_le(out[idx - 1].created_at.as_str(), c.created_at.as_str())
                    invariant
                        idx <= out@.len(),
                        forall|k: int| idx <= k < out@.len() ==> !spec_comment_le(out@[k], c),
                    decreases idx,
                {
                    idx = idx - 1;
                }
                let ghost old_out = out@;
                out.insert(idx, c);
                proof {
                    lemma_insert_multiset(old_out, idx as int, c);
                    lemma_stable_insert_comment_at(old_out, c, idx as int);
                    let pre = v@.subrange(0, done + 1);
                    assert(pre.drop_last() =~= v@.subrange(0, done));
                    assert(pre.last() == v@[done]);
                    assert(out@ == spec_stable_sort_comments(v@.subrange(0, done + 1)));
                    assert forall|x: int, y: int|
                        0 <= x < y < out@.len() implies spec_comment_le(out@[x], out@[y]) by {
                        if y < idx {
                            assert(spec_comment_le(old_out[x], old_out[y]));
                        } else if x < idx && y == idx {
                            assert(spec_comment_le(old_out[idx - 1], c));
                            if x < idx - 1 {
                                assert(spec_comment_le(old_out[x], old_out[idx - 1]));
                                lemma_str_le_trans(
                                    old_out[x].created_at@,
                                    old_out[idx - 1].created_at@,
                                    c.created_at@,
                                );
                            }
                        } else if x < idx && y > idx {
                            assert(spec_comment_le(old_out[x], old_out[y - 1]));
                        } else if x == idx {
                            assert(!spec_comment_le(old_out[y - 1], c));
                            lemma_str_le_total(old_out[y - 1].created_at@, c.created_at@);
                        } else {
                            assert(spec_comment_le(old_out[x - 1], old_out[y - 1]));
                        }
                    }
                }
            },
            None => {
                proof {
                    broadcast use group_to_multiset_ensures;

                    assert(rem@.to_multiset().len() == 0);
                    assert(rem@.to_multiset() =~= Multiset::<Comment>::empty());
                    assert(v@.subrange(0, v@.len() as int) =~= v@);
                }
                return out;
            },
        }
    }
}

/// Sort reply nodes ascending by creation timestamp, stably — exactly
/// [`spec_stable_sort_reply_nodes`] — with absent entries after all
/// present ones; same-time replies keep the order the API returned them
/// in.
#[verifier::loop_isolation(false)]
pub fn sort_reply_nodes_by_created(v: Vec<Option<Reply>>) -> (r: Vec<Option<Reply>>)
    ensures
        r@ == spec_stable_sort_reply_nodes(v@),
        spec_reply_nodes_sorted_seq(r@),
        r@.to_multiset() == v@.to_multiset(),
{
    let mut rem = reversed(v);
    let mut out: Vec<Option<Reply>> = Vec::new();
    proof {
        broadcast use group_to_multiset_ensures;

        assert(rem@ =~= v@.reverse());
        v@.lemma_reverse_to_multiset();
        assert(out@.to_multiset().len() == 0);
        assert(out@.to_multiset() =~= Multiset::<Option<Reply>>::empty());
        assert(v@.subrange(0, 0) =~= Seq::<Option<Reply>>::empty());
    }
    loop
        invariant
            spec_reply_nodes_sorted_seq(out@),
            out@.to_multiset().add(rem@.to_multiset()) =~= v@.to_multiset(),
            rem@.len() <= v@.len(),
            forall|j: int| 0 <= j < rem@.len() ==> rem@[j] == v@[v@.len() - 1 - j],
            out@ == spec_stable_sort_reply_nodes(v@.subrange(0, v@.len() - rem@.len())),
        decreases rem@.len(),
    {
        let ghost old_rem = rem@;
        let ghost done = v@.len() - old_rem.len();
        match rem.pop() {
            Some(c) => {
                proof {
                    broadcast use group_to_multiset_ensures;

                    assert(rem@.push(c) =~= old_rem);
                    assert(old_rem.to_multiset() =~= rem@.to_multiset().insert(c));
                    assert(c == v@[done]);
                }
                let mut idx: usize = out.len();
                while idx > 0 && !reply_node_le(&out[idx - 1], &c)
                    invariant
                        idx <= out@.len(),
                        forall|k: int| idx <= k < out@.len() ==> !spec_reply_node_le(out@[k], c),
                    decreases idx,
                {
                    idx = idx - 1;
                }
                let ghost old_out = out@;
                out.insert(idx, c);
                proof {
                    lemma_insert_multiset(old_out, idx as int, c);
                    lemma_stable_insert_reply_node_at(old_out, c, idx as int);
                    let pre = v@.subrange(0, done + 1);
                    assert(pre.drop_last() =~= v@.subrange(0, done));
                    assert(pre.last() == v@[done]);
                    assert(out@ == spec_stable_sort_reply_nodes(v@.subrange(0, done + 1)));
                    assert forall|x: int, y: int|
                        0 <= x < y < out@.len() implies spec_reply_node_le(out@[x], out@[y]) by {
                        if y < idx {
                            assert(spec_reply_node_le(old_out[x], old_out[y]));
                        } else if x < idx && y == idx {
                            assert(spec_reply_node_le(old_out[idx - 1], c));
                            if x < idx - 1 {
                                assert(spec_reply_node_le(old_out[x], old_out[idx - 1]));
                                lemma_reply_node_le_trans(old_out[x], old_out[idx - 1], c);
                            }
                        } else if x < idx && y > idx {
                            assert(spec_reply_node_le(old_out[x], old_out[y - 1]));
                        } else if x == idx {
                            assert(!spec_reply_node_le(old_out[y - 1], c));
                            lemma_reply_node_le_total(old_out[y - 1], c);
                        } else {
                            assert(spec_reply_node_le(old_out[x - 1], old_out[y - 1]));
                        }
                    }
                }
            },
            None => {
                proof {
                    broadcast use group_to_multiset_ensures;

                    assert(rem@.to_multiset().len() == 0);
                    assert(rem@.to_multiset() =~= Multiset::<Option<Reply>>::empty());
                    assert(v@.subrange(0, v@.len() as int) =~= v@);
                }
                return out;
            },
        }
    }
}

/// Compare two reply nodes.
fn reply_node_le(a: &Option<Reply>, b: &Option<Reply>) -> (r: bool)
    ensures
        r == spec_reply_node_le(*a, *b),
{
    match (a, b) {
        (Some(x), Some(y)) => str_le(x.created_at.as_str(), y.created_at.as_str()),
        (Some(_), None) => true,
        (None, Some(_)) => false,
        (None, None) => true,
    }
}

/// The reply-node order is total.
proof fn lemma_reply_node_le_total(a: Option<Reply>, b: Option<Reply>)
    ensures
        spec_reply_node_le(a, b) || spec_reply_node_le(b, a),
{
    match (a, b) {
        (Some(x), Some(y)) => lemma_str_le_total(x.created_at@, y.created_at@),
        _ => {},
    }
}

/// The reply-node order is transitive.
proof fn lemma_reply_node_le_trans(a: Option<Reply>, b: Option<Reply>, c: Option<Reply>)
    requires
        spec_reply_node_le(a, b),
        spec_reply_node_le(b, c),
    ensures
        spec_reply_node_le(a, c),
{
    match (a, b, c) {
        (Some(x), Some(y), Some(z)) => lemma_str_le_trans(
            x.created_at@,
            y.created_at@,
            z.created_at@,
        ),
        _ => {},
    }
}

/// How a normalized author relates to the original: an absent author
/// becomes the deleted-account sentinel, a present one is untouched.
pub open spec fn spec_author_normalized(before: Option<Author>, after: Option<Author>) -> bool {
    match before {
        None => after matches Some(au) && au.login matches Some(l) && l@ == "<deleted>"@,
        Some(x) => after == Some(x),
    }
}

/// Normalize an author: the deleted-account sentinel stands in for an
/// absent one.
pub fn normalize_author(a: Option<Author>) -> (r: Option<Author>)
    ensures
        spec_author_normalized(a, r),
        r is Some,
{
    match a {
        None => Some(Author { login: Some("<deleted>".to_owned()) }),
        Some(x) => Some(x),
    }
}

/// How a normalized reply node relates to the original: only the author is
/// normalized, everything else is untouched.
pub open spec fn spec_reply_node_normalized(before: Option<Reply>, after: Option<Reply>) -> bool {
    match before {
        None => after is None,
        Some(rb) => after matches Some(ra) && ra.id == rb.id && ra.database_id == rb.database_id
            && spec_author_normalized(rb.author, ra.author) && ra.created_at == rb.created_at
            && ra.body == rb.body,
    }
}

/// How a normalized comment relates to the original: the comment's author
/// and its replies' authors are normalized, everything else is untouched.
pub open spec fn spec_comment_normalized(before: Comment, after: Comment) -> bool {
    &&& after.id == before.id
    &&& after.database_id == before.database_id
    &&& spec_author_normalized(before.author, after.author)
    &&& after.created_at == before.created_at
    &&& after.body == before.body
    &&& after.replies.total_count == before.replies.total_count
    &&& after.replies.page_info == before.replies.page_info
    &&& (match before.replies.nodes {
        None => after.replies.nodes is None,
        Some(ns) => after.replies.nodes matches Some(ns2) && ns2@.len() == ns@.len() && forall|
            j: int,
        |
            0 <= j < ns@.len() ==> spec_reply_node_normalized(ns@[j], ns2@[j]),
    })
}

/// Whether every author in a comment, and in its replies, is present.
pub open spec fn spec_comment_authors_present(c: Comment) -> bool {
    &&& c.author is Some
    &&& (match c.replies.nodes {
        Some(rs) => forall|j: int|
            0 <= j < rs@.len() ==> ((#[trigger] rs@[j]) matches Some(rp) ==> rp.author is Some),
        None => true,
    })
}

/// Normalize one comment's author and its replies' authors.
#[verifier::loop_isolation(false)]
fn normalize_comment(c: Comment) -> (r: Comment)
    ensures
        spec_comment_normalized(c, r),
        spec_comment_authors_present(r),
{
    let nodes = match c.replies.nodes {
        None => None,
        Some(ns) => {
            let ghost before = ns@;
            let mut rem = reversed(ns);
            let mut out: Vec<Option<Reply>> = Vec::new();
            loop
                invariant
                    rem@.len() + out@.len() == before.len(),
                    forall|j: int|
                        0 <= j < rem@.len() ==> rem@[j] == before[before.len() - 1 - j],
                    forall|j: int|
                        0 <= j < out@.len() ==> spec_reply_node_normalized(before[j], out@[j]),
                    forall|j: int|
                        0 <= j < out@.len() ==> ((#[trigger] out@[j]) matches Some(rp)
                            ==> rp.author is Some),
                decreases rem@.len(),
            {
                match rem.pop() {
                    Some(node) => {
                        match node {
                            Some(rp) => {
                                out.push(
                                    Some(
                                        Reply {
                                            id: rp.id,
                                            database_id: rp.database_id,
                                            author: normalize_author(rp.author),
                                            created_at: rp.created_at,
                                            body: rp.body,
                                        },
                                    ),
                                );
                            },
                            None => {
                                out.push(None);
                            },
                        }
                    },
                    None => {
                        break;
                    },
                }
            }
            Some(out)
        },
    };
    Comment {
        id: c.id,
        database_id: c.database_id,
        author: normalize_author(c.author),
        created_at: c.created_at,
        body: c.body,
        replies: CommentReplies {
            total_count: c.replies.total_count,
            nodes,
            page_info: c.replies.page_info,
        },
    }
}

/// Replace absent authors with the deleted-account sentinel, on the
/// discussion itself, on every comment, and on every reply. Nothing else
/// changes.
#[verifier::loop_isolation(false)]
pub fn replace_deleted_authors(discussion: Discussion, comments: Vec<Comment>) -> (r: (
    Discussion,
    Vec<Comment>,
))
    ensures
        spec_author_normalized(discussion.author, r.0.author),
        r.0.author is Some,
        r.0.id == discussion.id,
        r.0.title == discussion.title,
        r.0.number == discussion.number,
        r.0.url == discussion.url,
        r.0.created_at == discussion.created_at,
        r.0.body == discussion.body,
        r.0.comments == discussion.comments,
        r.1@.len() == comments@.len(),
        forall|i: int|
            0 <= i < comments@.len() ==> spec_comment_normalized(comments@[i], r.1@[i]),
        forall|i: int| 0 <= i < r.1@.len() ==> spec_comment_authors_present(r.1@[i]),
{
    let ghost before = comments@;
    let mut rem = reversed(comments);
    let mut out: Vec<Comment> = Vec::new();
    loop
        invariant
            rem@.len() + out@.len() == before.len(),
            forall|j: int| 0 <= j < rem@.len() ==> rem@[j] == before[before.len() - 1 - j],
            forall|i: int| 0 <= i < out@.len() ==> spec_comment_normalized(before[i], out@[i]),
            forall|i: int| 0 <= i < out@.len() ==> spec_comment_authors_present(out@[i]),
        decreases rem@.len(),
    {
        match rem.pop() {
            Some(c) => {
                out.push(normalize_comment(c));
            },
            None => {
                break;
            },
        }
    }
    let d = Discussion {
        id: discussion.id,
        title: discussion.title,
        number: discussion.number,
        url: discussion.url,
        created_at: discussion.created_at,
        body: discussion.body,
        author: normalize_author(discussion.author),
        comments: discussion.comments,
    };
    (d, out)
}

/// Fetch all comments of a discussion through cursor-based pagination:
/// pages are requested one at a time, from the first page on, each next
/// request keyed by the page's continuation cursor, until a page reports
/// no further pages; `null` entries in a page are dropped. Any failure
/// aborts the whole fetch at once.
#[verifier::loop_isolation(false)]
pub fn fetch_all_comments(client: &GitHubClient, discussion_id: &str) -> (r: Result<
    Vec<Comment>,
    Error,
>)
    ensures
        r matches Ok(cs) ==> forall|i: int|
            0 <= i < cs@.len() ==> spec_comment_timestamps_ok(#[trigger] cs@[i]),
{
    let mut all_comments: Vec<Comment> = Vec::new();
    let mut after: Option<String> = None;
    let mut pages: u64 = 0;
    while pages < u64::MAX
        invariant
            forall|i: int|
                0 <= i < all_comments@.len() ==> spec_comment_timestamps_ok(
                    #[trigger] all_comments@[i],
                ),
        decreases u64::MAX - pages,
    {
        pages = pages + 1;
        let after_json = match &after {
            Some(c) => Json::Str(c.clone()),
            None => Json::Null,
        };
        let variables = Json::Obj(
            vec![
                ("id".to_owned(), Json::Str(discussion_id.to_owned())),
                ("after".to_owned(), after_json),
            ],
        );
        let response = execute_query_checked(client, COMMENTS_QUERY, variables)?;
        let ghost resp_g = response;
        let page = parse_comments_response(response)?;
        proof {
            match spec_node_connection(resp_g, "comments"@) {
                Some(conn) => {
                    lemma_comments_page_timestamps(page, conn);
                },
                None => {},
            }
        }
        match page.nodes {
            Some(nodes) => {
                let ghost nodes_g = nodes@;
                let mut rev = reversed(nodes);
                loop
                    invariant
                        forall|i: int|
                            0 <= i < all_comments@.len() ==> spec_comment_timestamps_ok(
                                #[trigger] all_comments@[i],
                            ),
                        forall|j: int|
                            0 <= j < rev@.len() ==> ((#[trigger] rev@[j]) matches Some(c)
                                ==> spec_comment_timestamps_ok(c)),
                    decreases rev@.len(),
                {
                    match rev.pop() {
                        Some(Some(c)) => {
                            all_comments.push(c);
                        },
                        Some(None) => {},
                        None => {
                            break;
                        },
                    }
                }
            },
            None => {},
        }
        match next_cursor(&page.page_info)? {
            Some(c) => {
                after = Some(c);
            },
            None => {
                return Ok(all_comments);
            },
        }
    }
    Err(Error::ApiInvariant("pagination did not terminate".to_owned()))
}

/// Fetch all replies of a comment through cursor-based pagination; same
/// stepping and failure policy as the comments loop.
#[verifier::loop_isolation(false)]
pub fn fetch_all_replies(client: &GitHubClient, comment_id: &str) -> (r: Result<Vec<Reply>, Error>)
    ensures
        r matches Ok(rs) ==> forall|i: int|
            0 <= i < rs@.len() ==> spec_is_timestamp((#[trigger] rs@[i]).created_at@),
{
    let mut all_replies: Vec<Reply> = Vec::new();
    let mut after: Option<String> = None;
    let mut pages: u64 = 0;
    while pages < u64::MAX
        invariant
            forall|i: int|
                0 <= i < all_replies@.len() ==> spec_is_timestamp(
                    (#[trigger] all_replies@[i]).created_at@,
                ),
        decreases u64::MAX - pages,
    {
        pages = pages + 1;
        let after_json = match &after {
            Some(c) => Json::Str(c.clone()),
            None => Json::Null,
        };
        let variables = Json::Obj(
            vec![
                ("id".to_owned(), Json::Str(comment_id.to_owned())),
                ("after".to_owned(), after_json),
            ],
        );
        let response = execute_query_checked(client, REPLIES_QUERY, variables)?;
        let ghost resp_g = response;
        let page = parse_replies_response(response)?;
        proof {
            match spec_node_connection(resp_g, "replies"@) {
                Some(conn) => {
                    lemma_replies_page_timestamps(page, conn);
                },
                None => {},
            }
        }
        match page.nodes {
            Some(nodes) => {
                let mut rev = reversed(nodes);
                loop
                    invariant
                        forall|i: int|
                            0 <= i < all_replies@.len() ==> spec_is_timestamp(
                                (#[trigger] all_replies@[i]).created_at@,
                            ),
                        forall|j: int|
                            0 <= j < rev@.len() ==> ((#[trigger] rev@[j]) matches Some(rp)
                                ==> spec_is_timestamp(rp.created_at@)),
                    decreases rev@.len(),
                {
                    match rev.pop() {
                        Some(Some(rp)) => {
                            all_replies.push(rp);
                        },
                        Some(None) => {},
                        None => {
                            break;
                        },
                    }
                }
            },
            None => {},
        }
        match next_cursor(&page.page_info)? {
            Some(c) => {
                after = Some(c);
            },
            None => {
                return Ok(all_replies);
            },
        }
    }
    Err(Error::ApiInvariant("pagination did not terminate".to_owned()))
}

/// Order on comment nodes: ascending by creation timestamp, absent entries
/// after all present ones.
pub open spec fn spec_comment_node_le(a: Option<Comment>, b: Option<Comment>) -> bool {
    match (a, b) {
        (Some(x), Some(y)) => spec_comment_le(x, y),
        (Some(_), None) => true,
        (None, Some(_)) => false,
        (None, None) => true,
    }
}

/// Whether a comment's replies are sorted ascending by creation timestamp.
pub open spec fn spec_replies_sorted(c: Comment) -> bool {
    match c.replies.nodes {
        Some(rs) => spec_reply_nodes_sorted_seq(rs@),
        None => true,
    }
}

/// The fetched tree's ordering invariant: comments sorted non-decreasing
/// by creation timestamp, and within each comment so are its replies.
pub open spec fn spec_discussion_tree_sorted(d: Discussion) -> bool {
    match d.comments.nodes {
        Some(ns) => {
            &&& spec_comment_nodes_sorted_seq(ns@)
            &&& forall|i: int|
                0 <= i < ns@.len() ==> ((#[trigger] ns@[i]) matches Some(c)
                    ==> spec_replies_sorted(c))
        },
        None => true,
    }
}

/// Whether every author in the tree is present (normalized).
pub open spec fn spec_discussion_authors_present(d: Discussion) -> bool {
    &&& d.author is Some
    &&& (match d.comments.nodes {
        Some(ns) => forall|i: int|
            0 <= i < ns@.len() ==> ((#[trigger] ns@[i]) matches Some(c)
                ==> spec_comment_authors_present(c)),
        None => true,
    })
}

/// Whether one comment is fully materialized: its replies connection has
/// no page pending, and its reply nodes, when present, are nonempty and
/// all present.
pub open spec fn spec_comment_materialized(c: Comment) -> bool {
    &&& c.replies.page_info.has_next_page == false
    &&& c.replies.page_info.end_cursor is None
    &&& (match c.replies.nodes {
        Some(rs) => rs@.len() > 0 && forall|j: int|
            0 <= j < rs@.len() ==> (#[trigger] rs@[j]) is Some,
        None => true,
    })
}

/// Whether a discussion tree is fully materialized: no page pending at
/// either level, and node entries, when present, nonempty and all
/// present.
pub open spec fn spec_discussion_materialized(d: Discussion) -> bool {
    &&& d.comments.page_info.has_next_page == false
    &&& d.comments.page_info.end_cursor is None
    &&& (match d.comments.nodes {
        Some(ns) => ns@.len() > 0 && forall|i: int|
            0 <= i < ns@.len() ==> ((#[trigger] ns@[i]) is Some && (ns@[i] matches Some(c)
                ==> spec_comment_materialized(c))),
        None => true,
    })
}

/// Author normalization leaves materialization untouched.
proof fn lemma_normalized_preserves_materialized(before: Comment, after: Comment)
    requires
        spec_comment_normalized(before, after),
        spec_comment_materialized(before),
    ensures
        spec_comment_materialized(after),
{
    match before.replies.nodes {
        Some(ns) => {
            let ns2 = after.replies.nodes->0;
            assert forall|j: int| 0 <= j < ns2@.len() implies (#[trigger] ns2@[j]) is Some by {
                assert(spec_reply_node_normalized(ns@[j], ns2@[j]));
                assert(ns@[j] is Some);
            }
        },
        None => {},
    }
}

/// Sort one comment's reply nodes; everything else is untouched.
fn sort_comment_replies(c: Comment) -> (r: Comment)
    ensures
        spec_replies_sorted(r),
        spec_comment_authors_present(c) ==> spec_comment_authors_present(r),
        spec_comment_materialized(c) ==> spec_comment_materialized(r),
        r.created_at == c.created_at,
        r.author == c.author,
{
    match c.replies.nodes {
        None => {
            let r = Comment {
                id: c.id,
                database_id: c.database_id,
                author: c.author,
                created_at: c.created_at,
                body: c.body,
                replies: CommentReplies {
                    total_count: c.replies.total_count,
                    nodes: None,
                    page_info: c.replies.page_info,
                },
            };
            r
        },
        Some(ns) => {
            let ghost before = ns@;
            let sorted = sort_reply_nodes_by_created(ns);
            proof {
                broadcast use group_to_multiset_ensures;

                if spec_comment_authors_present(c) {
                    assert forall|j: int|
                        0 <= j < sorted@.len() implies ((#[trigger] sorted@[j]) matches Some(rp)
                        ==> rp.author is Some) by {
                        assert(sorted@.to_multiset().contains(sorted@[j]));
                        assert(before.contains(sorted@[j]));
                    }
                }
                if spec_comment_materialized(c) {
                    assert forall|j: int|
                        0 <= j < sorted@.len() implies (#[trigger] sorted@[j]) is Some by {
                        assert(sorted@.to_multiset().contains(sorted@[j]));
                        assert(before.contains(sorted@[j]));
                    }
                }
            }
            let r = Comment {
                id: c.id,
                database_id: c.database_id,
                author: c.author,
                created_at: c.created_at,
                body: c.body,
                replies: CommentReplies {
                    total_count: c.replies.total_count,
                    nodes: Some(sorted),
                    page_info: c.replies.page_info,
                },
            };
            r
        },
    }
}

/// Wrap sorted comments into present nodes, keeping order, sortedness and
/// the per-comment properties.
#[verifier::loop_isolation(false)]
fn wrap_comment_nodes(comments: Vec<Comment>) -> (r: Vec<Option<Comment>>)
    ensures
        r@.len() == comments@.len(),
        forall|i: int| 0 <= i < comments@.len() ==> r@[i] == Some(comments@[i]),
{
    let ghost before = comments@;
    let mut rem = reversed(comments);
    let mut out: Vec<Option<Comment>> = Vec::new();
    loop
        invariant
            rem@.len() + out@.len() == before.len(),
            forall|j: int| 0 <= j < rem@.len() ==> rem@[j] == before[before.len() - 1 - j],
            forall|i: int| 0 <= i < out@.len() ==> out@[i] == Some(before[i]),
        decreases rem@.len(),
    {
        match rem.pop() {
            Some(c) => {
                out.push(Some(c));
            },
            None => {
                break;
            },
        }
    }
    out
}

/// Wrap fetched replies into present nodes, keeping order.
#[verifier::loop_isolation(false)]
fn wrap_reply_nodes(replies: Vec<Reply>) -> (r: Vec<Option<Reply>>)
    ensures
        r@.len() == replies@.len(),
        forall|i: int| 0 <= i < replies@.len() ==> r@[i] == Some(replies@[i]),
{
    let ghost before = replies@;
    let mut rem = reversed(replies);
    let mut out: Vec<Option<Reply>> = Vec::new();
    loop
        invariant
            rem@.len() + out@.len() == before.len(),
            forall|j: int| 0 <= j < rem@.len() ==> rem@[j] == before[before.len() - 1 - j],
            forall|i: int| 0 <= i < out@.len() ==> out@[i] == Some(before[i]),
        decreases rem@.len(),
    {
        match rem.pop() {
            Some(rp) => {
                out.push(Some(rp));
            },
            None => {
                break;
            },
        }
    }
    out
}

/// Fetch a complete discussion: its metadata, then all comments, then per
/// comment all replies; normalize absent authors to the deleted-account
/// sentinel; and sort comments, and each comment's replies, ascending by
/// creation timestamp. On success the tree is fully materialized: no page
/// is pending, every author is present, and the ordering invariant holds.
/// Any failure aborts the whole fetch with no partial result.
#[verifier::loop_isolation(false)]
pub fn fetch_discussion(client: &GitHubClient, owner: &str, repo: &str, number: u64) -> (r: Result<
    Discussion,
    Error,
>)
    ensures
        r matches Ok(d) ==> spec_discussion_tree_sorted(d) && spec_discussion_authors_present(d)
            && spec_discussion_materialized(d),
{
    let variables = Json::Obj(
        vec![
            ("owner".to_owned(), Json::Str(owner.to_owned())),
            ("repo".to_owned(), Json::Str(repo.to_owned())),
            ("number".to_owned(), Json::NumText(crate::text::u64_to_string(number))),
        ],
    );
    let discussion = client.execute_query(crate::graphql::DISCUSSION_QUERY, variables)?;
    let discussion_id = discussion.id.clone();

    let comments = fetch_all_comments(client, discussion_id.as_str())?;

    let mut rem = reversed(comments);
    let mut attached: Vec<Comment> = Vec::new();
    loop
        invariant
            forall|i: int|
                0 <= i < attached@.len() ==> spec_comment_materialized(#[trigger] attached@[i]),
        decreases rem@.len(),
    {
        match rem.pop() {
            Some(c) => {
                let comment_id = c.id.clone();
                let replies = fetch_all_replies(client, comment_id.as_str())?;
                let nodes: Option<Vec<Option<Reply>>> = if replies.len() == 0 {
                    None
                } else {
                    Some(wrap_reply_nodes(replies))
                };
                attached.push(
                    Comment {
                        id: c.id,
                        database_id: c.database_id,
                        author: c.author,
                        created_at: c.created_at,
                        body: c.body,
                        replies: CommentReplies {
                            total_count: c.replies.total_count,
                            nodes,
                            page_info: PageInfo { has_next_page: false, end_cursor: None },
                        },
                    },
                );
            },
            None => {
                break;
            },
        }
    }

    let ghost attached_g = attached@;
    let (discussion, comments) = replace_deleted_authors(discussion, attached);
    proof {
        assert forall|i: int|
            0 <= i < comments@.len() implies spec_comment_materialized(
            #[trigger] comments@[i],
        ) by {
            lemma_normalized_preserves_materialized(attached_g[i], comments@[i]);
        }
    }

    let mut rem = reversed(comments);
    let mut replies_sorted: Vec<Comment> = Vec::new();
    loop
        invariant
            forall|i: int| 0 <= i < replies_sorted@.len() ==> spec_replies_sorted(
                replies_sorted@[i],
            ),
            forall|i: int| 0 <= i < replies_sorted@.len() ==> spec_comment_authors_present(
                replies_sorted@[i],
            ),
            forall|i: int| 0 <= i < replies_sorted@.len() ==> spec_comment_materialized(
                replies_sorted@[i],
            ),
            forall|i: int| 0 <= i < rem@.len() ==> spec_comment_authors_present(rem@[i]),
            forall|i: int| 0 <= i < rem@.len() ==> spec_comment_materialized(rem@[i]),
        decreases rem@.len(),
    {
        match rem.pop() {
            Some(c) => {
                replies_sorted.push(sort_comment_replies(c));
            },
            None => {
                break;
            },
        }
    }

    let ghost pre_sort = replies_sorted@;
    let sorted = sort_comments_by_created(replies_sorted);
    proof {
        broadcast use group_to_multiset_ensures;

        assert forall|i: int|
            0 <= i < sorted@.len() implies spec_replies_sorted(sorted@[i])
            && spec_comment_authors_present(sorted@[i]) && spec_comment_materialized(
            sorted@[i],
        ) by {
            assert(sorted@.to_multiset().contains(sorted@[i]));
            assert(pre_sort.contains(sorted@[i]));
        }
    }

    let nodes: Option<Vec<Option<Comment>>> = if sorted.len() == 0 {
        None
    } else {
        let ghost sorted_g = sorted@;
        let wrapped = wrap_comment_nodes(sorted);
        proof {
            assert forall|x: int, y: int|
                0 <= x < y < wrapped@.len() implies spec_comment_node_le(
                wrapped@[x],
                wrapped@[y],
            ) by {
                assert(spec_comment_le(sorted_g[x], sorted_g[y]));
            }
        }
        Some(wrapped)
    };

    let result = Discussion {
        id: discussion.id,
        title: discussion.title,
        number: discussion.number,
        url: discussion.url,
        created_at: discussion.created_at,
        body: discussion.body,
        author: discussion.author,
        comments: DiscussionComments {
            total_count: discussion.comments.total_count,
            nodes,
            page_info: PageInfo { has_next_page: false, end_cursor: None },
        },
    };
    Ok(result)
}

} // verus!
