//! Markdown assembly of a fetched discussion.
//!
//! The assembler renders the tree into one Markdown document: a header
//! block, the original post, and one numbered subsection per comment with
//! its replies nested beneath. Body text passes through verbatim except
//! that line endings are normalized to line feeds and a line starting with
//! a heading marker is escaped, so body content can never be mistaken for
//! document structure.

use vstd::prelude::*;
use crate::models::{Author, Comment, Discussion, Reply};
use crate::text::{
    chars_of,
    string_from_chars,
    extend_chars,
    lines_of,
    spec_lines,
    spec_join_newline,
    spec_decimal,
    u64_to_string,
    usize_to_string,
};
use crate::transform::{replace_all, spec_replace_all};
use crate::text::spec_matches_at;

verus! {

/// The display name of an optional author: the login, or the sentinel for
/// a deleted account.
pub open spec fn spec_author_login(author: Option<Author>) -> Seq<char> {
    match author {
        Some(a) => match a.login {
            Some(l) => l@,
            None => "<deleted>"@,
        },
        None => "<deleted>"@,
    }
}

/// The author's login, with `<deleted>` standing in for an absent account.
pub fn get_author_login<'a>(author: &'a Option<Author>) -> (r: &'a str)
    ensures
        r@ == spec_author_login(*author),
{
    match author {
        Some(a) => match &a.login {
            Some(l) => l.as_str(),
            None => "<deleted>",
        },
        None => "<deleted>",
    }
}

/// All carriage-return variants collapsed to line feeds: `\r\n` first, then
/// any lone `\r`.
pub open spec fn spec_normalize_crlf(body: Seq<char>) -> Seq<char> {
    spec_replace_all(spec_replace_all(body, "\r\n"@, "\n"@), "\r"@, "\n"@)
}

/// Normalize CRLF and lone CR line endings to LF.
pub fn normalize_crlf(body: &str) -> (r: String)
    ensures
        r@ == spec_normalize_crlf(body@),
{
    let cs = chars_of(body);
    let crlf = chars_of("\r\n");
    let lf = chars_of("\n");
    let cr = chars_of("\r");
    proof {
        reveal_strlit("\r\n");
        reveal_strlit("\r");
    }
    let step1 = replace_all(&cs, &crlf, &lf);
    let step2 = replace_all(&step1, &cr, &lf);
    string_from_chars(&step2)
}

/// A line with a leading heading marker escaped by a backslash.
pub open spec fn spec_escape_heading_line(l: Seq<char>) -> Seq<char> {
    if l.len() > 0 && l[0] == '#' {
        seq!['\\'] + l
    } else {
        l
    }
}

/// Every line that starts with `#` prefixed with a backslash; the presence
/// of a trailing newline is preserved.
pub open spec fn spec_escape_headings(body: Seq<char>) -> Seq<char> {
    let joined = spec_join_newline(
        spec_lines(body).map(|i: int, l: Seq<char>| spec_escape_heading_line(l)),
    );
    if body.len() > 0 && body.last() == '\n' {
        joined + seq!['\n']
    } else {
        joined
    }
}

/// Escape Markdown heading syntax at the start of lines.
#[verifier::loop_isolation(false)]
pub fn escape_headings(body: &str) -> (r: String)
    ensures
        r@ == spec_escape_headings(body@),
{
    let cs = chars_of(body);
    let lines = lines_of(&cs);
    let ghost lns = lines.deep_view();
    let ghost mapped = lns.map(|i: int, l: Seq<char>| spec_escape_heading_line(l));
    let mut out: Vec<char> = Vec::new();
    let mut i: usize = 0;
    while i < lines.len()
        invariant
            i <= lines@.len(),
            lines.deep_view() == lns,
            mapped == lns.map(|i: int, l: Seq<char>| spec_escape_heading_line(l)),
            out@ == spec_join_newline(mapped.subrange(0, i as int)),
        decreases lines@.len() - i,
    {
        if i > 0 {
            out.push('\n');
        }
        let line = &lines[i];
        proof {
            assert(lines@[i as int].deep_view() =~= lines@[i as int]@);
            assert(lns[i as int] == lines@[i as int]@);
            assert(mapped[i as int] == spec_escape_heading_line(lns[i as int]));
        }
        if line.len() > 0 && line[0] == '#' {
            out.push('\\');
        }
        extend_chars(&mut out, line);
        i = i + 1;
        proof {
            let pre = mapped.subrange(0, i as int);
            assert(pre.drop_last() =~= mapped.subrange(0, i - 1));
            assert(pre.last() == mapped[i - 1]);
            assert(out@ =~= spec_join_newline(mapped.subrange(0, i as int)));
        }
    }
    if cs.len() > 0 && cs[cs.len() - 1] == '\n' {
        out.push('\n');
    }
    proof {
        assert(mapped.subrange(0, mapped.len() as int) =~= mapped);
        assert(out@ =~= spec_escape_headings(body@));
    }
    string_from_chars(&out)
}

/// Body content as the document carries it: line endings normalized, then
/// leading heading markers escaped; everything else verbatim.
pub open spec fn spec_process_body(body: Seq<char>) -> Seq<char> {
    spec_escape_headings(spec_normalize_crlf(body))
}

/// Process body content for output.
pub fn process_body(body: &str) -> (r: String)
    ensures
        r@ == spec_process_body(body@),
{
    let normalized = normalize_crlf(body);
    escape_headings(normalized.as_str())
}

/// A timestamp as the document shows it: the API's fixed
/// `YYYY-MM-DDTHH:MM:SSZ` form becomes `YYYY-MM-DD HH:MM:SS UTC`; any
/// other text passes through unchanged.
pub open spec fn spec_display_timestamp(t: Seq<char>) -> Seq<char> {
    if t.len() == 20 && t[10] == 'T' && t[19] == 'Z' {
        t.subrange(0, 10) + seq![' '] + t.subrange(11, 19) + " UTC"@
    } else {
        t
    }
}

/// Render a timestamp for display.
pub fn display_timestamp(t: &str) -> (r: String)
    ensures
        r@ == spec_display_timestamp(t@),
{
    let cs = chars_of(t);
    if cs.len() == 20 && cs[10] == 'T' && cs[19] == 'Z' {
        let mut out: Vec<char> = Vec::new();
        let date = crate::text::subvec(&cs, 0, 10);
        extend_chars(&mut out, &date);
        out.push(' ');
        let time = crate::text::subvec(&cs, 11, 19);
        extend_chars(&mut out, &time);
        let suffix = chars_of(" UTC");
        extend_chars(&mut out, &suffix);
        proof {
            assert(out@ =~= spec_display_timestamp(t@));
        }
        string_from_chars(&out)
    } else {
        t.to_owned()
    }
}

/// The author/timestamp line under each section heading.
pub open spec fn spec_author_line(author: Option<Author>, created_at: Seq<char>) -> Seq<char> {
    "_author: "@ + spec_author_login(author) + " ("@ + spec_display_timestamp(created_at)
        + ")_\n"@
}

/// Build the author/timestamp line.
fn author_line(author: &Option<Author>, created_at: &str) -> (r: String)
    ensures
        r@ == spec_author_line(*author, created_at@),
{
    let mut s = "_author: ".to_owned();
    s.append(get_author_login(author));
    s.append(" (");
    let t = display_timestamp(created_at);
    s.append(t.as_str());
    s.append(")_\n");
    s
}

/// The document's header block: title heading, repository locator, URL,
/// creation time, author, and a rule.
pub open spec fn spec_generate_header(d: Discussion, owner: Seq<char>, repo: Seq<char>) -> Seq<
    char,
> {
    "# "@ + d.title@ + "\nDiscussion: "@ + owner + "/"@ + repo + "#"@ + spec_decimal(
        d.number as nat,
    ) + "\nURL: "@ + d.url@ + "\nCreated at: "@ + spec_display_timestamp(d.created_at@)
        + "\nAuthor: "@ + spec_author_login(d.author) + "\n---\n"@
}

/// Generate the header block with the discussion's metadata.
pub fn generate_header(discussion: &Discussion, owner: &str, repo: &str) -> (r: String)
    ensures
        r@ == spec_generate_header(*discussion, owner@, repo@),
{
    let mut s = "# ".to_owned();
    s.append(discussion.title.as_str());
    s.append("\nDiscussion: ");
    s.append(owner);
    s.append("/");
    s.append(repo);
    s.append("#");
    let num = u64_to_string(discussion.number);
    s.append(num.as_str());
    s.append("\nURL: ");
    s.append(discussion.url.as_str());
    s.append("\nCreated at: ");
    let ts = display_timestamp(discussion.created_at.as_str());
    s.append(ts.as_str());
    s.append("\nAuthor: ");
    s.append(get_author_login(&discussion.author));
    s.append("\n---\n");
    s
}

/// The original post section: its heading, the author line, the processed
/// body, and a rule.
pub open spec fn spec_generate_original_post(d: Discussion) -> Seq<char> {
    "## Original Post\n"@ + spec_author_line(d.author, d.created_at@) + spec_process_body(d.body@)
        + "\n---\n"@
}

/// Generate the original post section.
pub fn generate_original_post(discussion: &Discussion) -> (r: String)
    ensures
        r@ == spec_generate_original_post(*discussion),
{
    let mut s = "## Original Post\n".to_owned();
    let al = author_line(&discussion.author, discussion.created_at.as_str());
    s.append(al.as_str());
    let body = process_body(discussion.body.as_str());
    s.append(body.as_str());
    s.append("\n---\n");
    s
}

/// One reply subsection: `#### Reply <comment>.<reply>`, the author line,
/// and the processed body.
pub open spec fn spec_reply_block(r: Reply, cnum: nat, rnum: nat) -> Seq<char> {
    "#### Reply "@ + spec_decimal(cnum) + "."@ + spec_decimal(rnum) + "\n"@ + spec_author_line(
        r.author,
        r.created_at@,
    ) + spec_process_body(r.body@) + "\n"@
}

/// The reply subsections of one comment from reply index `i` on, numbered
/// from `rnum + 1`; absent entries are skipped without a number.
pub open spec fn spec_replies_from(
    nodes: Seq<Option<Reply>>,
    i: int,
    cnum: nat,
    rnum: nat,
) -> Seq<char>
    decreases nodes.len() - i,
{
    if i < 0 || i >= nodes.len() {
        Seq::empty()
    } else {
        match nodes[i] {
            Some(r) => spec_reply_block(r, cnum, rnum + 1) + spec_replies_from(
                nodes,
                i + 1,
                cnum,
                rnum + 1,
            ),
            None => spec_replies_from(nodes, i + 1, cnum, rnum),
        }
    }
}

/// One comment subsection: `### Comment <n>`, the author line, the
/// processed body, and the comment's reply subsections.
pub open spec fn spec_comment_block(c: Comment, cnum: nat) -> Seq<char> {
    "### Comment "@ + spec_decimal(cnum) + "\n"@ + spec_author_line(c.author, c.created_at@)
        + spec_process_body(c.body@) + "\n"@ + (match c.replies.nodes {
        Some(rs) => spec_replies_from(rs@, 0, cnum, 0),
        None => Seq::empty(),
    })
}

/// The comment subsections from comment index `i` on, numbered from
/// `cnum + 1`; absent entries are skipped without a number.
pub open spec fn spec_comments_from(nodes: Seq<Option<Comment>>, i: int, cnum: nat) -> Seq<char>
    decreases nodes.len() - i,
{
    if i < 0 || i >= nodes.len() {
        Seq::empty()
    } else {
        match nodes[i] {
            Some(c) => spec_comment_block(c, cnum + 1) + spec_comments_from(nodes, i + 1, cnum + 1),
            None => spec_comments_from(nodes, i + 1, cnum),
        }
    }
}

/// The comments section: its heading, then every present comment with its
/// replies, numbered sequentially from 1.
pub open spec fn spec_generate_comments(d: Discussion) -> Seq<char> {
    "## Comments\n"@ + (match d.comments.nodes {
        Some(nodes) => spec_comments_from(nodes@, 0, 0),
        None => Seq::empty(),
    })
}

/// Generate the reply subsections of one comment.
#[verifier::loop_isolation(false)]
fn generate_replies(nodes: &Vec<Option<Reply>>, cnum: usize, out: &mut String)
    requires
        cnum >= 1,
    ensures
        final(out)@ == old(out)@ + spec_replies_from(nodes@, 0, cnum as nat, 0),
{
    let mut i: usize = 0;
    let mut rnum: usize = 0;
    while i < nodes.len()
        invariant
            i <= nodes@.len(),
            rnum <= i,
            out@ + spec_replies_from(nodes@, i as int, cnum as nat, rnum as nat) == old(out)@
                + spec_replies_from(nodes@, 0, cnum as nat, 0),
        decreases nodes@.len() - i,
    {
        match &nodes[i] {
            Some(r) => {
                rnum = rnum + 1;
                out.append("#### Reply ");
                let cn = usize_to_string(cnum);
                out.append(cn.as_str());
                out.append(".");
                let rn = usize_to_string(rnum);
                out.append(rn.as_str());
                out.append("\n");
                let al = author_line(&r.author, r.created_at.as_str());
                out.append(al.as_str());
                let body = process_body(r.body.as_str());
                out.append(body.as_str());
                out.append("\n");
            },
            None => {},
        }
        i = i + 1;
    }
}

/// Generate the comments section with all comments and replies. With no
/// comments the section heading still stands alone.
#[verifier::loop_isolation(false)]
pub fn generate_comments(discussion: &Discussion) -> (r: String)
    ensures
        r@ == spec_generate_comments(*discussion),
{
    let mut out = "## Comments\n".to_owned();
    match &discussion.comments.nodes {
        Some(nodes) => {
            let mut i: usize = 0;
            let mut cnum: usize = 0;
            while i < nodes.len()
                invariant
                    i <= nodes@.len(),
                    cnum <= i,
                    out@ + spec_comments_from(nodes@, i as int, cnum as nat) == "## Comments\n"@
                        + spec_comments_from(nodes@, 0, 0),
                decreases nodes@.len() - i,
            {
                match &nodes[i] {
                    Some(c) => {
                        cnum = cnum + 1;
                        out.append("### Comment ");
                        let cn = usize_to_string(cnum);
                        out.append(cn.as_str());
                        out.append("\n");
                        let al = author_line(&c.author, c.created_at.as_str());
                        out.append(al.as_str());
                        let body = process_body(c.body.as_str());
                        out.append(body.as_str());
                        out.append("\n");
                        match &c.replies.nodes {
                            Some(rs) => {
                                generate_replies(rs, cnum, &mut out);
                            },
                            None => {},
                        }
                    },
                    None => {},
                }
                i = i + 1;
            }
        },
        None => {},
    }
    out
}

/// The complete document: header, original post, and comments sections,
/// separated by blank lines.
pub open spec fn spec_format_discussion(d: Discussion, owner: Seq<char>, repo: Seq<char>) -> Seq<
    char,
> {
    spec_generate_header(d, owner, repo) + "\n"@ + spec_generate_original_post(d) + "\n"@
        + spec_generate_comments(d)
}

/// Format a complete discussion as Markdown.
pub fn format_discussion(discussion: &Discussion, owner: &str, repo: &str) -> (r: String)
    ensures
        r@ == spec_format_discussion(*discussion, owner@, repo@),
{
    let mut s = generate_header(discussion, owner, repo);
    s.append("\n");
    let post = generate_original_post(discussion);
    s.append(post.as_str());
    s.append("\n");
    let comments = generate_comments(discussion);
    s.append(comments.as_str());
    s
}

/// The assembled document lays its sections out in the stated order: the
/// title heading opens the text; the original-post heading follows the
/// header block; the comments heading follows the original post; when the
/// first comment node is present, its heading follows numbered 1; and
/// when that comment's first reply node is present, its heading follows
/// numbered 1.1, with the reply's author line — rendering a deleted
/// account as the sentinel — right after it.
#[verifier::rlimit(100)]
pub proof fn lemma_document_heading_order(d: Discussion, owner: Seq<char>, repo: Seq<char>)
    ensures
        ({
            let doc = spec_format_discussion(d, owner, repo);
            let h = spec_generate_header(d, owner, repo).len() as int;
            let p = spec_generate_original_post(d).len() as int;
            let p3 = h + 1 + p + 1;
            let p4 = p3 + ("## Comments\n"@).len();
            &&& spec_matches_at(doc, "# "@ + d.title@, 0)
            &&& spec_matches_at(doc, "## Original Post\n"@, h + 1)
            &&& spec_matches_at(doc, "## Comments\n"@, p3)
            &&& (match d.comments.nodes {
                Some(ns) => (ns@.len() > 0 && ns@[0] is Some) ==> ({
                    let c = ns@[0]->0;
                    let heading = "### Comment "@ + spec_decimal(1) + "\n"@;
                    let p5 = p4 + heading.len() + spec_author_line(c.author, c.created_at@).len()
                        + spec_process_body(c.body@).len() + 1;
                    let reply_heading = "#### Reply "@ + spec_decimal(1) + "."@ + spec_decimal(1)
                        + "\n"@;
                    &&& spec_matches_at(doc, heading, p4)
                    &&& (match c.replies.nodes {
                        Some(rs) => (rs@.len() > 0 && rs@[0] is Some) ==> ({
                            let r = rs@[0]->0;
                            &&& spec_matches_at(doc, reply_heading, p5)
                            &&& spec_matches_at(
                                doc,
                                "_author: "@ + spec_author_login(r.author),
                                p5 + reply_heading.len() as int,
                            )
                        }),
                        None => true,
                    })
                }),
                None => true,
            })
        }),
{
    let doc = spec_format_discussion(d, owner, repo);
    let hs = spec_generate_header(d, owner, repo);
    let ps = spec_generate_original_post(d);
    let cs = spec_generate_comments(d);
    let h = hs.len() as int;
    let p = ps.len() as int;
    let p3 = h + 1 + p + 1;
    let p4 = p3 + ("## Comments\n"@).len();
    assert(doc =~= hs + seq!['\n'] + ps + seq!['\n'] + cs) by {
        reveal_strlit("\n");
        assert("\n"@ =~= seq!['\n']);
    }
    let t1 = "# "@ + d.title@;
    assert(doc.subrange(0, t1.len() as int) =~= t1);
    assert(doc.subrange(h + 1, h + 1 + ("## Original Post\n"@).len()) =~= "## Original Post\n"@);
    assert(doc.subrange(p3, p4) =~= "## Comments\n"@);
    match d.comments.nodes {
        Some(ns) => {
            if ns@.len() > 0 && ns@[0] is Some {
                let c = ns@[0]->0;
                let heading = "### Comment "@ + spec_decimal(1) + "\n"@;
                let block = spec_comment_block(c, 1);
                let rest = spec_comments_from(ns@, 1, 1);
                assert(spec_comments_from(ns@, 0, 0) == block + rest);
                assert(doc.subrange(p4, p4 + heading.len()) =~= heading);
                let p5 = p4 + heading.len() + spec_author_line(c.author, c.created_at@).len()
                    + spec_process_body(c.body@).len() + 1;
                let reply_heading = "#### Reply "@ + spec_decimal(1) + "."@ + spec_decimal(1)
                    + "\n"@;
                match c.replies.nodes {
                    Some(rs) => {
                        if rs@.len() > 0 && rs@[0] is Some {
                            let r = rs@[0]->0;
                            let rblock = spec_reply_block(r, 1, 1);
                            let rrest = spec_replies_from(rs@, 1, 1, 1);
                            assert(spec_replies_from(rs@, 0, 1, 0) == rblock + rrest);
                            assert(block =~= heading + spec_author_line(c.author, c.created_at@)
                                + spec_process_body(c.body@) + "\n"@ + (rblock + rrest)) by {
                                reveal_strlit("\n");
                                assert(("\n"@).len() == 1);
                            }
                            assert(doc.subrange(p5, p5 + reply_heading.len()) =~= reply_heading);
                            let aline = "_author: "@ + spec_author_login(r.author);
                            assert(doc.subrange(
                                p5 + reply_heading.len(),
                                p5 + reply_heading.len() + aline.len(),
                            ) =~= aline);
                        }
                    },
                    None => {},
                }
            }
        },
        None => {},
    }
}

} // verus!
