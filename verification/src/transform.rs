//! Rewriting of asset references inside body text.
//!
//! Given a mapping from asset identifier to local path, the transformer
//! rewrites recognised asset references in HTML `<img>` tags and Markdown
//! image syntax to point at the local path, keeping the original URL
//! recoverable (a `data-original-url` attribute, or an HTML comment), and
//! leaves every other byte of the text exactly as it was. A reference whose
//! identifier is absent from the mapping is left completely untouched.

use vstd::prelude::*;
use crate::assets::{spec_extract_asset_uuid, DownloadResult, local_asset_path};
use crate::text::{
    chars_of,
    spec_count_char,
    string_from_chars,
    subvec,
    extend_chars,
    find_from,
    find_char_from,
    spec_find_from,
    spec_first_char_from,
    spec_matches_at,
    lemma_spec_find_some_bounds,
};

verus! {

/// The value of the first entry at or after `i` whose key reads `key`.
pub open spec fn spec_assoc_str(entries: Seq<(String, String)>, key: Seq<char>, i: int) -> Option<
    Seq<char>,
>
    decreases entries.len() - i,
{
    if i < 0 || i >= entries.len() {
        None
    } else if entries[i].0@ == key {
        Some(entries[i].1@)
    } else {
        spec_assoc_str(entries, key, i + 1)
    }
}

/// The mapping from asset identifier to local relative path, built once
/// after all downloads complete and consumed read-only by the transformer.
pub struct AssetMap {
    /// The entries; a later insertion for the same key shadows earlier ones.
    pub entries: Vec<(String, String)>,
}

impl AssetMap {
    /// The local path mapped to `key`, if any.
    pub open spec fn spec_get(&self, key: Seq<char>) -> Option<Seq<char>> {
        spec_assoc_str(self.entries@, key, 0)
    }

    /// An empty mapping.
    pub fn new() -> (r: Self)
        ensures
            forall|k: Seq<char>| r.spec_get(k) is None,
    {
        AssetMap { entries: Vec::new() }
    }

    /// Map `uuid` to `path`, shadowing any earlier entry for `uuid`.
    pub fn insert(&mut self, uuid: String, path: String)
        ensures
            forall|k: Seq<char>|
                final(self).spec_get(k) == if k == uuid@ {
                    Some(path@)
                } else {
                    old(self).spec_get(k)
                },
    {
        let ghost old_entries = self.entries@;
        self.entries.insert(0, (uuid, path));
        proof {
            assert(self.entries@.drop_first() =~= old_entries);
            assert forall|k: Seq<char>|
                self.spec_get(k) == if k == uuid@ {
                    Some(path@)
                } else {
                    spec_assoc_str(old_entries, k, 0)
                } by {
                lemma_assoc_str_shift(self.entries@, k);
            }
        }
    }

    /// Look up `key`.
    #[verifier::loop_isolation(false)]
    pub fn get<'a>(&'a self, key: &str) -> (r: Option<&'a String>)
        ensures
            match r {
                Some(v) => self.spec_get(key@) == Some(v@),
                None => self.spec_get(key@) is None,
            },
    {
        let key_owned = key.to_owned();
        let mut i: usize = 0;
        while i < self.entries.len()
            invariant
                i <= self.entries@.len(),
                key_owned@ == key@,
                spec_assoc_str(self.entries@, key@, 0) == spec_assoc_str(
                    self.entries@,
                    key@,
                    i as int,
                ),
            decreases self.entries@.len() - i,
        {
            let (k, v) = &self.entries[i];
            if *k == key_owned {
                return Some(v);
            }
            i = i + 1;
        }
        None
    }

    /// Whether the mapping has no entries.
    pub fn is_empty(&self) -> (r: bool)
        ensures
            r == (self.entries@.len() == 0),
    {
        self.entries.len() == 0
    }
}

/// Looking an entry up after a fresh insertion at the front: the front entry
/// answers for its own key, everything else falls through.
proof fn lemma_assoc_str_shift(entries: Seq<(String, String)>, k: Seq<char>)
    requires
        entries.len() >= 1,
    ensures
        spec_assoc_str(entries, k, 0) == if entries[0].0@ == k {
            Some(entries[0].1@)
        } else {
            spec_assoc_str(entries.drop_first(), k, 0)
        },
{
    if entries[0].0@ != k {
        lemma_assoc_str_tail(entries, k, 1);
    }
}

proof fn lemma_assoc_str_tail(entries: Seq<(String, String)>, k: Seq<char>, i: int)
    requires
        1 <= i <= entries.len(),
    ensures
        spec_assoc_str(entries, k, i) == spec_assoc_str(entries.drop_first(), k, i - 1),
    decreases entries.len() - i,
{
    if i < entries.len() {
        assert(entries.drop_first()[i - 1] == entries[i]);
        if entries[i].0@ != k {
            lemma_assoc_str_tail(entries, k, i + 1);
        }
    }
}

/// `s` from position `pos` on, with every non-overlapping occurrence of
/// `pat` replaced by `rep`, scanning left to right.
pub open spec fn spec_replace_all_from(
    s: Seq<char>,
    pat: Seq<char>,
    rep: Seq<char>,
    pos: int,
) -> Seq<char>
    decreases s.len() - pos,
{
    if pos < 0 || pos > s.len() || pat.len() == 0 {
        Seq::empty()
    } else {
        match spec_find_from(s, pat, pos) {
            Some(i) => if pos <= i && i + pat.len() <= s.len() {
                s.subrange(pos, i) + rep + spec_replace_all_from(s, pat, rep, i + pat.len() as int)
            } else {
                s.subrange(pos, s.len() as int)
            },
            None => s.subrange(pos, s.len() as int),
        }
    }
}

/// `s` with every occurrence of `pat` replaced by `rep`.
pub open spec fn spec_replace_all(s: Seq<char>, pat: Seq<char>, rep: Seq<char>) -> Seq<char> {
    spec_replace_all_from(s, pat, rep, 0)
}

/// Replace every occurrence of `pat` in `s` by `rep`.
#[verifier::loop_isolation(false)]
pub fn replace_all(s: &Vec<char>, pat: &Vec<char>, rep: &Vec<char>) -> (r: Vec<char>)
    requires
        pat@.len() > 0,
    ensures
        r@ == spec_replace_all(s@, pat@, rep@),
{
    let n = s.len();
    let mut out: Vec<char> = Vec::new();
    let mut pos: usize = 0;
    loop
        invariant
            pos <= n == s@.len(),
            out@ + spec_replace_all_from(s@, pat@, rep@, pos as int) == spec_replace_all(
                s@,
                pat@,
                rep@,
            ),
        decreases s@.len() - pos,
    {
        match find_from(s, pat, pos) {
            Some(i) => {
                proof {
                    lemma_spec_find_some_bounds(s@, pat@, pos as int);
                    assert(i + pat@.len() <= n);
                }
                let prefix = subvec(s, pos, i);
                extend_chars(&mut out, &prefix);
                extend_chars(&mut out, rep);
                pos = i + pat.len();
            },
            None => {
                let rest = subvec(s, pos, s.len());
                extend_chars(&mut out, &rest);
                return out;
            },
        }
    }
}

/// The value of the `src` attribute written with the quote character `q`
/// after the introducer `pat` (`src="` or `src='`), if the tag has one.
pub open spec fn spec_src_attr_with(tag: Seq<char>, pat: Seq<char>, q: char) -> Option<Seq<char>> {
    match spec_find_from(tag, pat, 0) {
        Some(p) => match spec_first_char_from(tag, q, p + pat.len()) {
            Some(e) => if 0 <= p && p + pat.len() <= e <= tag.len() {
                Some(tag.subrange(p + pat.len(), e))
            } else {
                None
            },
            None => None,
        },
        None => None,
    }
}

/// The value of an `<img>` tag's `src` attribute: the double-quoted form
/// wins, the single-quoted form is the fallback.
pub open spec fn spec_src_attr(tag: Seq<char>) -> Option<Seq<char>> {
    match spec_src_attr_with(tag, "src=\""@, '"') {
        Some(v) => Some(v),
        None => spec_src_attr_with(tag, "src='"@, '\''),
    }
}

/// Extract the `src` attribute value from an HTML `<img>` tag.
fn src_attr_with(tag: &Vec<char>, pat: &Vec<char>, q: char) -> (r: Option<Vec<char>>)
    requires
        pat@.len() > 0,
    ensures
        match r {
            Some(v) => spec_src_attr_with(tag@, pat@, q) == Some(v@),
            None => spec_src_attr_with(tag@, pat@, q) is None,
        },
{
    let n = tag.len();
    match find_from(tag, pat, 0) {
        Some(p) => {
            proof {
                lemma_spec_find_some_bounds(tag@, pat@, 0);
                assert(p + pat@.len() <= n);
            }
            match find_char_from(tag, q, p + pat.len()) {
                Some(e) => Some(subvec(tag, p + pat.len(), e)),
                None => None,
            }
        },
        None => None,
    }
}

/// Extract the `src` attribute value from an `<img>` tag, as characters.
fn src_attr_chars(tag: &Vec<char>) -> (r: Option<Vec<char>>)
    ensures
        match r {
            Some(v) => spec_src_attr(tag@) == Some(v@),
            None => spec_src_attr(tag@) is None,
        },
{
    proof {
        reveal_strlit("src=\"");
        reveal_strlit("src='");
    }
    let dq = chars_of("src=\"");
    match src_attr_with(tag, &dq, '"') {
        Some(v) => Some(v),
        None => {
            let sq = chars_of("src='");
            src_attr_with(tag, &sq, '\'')
        },
    }
}

/// Extract the `src` attribute value from an HTML `<img>` tag: `src="..."`
/// first, `src='...'` as the fallback.
pub fn extract_src_attribute(img_tag: &str) -> (r: Option<String>)
    ensures
        match r {
            Some(v) => spec_src_attr(img_tag@) == Some(v@),
            None => spec_src_attr(img_tag@) is None,
        },
{
    let tag = chars_of(img_tag);
    match src_attr_chars(&tag) {
        Some(v) => Some(string_from_chars(&v)),
        None => None,
    }
}

/// A `src` attribute with the given quote and value.
pub open spec fn spec_src_eq(q: char, v: Seq<char>) -> Seq<char> {
    "src="@ + seq![q] + v + seq![q]
}

/// `tag` with a `data-original-url` attribute recording `url` inserted
/// before the first `>`, unless the tag already has one or has no `>`.
pub open spec fn spec_with_original_url(tag: Seq<char>, url: Seq<char>) -> Seq<char> {
    if spec_find_from(tag, "data-original-url"@, 0) is Some {
        tag
    } else {
        match spec_first_char_from(tag, '>', 0) {
            Some(te) => if 0 <= te <= tag.len() {
                tag.subrange(0, te) + " data-original-url=\""@ + url + "\""@ + tag.subrange(
                    te,
                    tag.len() as int,
                )
            } else {
                tag
            },
            None => tag,
        }
    }
}

/// One `<img>` tag rewritten: the `src` value (in either quoting) replaced
/// by the local path, and the original URL recorded in a
/// `data-original-url` attribute.
pub open spec fn spec_transform_img_tag(
    tag: Seq<char>,
    old_src: Seq<char>,
    new_src: Seq<char>,
    url: Seq<char>,
) -> Seq<char> {
    let dq = spec_replace_all(tag, spec_src_eq('"', old_src), spec_src_eq('"', new_src));
    let sq = spec_replace_all(dq, spec_src_eq('\'', old_src), spec_src_eq('\'', new_src));
    spec_with_original_url(sq, url)
}

/// Build the executable form of a `src` attribute with the given quote.
fn src_eq_chars(q: char, v: &Vec<char>) -> (r: Vec<char>)
    ensures
        r@ == spec_src_eq(q, v@),
{
    let mut out = chars_of("src=");
    out.push(q);
    extend_chars(&mut out, v);
    out.push(q);
    proof {
        assert(out@ =~= spec_src_eq(q, v@));
    }
    out
}

/// Rewrite one `<img>` tag, as characters.
fn transform_img_tag_chars(tag: &Vec<char>, old_v: &Vec<char>, new_v: &Vec<char>, url_v: &Vec<
    char,
>) -> (r: Vec<char>)
    ensures
        r@ == spec_transform_img_tag(tag@, old_v@, new_v@, url_v@),
{
    let pat_dq = src_eq_chars('"', old_v);
    let rep_dq = src_eq_chars('"', new_v);
    proof {
        assert(spec_src_eq('"', old_v@).len() > 0);
    }
    let step1 = replace_all(tag, &pat_dq, &rep_dq);

    let pat_sq = src_eq_chars('\'', old_v);
    let rep_sq = src_eq_chars('\'', new_v);
    let step2 = replace_all(&step1, &pat_sq, &rep_sq);

    let marker = chars_of("data-original-url");
    match find_from(&step2, &marker, 0) {
        Some(_) => step2,
        None => {
            match find_char_from(&step2, '>', 0) {
                Some(te) => {
                    let mut r = subvec(&step2, 0, te);
                    let intro = chars_of(" data-original-url=\"");
                    extend_chars(&mut r, &intro);
                    extend_chars(&mut r, url_v);
                    r.push('"');
                    let rest = subvec(&step2, te, step2.len());
                    extend_chars(&mut r, &rest);
                    proof {
                        assert(seq!['"'] =~= "\""@) by {
                            reveal_strlit("\"");
                        }
                        assert(r@ =~= spec_with_original_url(step2@, url_v@));
                    }
                    r
                },
                None => step2,
            }
        },
    }
}

/// Rewrite one `<img>` tag: replace the `src` value with `new_src` and add a
/// `data-original-url` attribute holding `original_url`, unless one is
/// already present. Every other attribute is untouched.
pub fn transform_img_tag(img_tag: &str, old_src: &str, new_src: &str, original_url: &str) -> (r:
    String)
    ensures
        r@ == spec_transform_img_tag(img_tag@, old_src@, new_src@, original_url@),
{
    let tag = chars_of(img_tag);
    let old_v = chars_of(old_src);
    let new_v = chars_of(new_src);
    let url_v = chars_of(original_url);
    let out = transform_img_tag_chars(&tag, &old_v, &new_v, &url_v);
    string_from_chars(&out)
}

/// The text from position `pos` on with every `<img>` tag whose `src` is a
/// mapped asset URL rewritten, everything else byte-identical. A tag whose
/// `src` is unrecognised, or whose identifier is not in the mapping, is
/// left completely untouched.
pub open spec fn spec_transform_html_from(
    s: Seq<char>,
    m: Seq<(String, String)>,
    pos: int,
) -> Seq<char>
    decreases s.len() - pos,
{
    if pos < 0 || pos > s.len() {
        Seq::empty()
    } else {
        match spec_find_from(s, "<img"@, pos) {
            None => s.subrange(pos, s.len() as int),
            Some(ts) => match spec_first_char_from(s, '>', ts) {
                None => s.subrange(pos, s.len() as int),
                Some(te) => if pos <= ts <= te < s.len() {
                    let tag = s.subrange(ts, te + 1);
                    let rewritten = match spec_src_attr(tag) {
                        Some(src) => match spec_extract_asset_uuid(src) {
                            Some(id) => match spec_assoc_str(m, id, 0) {
                                Some(local) => spec_transform_img_tag(tag, src, local, src),
                                None => tag,
                            },
                            None => tag,
                        },
                        None => tag,
                    };
                    s.subrange(pos, ts) + rewritten + spec_transform_html_from(s, m, te + 1)
                } else {
                    s.subrange(pos, s.len() as int)
                },
            },
        }
    }
}

/// Transform HTML `<img>` tags to use local asset paths.
///
/// Replaces recognised asset URLs in `src` attributes with the mapped local
/// path and records the original URL in a `data-original-url` attribute.
/// All other text, including every other attribute, is preserved verbatim;
/// when the mapping is empty the output equals the input.
#[verifier::loop_isolation(false)]
#[verifier::rlimit(60)]
pub fn transform_html_img_tags(html: &str, asset_map: &AssetMap) -> (r: String)
    ensures
        r@ == spec_transform_html_from(html@, asset_map.entries@, 0),
        asset_map.entries@.len() == 0 ==> r@ == html@,
{
    let cs = chars_of(html);
    let ghost m = asset_map.entries@;
    let img_pat = chars_of("<img");
    let n = cs.len();
    let mut out: Vec<char> = Vec::new();
    let mut pos: usize = 0;
    loop
        invariant
            pos <= n == cs@.len(),
            cs@ == html@,
            img_pat@ == "<img"@,
            m == asset_map.entries@,
            out@ + spec_transform_html_from(cs@, m, pos as int) == spec_transform_html_from(
                cs@,
                m,
                0,
            ),
        decreases cs@.len() - pos,
    {
        let ts = match find_from(&cs, &img_pat, pos) {
            Some(t) => t,
            None => {
                let rest = subvec(&cs, pos, n);
                extend_chars(&mut out, &rest);
                proof {
                    lemma_transform_html_identity(cs@, m, 0);
                }
                return string_from_chars(&out);
            },
        };
        proof {
            reveal_strlit("<img");
            lemma_spec_find_some_bounds(cs@, "<img"@, pos as int);
        }
        let te = match find_char_from(&cs, '>', ts) {
            Some(t) => t,
            None => {
                let rest = subvec(&cs, pos, n);
                extend_chars(&mut out, &rest);
                proof {
                    lemma_transform_html_identity(cs@, m, 0);
                }
                return string_from_chars(&out);
            },
        };
        let tag = subvec(&cs, ts, te + 1);
        let rewritten = match src_attr_chars(&tag) {
            Some(src) => {
                match crate::assets::extract_asset_uuid_chars(&src) {
                    Some(id) => {
                        let id_s = string_from_chars(&id);
                        match asset_map.get(id_s.as_str()) {
                            Some(local) => {
                                let local_v = chars_of(local.as_str());
                                transform_img_tag_chars(&tag, &src, &local_v, &src)
                            },
                            None => tag,
                        }
                    },
                    None => tag,
                }
            },
            None => tag,
        };
        let prefix = subvec(&cs, pos, ts);
        extend_chars(&mut out, &prefix);
        extend_chars(&mut out, &rewritten);
        pos = te + 1;
    }
}

/// An empty mapping transforms nothing: the pass hands the text back
/// unchanged.
proof fn lemma_transform_html_identity(s: Seq<char>, m: Seq<(String, String)>, pos: int)
    ensures
        m.len() == 0 && 0 <= pos <= s.len() ==> spec_transform_html_from(s, m, pos) == s.subrange(
            pos,
            s.len() as int,
        ),
    decreases s.len() - pos,
{
    if m.len() == 0 && 0 <= pos <= s.len() {
        match spec_find_from(s, "<img"@, pos) {
            None => {},
            Some(ts) => {
                match spec_first_char_from(s, '>', ts) {
                    None => {},
                    Some(te) => {
                        if pos <= ts <= te < s.len() {
                            lemma_transform_html_identity(s, m, te + 1);
                            assert(s.subrange(pos, ts) + s.subrange(ts, te + 1) + s.subrange(
                                te + 1,
                                s.len() as int,
                            ) =~= s.subrange(pos, s.len() as int));
                        }
                    },
                }
            },
        }
    }
}

/// Markdown text from position `start` on, with every `![alt](target)` or
/// `![alt](target "title")` whose target is a mapped asset URL rewritten:
/// the target becomes the local path, an existing title token is kept
/// verbatim, and an HTML comment holding the original URL is appended
/// right after the construct. A construct never spans a line break.
/// Everything else — every construct whose identifier is not in the
/// mapping, and every byte outside rewritten constructs, line endings
/// included — is byte-identical to the input.
pub open spec fn spec_transform_md_from(
    s: Seq<char>,
    m: Seq<(String, String)>,
    start: int,
) -> Seq<char>
    decreases s.len() - start,
{
    if start < 0 || start > s.len() {
        Seq::empty()
    } else {
        match spec_find_from(s, "!["@, start) {
            None => s.subrange(start, s.len() as int),
            Some(bang) => if start <= bang < s.len() {
                let skipped = s.subrange(start, bang + 1) + spec_transform_md_from(
                    s,
                    m,
                    bang + 1,
                );
                match spec_first_char_from(s, ']', bang) {
                    None => skipped,
                    Some(br) => if !spec_matches_at(s, "]("@, br) {
                        skipped
                    } else {
                        match spec_first_char_from(s, ')', br + 2) {
                            None => skipped,
                            Some(rp) => if bang <= br && br + 2 <= rp < s.len() {
                                if spec_span_crosses_newline(s, bang, rp) {
                                    skipped
                                } else {
                                    let content = s.subrange(br + 2, rp);
                                    let sp = spec_first_char_from(content, ' ', 0);
                                    let url = match sp {
                                        Some(k) => if 0 <= k <= content.len() {
                                            content.subrange(0, k)
                                        } else {
                                            content
                                        },
                                        None => content,
                                    };
                                    match spec_extract_asset_uuid(url) {
                                        Some(id) => match spec_assoc_str(m, id, 0) {
                                            Some(local) => s.subrange(start, br + 2) + local + (
                                            match sp {
                                                Some(k) => if 0 <= k < content.len() {
                                                    seq![' '] + content.subrange(
                                                        k + 1,
                                                        content.len() as int,
                                                    )
                                                } else {
                                                    Seq::empty()
                                                },
                                                None => Seq::empty(),
                                            }) + seq![')'] + "<!-- "@ + url + " -->"@
                                                + spec_transform_md_from(s, m, rp + 1),
                                            None => skipped,
                                        },
                                        None => skipped,
                                    }
                                }
                            } else {
                                skipped
                            },
                        }
                    },
                }
            } else {
                spec_line_rest(s, start)
            },
        }
    }
}

/// Whether a line break stands anywhere in the span `[from, to]`.
pub open spec fn spec_span_crosses_newline(s: Seq<char>, from: int, to: int) -> bool {
    match spec_first_char_from(s, '\n', from) {
        Some(nl) => nl <= to,
        None => false,
    }
}

/// The unchanged rest of the text.
pub open spec fn spec_line_rest(line: Seq<char>, start: int) -> Seq<char> {
    line.subrange(start, line.len() as int)
}

/// A whole Markdown text with its image references rewritten.
pub open spec fn spec_transform_markdown(text: Seq<char>, m: Seq<(String, String)>) -> Seq<char> {
    spec_transform_md_from(text, m, 0)
}

/// Transform Markdown image syntax to use local asset paths.
///
/// Rewrites each `![alt](target)` or `![alt](target "title")` whose target
/// is a mapped asset URL: the target becomes the local path, an existing
/// title token is preserved verbatim, and an HTML comment holding the
/// original URL is appended right after the construct. A construct never
/// spans a line break, and every byte outside rewritten constructs — line
/// endings included — passes through untouched.
#[verifier::loop_isolation(false)]
#[verifier::rlimit(60)]
pub fn transform_markdown_images(text: &str, asset_map: &AssetMap) -> (r: String)
    ensures
        r@ == spec_transform_markdown(text@, asset_map.entries@),
{
    let line = chars_of(text);
    let bang_pat = chars_of("![");
    let close_pat = chars_of("](");
    let ghost m = asset_map.entries@;
    let n = line.len();
    let mut out: Vec<char> = Vec::new();
    let mut start: usize = 0;
    loop
        invariant
            start <= n == line@.len(),
            line@ == text@,
            m == asset_map.entries@,
            bang_pat@ == "!["@,
            close_pat@ == "]("@,
            out@ + spec_transform_md_from(line@, m, start as int) == spec_transform_md_from(
                line@,
                m,
                0,
            ),
        decreases line@.len() - start,
    {
        let bang = match find_from(&line, &bang_pat, start) {
            Some(b) => b,
            None => {
                let rest = subvec(&line, start, n);
                extend_chars(&mut out, &rest);
                return string_from_chars(&out);
            },
        };
        proof {
            reveal_strlit("![");
            reveal_strlit("](");
            lemma_spec_find_some_bounds(line@, "!["@, start as int);
        }
        let mut done_here = false;
        match find_char_from(&line, ']', bang) {
            None => {
                done_here = true;
            },
            Some(br) => {
                if !crate::text::matches_at(&line, &close_pat, br) {
                    done_here = true;
                } else {
                    proof {
                        assert(br + 2 <= n);
                    }
                    match find_char_from(&line, ')', br + 2) {
                        None => {
                            done_here = true;
                        },
                        Some(rp) => {
                            let crosses = match find_char_from(&line, '\n', bang) {
                                Some(nl) => nl <= rp,
                                None => false,
                            };
                            if crosses {
                                done_here = true;
                            } else {
                                let content = subvec(&line, br + 2, rp);
                                let sp = find_char_from(&content, ' ', 0);
                                let url = match sp {
                                    Some(k) => subvec(&content, 0, k),
                                    None => subvec(&content, 0, content.len()),
                                };
                                proof {
                                    assert(content@.subrange(0, content@.len() as int)
                                        =~= content@);
                                }
                                match crate::assets::extract_asset_uuid_chars(&url) {
                                    Some(id) => {
                                        let id_s = string_from_chars(&id);
                                        match asset_map.get(id_s.as_str()) {
                                            Some(local) => {
                                                let prefix = subvec(&line, start, br + 2);
                                                extend_chars(&mut out, &prefix);
                                                let local_v = chars_of(local.as_str());
                                                extend_chars(&mut out, &local_v);
                                                match sp {
                                                    Some(k) => {
                                                        out.push(' ');
                                                        let title = subvec(
                                                            &content,
                                                            k + 1,
                                                            content.len(),
                                                        );
                                                        extend_chars(&mut out, &title);
                                                    },
                                                    None => {},
                                                }
                                                out.push(')');
                                                let open_c = chars_of("<!-- ");
                                                extend_chars(&mut out, &open_c);
                                                extend_chars(&mut out, &url);
                                                let close_c = chars_of(" -->");
                                                extend_chars(&mut out, &close_c);
                                                start = rp + 1;
                                            },
                                            None => {
                                                done_here = true;
                                            },
                                        }
                                    },
                                    None => {
                                        done_here = true;
                                    },
                                }
                            }
                        },
                    }
                }
            },
        }
        if done_here {
            let prefix = subvec(&line, start, bang + 1);
            extend_chars(&mut out, &prefix);
            start = bang + 1;
        }
    }
}

/// Transform a discussion body: the HTML pass, then the Markdown pass.
pub fn transform_discussion_body(body: &str, asset_map: &AssetMap) -> (r: String)
    ensures
        r@ == spec_transform_markdown(
            spec_transform_html_from(body@, asset_map.entries@, 0),
            asset_map.entries@,
        ),
{
    let transformed_html = transform_html_img_tags(body, asset_map);
    transform_markdown_images(transformed_html.as_str(), asset_map)
}

/// Transform a comment body; same passes as a discussion body.
pub fn transform_comment_body(body: &str, asset_map: &AssetMap) -> (r: String)
    ensures
        r@ == spec_transform_markdown(
            spec_transform_html_from(body@, asset_map.entries@, 0),
            asset_map.entries@,
        ),
{
    transform_discussion_body(body, asset_map)
}

/// Transform a reply body; same passes as a discussion body.
pub fn transform_reply_body(body: &str, asset_map: &AssetMap) -> (r: String)
    ensures
        r@ == spec_transform_markdown(
            spec_transform_html_from(body@, asset_map.entries@, 0),
            asset_map.entries@,
        ),
{
    transform_discussion_body(body, asset_map)
}

/// Find the position of the first Markdown image opener `![` in `text`.
pub fn find_image_syntax(text: &str) -> (r: Option<usize>)
    ensures
        match r {
            Some(i) => spec_find_from(text@, "!["@, 0) == Some(i as int),
            None => spec_find_from(text@, "!["@, 0) is None,
        },
{
    let cs = chars_of(text);
    let pat = chars_of("![");
    find_from(&cs, &pat, 0)
}

/// With nothing mapped, the Markdown rewriter touches nothing.
proof fn lemma_md_identity_from(s: Seq<char>, m: Seq<(String, String)>, start: int)
    requires
        m.len() == 0,
        0 <= start <= s.len(),
    ensures
        spec_transform_md_from(s, m, start) == s.subrange(start, s.len() as int),
    decreases s.len() - start,
{
    match spec_find_from(s, "!["@, start) {
        None => {},
        Some(bang) => {
            if start <= bang < s.len() {
                lemma_md_identity_from(s, m, bang + 1);
                assert(s.subrange(start, bang + 1) + s.subrange(bang + 1, s.len() as int)
                    =~= s.subrange(start, s.len() as int));
            }
        },
    }
}

/// The Text Transformer never touches a text none of whose references are
/// mapped: with an empty asset map the Markdown pass hands every text back
/// byte-identical.
pub proof fn lemma_markdown_pass_identity_on_empty_map(text: Seq<char>, m: Seq<(String, String)>)
    requires
        m.len() == 0,
    ensures
        spec_transform_markdown(text, m) == text,
{
    lemma_md_identity_from(text, m, 0);
    assert(text.subrange(0, text.len() as int) =~= text);
}

/// The Text Transformer never modifies a reference whose identifier is
/// absent from the asset map, and never touches unrelated text: with an
/// empty map the whole body transform — the HTML pass followed by the
/// Markdown pass — hands every text back byte-identical.
pub proof fn lemma_transform_identity_on_empty_map(text: Seq<char>, m: Seq<(String, String)>)
    requires
        m.len() == 0,
    ensures
        spec_transform_markdown(spec_transform_html_from(text, m, 0), m) == text,
{
    lemma_transform_html_identity(text, m, 0);
    assert(text.subrange(0, text.len() as int) =~= text);
    lemma_markdown_pass_identity_on_empty_map(text, m);
}

/// Whether every local path in the mapping is free of line breaks (as
/// every path of the form `<dir>/<identifier><extension>` is).
pub open spec fn spec_map_values_newline_free(m: Seq<(String, String)>) -> bool {
    forall|i: int| 0 <= i < m.len() ==> spec_count_char(#[trigger] m[i].1@, '\n') == 0
}

/// A successful lookup hands back one of the mapping's values.
proof fn lemma_assoc_str_value_newline_free(m: Seq<(String, String)>, key: Seq<char>, i: int)
    requires
        spec_map_values_newline_free(m),
    ensures
        spec_assoc_str(m, key, i) matches Some(v) ==> spec_count_char(v, '\n') == 0,
    decreases m.len() - i,
{
    if 0 <= i && i < m.len() {
        if m[i].0@ != key {
            lemma_assoc_str_value_newline_free(m, key, i + 1);
        }
    }
}

/// Inside a span no line break crosses, no position holds one.
proof fn lemma_span_no_newline(s: Seq<char>, from: int, to: int, k: int)
    requires
        !spec_span_crosses_newline(s, from, to),
        0 <= from <= k <= to < s.len(),
    ensures
        s[k] != '\n',
{
    match spec_first_char_from(s, '\n', from) {
        Some(nl) => {
            crate::text::lemma_spec_first_char_some_before(s, '\n', from, k);
        },
        None => {
            crate::text::lemma_spec_first_char_none_bounds(s, '\n', from, k);
        },
    }
}

/// The Markdown pass, with line-break-free local paths, preserves the
/// newline structure of the rewritten suffix: same number of line breaks,
/// empty exactly when the suffix is, and a trailing line break exactly
/// when the text has one.
#[verifier::rlimit(100)]
proof fn lemma_md_preserves_newlines_from(s: Seq<char>, m: Seq<(String, String)>, start: int)
    requires
        spec_map_values_newline_free(m),
        0 <= start <= s.len(),
    ensures
        spec_count_char(spec_transform_md_from(s, m, start), '\n') == spec_count_char(
            s.subrange(start, s.len() as int),
            '\n',
        ),
        spec_transform_md_from(s, m, start).len() == 0 <==> start == s.len(),
        start < s.len() ==> ((spec_transform_md_from(s, m, start).last() == '\n') <==> (s[s.len()
            - 1] == '\n')),
    decreases s.len() - start,
{
    let suffix = s.subrange(start, s.len() as int);
    match spec_find_from(s, "!["@, start) {
        None => {},
        Some(bang) => {
            proof_from_bang(s, m, start, bang);
        },
    }
}

/// The inductive step of [`lemma_md_preserves_newlines_from`], once the
/// next opener is found.
#[verifier::rlimit(100)]
proof fn proof_from_bang(s: Seq<char>, m: Seq<(String, String)>, start: int, bang: int)
    requires
        spec_map_values_newline_free(m),
        0 <= start <= s.len(),
        spec_find_from(s, "!["@, start) == Some(bang),
    ensures
        spec_count_char(spec_transform_md_from(s, m, start), '\n') == spec_count_char(
            s.subrange(start, s.len() as int),
            '\n',
        ),
        spec_transform_md_from(s, m, start).len() == 0 <==> start == s.len(),
        start < s.len() ==> ((spec_transform_md_from(s, m, start).last() == '\n') <==> (s[s.len()
            - 1] == '\n')),
    decreases s.len() - start, 1int,
{
    let suffix = s.subrange(start, s.len() as int);
    reveal_strlit("![");
    lemma_spec_find_some_bounds(s, "!["@, start);
    assert(bang + 2 <= s.len());
    let rec_skip = spec_transform_md_from(s, m, bang + 1);
    let skipped = s.subrange(start, bang + 1) + rec_skip;
    lemma_md_preserves_newlines_from(s, m, bang + 1);
    crate::text::lemma_count_char_concat(s.subrange(start, bang + 1), rec_skip, '\n');
    assert(s.subrange(start, bang + 1) + s.subrange(bang + 1, s.len() as int) =~= suffix);
    crate::text::lemma_count_char_concat(
        s.subrange(start, bang + 1),
        s.subrange(bang + 1, s.len() as int),
        '\n',
    );
    assert(spec_count_char(skipped, '\n') == spec_count_char(suffix, '\n'));
    assert(rec_skip.len() > 0);
    assert(skipped.last() == rec_skip.last());
    assert(skipped.len() > 0);
    match spec_first_char_from(s, ']', bang) {
        None => {},
        Some(br) => {
            if spec_matches_at(s, "]("@, br) {
                match spec_first_char_from(s, ')', br + 2) {
                    None => {},
                    Some(rp) => {
                        if bang <= br && br + 2 <= rp < s.len() && !spec_span_crosses_newline(
                            s,
                            bang,
                            rp,
                        ) {
                            let content = s.subrange(br + 2, rp);
                            let sp = spec_first_char_from(content, ' ', 0);
                            let url = match sp {
                                Some(k) => if 0 <= k <= content.len() {
                                    content.subrange(0, k)
                                } else {
                                    content
                                },
                                None => content,
                            };
                            match spec_extract_asset_uuid(url) {
                                Some(id) => match spec_assoc_str(m, id, 0) {
                                    Some(local) => {
                                        proof_rewrite_case(s, m, start, bang, br, rp);
                                    },
                                    None => {},
                                },
                                None => {},
                            }
                        }
                    },
                }
            }
        },
    }
}

/// The rewrite branch of [`lemma_md_preserves_newlines_from`]: the emitted
/// pieces hold exactly the line breaks of the consumed span.
#[verifier::rlimit(100)]
proof fn proof_rewrite_case(
    s: Seq<char>,
    m: Seq<(String, String)>,
    start: int,
    bang: int,
    br: int,
    rp: int,
)
    requires
        spec_map_values_newline_free(m),
        0 <= start <= s.len(),
        spec_find_from(s, "!["@, start) == Some(bang),
        spec_first_char_from(s, ']', bang) == Some(br),
        spec_matches_at(s, "]("@, br),
        spec_first_char_from(s, ')', br + 2) == Some(rp),
        bang <= br && br + 2 <= rp < s.len(),
        !spec_span_crosses_newline(s, bang, rp),
        ({
            let content = s.subrange(br + 2, rp);
            let sp = spec_first_char_from(content, ' ', 0);
            let url = match sp {
                Some(k) => if 0 <= k <= content.len() {
                    content.subrange(0, k)
                } else {
                    content
                },
                None => content,
            };
            match spec_extract_asset_uuid(url) {
                Some(id) => spec_assoc_str(m, id, 0) is Some,
                None => false,
            }
        }),
    ensures
        spec_count_char(spec_transform_md_from(s, m, start), '\n') == spec_count_char(
            s.subrange(start, s.len() as int),
            '\n',
        ),
        spec_transform_md_from(s, m, start).len() > 0,
        (spec_transform_md_from(s, m, start).last() == '\n') <==> (s[s.len() - 1] == '\n'),
    decreases s.len() - start, 0int,
{
    let suffix = s.subrange(start, s.len() as int);
    reveal_strlit("![");
    reveal_strlit("](");
    reveal_strlit("<!-- ");
    reveal_strlit(" -->");
    lemma_spec_find_some_bounds(s, "!["@, start);
    crate::text::lemma_spec_first_char_some_bounds(s, ')', br + 2);
    assert(s[rp] == ')');
    let content = s.subrange(br + 2, rp);
    let sp = spec_first_char_from(content, ' ', 0);
    let url = match sp {
        Some(k) => if 0 <= k <= content.len() {
            content.subrange(0, k)
        } else {
            content
        },
        None => content,
    };
    let id = spec_extract_asset_uuid(url)->0;
    let local = spec_assoc_str(m, id, 0)->0;
    let title = match sp {
        Some(k) => if 0 <= k < content.len() {
            seq![' '] + content.subrange(k + 1, content.len() as int)
        } else {
            Seq::<char>::empty()
        },
        None => Seq::<char>::empty(),
    };
    let a = s.subrange(start, br + 2);
    let rec = spec_transform_md_from(s, m, rp + 1);
    let result = a + local + title + seq![')'] + "<!-- "@ + url + " -->"@ + rec;
    assert(spec_transform_md_from(s, m, start) == result);

    // The consumed span holds no line break after the opener.
    assert forall|k: int| 0 <= k < content.len() implies content[k] != '\n' by {
        lemma_span_no_newline(s, bang, rp, br + 2 + k);
    }
    crate::text::lemma_count_char_zero(content, '\n');
    assert forall|k: int| 0 <= k < url.len() implies url[k] != '\n' by {
        assert(url[k] == content[k]);
    }
    crate::text::lemma_count_char_zero(url, '\n');
    assert forall|k: int| 0 <= k < title.len() implies title[k] != '\n' by {
        if k > 0 {
            match sp {
                Some(q) => {
                    assert(title[k] == content[q + k]);
                },
                None => {},
            }
        }
    }
    crate::text::lemma_count_char_zero(title, '\n');
    lemma_assoc_str_value_newline_free(m, id, 0);
    assert forall|k: int| 0 <= k < ("<!-- "@).len() implies ("<!-- "@)[k] != '\n' by {
        assert(("<!-- "@)[0] == '<');
        assert(("<!-- "@)[1] == '!');
        assert(("<!-- "@)[2] == '-');
        assert(("<!-- "@)[3] == '-');
        assert(("<!-- "@)[4] == ' ');
    }
    crate::text::lemma_count_char_zero("<!-- "@, '\n');
    assert forall|k: int| 0 <= k < (" -->"@).len() implies (" -->"@)[k] != '\n' by {
        assert((" -->"@)[0] == ' ');
        assert((" -->"@)[1] == '-');
        assert((" -->"@)[2] == '-');
        assert((" -->"@)[3] == '>');
    }
    crate::text::lemma_count_char_zero(" -->"@, '\n');
    crate::text::lemma_count_char_zero(seq![')'], '\n');

    // Counts add up piece by piece.
    crate::text::lemma_count_char_concat(a, local, '\n');
    crate::text::lemma_count_char_concat(a + local, title, '\n');
    crate::text::lemma_count_char_concat(a + local + title, seq![')'], '\n');
    crate::text::lemma_count_char_concat(a + local + title + seq![')'], "<!-- "@, '\n');
    crate::text::lemma_count_char_concat(a + local + title + seq![')'] + "<!-- "@, url, '\n');
    crate::text::lemma_count_char_concat(
        a + local + title + seq![')'] + "<!-- "@ + url,
        " -->"@,
        '\n',
    );
    crate::text::lemma_count_char_concat(
        a + local + title + seq![')'] + "<!-- "@ + url + " -->"@,
        rec,
        '\n',
    );
    assert(spec_count_char(result, '\n') == spec_count_char(a, '\n') + spec_count_char(
        rec,
        '\n',
    ));

    // The consumed source span from the closing parenthesis back to the
    // attribute introducer holds no line break either.
    let b = s.subrange(br + 2, rp + 1);
    assert forall|k: int| 0 <= k < b.len() implies b[k] != '\n' by {
        lemma_span_no_newline(s, bang, rp, br + 2 + k);
    }
    crate::text::lemma_count_char_zero(b, '\n');
    assert(a + b =~= s.subrange(start, rp + 1));
    crate::text::lemma_count_char_concat(a, b, '\n');
    assert(s.subrange(start, rp + 1) + s.subrange(rp + 1, s.len() as int) =~= suffix);
    crate::text::lemma_count_char_concat(
        s.subrange(start, rp + 1),
        s.subrange(rp + 1, s.len() as int),
        '\n',
    );
    lemma_md_preserves_newlines_from(s, m, rp + 1);
    assert(spec_count_char(result, '\n') == spec_count_char(suffix, '\n'));

    // The rewrite is nonempty, and its last character mirrors the text's.
    assert(result.len() > 0);
    if rp + 1 < s.len() {
        assert(rec.len() > 0);
        assert(result.last() == rec.last());
    } else {
        assert(rec.len() == 0);
        assert(result.last() == (" -->"@).last());
        assert((" -->"@)[3] == '>');
        assert(s[s.len() - 1] == ')');
    }
}

/// The Markdown pass preserves line structure exactly: with local paths
/// free of line breaks, the output holds exactly the input's line breaks,
/// is empty exactly when the input is, and ends with a line break exactly
/// when the input does.
pub proof fn lemma_markdown_pass_preserves_lines(text: Seq<char>, m: Seq<(String, String)>)
    requires
        spec_map_values_newline_free(m),
    ensures
        spec_count_char(spec_transform_markdown(text, m), '\n') == spec_count_char(text, '\n'),
        spec_transform_markdown(text, m).len() == 0 <==> text.len() == 0,
        text.len() > 0 ==> ((spec_transform_markdown(text, m).last() == '\n') <==> (text.last()
            == '\n')),
{
    lemma_md_preserves_newlines_from(text, m, 0);
    assert(text.subrange(0, text.len() as int) =~= text);
}

/// How a transformed body relates to its source: the HTML pass, then the
/// Markdown pass.
pub open spec fn spec_body_transformed(
    before: Seq<char>,
    after: Seq<char>,
    m: Seq<(String, String)>,
) -> bool {
    after == spec_transform_markdown(spec_transform_html_from(before, m, 0), m)
}

/// How a transformed reply node relates to its source: only the body is
/// rewritten.
pub open spec fn spec_reply_node_transformed(
    before: Option<crate::models::Reply>,
    after: Option<crate::models::Reply>,
    m: Seq<(String, String)>,
) -> bool {
    match before {
        None => after is None,
        Some(rb) => after matches Some(ra) && ra.id == rb.id && ra.database_id == rb.database_id
            && ra.author == rb.author && ra.created_at == rb.created_at
            && spec_body_transformed(rb.body@, ra.body@, m),
    }
}

/// How a transformed comment relates to its source: its body and its
/// replies' bodies are rewritten, everything else is untouched.
pub open spec fn spec_comment_transformed(
    before: crate::models::Comment,
    after: crate::models::Comment,
    m: Seq<(String, String)>,
) -> bool {
    &&& after.id == before.id
    &&& after.database_id == before.database_id
    &&& after.author == before.author
    &&& after.created_at == before.created_at
    &&& spec_body_transformed(before.body@, after.body@, m)
    &&& after.replies.total_count == before.replies.total_count
    &&& after.replies.page_info == before.replies.page_info
    &&& (match before.replies.nodes {
        None => after.replies.nodes is None,
        Some(ns) => after.replies.nodes matches Some(ns2) && ns2@.len() == ns@.len() && forall|
            j: int,
        |
            0 <= j < ns@.len() ==> spec_reply_node_transformed(ns@[j], ns2@[j], m),
    })
}

/// Rewrite every body in a discussion tree — the original post's, each
/// comment's, each reply's — leaving every other field untouched.
#[verifier::loop_isolation(false)]
pub fn transform_discussion_tree(d: crate::models::Discussion, asset_map: &AssetMap) -> (r:
    crate::models::Discussion)
    ensures
        r.id == d.id,
        r.title == d.title,
        r.number == d.number,
        r.url == d.url,
        r.created_at == d.created_at,
        r.author == d.author,
        spec_body_transformed(d.body@, r.body@, asset_map.entries@),
        r.comments.total_count == d.comments.total_count,
        r.comments.page_info == d.comments.page_info,
        match d.comments.nodes {
            None => r.comments.nodes is None,
            Some(ns) => r.comments.nodes matches Some(ns2) && ns2@.len() == ns@.len() && forall|
                i: int,
            |
                0 <= i < ns@.len() ==> match #[trigger] ns@[i] {
                    None => ns2@[i] is None,
                    Some(c) => ns2@[i] matches Some(c2) && spec_comment_transformed(
                        c,
                        c2,
                        asset_map.entries@,
                    ),
                },
        },
{
    let ghost m = asset_map.entries@;
    let body = transform_discussion_body(d.body.as_str(), asset_map);
    let nodes = match d.comments.nodes {
        None => None,
        Some(ns) => {
            let ghost before = ns@;
            let mut rem = crate::text::reversed(ns);
            let mut out: Vec<Option<crate::models::Comment>> = Vec::new();
            loop
                invariant
                    m == asset_map.entries@,
                    rem@.len() + out@.len() == before.len(),
                    forall|j: int|
                        0 <= j < rem@.len() ==> rem@[j] == before[before.len() - 1 - j],
                    forall|i: int|
                        0 <= i < out@.len() ==> match #[trigger] before[i] {
                            None => out@[i] is None,
                            Some(c) => out@[i] matches Some(c2) && spec_comment_transformed(
                                c,
                                c2,
                                m,
                            ),
                        },
                decreases rem@.len(),
            {
                match rem.pop() {
                    Some(node) => {
                        match node {
                            Some(c) => {
                                out.push(Some(transform_comment(c, asset_map)));
                            },
                            None => {
                                out.push(None);
                            },
                        }
                    },
                    None => {
                        break;
                    },
                }
            }
            Some(out)
        },
    };
    crate::models::Discussion {
        id: d.id,
        title: d.title,
        number: d.number,
        url: d.url,
        created_at: d.created_at,
        body,
        author: d.author,
        comments: crate::models::DiscussionComments {
            total_count: d.comments.total_count,
            nodes,
            page_info: d.comments.page_info,
        },
    }
}

/// Rewrite one comment's body and its replies' bodies.
#[verifier::loop_isolation(false)]
fn transform_comment(c: crate::models::Comment, asset_map: &AssetMap) -> (r:
    crate::models::Comment)
    ensures
        spec_comment_transformed(c, r, asset_map.entries@),
{
    let ghost m = asset_map.entries@;
    let body = transform_comment_body(c.body.as_str(), asset_map);
    let nodes = match c.replies.nodes {
        None => None,
        Some(ns) => {
            let ghost before = ns@;
            let mut rem = crate::text::reversed(ns);
            let mut out: Vec<Option<crate::models::Reply>> = Vec::new();
            loop
                invariant
                    m == asset_map.entries@,
                    rem@.len() + out@.len() == before.len(),
                    forall|j: int|
                        0 <= j < rem@.len() ==> rem@[j] == before[before.len() - 1 - j],
                    forall|j: int|
                        0 <= j < out@.len() ==> spec_reply_node_transformed(
                            before[j],
                            out@[j],
                            m,
                        ),
                decreases rem@.len(),
            {
                match rem.pop() {
                    Some(node) => {
                        match node {
                            Some(rp) => {
                                let new_body = transform_reply_body(rp.body.as_str(), asset_map);
                                out.push(
                                    Some(
                                        crate::models::Reply {
                                            id: rp.id,
                                            database_id: rp.database_id,
                                            author: rp.author,
                                            created_at: rp.created_at,
                                            body: new_body,
                                        },
                                    ),
                                );
                            },
                            None => {
                                out.push(None);
                            },
                        }
                    },
                    None => {
                        break;
                    },
                }
            }
            Some(out)
        },
    };
    crate::models::Comment {
        id: c.id,
        database_id: c.database_id,
        author: c.author,
        created_at: c.created_at,
        body,
        replies: crate::models::CommentReplies {
            total_count: c.replies.total_count,
            nodes,
            page_info: c.replies.page_info,
        },
    }
}

/// The local path the built asset map holds for identifier `k`: that of the
/// last successful download result with that identifier, under the asset
/// directory name.
pub open spec fn spec_asset_map_lookup(
    results: Seq<DownloadResult>,
    dir: Seq<char>,
    k: Seq<char>,
) -> Option<Seq<char>>
    decreases results.len(),
{
    if results.len() == 0 {
        None
    } else {
        let last = results.last();
        if last.result is Ok && last.uuid@ == k {
            Some(dir + "/"@ + last.uuid@ + last.extension@)
        } else {
            spec_asset_map_lookup(results.drop_last(), dir, k)
        }
    }
}

/// Build the asset map from download results: each successful result maps
/// its identifier to `<dir>/<identifier><extension>`; failed results leave
/// no entry, so their references stay untouched.
#[verifier::loop_isolation(false)]
pub fn build_asset_map(results: &Vec<DownloadResult>, asset_dir_name: &str) -> (r: AssetMap)
    ensures
        forall|k: Seq<char>|
            r.spec_get(k) == spec_asset_map_lookup(results@, asset_dir_name@, k),
{
    let mut map = AssetMap::new();
    let mut i: usize = 0;
    while i < results.len()
        invariant
            i <= results@.len(),
            forall|k: Seq<char>|
                map.spec_get(k) == spec_asset_map_lookup(
                    results@.subrange(0, i as int),
                    asset_dir_name@,
                    k,
                ),
        decreases results@.len() - i,
    {
        let entry = &results[i];
        if entry.result.is_ok() {
            let path = local_asset_path(
                asset_dir_name,
                entry.uuid.as_str(),
                entry.extension.as_str(),
            );
            map.insert(entry.uuid.clone(), path);
        }
        i = i + 1;
        proof {
            let pre = results@.subrange(0, i as int);
            assert(pre.drop_last() =~= results@.subrange(0, i - 1));
            assert(pre.last() == results@[i - 1]);
        }
    }
    proof {
        assert(results@.subrange(0, results@.len() as int) =~= results@);
    }
    map
}

} // verus!
