//! Asset reference scanning and download classification.
//!
//! A first-party asset URL is recognised only when it starts with the exact
//! literal prefix `https://github.com/user-attachments/assets/` — scheme and
//! host included. Matching anywhere else in the string would let an URL on an
//! unrelated host smuggle the trusted text in a path and have credentials
//! forwarded to that host, so matching is anchored at the start.

use vstd::prelude::*;
use crate::error::Error;
use crate::text::{
    chars_of,
    string_from_chars,
    subvec,
    find_from,
    find_char_from,
    matches_at,
    contains_string,
    trim_chars,
    str_eq,
    u64_to_string,
    spec_find_from,
    spec_first_char_from,
    spec_matches_at,
    spec_lines,
    spec_trim,
    spec_decimal,
    lines_of,
    lemma_spec_find_some_bounds,
    lemma_spec_first_char_some_bounds,
};

verus! {

/// The exact prefix of a first-party asset URL.
pub open spec fn spec_asset_prefix() -> Seq<char> {
    "https://github.com/user-attachments/assets/"@
}

/// The identifier of an asset URL: the path segment immediately after the
/// fixed prefix, up to the next path separator. `None` when the URL does not
/// begin with the exact prefix or the segment is empty.
pub open spec fn spec_extract_asset_uuid(url: Seq<char>) -> Option<Seq<char>> {
    let p = spec_asset_prefix();
    if spec_matches_at(url, p, 0) {
        let end = match spec_first_char_from(url, '/', p.len() as int) {
            Some(i) => i,
            None => url.len() as int,
        };
        if p.len() < end <= url.len() {
            Some(url.subrange(p.len() as int, end))
        } else {
            None
        }
    } else {
        None
    }
}

/// Extract the asset identifier from an asset URL, as characters.
pub(crate) fn extract_asset_uuid_chars(url: &Vec<char>) -> (r: Option<Vec<char>>)
    ensures
        match r {
            Some(u) => spec_extract_asset_uuid(url@) == Some(u@),
            None => spec_extract_asset_uuid(url@) is None,
        },
{
    let prefix = chars_of("https://github.com/user-attachments/assets/");
    if !matches_at(url, &prefix, 0) {
        return None;
    }
    let plen = prefix.len();
    let end = match find_char_from(url, '/', plen) {
        Some(i) => {
            proof {
                lemma_spec_first_char_some_bounds(url@, '/', plen as int);
            }
            i
        },
        None => url.len(),
    };
    if end > plen {
        Some(subvec(url, plen, end))
    } else {
        None
    }
}

/// Extract the asset identifier from a GitHub asset URL.
///
/// Returns `Some` with the identifier exactly when the URL begins with the
/// literal prefix `https://github.com/user-attachments/assets/` and the path
/// segment after it is nonempty; `None` for every other URL, including
/// `http`-scheme, subdomain, and substring-embedded lookalikes.
pub fn extract_asset_uuid(url: &str) -> (r: Option<String>)
    ensures
        match r {
            Some(u) => spec_extract_asset_uuid(url@) == Some(u@),
            None => spec_extract_asset_uuid(url@) is None,
        },
{
    let cs = chars_of(url);
    match extract_asset_uuid_chars(&cs) {
        Some(u) => Some(string_from_chars(&u)),
        None => None,
    }
}

/// The first space-delimited token of `s` (a Markdown image target with an
/// optional quoted title after it).
pub open spec fn spec_first_token(s: Seq<char>) -> Seq<char> {
    match spec_first_char_from(s, ' ', 0) {
        Some(i) => if 0 <= i <= s.len() {
            s.subrange(0, i)
        } else {
            s
        },
        None => s,
    }
}

/// The asset URLs referenced by Markdown image syntax in one line, scanning
/// left to right from position `start`: each `![alt](target)` or
/// `![alt](target "title")` whose target is a recognised asset URL
/// contributes its target.
pub open spec fn spec_md_targets_from(line: Seq<char>, start: int) -> Seq<Seq<char>>
    decreases line.len() - start,
{
    if start < 0 || start > line.len() {
        Seq::empty()
    } else {
        match spec_find_from(line, "!["@, start) {
            None => Seq::empty(),
            Some(bang) => match spec_find_from(line, "]("@, bang) {
                None => Seq::empty(),
                Some(close) => match spec_first_char_from(line, ')', close + 2) {
                    None => Seq::empty(),
                    Some(rp) => if start <= bang <= close && close + 2 <= rp < line.len() {
                        let url = spec_first_token(line.subrange(close + 2, rp));
                        let rest = spec_md_targets_from(line, rp + 1);
                        if spec_extract_asset_uuid(url) is Some {
                            seq![url] + rest
                        } else {
                            rest
                        }
                    } else {
                        Seq::empty()
                    },
                },
            },
        }
    }
}

/// The asset URLs referenced by Markdown image syntax in the lines of a
/// text, from line `li` on.
pub open spec fn spec_md_all_from(lines: Seq<Seq<char>>, li: int) -> Seq<Seq<char>>
    decreases lines.len() - li,
{
    if li < 0 || li >= lines.len() {
        Seq::empty()
    } else {
        spec_md_targets_from(lines[li], 0) + spec_md_all_from(lines, li + 1)
    }
}

/// All asset URLs referenced by Markdown image syntax in `text`, per line,
/// in order.
pub open spec fn spec_detect_markdown_assets(text: Seq<char>) -> Seq<Seq<char>> {
    spec_md_all_from(spec_lines(text), 0)
}

/// The asset URLs referenced by Markdown image syntax in one line.
#[verifier::loop_isolation(false)]
fn md_targets_of_line(line: &Vec<char>, bang_pat: &Vec<char>, close_pat: &Vec<char>) -> (r: Vec<
    String,
>)
    requires
        bang_pat@ == "!["@,
        close_pat@ == "]("@,
    ensures
        r.deep_view() == spec_md_targets_from(line@, 0),
{
    let mut out: Vec<String> = Vec::new();
    let mut start: usize = 0;
    loop
        invariant
            start <= line@.len(),
            out.deep_view() + spec_md_targets_from(line@, start as int) == spec_md_targets_from(
                line@,
                0,
            ),
        decreases line@.len() - start,
    {
        let bang = match find_from(line, bang_pat, start) {
            Some(b) => b,
            None => {
                proof {
                    assert(out.deep_view() =~~= spec_md_targets_from(line@, 0));
                }
                return out;
            },
        };
        let close = match find_from(line, close_pat, bang) {
            Some(c) => c,
            None => {
                proof {
                    assert(out.deep_view() =~~= spec_md_targets_from(line@, 0));
                }
                return out;
            },
        };
        let n = line.len();
        proof {
            reveal_strlit("![");
            reveal_strlit("](");
            lemma_spec_find_some_bounds(line@, "!["@, start as int);
            lemma_spec_find_some_bounds(line@, "]("@, bang as int);
            assert(close + 2 <= n);
        }
        let rp = match find_char_from(line, ')', close + 2) {
            Some(p) => p,
            None => {
                proof {
                    assert(out.deep_view() =~~= spec_md_targets_from(line@, 0));
                }
                return out;
            },
        };
        let content = subvec(line, close + 2, rp);
        let url = match find_char_from(&content, ' ', 0) {
            Some(sp) => subvec(&content, 0, sp),
            None => content,
        };
        proof {
            assert(url@ == spec_first_token(line@.subrange(close + 2, rp as int)));
        }
        if extract_asset_uuid_chars(&url).is_some() {
            let ghost old_dv = out.deep_view();
            out.push(string_from_chars(&url));
            proof {
                assert(out.deep_view() =~~= old_dv + seq![url@]);
            }
        }
        start = rp + 1;
    }
}

/// Detect all asset URLs written in Markdown image syntax in `text`.
///
/// Scans each line for `![alt](target)` or `![alt](target "title")` and
/// keeps the targets that are recognised asset URLs, in order.
#[verifier::loop_isolation(false)]
pub fn detect_markdown_assets(text: &str) -> (r: Vec<String>)
    ensures
        r.deep_view() == spec_detect_markdown_assets(text@),
{
    let cs = chars_of(text);
    let lines = lines_of(&cs);
    let bang_pat = chars_of("![");
    let close_pat = chars_of("](");
    let ghost lns = lines.deep_view();
    let mut out: Vec<String> = Vec::new();
    let mut li: usize = 0;
    while li < lines.len()
        invariant
            li <= lines@.len(),
            lines.deep_view() == lns,
            out.deep_view() + spec_md_all_from(lns, li as int) == spec_md_all_from(lns, 0),
        decreases lines@.len() - li,
    {
        let mut line_urls = md_targets_of_line(&lines[li], &bang_pat, &close_pat);
        let ghost old_dv = out.deep_view();
        let ghost line_dv = line_urls.deep_view();
        proof {
            assert(lines@[li as int].deep_view() =~= lines@[li as int]@);
            assert(lns[li as int] == lines@[li as int]@);
        }
        out.append(&mut line_urls);
        li = li + 1;
        proof {
            assert(out.deep_view() =~~= old_dv + line_dv);
        }
    }
    proof {
        assert(out.deep_view() =~~= spec_detect_markdown_assets(text@));
    }
    out
}

/// What the `src` attributes of the `<img>` elements of an HTML fragment
/// hold, in document order, as scraper's HTML parser reads the fragment.
pub uninterp spec fn html_img_srcs(html: Seq<char>) -> Seq<Seq<char>>;

/// Relies on scraper's `Html::parse_fragment`, `Selector::parse` and
/// `Element::attr`: parses the fragment and hands back the `src` attribute
/// values of its `<img>` elements, in document order. The result depends on
/// the HTML text alone. `Selector::parse` cannot fail on the fixed selector
/// `"img"`.
#[verifier::external_body]
fn html_img_src_values(html: &str) -> (r: Vec<String>)
    ensures
        r.deep_view() == html_img_srcs(html@),
{
    let document = scraper::Html::parse_fragment(html);
    let selector = scraper::Selector::parse("img").unwrap();
    document
        .select(&selector)
        .filter_map(|el| el.value().attr("src"))
        .map(|s| s.to_string())
        .collect()
}

/// The elements of `urls` from position `i` on that are recognised asset
/// URLs, in order.
pub open spec fn spec_asset_urls_from(urls: Seq<Seq<char>>, i: int) -> Seq<Seq<char>>
    decreases urls.len() - i,
{
    if i < 0 || i >= urls.len() {
        Seq::empty()
    } else {
        let rest = spec_asset_urls_from(urls, i + 1);
        if spec_extract_asset_uuid(urls[i]) is Some {
            seq![urls[i]] + rest
        } else {
            rest
        }
    }
}

/// All asset URLs among the `<img>` `src` attributes of an HTML fragment.
pub open spec fn spec_detect_asset_urls(html: Seq<char>) -> Seq<Seq<char>> {
    spec_asset_urls_from(html_img_srcs(html), 0)
}

/// Detect all asset URLs in HTML content: the `src` attributes of `<img>`
/// elements that are recognised asset URLs, in document order.
#[verifier::loop_isolation(false)]
pub fn detect_asset_urls(html: &str) -> (r: Vec<String>)
    ensures
        r.deep_view() == spec_detect_asset_urls(html@),
{
    let srcs = html_img_src_values(html);
    let ghost sv = srcs.deep_view();
    let mut out: Vec<String> = Vec::new();
    let mut i: usize = 0;
    while i < srcs.len()
        invariant
            i <= srcs@.len(),
            srcs.deep_view() == sv,
            out.deep_view() + spec_asset_urls_from(sv, i as int) == spec_asset_urls_from(sv, 0),
        decreases srcs@.len() - i,
    {
        let url = &srcs[i];
        proof {
            assert(srcs@[i as int].deep_view() =~= srcs@[i as int]@);
            assert(sv[i as int] == srcs@[i as int]@);
        }
        if extract_asset_uuid(url.as_str()).is_some() {
            let ghost old_dv = out.deep_view();
            out.push(url.clone());
            proof {
                assert(out.deep_view() =~~= old_dv + seq![url@]);
            }
        }
        i = i + 1;
    }
    proof {
        assert(out.deep_view() =~~= spec_detect_asset_urls(html@));
    }
    out
}

/// The deduplication of `urls` from position `i` on, given the identifiers
/// already seen: a URL is kept when it is a recognised asset URL whose
/// identifier was not seen before; later URLs with the same identifier are
/// collapsed into the first.
pub open spec fn spec_dedupe_from(urls: Seq<Seq<char>>, seen: Set<Seq<char>>, i: int) -> Seq<
    Seq<char>,
>
    decreases urls.len() - i,
{
    if i < 0 || i >= urls.len() {
        Seq::empty()
    } else {
        match spec_extract_asset_uuid(urls[i]) {
            Some(id) => if seen.contains(id) {
                spec_dedupe_from(urls, seen, i + 1)
            } else {
                seq![urls[i]] + spec_dedupe_from(urls, seen.insert(id), i + 1)
            },
            None => spec_dedupe_from(urls, seen, i + 1),
        }
    }
}

/// The asset URLs of `urls` with duplicate identifiers collapsed into the
/// first occurrence, first-seen order preserved.
pub open spec fn spec_dedupe_asset_urls(urls: Seq<Seq<char>>) -> Seq<Seq<char>> {
    spec_dedupe_from(urls, Set::empty(), 0)
}

/// Deduplicate asset URLs by identifier.
///
/// Keeps the first URL for each identifier, in first-seen order; URLs that
/// are not recognised asset URLs are dropped.
#[verifier::loop_isolation(false)]
pub fn dedupe_asset_urls(urls: Vec<String>) -> (r: Vec<String>)
    ensures
        r.deep_view() == spec_dedupe_asset_urls(urls.deep_view()),
{
    let ghost us = urls.deep_view();
    let mut seen: Vec<String> = Vec::new();
    let ghost mut seen_set = Set::<Seq<char>>::empty();
    let mut unique: Vec<String> = Vec::new();
    let mut i: usize = 0;
    while i < urls.len()
        invariant
            i <= urls@.len(),
            urls.deep_view() == us,
            forall|x: Seq<char>|
                seen_set.contains(x) <==> exists|k: int| 0 <= k < seen@.len() && seen@[k]@ == x,
            unique.deep_view() + spec_dedupe_from(us, seen_set, i as int) == spec_dedupe_from(
                us,
                Set::empty(),
                0,
            ),
        decreases urls@.len() - i,
    {
        let url = &urls[i];
        proof {
            assert(urls@[i as int].deep_view() =~= urls@[i as int]@);
            assert(us[i as int] == urls@[i as int]@);
        }
        match extract_asset_uuid(url.as_str()) {
            Some(uuid) => {
                if !contains_string(&seen, &uuid) {
                    let ghost old_dv = unique.deep_view();
                    let ghost old_seen = seen@;
                    let ghost old_set = seen_set;
                    unique.push(url.clone());
                    seen.push(uuid.clone());
                    proof {
                        seen_set = seen_set.insert(uuid@);
                        assert(unique.deep_view() =~~= old_dv + seq![url@]);
                        assert(seen@ =~= old_seen.push(uuid));
                        assert forall|x: Seq<char>| seen_set.contains(x) implies exists|k: int|
                            0 <= k < seen@.len() && seen@[k]@ == x by {
                            if x == uuid@ {
                                assert(seen@[seen@.len() - 1]@ == x);
                            } else {
                                let k = choose|k: int|
                                    0 <= k < old_seen.len() && old_seen[k]@ == x;
                                assert(seen@[k]@ == x);
                            }
                        }
                        assert forall|x: Seq<char>|
                            (exists|k: int|
                                0 <= k < seen@.len() && seen@[k]@ == x) implies seen_set.contains(
                            x,
                        ) by {
                            let k = choose|k: int| 0 <= k < seen@.len() && seen@[k]@ == x;
                            if k < seen@.len() - 1 {
                                assert(old_seen[k]@ == x);
                                assert(old_set.contains(x));
                            } else {
                                assert(x == uuid@);
                            }
                        }
                    }
                } else {
                    proof {
                        assert(seen_set.contains(uuid@));
                    }
                }
            },
            None => {},
        }
        i = i + 1;
    }
    proof {
        assert(unique.deep_view() =~~= spec_dedupe_asset_urls(urls.deep_view()));
    }
    unique
}

/// The file extension for a Content-Type, dot included: the image types the
/// exporter knows get their usual extensions, anything else (including an
/// absent type) is stored as generic binary.
pub open spec fn spec_extension_for(ct: Seq<char>) -> Seq<char> {
    if ct == "image/png"@ {
        ".png"@
    } else if ct == "image/jpeg"@ || ct == "image/jpg"@ {
        ".jpg"@
    } else if ct == "image/svg+xml"@ {
        ".svg"@
    } else if ct == "image/gif"@ {
        ".gif"@
    } else if ct == "image/webp"@ {
        ".webp"@
    } else if ct == "image/avif"@ {
        ".avif"@
    } else {
        ".bin"@
    }
}

/// Map a Content-Type header value to a file extension, dot included.
pub fn content_type_to_extension(content_type: &str) -> (r: String)
    ensures
        r@ == spec_extension_for(content_type@),
{
    if str_eq(content_type, "image/png") {
        ".png".to_owned()
    } else if str_eq(content_type, "image/jpeg") || str_eq(content_type, "image/jpg") {
        ".jpg".to_owned()
    } else if str_eq(content_type, "image/svg+xml") {
        ".svg".to_owned()
    } else if str_eq(content_type, "image/gif") {
        ".gif".to_owned()
    } else if str_eq(content_type, "image/webp") {
        ".webp".to_owned()
    } else if str_eq(content_type, "image/avif") {
        ".avif".to_owned()
    } else {
        ".bin".to_owned()
    }
}

/// The Content-Type with any parameters stripped: the text up to the first
/// `';'`, trimmed of surrounding ASCII whitespace.
pub open spec fn spec_normalized_content_type(header: Seq<char>) -> Seq<char> {
    let cut = match spec_first_char_from(header, ';', 0) {
        Some(i) => if 0 <= i <= header.len() {
            header.subrange(0, i)
        } else {
            header
        },
        None => header,
    };
    spec_trim(cut)
}

/// Strip parameters (such as a charset) from a Content-Type header value.
pub fn normalize_content_type(header: &str) -> (r: String)
    ensures
        r@ == spec_normalized_content_type(header@),
{
    let cs = chars_of(header);
    let cut = match find_char_from(&cs, ';', 0) {
        Some(i) => subvec(&cs, 0, i),
        None => subvec(&cs, 0, cs.len()),
    };
    proof {
        assert(cs@.subrange(0, cs@.len() as int) =~= cs@);
    }
    let trimmed = trim_chars(&cut);
    string_from_chars(&trimmed)
}

/// The file extension for a metadata probe's Content-Type header: the header
/// value (empty when absent), stripped of parameters, mapped through the
/// fixed extension table.
pub open spec fn spec_extension_from_header(header: Option<Seq<char>>) -> Seq<char> {
    let ct = match header {
        Some(h) => h,
        None => Seq::empty(),
    };
    spec_extension_for(spec_normalized_content_type(ct))
}

/// The file extension for a metadata probe's Content-Type header.
pub fn extension_from_header(header: Option<&str>) -> (r: String)
    ensures
        r@ == spec_extension_from_header(match header {
            Some(h) => Some(h@),
            None => None,
        }),
{
    let normalized = match header {
        Some(h) => normalize_content_type(h),
        None => {
            proof {
                reveal_strlit("");
                assert(""@ =~= Seq::<char>::empty());
            }
            normalize_content_type("")
        },
    };
    content_type_to_extension(normalized.as_str())
}

/// The result of a single asset download attempt: the original URL, its
/// identifier, the resolved file extension, and the outcome.
#[derive(Debug)]
pub struct DownloadResult {
    /// The asset URL the attempt was for.
    pub url: String,
    /// The identifier extracted from the URL.
    pub uuid: String,
    /// The resolved file extension, dot included.
    pub extension: String,
    /// The outcome: success, or a classified failure.
    pub result: Result<(), Error>,
}

/// Whether an HTTP status code means success.
pub open spec fn spec_is_http_success(status: u16) -> bool {
    200 <= status < 300
}

/// Classify an HTTP status, with `generic` as the prefix of the message for
/// an unrecognised failure status.
fn classify_status(status: u16, url: &str, generic: &str) -> (r: Result<(), Error>)
    ensures
        status == 401 ==> (r matches Err(Error::Authentication)),
        status == 404 ==> (r matches Err(Error::Http(m)) && m@ == "Asset not found (HTTP 404): "@
            + url@),
        status == 403 ==> (r matches Err(Error::PermissionDenied(m)) && m@
            == "Authentication failed or access denied (HTTP 403): "@ + url@),
        status != 401 && status != 403 && status != 404 && !spec_is_http_success(status)
            ==> (r matches Err(Error::Http(m)) && m@ == generic@ + spec_decimal(status as nat)),
        spec_is_http_success(status) ==> r is Ok,
{
    if status == 401 {
        Err(Error::Authentication)
    } else if status == 404 {
        let mut m = "Asset not found (HTTP 404): ".to_owned();
        m.append(url);
        Err(Error::Http(m))
    } else if status == 403 {
        let mut m = "Authentication failed or access denied (HTTP 403): ".to_owned();
        m.append(url);
        Err(Error::PermissionDenied(m))
    } else if !(200 <= status && status < 300) {
        let mut m = generic.to_owned();
        let d = u64_to_string(status as u64);
        m.append(d.as_str());
        Err(Error::Http(m))
    } else {
        Ok(())
    }
}

/// Classify the HTTP status of an asset body transfer: authentication
/// failure, not-found and permission-denied statuses get their own error
/// kinds, any other non-success status a generic message, and a success
/// status passes.
pub fn classify_asset_status(status: u16, url: &str) -> (r: Result<(), Error>)
    ensures
        status == 401 ==> (r matches Err(Error::Authentication)),
        status == 404 ==> (r matches Err(Error::Http(m)) && m@ == "Asset not found (HTTP 404): "@
            + url@),
        status == 403 ==> (r matches Err(Error::PermissionDenied(m)) && m@
            == "Authentication failed or access denied (HTTP 403): "@ + url@),
        status != 401 && status != 403 && status != 404 && !spec_is_http_success(status)
            ==> (r matches Err(Error::Http(m)) && m@ == "Failed to download asset: HTTP "@
            + spec_decimal(status as nat)),
        spec_is_http_success(status) ==> r is Ok,
{
    classify_status(status, url, "Failed to download asset: HTTP ")
}

/// Classify the HTTP status of an asset metadata probe; like
/// [`classify_asset_status`], with the probe's own generic message.
pub fn classify_metadata_status(status: u16, url: &str) -> (r: Result<(), Error>)
    ensures
        status == 401 ==> (r matches Err(Error::Authentication)),
        status == 404 ==> (r matches Err(Error::Http(m)) && m@ == "Asset not found (HTTP 404): "@
            + url@),
        status == 403 ==> (r matches Err(Error::PermissionDenied(m)) && m@
            == "Authentication failed or access denied (HTTP 403): "@ + url@),
        status != 401 && status != 403 && status != 404 && !spec_is_http_success(status)
            ==> (r matches Err(Error::Http(m)) && m@ == "Failed to get asset metadata: HTTP "@
            + spec_decimal(status as nat)),
        spec_is_http_success(status) ==> r is Ok,
{
    classify_status(status, url, "Failed to get asset metadata: HTTP ")
}

/// A failure met while moving asset bytes, before any HTTP status could be
/// classified. The carried text is the transport's own description.
#[derive(Debug)]
pub enum AssetFailure {
    /// The URL is not a recognised asset URL.
    InvalidUrl,
    /// The metadata probe could not be sent or answered.
    MetadataTransport(String),
    /// The body transfer timed out.
    DownloadTimeout,
    /// The connection for the body transfer could not be established.
    DownloadConnect,
    /// The body transfer failed some other way.
    DownloadTransport(String),
    /// The response body could not be read.
    BodyRead(String),
}

/// The error reported for an asset transfer failure, one fixed message per
/// kind, naming the URL where the kind does not carry its own description.
pub fn asset_failure_error(failure: &AssetFailure, url: &str) -> (r: Error)
    ensures
        match *failure {
            AssetFailure::InvalidUrl => r matches Error::Http(m) && m@
                == "Invalid GitHub asset URL: "@ + url@,
            AssetFailure::MetadataTransport(d) => r matches Error::Http(m) && m@
                == "Failed to get asset metadata: "@ + d@,
            AssetFailure::DownloadTimeout => r matches Error::Http(m) && m@
                == "Network timeout while downloading asset: "@ + url@,
            AssetFailure::DownloadConnect => r matches Error::Http(m) && m@
                == "Failed to connect to server while downloading asset: "@ + url@,
            AssetFailure::DownloadTransport(d) => r matches Error::Http(m) && m@
                == "Failed to download asset: "@ + d@,
            AssetFailure::BodyRead(d) => r matches Error::Http(m) && m@
                == "Failed to read response body: "@ + d@,
        },
{
    match failure {
        AssetFailure::InvalidUrl => {
            let mut m = "Invalid GitHub asset URL: ".to_owned();
            m.append(url);
            Error::Http(m)
        },
        AssetFailure::MetadataTransport(d) => {
            let mut m = "Failed to get asset metadata: ".to_owned();
            m.append(d.as_str());
            Error::Http(m)
        },
        AssetFailure::DownloadTimeout => {
            let mut m = "Network timeout while downloading asset: ".to_owned();
            m.append(url);
            Error::Http(m)
        },
        AssetFailure::DownloadConnect => {
            let mut m = "Failed to connect to server while downloading asset: ".to_owned();
            m.append(url);
            Error::Http(m)
        },
        AssetFailure::DownloadTransport(d) => {
            let mut m = "Failed to download asset: ".to_owned();
            m.append(d.as_str());
            Error::Http(m)
        },
        AssetFailure::BodyRead(d) => {
            let mut m = "Failed to read response body: ".to_owned();
            m.append(d.as_str());
            Error::Http(m)
        },
    }
}

/// Extract the identifier from an asset URL, or the error reported for an
/// unrecognisable one: `Ok` exactly when the URL is a recognised asset URL.
pub fn validate_asset_url(url: &str) -> (r: Result<String, Error>)
    ensures
        match spec_extract_asset_uuid(url@) {
            Some(u) => r matches Ok(s) && s@ == u,
            None => r matches Err(Error::Http(m)) && m@ == "Invalid GitHub asset URL: "@ + url@,
        },
{
    match extract_asset_uuid(url) {
        Some(u) => Ok(u),
        None => Err(asset_failure_error(&AssetFailure::InvalidUrl, url)),
    }
}

/// The file name an asset is stored under: its identifier followed by its
/// extension.
pub fn asset_filename(uuid: &str, extension: &str) -> (r: String)
    ensures
        r@ == uuid@ + extension@,
{
    let mut s = uuid.to_owned();
    s.append(extension);
    s
}

/// The path a rewritten reference points at: the asset directory name, a
/// slash, and the asset's file name.
pub fn local_asset_path(dir: &str, uuid: &str, extension: &str) -> (r: String)
    ensures
        r@ == dir@ + "/"@ + uuid@ + extension@,
{
    let mut s = dir.to_owned();
    s.append("/");
    s.append(uuid);
    s.append(extension);
    s
}

/// All asset URLs one body references: the HTML `<img>` references first,
/// then the Markdown image references.
pub open spec fn spec_body_asset_urls(body: Seq<char>) -> Seq<Seq<char>> {
    spec_detect_asset_urls(body) + spec_detect_markdown_assets(body)
}

/// The asset URLs of the replies from index `i` on; absent entries
/// contribute nothing.
pub open spec fn spec_replies_asset_urls(rs: Seq<Option<crate::models::Reply>>, i: int) -> Seq<
    Seq<char>,
>
    decreases rs.len() - i,
{
    if i < 0 || i >= rs.len() {
        Seq::empty()
    } else {
        (match rs[i] {
            Some(rp) => spec_body_asset_urls(rp.body@),
            None => Seq::empty(),
        }) + spec_replies_asset_urls(rs, i + 1)
    }
}

/// The asset URLs of the comments from index `i` on: each present
/// comment's body, then its replies' bodies.
pub open spec fn spec_comments_asset_urls(ns: Seq<Option<crate::models::Comment>>, i: int) -> Seq<
    Seq<char>,
>
    decreases ns.len() - i,
{
    if i < 0 || i >= ns.len() {
        Seq::empty()
    } else {
        (match ns[i] {
            Some(c) => spec_body_asset_urls(c.body@) + (match c.replies.nodes {
                Some(rs) => spec_replies_asset_urls(rs@, 0),
                None => Seq::empty(),
            }),
            None => Seq::empty(),
        }) + spec_comments_asset_urls(ns, i + 1)
    }
}

/// All asset URLs a discussion tree references, in document order: the
/// original post's body, then each comment's body and its replies' bodies.
pub open spec fn spec_discussion_asset_urls(d: crate::models::Discussion) -> Seq<Seq<char>> {
    spec_body_asset_urls(d.body@) + (match d.comments.nodes {
        Some(ns) => spec_comments_asset_urls(ns@, 0),
        None => Seq::empty(),
    })
}

/// Collect one body's asset URLs.
fn collect_body_asset_urls(body: &str, out: &mut Vec<String>)
    ensures
        final(out).deep_view() == old(out).deep_view() + spec_body_asset_urls(body@),
{
    let ghost old_dv = out.deep_view();
    let mut html_urls = detect_asset_urls(body);
    let ghost html_dv = html_urls.deep_view();
    out.append(&mut html_urls);
    proof {
        assert(out.deep_view() =~~= old_dv + html_dv);
    }
    let mut md_urls = detect_markdown_assets(body);
    let ghost md_dv = md_urls.deep_view();
    out.append(&mut md_urls);
    proof {
        assert(out.deep_view() =~~= old_dv + html_dv + md_dv);
        assert(out.deep_view() =~~= old_dv + spec_body_asset_urls(body@));
    }
}

/// Collect every asset URL referenced anywhere in a discussion tree, in
/// document order.
#[verifier::loop_isolation(false)]
pub fn collect_discussion_asset_urls(d: &crate::models::Discussion) -> (r: Vec<String>)
    ensures
        r.deep_view() == spec_discussion_asset_urls(*d),
{
    let mut out: Vec<String> = Vec::new();
    collect_body_asset_urls(d.body.as_str(), &mut out);
    match &d.comments.nodes {
        Some(ns) => {
            let ghost nsg = ns@;
            let mut i: usize = 0;
            while i < ns.len()
                invariant
                    i <= nsg.len(),
                    nsg == ns@,
                    out.deep_view() + spec_comments_asset_urls(nsg, i as int)
                        == spec_discussion_asset_urls(*d),
                decreases nsg.len() - i,
            {
                match &ns[i] {
                    Some(c) => {
                        collect_body_asset_urls(c.body.as_str(), &mut out);
                        match &c.replies.nodes {
                            Some(rs) => {
                                let ghost rsg = rs@;
                                let mut j: usize = 0;
                                while j < rs.len()
                                    invariant
                                        j <= rsg.len(),
                                        rsg == rs@,
                                        out.deep_view() + spec_replies_asset_urls(rsg, j as int)
                                            + spec_comments_asset_urls(nsg, i + 1)
                                            == spec_discussion_asset_urls(*d),
                                    decreases rsg.len() - j,
                                {
                                    match &rs[j] {
                                        Some(rp) => {
                                            collect_body_asset_urls(rp.body.as_str(), &mut out);
                                        },
                                        None => {},
                                    }
                                    j = j + 1;
                                    proof {
                                        assert(out.deep_view() + spec_replies_asset_urls(
                                            rsg,
                                            j as int,
                                        ) + spec_comments_asset_urls(nsg, i + 1)
                                            =~~= spec_discussion_asset_urls(*d));
                                    }
                                }
                            },
                            None => {},
                        }
                    },
                    None => {},
                }
                i = i + 1;
                proof {
                    assert(out.deep_view() + spec_comments_asset_urls(nsg, i as int)
                        =~~= spec_discussion_asset_urls(*d));
                }
            }
            proof {
                assert(out.deep_view() =~~= spec_discussion_asset_urls(*d));
            }
        },
        None => {
            proof {
                assert(out.deep_view() =~~= spec_discussion_asset_urls(*d));
            }
        },
    }
    out
}

/// What to do about one asset whose destination file may already exist.
#[derive(Debug, PartialEq, Eq, Structural)]
pub enum DownloadAction {
    /// The destination file already exists: the download is skipped and
    /// counted a success, so repeated runs against the same directory are
    /// cheap and safe.
    SkipExisting,
    /// The asset must be fetched.
    Fetch,
}

/// Decide whether an asset must be fetched: an already present destination
/// file is a success and is never downloaded again.
pub fn download_action(destination_exists: bool) -> (r: DownloadAction)
    ensures
        (r is SkipExisting) <==> destination_exists,
{
    if destination_exists {
        DownloadAction::SkipExisting
    } else {
        DownloadAction::Fetch
    }
}

} // verus!
