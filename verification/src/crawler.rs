//! The crawl policy over URLs: which URLs may be fetched, how a link found in
//! a page becomes a clean absolute URL, and the domain of a URL.
use vstd::prelude::*;
use vstd::string::StrSliceExecFns;
use crate::ipv4::{ipv4_octets, is_reserved, parse_ipv4, reserved_address};
use crate::ipv6::{ipv6_groups, is_local_ipv6, lemma_ipv6_groups_len, local_ipv6, parse_ipv6};
use crate::models::Page;
use crate::parser::{extract_links, extract_text, extract_title, page_links, page_text, page_title};
use crate::text::{
    chars_eq, chars_of, contains_chars, decimal, decimal_chars, ends_with, has_infix, has_prefix,
    has_suffix, lemma_strip_end_last, lemma_trim_idempotent, lower, push_all, starts_with,
    string_of, strip_both, strip_both_chars, strip_end, strip_end_chars, to_lower, trim,
    trim_chars, CharClass,
};
use vstd::utf8::encode_utf8;

verus! {

#[verifier::external_type_specification]
#[verifier::external_body]
pub struct ExUrl(url::Url);

/// The serialization of the URL that `Url::parse` reads from `input`, if it
/// reads one.
pub uninterp spec fn url_parse(input: Seq<char>) -> Option<Seq<char>>;

/// The serialization of the URL that `Url::join` resolves `input` to against
/// the URL serialized as `base`, if it resolves one.
pub uninterp spec fn url_join(base: Seq<char>, input: Seq<char>) -> Option<Seq<char>>;

/// `Url::scheme` of the URL serialized as `url`.
pub uninterp spec fn url_scheme(url: Seq<char>) -> Seq<char>;

/// `Url::username` of the URL serialized as `url`.
pub uninterp spec fn url_username(url: Seq<char>) -> Seq<char>;

/// `Url::password` of the URL serialized as `url`.
pub uninterp spec fn url_password(url: Seq<char>) -> Option<Seq<char>>;

/// `Url::host_str` of the URL serialized as `url`.
pub uninterp spec fn url_host_str(url: Seq<char>) -> Option<Seq<char>>;

/// `Url::domain` of the URL serialized as `url`.
pub uninterp spec fn url_domain(url: Seq<char>) -> Option<Seq<char>>;

/// `Url::path` of the URL serialized as `url`.
pub uninterp spec fn url_path(url: Seq<char>) -> Seq<char>;

/// `Url::query` of the URL serialized as `url`.
pub uninterp spec fn url_query(url: Seq<char>) -> Option<Seq<char>>;

/// The serialization of the URL serialized as `url` up to the end of its path,
/// without query and fragment (`&url[..Position::AfterPath]`).
pub uninterp spec fn url_before_query(url: Seq<char>) -> Seq<char>;

/// The name/value pairs that `form_urlencoded::parse` decodes from the bytes
/// of `input`.
pub uninterp spec fn form_decode(input: Seq<char>) -> Seq<(Seq<char>, Seq<char>)>;

/// The `application/x-www-form-urlencoded` text that
/// `form_urlencoded::Serializer` writes for `pairs`.
pub uninterp spec fn form_encode(pairs: Seq<(Seq<char>, Seq<char>)>) -> Seq<char>;

/// A parsed URL together with its serialization (`Url::as_str`), which is its
/// view. Both are set together, only by `parse_url` and `join_url`.
pub struct ParsedUrl {
    url: url::Url,
    href: String,
}

impl View for ParsedUrl {
    type V = Seq<char>;

    closed spec fn view(&self) -> Seq<char> {
        self.href@
    }
}

/// The view of an optional parsed URL.
pub open spec fn opt_view(u: Option<ParsedUrl>) -> Option<Seq<char>> {
    match u {
        Some(p) => Some(p@),
        None => None,
    }
}

/// The view of an optional string.
pub open spec fn opt_chars(s: Option<String>) -> Option<Seq<char>> {
    match s {
        Some(x) => Some(x@),
        None => None,
    }
}

/// Calls `Url::parse`. Claimed: the serialization of the URL it reads (none
/// when it fails) is `url_parse` of the input.
#[verifier::external_body]
fn parse_url(input: &str) -> (r: Option<ParsedUrl>)
    ensures
        opt_view(r) == url_parse(input@),
{
    match url::Url::parse(input) {
        Ok(u) => Some(ParsedUrl { href: u.as_str().to_string(), url: u }),
        Err(_) => None,
    }
}

/// Calls `Url::join`. Claimed: the serialization of the resolved URL (none
/// when it fails) is `url_join` of the base's serialization and the input.
#[verifier::external_body]
fn join_url(base: &ParsedUrl, input: &str) -> (r: Option<ParsedUrl>)
    ensures
        opt_view(r) == url_join(base@, input@),
{
    match base.url.join(input) {
        Ok(u) => Some(ParsedUrl { href: u.as_str().to_string(), url: u }),
        Err(_) => None,
    }
}

/// Calls `Url::scheme`. Claimed: it is `url_scheme` of the serialization.
#[verifier::external_body]
fn scheme_of(u: &ParsedUrl) -> (r: String)
    ensures
        r@ == url_scheme(u@),
{
    u.url.scheme().to_string()
}

/// Calls `Url::username`. Claimed: it is `url_username` of the serialization.
#[verifier::external_body]
fn username_of(u: &ParsedUrl) -> (r: String)
    ensures
        r@ == url_username(u@),
{
    u.url.username().to_string()
}

/// Calls `Url::password`. Claimed: it is `url_password` of the serialization.
#[verifier::external_body]
fn password_of(u: &ParsedUrl) -> (r: Option<String>)
    ensures
        opt_chars(r) == url_password(u@),
{
    u.url.password().map(|p| p.to_string())
}

/// Calls `Url::host_str`. Claimed: it is `url_host_str` of the serialization.
#[verifier::external_body]
fn host_of(u: &ParsedUrl) -> (r: Option<String>)
    ensures
        opt_chars(r) == url_host_str(u@),
{
    u.url.host_str().map(|h| h.to_string())
}

/// Calls `Url::domain`. Claimed: it is `url_domain` of the serialization.
#[verifier::external_body]
fn domain_of(u: &ParsedUrl) -> (r: Option<String>)
    ensures
        opt_chars(r) == url_domain(u@),
{
    u.url.domain().map(|d| d.to_string())
}

/// Calls `Url::path`. Claimed: it is `url_path` of the serialization, and it
/// is ASCII, as the url crate documents (a percent-encoded ASCII string).
#[verifier::external_body]
fn path_of(u: &ParsedUrl) -> (r: String)
    ensures
        r@ == url_path(u@),
        forall|i: int| 0 <= i < r@.len() ==> (#[trigger] r@[i] as u32) < 128,
{
    u.url.path().to_string()
}

/// Calls `Url::query`. Claimed: it is `url_query` of the serialization.
#[verifier::external_body]
fn query_of(u: &ParsedUrl) -> (r: Option<String>)
    ensures
        opt_chars(r) == url_query(u@),
{
    u.url.query().map(|q| q.to_string())
}

/// Slices the URL up to `Position::AfterPath`. Claimed: it is
/// `url_before_query` of the serialization.
#[verifier::external_body]
fn before_query_of(u: &ParsedUrl) -> (r: String)
    ensures
        r@ == url_before_query(u@),
{
    u.url[..url::Position::AfterPath].to_string()
}

/// Calls `form_urlencoded::parse` on the bytes of `input`. Claimed: the
/// decoded pairs are `form_decode` of `input`.
#[verifier::external_body]
fn decode_pairs(input: &str) -> (r: Vec<(String, String)>)
    ensures
        r.deep_view() == form_decode(input@),
{
    url::form_urlencoded::parse(input.as_bytes()).map(|(k, v)| (k.into_owned(), v.into_owned())).collect()
}

/// Writes `pairs` with `form_urlencoded::Serializer`. Claimed: the text is
/// `form_encode` of the pairs.
#[verifier::external_body]
fn encode_pairs(pairs: &Vec<(String, String)>) -> (r: String)
    ensures
        r@ == form_encode(pairs.deep_view()),
{
    url::form_urlencoded::Serializer::new(String::new()).extend_pairs(pairs.iter()).finish()
}


/// A host that names this machine or a private network: `localhost` in any
/// letter case, a name under `.local`, an IPv4 address of a reserved range,
/// or a local IPv6 address.
pub open spec fn is_local_host(h: Seq<char>) -> bool {
    ||| lower(h) == lower("localhost"@)
    ||| has_suffix(h, ".local"@)
    ||| match ipv4_octets(h) {
        Some(o) => is_reserved(o),
        None => false,
    }
    ||| match ipv6_groups(h) {
        Some(g) => is_local_ipv6(g),
        None => false,
    }
}

/// A public web URL: scheme `http` or `https`, no user name or password, and a
/// host (without IPv6 brackets) that is not local.
pub open spec fn crawlable(u: Seq<char>) -> bool {
    &&& (url_scheme(u) == "http"@ || url_scheme(u) == "https"@)
    &&& url_username(u).len() == 0
    &&& url_password(u) is None
    &&& match url_host_str(u) {
        Some(h) => !is_local_host(strip_both(h, CharClass::Bracket)),
        None => false,
    }
}

/// Whether the host `h` is local.
fn local_host(h: &[char]) -> (r: bool)
    ensures
        r == is_local_host(h@),
{
    let lh = to_lower(h);
    let localhost = to_lower(chars_of("localhost").as_slice());
    if chars_eq(lh.as_slice(), localhost.as_slice()) {
        return true;
    }
    if ends_with(h, chars_of(".local").as_slice()) {
        return true;
    }
    let v4 = match parse_ipv4(h) {
        Some(o) => reserved_address(o),
        None => false,
    };
    if v4 {
        return true;
    }
    match parse_ipv6(h) {
        Some(g) => {
            proof {
                lemma_ipv6_groups_len(h@);
            }
            local_ipv6(&g)
        },
        None => false,
    }
}

/// Whether the parsed URL `u` is a public web URL.
fn is_crawlable(u: &ParsedUrl) -> (r: bool)
    ensures
        r == crawlable(u@),
{
    let scheme = chars_of(scheme_of(u).as_str());
    if !chars_eq(scheme.as_slice(), chars_of("http").as_slice()) && !chars_eq(
        scheme.as_slice(),
        chars_of("https").as_slice(),
    ) {
        return false;
    }
    if username_of(u).as_str().unicode_len() != 0 {
        return false;
    }
    if password_of(u).is_some() {
        return false;
    }
    match host_of(u) {
        Some(h) => {
            let bare = strip_both_chars(chars_of(h.as_str()).as_slice(), CharClass::Bracket);
            !local_host(bare.as_slice())
        },
        None => false,
    }
}

/// Whether `value` parses as a public web URL. Only such URLs are crawled, so
/// that a remote page cannot make the crawler explore the services of the
/// local machine.
pub fn is_crawlable_url(value: &str) -> (r: bool)
    ensures
        r == is_crawlable_url_spec(value@),
{
    match parse_url(value) {
        Some(u) => is_crawlable(&u),
        None => false,
    }
}

/// The domain of a URL: empty when the URL does not parse or its host is not
/// a domain name.
pub open spec fn domain_of_url(url: Seq<char>) -> Seq<char> {
    match url_parse(url) {
        Some(u) => match url_domain(u) {
            Some(d) => d,
            None => Seq::empty(),
        },
        None => Seq::empty(),
    }
}

/// Extracts the domain name of a URL (used for the statistics).
pub fn extract_domain(url: &str) -> (r: String)
    ensures
        r@ == domain_of_url(url@),
{
    match parse_url(url) {
        Some(u) => match domain_of(&u) {
            Some(d) => d,
            None => String::new(),
        },
        None => String::new(),
    }
}


/// A link that leads to no other page: a fragment of the same page, a
/// `javascript:`, `mailto:` or `tel:` link.
pub open spec fn is_skipped_link(l: Seq<char>) -> bool {
    ||| has_prefix(l, "#"@)
    ||| has_prefix(l, "javascript:"@)
    ||| has_prefix(l, "mailto:"@)
    ||| has_prefix(l, "tel:"@)
}

/// A tracking parameter of the query: `utm_*`, `fbclid` or `gclid`, in any
/// ASCII letter case.
pub open spec fn is_tracking_key(k: Seq<char>) -> bool {
    ||| has_prefix(lower(k), "utm_"@)
    ||| lower(k) == "fbclid"@
    ||| lower(k) == "gclid"@
}

/// The pairs of `ps` whose name is not a tracking parameter, in order.
pub open spec fn kept_pairs(ps: Seq<(Seq<char>, Seq<char>)>) -> Seq<(Seq<char>, Seq<char>)>
    decreases ps.len(),
{
    if ps.len() == 0 {
        Seq::empty()
    } else if is_tracking_key(ps.last().0) {
        kept_pairs(ps.drop_last())
    } else {
        kept_pairs(ps.drop_last()).push(ps.last())
    }
}

/// The file extensions of the links that are not followed (images, archives,
/// executables, documents and media).
pub open spec fn ignored_extension(i: int) -> Seq<char> {
    if i == 0 { ".png"@ }
    else if i == 1 { ".jpg"@ }
    else if i == 2 { ".jpeg"@ }
    else if i == 3 { ".gif"@ }
    else if i == 4 { ".svg"@ }
    else if i == 5 { ".ico"@ }
    else if i == 6 { ".webp"@ }
    else if i == 7 { ".zip"@ }
    else if i == 8 { ".rar"@ }
    else if i == 9 { ".7z"@ }
    else if i == 10 { ".exe"@ }
    else if i == 11 { ".pdf"@ }
    else if i == 12 { ".mp4"@ }
    else { ".mp3"@ }
}

/// The number of ignored extensions.
pub open spec fn num_ignored_extensions() -> int {
    14
}

/// A path that ends with an ignored extension, compared in lower case (a URL
/// path is ASCII, so its ASCII lower case is its lower case).
pub open spec fn has_ignored_extension(path: Seq<char>) -> bool {
    exists|i: int|
        0 <= i < num_ignored_extensions() && has_suffix(lower(path), #[trigger] ignored_extension(i))
}

/// The query of `u` as name/value pairs (empty when `u` has no query).
pub open spec fn query_pairs(u: Seq<char>) -> Seq<(Seq<char>, Seq<char>)> {
    form_decode(
        match url_query(u) {
            Some(q) => q,
            None => Seq::empty(),
        },
    )
}

/// `u` without fragment, and with a query made of its pairs that are not
/// tracking parameters (no query when none is left).
pub open spec fn without_tracking(u: Seq<char>) -> Seq<char> {
    let kept = kept_pairs(query_pairs(u));
    if kept.len() > 0 {
        url_before_query(u) + seq!['?'] + form_encode(kept)
    } else {
        url_before_query(u)
    }
}

/// The clean absolute URL of the link `link` found in the page `base`, or
/// `None` when the link is not to be followed.
pub open spec fn normalized(base: Seq<char>, link: Seq<char>) -> Option<Seq<char>> {
    let l = trim(link);
    if l.len() == 0 || is_skipped_link(l) {
        None
    } else {
        match url_parse(base) {
            None => None,
            Some(b) => match url_join(b, l) {
                None => None,
                Some(u) => if !crawlable(u) || has_ignored_extension(url_path(u)) {
                    None
                } else {
                    Some(strip_end(without_tracking(u), CharClass::Slash))
                },
            },
        }
    }
}

/// The `i`-th ignored extension.
fn ignored_extension_at(i: usize) -> (r: &'static str)
    requires
        i < 14,
    ensures
        r@ == ignored_extension(i as int),
{
    match i {
        0 => ".png",
        1 => ".jpg",
        2 => ".jpeg",
        3 => ".gif",
        4 => ".svg",
        5 => ".ico",
        6 => ".webp",
        7 => ".zip",
        8 => ".rar",
        9 => ".7z",
        10 => ".exe",
        11 => ".pdf",
        12 => ".mp4",
        _ => ".mp3",
    }
}

/// Whether the lower-cased path `lpath` ends with an ignored extension.
fn ends_with_ignored_extension(lpath: &[char]) -> (r: bool)
    ensures
        r == exists|i: int| 0 <= i < 14 && has_suffix(lpath@, #[trigger] ignored_extension(i)),
{
    let mut i: usize = 0;
    while i < 14
        invariant
            i <= 14,
            forall|k: int| 0 <= k < i ==> !has_suffix(lpath@, #[trigger] ignored_extension(k)),
        decreases 14 - i,
    {
        if ends_with(lpath, chars_of(ignored_extension_at(i)).as_slice()) {
            return true;
        }
        i = i + 1;
    }
    false
}

/// Whether the link `l` leads to no other page.
fn skipped_link(l: &[char]) -> (r: bool)
    ensures
        r == is_skipped_link(l@),
{
    starts_with(l, chars_of("#").as_slice()) || starts_with(l, chars_of("javascript:").as_slice())
        || starts_with(l, chars_of("mailto:").as_slice()) || starts_with(
        l,
        chars_of("tel:").as_slice(),
    )
}

/// Whether `k` names a tracking parameter.
fn tracking_key(k: &str) -> (r: bool)
    ensures
        r == is_tracking_key(k@),
{
    let lk = to_lower(chars_of(k).as_slice());
    starts_with(lk.as_slice(), chars_of("utm_").as_slice()) || chars_eq(
        lk.as_slice(),
        chars_of("fbclid").as_slice(),
    ) || chars_eq(lk.as_slice(), chars_of("gclid").as_slice())
}

/// The pairs of `ps` that are not tracking parameters.
fn keep_pairs(ps: &Vec<(String, String)>) -> (r: Vec<(String, String)>)
    ensures
        r.deep_view() == kept_pairs(ps.deep_view()),
{
    let mut r: Vec<(String, String)> = Vec::new();
    let mut i: usize = 0;
    while i < ps.len()
        invariant
            i <= ps@.len(),
            r.deep_view() == kept_pairs(ps.deep_view().take(i as int)),
        decreases ps@.len() - i,
    {
        assert(ps.deep_view().take(i + 1).drop_last() =~= ps.deep_view().take(i as int));
        assert(ps.deep_view()[i as int] == ps@[i as int].deep_view());
        if !tracking_key(ps[i].0.as_str()) {
            let ghost before = r.deep_view();
            let p = (ps[i].0.clone(), ps[i].1.clone());
            r.push(p);
            assert(r.deep_view() =~= before.push(ps@[i as int].deep_view()));
        }
        i = i + 1;
    }
    assert(ps.deep_view().take(i as int) =~= ps.deep_view());
    r
}

/// Normalizes a link found in a page into a clean absolute URL: the link is
/// trimmed and resolved against the page, fragments and tracking parameters
/// (`utm_*`, `fbclid`, `gclid`) are removed, trailing slashes are dropped.
/// Returns `None` for empty, in-page, `javascript:`, `mailto:` and `tel:`
/// links, for links that do not resolve to a public web URL, and for links to
/// images, archives, executables, documents and media.
pub fn normalize_url(base: &str, link: &str) -> (r: Option<String>)
    ensures
        opt_chars(r) == normalized(base@, link@),
{
    let l = trim_chars(chars_of(link).as_slice());
    if l.len() == 0 {
        return None;
    }
    if skipped_link(l.as_slice()) {
        return None;
    }
    let b = match parse_url(base) {
        Some(b) => b,
        None => return None,
    };
    let ls = string_of(l.as_slice());
    let u = match join_url(&b, ls.as_str()) {
        Some(u) => u,
        None => return None,
    };
    if !is_crawlable(&u) {
        return None;
    }
    let lpath = to_lower(chars_of(path_of(&u).as_str()).as_slice());
    if ends_with_ignored_extension(lpath.as_slice()) {
        assert(has_ignored_extension(url_path(u@)));
        return None;
    }
    let query = match query_of(&u) {
        Some(q) => q,
        None => String::new(),
    };
    let pairs = decode_pairs(query.as_str());
    let kept = keep_pairs(&pairs);
    let mut out = chars_of(before_query_of(&u).as_str());
    if kept.len() > 0 {
        out.push('?');
        let enc = encode_pairs(&kept);
        push_all(&mut out, chars_of(enc.as_str()).as_slice());
    }
    assert(!has_ignored_extension(url_path(u@)));
    assert(out@ == without_tracking(u@));
    let clean = strip_end_chars(out.as_slice(), CharClass::Slash);
    Some(string_of(clean.as_slice()))
}


/// The largest page, in bytes, that the crawler downloads.
pub const MAX_CONTENT_SIZE: usize = 5_000_000;

/// Why a URL was not crawled.
#[derive(Debug)]
pub enum CrawlError {
    /// The URL is not a public web URL.
    NotCrawlable,
    /// The server answered with a status outside 200..=299.
    HttpStatus(u16),
    /// The response is not HTML; the content type it declared.
    UnsupportedType(String),
    /// The page is larger than `MAX_CONTENT_SIZE`.
    TooLarge,
}

/// The view of a `CrawlError`.
pub enum Refusal {
    NotCrawlable,
    HttpStatus(u16),
    UnsupportedType(Seq<char>),
    TooLarge,
}

impl View for CrawlError {
    type V = Refusal;

    open spec fn view(&self) -> Refusal {
        match self {
            CrawlError::NotCrawlable => Refusal::NotCrawlable,
            CrawlError::HttpStatus(c) => Refusal::HttpStatus(*c),
            CrawlError::UnsupportedType(t) => Refusal::UnsupportedType(t@),
            CrawlError::TooLarge => Refusal::TooLarge,
        }
    }
}

/// The reason phrase that `StatusCode::canonical_reason` gives for the status
/// `code` (`None` for a code outside 100..=999, which `StatusCode::from_u16`
/// refuses, and for a code without a registered phrase).
pub uninterp spec fn canonical_reason(code: u16) -> Option<Seq<char>>;

/// Calls `StatusCode::from_u16` and `StatusCode::canonical_reason`. Claimed:
/// the phrase is `canonical_reason` of the code.
#[verifier::external_body]
fn reason_phrase(code: u16) -> (r: Option<String>)
    ensures
        opt_chars(r) == canonical_reason(code),
{
    reqwest::StatusCode::from_u16(code).ok().and_then(|s| s.canonical_reason()).map(|p| p.to_string())
}

/// A status as `StatusCode` displays it: the code, a space and its reason
/// phrase, or `<unknown status code>` when it has none.
pub open spec fn status_text(code: u16) -> Seq<char> {
    decimal(code as nat) + " "@ + match canonical_reason(code) {
        Some(p) => p,
        None => "<unknown status code>"@,
    }
}

/// The message that records a refusal.
pub open spec fn refusal_message(e: Refusal) -> Seq<char> {
    match e {
        Refusal::NotCrawlable => "URL non autorisée pour le crawl"@,
        Refusal::HttpStatus(c) => "HTTP erreur "@ + status_text(c),
        Refusal::UnsupportedType(t) => "Type non supporté : "@ + t,
        Refusal::TooLarge => "Page trop volumineuse"@,
    }
}

impl CrawlError {
    /// The message that records this error (for an HTTP status, its code and
    /// reason phrase).
    pub fn message(&self) -> (r: String)
        ensures
            r@ == refusal_message(self@),
    {
        match self {
            CrawlError::NotCrawlable => String::from_str("URL non autorisée pour le crawl"),
            CrawlError::HttpStatus(c) => {
                let mut m = chars_of("HTTP erreur ");
                let d = decimal_chars(*c as u64);
                push_all(&mut m, d.as_slice());
                push_all(&mut m, chars_of(" ").as_slice());
                match reason_phrase(*c) {
                    Some(p) => push_all(&mut m, chars_of(p.as_str()).as_slice()),
                    None => push_all(&mut m, chars_of("<unknown status code>").as_slice()),
                }
                string_of(m.as_slice())
            },
            CrawlError::UnsupportedType(t) => {
                let mut m = chars_of("Type non supporté : ");
                push_all(&mut m, chars_of(t.as_str()).as_slice());
                string_of(m.as_slice())
            },
            CrawlError::TooLarge => String::from_str("Page trop volumineuse"),
        }
    }
}

/// A content type of an HTML page: it mentions `text/html` or
/// `application/xhtml`, in any ASCII letter case.
pub open spec fn is_html_type(ct: Seq<char>) -> bool {
    has_infix(lower(ct), "text/html"@) || has_infix(lower(ct), "application/xhtml"@)
}

/// The verdict on the head of a response, checked in this order: a success
/// status (200..=299), an HTML content type when one is declared, a declared
/// length of at most `MAX_CONTENT_SIZE`.
pub open spec fn head_refusal(code: u16, content_type: Option<Seq<char>>, length: Option<u64>) -> Option<
    Refusal,
> {
    if !(200 <= code <= 299) {
        Some(Refusal::HttpStatus(code))
    } else if content_type matches Some(ct) && !is_html_type(ct) {
        Some(Refusal::UnsupportedType(content_type->0))
    } else if length matches Some(n) && n > MAX_CONTENT_SIZE {
        Some(Refusal::TooLarge)
    } else {
        None
    }
}

/// Checks the head of a response (status, content type, declared length)
/// before its body is downloaded.
pub fn check_response(code: u16, content_type: &Option<String>, length: Option<u64>) -> (r: Result<
    (),
    CrawlError,
>)
    ensures
        match r {
            Ok(_) => head_refusal(code, opt_chars(*content_type), length) is None,
            Err(e) => head_refusal(code, opt_chars(*content_type), length) == Some(e@),
        },
{
    if code < 200 || code > 299 {
        return Err(CrawlError::HttpStatus(code));
    }
    match content_type {
        Some(ct) => {
            let l = to_lower(chars_of(ct.as_str()).as_slice());
            if !contains_chars(l.as_slice(), chars_of("text/html").as_slice()) && !contains_chars(
                l.as_slice(),
                chars_of("application/xhtml").as_slice(),
            ) {
                return Err(CrawlError::UnsupportedType(ct.clone()));
            }
        },
        None => {},
    }
    match length {
        Some(n) => {
            if n > MAX_CONTENT_SIZE as u64 {
                return Err(CrawlError::TooLarge);
            }
        },
        None => {},
    }
    Ok(())
}

/// The SHA-256 digest of `data` (`sha2::Sha256`).
pub uninterp spec fn sha256_digest(data: Seq<u8>) -> Seq<u8>;

/// The text that `String::from_utf8_lossy` decodes from `bytes`.
pub uninterp spec fn utf8_lossy(bytes: Seq<u8>) -> Seq<char>;

/// Calls `Sha256::digest`. Claimed: the digest is `sha256_digest` of the data
/// and is 32 bytes long, the output size of SHA-256.
#[verifier::external_body]
fn sha256(data: &[u8]) -> (r: Vec<u8>)
    ensures
        r@ == sha256_digest(data@),
        r@.len() == 32,
{
    <sha2::Sha256 as sha2::Digest>::digest(data).to_vec()
}

/// Calls `String::from_utf8_lossy`. Claimed: the text is `utf8_lossy` of the
/// bytes.
#[verifier::external_body]
fn decode_lossy(bytes: &[u8]) -> (r: String)
    ensures
        r@ == utf8_lossy(bytes@),
{
    String::from_utf8_lossy(bytes).into_owned()
}

/// The lower-case hexadecimal digit of `n` (below 16).
pub open spec fn hex_digit(n: int) -> char {
    if n < 10 {
        (('0' as u32) + n) as char
    } else {
        (('a' as u32) + n - 10) as char
    }
}

/// Each byte as two lower-case hexadecimal digits (`format!("{:x}", ..)` of a
/// digest).
pub open spec fn hex(bytes: Seq<u8>) -> Seq<char>
    decreases bytes.len(),
{
    if bytes.len() == 0 {
        Seq::empty()
    } else {
        hex(bytes.drop_last()) + seq![
            hex_digit(bytes.last() as int / 16),
            hex_digit(bytes.last() as int % 16),
        ]
    }
}

/// The hexadecimal digit of `n`.
fn hex_digit_char(n: u8) -> (r: char)
    requires
        n < 16,
    ensures
        r == hex_digit(n as int),
{
    if n < 10 {
        (48 + n) as char
    } else {
        (97 + n - 10) as char
    }
}

/// `bytes` in lower-case hexadecimal.
pub fn to_hex(bytes: &[u8]) -> (r: String)
    ensures
        r@ == hex(bytes@),
{
    let mut v: Vec<char> = Vec::new();
    let mut i: usize = 0;
    while i < bytes.len()
        invariant
            i <= bytes@.len(),
            v@ == hex(bytes@.take(i as int)),
        decreases bytes@.len() - i,
    {
        assert(bytes@.take(i + 1).drop_last() =~= bytes@.take(i as int));
        let b: u8 = bytes[i];
        v.push(hex_digit_char(b / 16));
        v.push(hex_digit_char(b % 16));
        i = i + 1;
        assert(v@ =~= hex(bytes@.take(i as int)));
    }
    assert(bytes@.take(i as int) =~= bytes@);
    string_of(v.as_slice())
}

/// The content hash of a page: the SHA-256 digest of the UTF-8 bytes of its
/// text, in lower-case hexadecimal.
pub open spec fn content_hash(content: Seq<char>) -> Seq<char> {
    hex(sha256_digest(encode_utf8(content)))
}

/// The outcome of a successful crawl.
#[derive(Debug)]
pub struct CrawlResult {
    pub page: Page,
    pub http_code: u16,
}

/// `res` is the page built from the body `body` of the response to `url`.
pub open spec fn built_from(
    res: CrawlResult,
    url: Seq<char>,
    code: u16,
    content_type: Option<Seq<char>>,
    body: Seq<u8>,
    crawl_time_ms: u128,
) -> bool {
    let html = utf8_lossy(body);
    let p = res.page;
    &&& res.http_code == code
    &&& p.url@ == url
    &&& p.status_code == code
    &&& p.title@ == page_title(html)
    &&& p.description is None
    &&& p.content@ == page_text(html)
    &&& p.links.deep_view() == page_links(html)
    &&& p.depth == 0
    &&& p.hash@ == content_hash(page_text(html))
    &&& p.size == body.len()
    &&& opt_chars(p.content_type) == content_type
    &&& p.language is None
    &&& p.crawl_time_ms == crawl_time_ms
}

/// Builds the page of a downloaded body: its title, links and visible text
/// are extracted and the text is hashed. A body larger than
/// `MAX_CONTENT_SIZE` is refused.
pub fn process_body(
    url: &str,
    code: u16,
    content_type: Option<String>,
    body: &[u8],
    crawl_time_ms: u128,
) -> (r: Result<CrawlResult, CrawlError>)
    ensures
        match r {
            Ok(res) => body@.len() <= MAX_CONTENT_SIZE && res.page.hash@.len() == 64 && built_from(
                res,
                url@,
                code,
                opt_chars(content_type),
                body@,
                crawl_time_ms,
            ),
            Err(e) => body@.len() > MAX_CONTENT_SIZE && e@ == Refusal::TooLarge,
        },
{
    if body.len() > MAX_CONTENT_SIZE {
        return Err(CrawlError::TooLarge);
    }
    let size: usize = body.len();
    let html = decode_lossy(body);
    let title = extract_title(html.as_str());
    let links = extract_links(html.as_str());
    let content = extract_text(html.as_str());
    let digest = sha256(content.as_str().as_bytes());
    let hash = to_hex(digest.as_slice());
    proof {
        lemma_hex_len(digest@);
    }
    let page = Page {
        url: String::from_str(url),
        status_code: code,
        title,
        description: None,
        content,
        links,
        depth: 0,
        hash,
        size,
        content_type,
        language: None,
        crawl_time_ms,
    };
    Ok(CrawlResult { page, http_code: code })
}


/// Admits a URL to the crawl only when it is a public web URL.
pub fn check_url(url: &str) -> (r: Result<(), CrawlError>)
    ensures
        match r {
            Ok(_) => is_crawlable_url_spec(url@),
            Err(e) => !is_crawlable_url_spec(url@) && e@ == Refusal::NotCrawlable,
        },
{
    if is_crawlable_url(url) {
        Ok(())
    } else {
        Err(CrawlError::NotCrawlable)
    }
}

/// The number of redirects that a request may follow.
pub const MAX_REDIRECTS: usize = 10;

/// What to do with a redirect of a request.
#[derive(Debug)]
pub enum RedirectDecision {
    /// Follow it.
    Follow,
    /// Refuse it: its target is not a public web URL.
    Refuse,
    /// Give up: the request was redirected too many times.
    TooMany,
}

/// The decision on a redirect to `target` after `previous` URLs (the first
/// URL of the request included): past `MAX_REDIRECTS` redirects the request
/// gives up, and a redirect is followed only to a public web URL, so that a
/// remote server cannot lead the crawler to local services either.
pub fn redirect_decision(target: &str, previous: usize) -> (r: RedirectDecision)
    ensures
        previous > MAX_REDIRECTS ==> r is TooMany,
        previous <= MAX_REDIRECTS ==> (r is Follow <==> is_crawlable_url_spec(target@)),
        previous <= MAX_REDIRECTS ==> (r is Refuse <==> !is_crawlable_url_spec(target@)),
{
    if previous > MAX_REDIRECTS {
        RedirectDecision::TooMany
    } else if is_crawlable_url(target) {
        RedirectDecision::Follow
    } else {
        RedirectDecision::Refuse
    }
}

/// `url` parses as a public web URL.
pub open spec fn is_crawlable_url_spec(url: Seq<char>) -> bool {
    match url_parse(url) {
        Some(u) => crawlable(u),
        None => false,
    }
}

/// White space around a link does not change what it normalizes to.
pub proof fn lemma_normalize_ignores_surrounding_space(base: Seq<char>, link: Seq<char>)
    ensures
        normalized(base, trim(link)) == normalized(base, link),
{
    lemma_trim_idempotent(link);
}

/// A normalized URL does not end with a slash.
pub proof fn lemma_normalized_has_no_trailing_slash(base: Seq<char>, link: Seq<char>)
    ensures
        normalized(base, link) matches Some(r) ==> r.len() == 0 || r.last() != '/',
{
    let l = trim(link);
    if let Some(b) = url_parse(base) {
        if let Some(u) = url_join(b, l) {
            lemma_strip_end_last(without_tracking(u), CharClass::Slash);
        }
    }
}

/// A link is normalized only when it resolves, against its page, to a public
/// web URL: a remote page cannot lead the crawler to local services.
pub proof fn lemma_normalized_links_are_public(base: Seq<char>, link: Seq<char>)
    ensures
        normalized(base, link) is Some ==> exists|b: Seq<char>, u: Seq<char>|
            url_parse(base) == Some(b) && url_join(b, trim(link)) == Some(u) && crawlable(u)
                && !has_ignored_extension(url_path(u)),
{
    if normalized(base, link) is Some {
        let b = url_parse(base)->0;
        let u = url_join(b, trim(link))->0;
        assert(url_parse(base) == Some(b) && url_join(b, trim(link)) == Some(u) && crawlable(u)
            && !has_ignored_extension(url_path(u)));
    }
}

/// No tracking parameter is kept, and filtering again keeps everything.
pub proof fn lemma_kept_pairs_untracked(ps: Seq<(Seq<char>, Seq<char>)>)
    ensures
        forall|i: int| 0 <= i < kept_pairs(ps).len() ==> !is_tracking_key(#[trigger] kept_pairs(ps)[i].0),
        kept_pairs(kept_pairs(ps)) == kept_pairs(ps),
    decreases ps.len(),
{
    if ps.len() > 0 {
        lemma_kept_pairs_untracked(ps.drop_last());
        let k = kept_pairs(ps.drop_last());
        if !is_tracking_key(ps.last().0) {
            let kp = k.push(ps.last());
            assert(kp.drop_last() =~= k);
            assert forall|i: int| 0 <= i < kp.len() implies !is_tracking_key(#[trigger] kp[i].0) by {
                if i < k.len() {
                    assert(kp[i] == k[i]);
                }
            }
        }
    }
}

proof fn lemma_hex_len(bytes: Seq<u8>)
    ensures
        hex(bytes).len() == 2 * bytes.len(),
    decreases bytes.len(),
{
    if bytes.len() > 0 {
        lemma_hex_len(bytes.drop_last());
    }
}

/// A link whose resolved URL has a path ending, in any letter case, with
/// `.png`, `.jpg`, `.jpeg`, `.gif`, `.svg`, `.ico`, `.webp`, `.zip`, `.rar`,
/// `.7z`, `.exe`, `.pdf`, `.mp4` or `.mp3` is never followed: images,
/// archives, executables, documents and media are not crawled.
pub proof fn lemma_ignored_files_not_followed(base: Seq<char>, link: Seq<char>, b: Seq<char>, u: Seq<char>)
    requires
        url_parse(base) == Some(b),
        url_join(b, trim(link)) == Some(u),
        ({
            let p = lower(url_path(u));
            has_suffix(p, ".png"@) || has_suffix(p, ".jpg"@) || has_suffix(p, ".jpeg"@)
                || has_suffix(p, ".gif"@) || has_suffix(p, ".svg"@) || has_suffix(p, ".ico"@)
                || has_suffix(p, ".webp"@) || has_suffix(p, ".zip"@) || has_suffix(p, ".rar"@)
                || has_suffix(p, ".7z"@) || has_suffix(p, ".exe"@) || has_suffix(p, ".pdf"@)
                || has_suffix(p, ".mp4"@) || has_suffix(p, ".mp3"@)
        }),
    ensures
        normalized(base, link) is None,
{
    let p = lower(url_path(u));
    if has_suffix(p, ".png"@) {
        assert(has_suffix(p, ignored_extension(0)));
    } else if has_suffix(p, ".jpg"@) {
        assert(has_suffix(p, ignored_extension(1)));
    } else if has_suffix(p, ".jpeg"@) {
        assert(has_suffix(p, ignored_extension(2)));
    } else if has_suffix(p, ".gif"@) {
        assert(has_suffix(p, ignored_extension(3)));
    } else if has_suffix(p, ".svg"@) {
        assert(has_suffix(p, ignored_extension(4)));
    } else if has_suffix(p, ".ico"@) {
        assert(has_suffix(p, ignored_extension(5)));
    } else if has_suffix(p, ".webp"@) {
        assert(has_suffix(p, ignored_extension(6)));
    } else if has_suffix(p, ".zip"@) {
        assert(has_suffix(p, ignored_extension(7)));
    } else if has_suffix(p, ".rar"@) {
        assert(has_suffix(p, ignored_extension(8)));
    } else if has_suffix(p, ".7z"@) {
        assert(has_suffix(p, ignored_extension(9)));
    } else if has_suffix(p, ".exe"@) {
        assert(has_suffix(p, ignored_extension(10)));
    } else if has_suffix(p, ".pdf"@) {
        assert(has_suffix(p, ignored_extension(11)));
    } else if has_suffix(p, ".mp4"@) {
        assert(has_suffix(p, ignored_extension(12)));
    } else {
        assert(has_suffix(p, ignored_extension(13)));
    }
    assert(has_ignored_extension(url_path(u)));
}

/// A response with a success status and a declared content type is accepted
/// only when that type, in lower case, contains `text/html` or
/// `application/xhtml`; any other declared type (such as `application/pdf` or
/// `application/json`) is refused as unsupported, whatever the length.
pub proof fn lemma_only_html_accepted(code: u16, ct: Seq<char>, length: Option<u64>)
    requires
        200 <= code <= 299,
    ensures
        head_refusal(code, Some(ct), length) is None ==> has_infix(lower(ct), "text/html"@)
            || has_infix(lower(ct), "application/xhtml"@),
        !(has_infix(lower(ct), "text/html"@) || has_infix(lower(ct), "application/xhtml"@))
            ==> head_refusal(code, Some(ct), length) == Some(Refusal::UnsupportedType(ct)),
{
}

} // verus!
