//! HTML helpers: escaping text, sanitizing rendered HTML, and reading the
//! host of a URL. Each goes through the outside crate that does the work.
use vstd::prelude::*;

verus! {

/// The characters that `v_htmlescape` writes for one character: `"`, `&`,
/// `'`, `/`, `<` and `>` become entities, every other character stays.
pub open spec fn escape_char(c: char) -> Seq<char> {
    if c == '"' {
        seq!['&', 'q', 'u', 'o', 't', ';']
    } else if c == '&' {
        seq!['&', 'a', 'm', 'p', ';']
    } else if c == '\'' {
        seq!['&', '#', 'x', '2', '7', ';']
    } else if c == '/' {
        seq!['&', '#', 'x', '2', 'f', ';']
    } else if c == '<' {
        seq!['&', 'l', 't', ';']
    } else if c == '>' {
        seq!['&', 'g', 't', ';']
    } else {
        seq![c]
    }
}

/// The HTML-escaped form of a character sequence.
pub open spec fn escape_spec(s: Seq<char>) -> Seq<char>
    decreases s.len(),
{
    if s.len() == 0 {
        seq![]
    } else {
        escape_spec(s.drop_last()) + escape_char(s.last())
    }
}

/// Appends the HTML-escaped form of `s` to `out`.
///
/// Calls `v_htmlescape::escape_string`, whose documented table rewrites the
/// six characters of [`escape_char`] and forwards every other byte; the
/// contract states exactly that.
#[verifier::external_body]
pub(crate) fn escape_into(s: &str, out: &mut String)
    ensures
        final(out)@ == old(out)@ + escape_spec(s@),
{
    v_htmlescape::escape_string(s, out);
}

/// What `ammonia` makes of `input` when only the tags `tags` are allowed
/// and, on each tag of `classes`, only the classes listed with it.
pub uninterp spec fn sanitized_html(
    input: Seq<char>,
    tags: Seq<Seq<char>>,
    classes: Seq<(Seq<char>, Seq<Seq<char>>)>,
) -> Seq<char>;

/// Cleans `input` with an `ammonia::Builder` that starts from the default
/// and allows exactly the tags `tags` and, per tag, the classes `classes`.
///
/// Calls `ammonia::Builder::clean`. Its result (an HTML parse and
/// re-serialization) is only named: the contract says that it is
/// [`sanitized_html`] of the arguments, a function of them alone.
///
/// `clean` panics when an allowed tag is one whose content it removes
/// (`script` and `style` by default), so `tags` may hold neither. It also
/// panics when a tag with allowed classes already allows a `class`
/// attribute; the default builder allows `class` on no tag, so no `classes`
/// can set that off.
#[verifier::external_body]
pub(crate) fn sanitize_html(
    input: &str,
    tags: &Vec<String>,
    classes: &Vec<(String, Vec<String>)>,
) -> (r: String)
    requires
        !tags.deep_view().contains("script"@),
        !tags.deep_view().contains("style"@),
    ensures
        r@ == sanitized_html(input@, tags.deep_view(), classes.deep_view()),
{
    let mut b = ammonia::Builder::default();
    b.allowed_classes(
        classes.iter().map(|(t, cs)| (t.as_str(), cs.iter().map(|c| c.as_str()).collect())).collect(),
    );
    b.tags(tags.iter().map(|t| t.as_str()).collect());
    b.clean(input).to_string()
}

/// The host that `url::Url::parse` finds in `url`, if the text parses and
/// has one.
pub uninterp spec fn url_host(url: Seq<char>) -> Option<Seq<char>>;

/// The host of a URL: `url::Url::parse(url)` followed by `host_str()`.
///
/// The URL standard's parser is only named: the contract says that the
/// result is [`url_host`] of the text, a function of it alone.
#[verifier::external_body]
pub(crate) fn parse_url_host(url: &str) -> (r: Option<String>)
    ensures
        match url_host(url@) {
            Some(h) => r matches Some(s) && s@ == h,
            None => r is None,
        },
{
    match url::Url::parse(url) {
        Ok(u) => u.host_str().map(|h| h.to_string()),
        Err(_) => None,
    }
}

/// The kind of host that a URL has: a domain name or an IP address.
#[derive(Clone, Copy, Debug, PartialEq, Eq, Structural)]
pub enum HostKind {
    Domain,
    Ipv4,
    Ipv6,
}

/// What `url::Url::parse` makes of `url`: `None` when the text does not
/// parse, `Some(None)` when it parses to a URL without a host, and otherwise
/// the kind of its host (`Url::host`) with the host's text (`host_str`).
pub uninterp spec fn url_parsed_host(url: Seq<char>) -> Option<Option<(HostKind, Seq<char>)>>;

/// Parses `url` with `url::Url::parse` and reads its host with `host()`
/// (for the kind) and `host_str()` (for the text; both are there or both
/// are not).
///
/// The URL standard's parser is only named: the contract says that the
/// result is [`url_parsed_host`] of the text, a function of it alone.
#[verifier::external_body]
pub(crate) fn parse_url_host_kind(url: &str) -> (r: Option<Option<(HostKind, String)>>)
    ensures
        match url_parsed_host(url@) {
            None => r is None,
            Some(None) => r == Some(None::<(HostKind, String)>),
            Some(Some((k, h))) => r matches Some(Some((k2, s))) && k2 == k && s@ == h,
        },
{
    match url::Url::parse(url) {
        Ok(u) => Some(u.host().map(|h| (match h {
            url::Host::Domain(_) => HostKind::Domain,
            url::Host::Ipv4(_) => HostKind::Ipv4,
            url::Host::Ipv6(_) => HostKind::Ipv6,
        }, u.host_str().unwrap_or("").to_string()))),
        Err(_) => None,
    }
}

} // verus!
