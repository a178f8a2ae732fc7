//! Command-line arguments of `gen` and normalization of the site argument.
use vstd::prelude::*;

use crate::text::{contains, contains_text, lowercase, to_lowercase, trim, trimmed};

verus! {

/// Arguments of the `gen` subcommand.
pub struct GenArgs {
    /// The site, as typed: a host name or a URL.
    pub site: String,
    /// `-u`, `--username`.
    pub username: Option<String>,
    /// `-l`, `--length`.
    pub length: Option<u32>,
    /// `-s`, `--symbols`.
    pub symbols: bool,
    /// `-p`, `--print`.
    pub print: bool,
    /// `-r`, `--remember`.
    pub remember: bool,
    /// `--timeout`, in seconds.
    pub timeout: Option<u32>,
}

/// What `url::Url::parse` followed by `host_str` makes of a text: `None` when
/// it is no valid URL, `Some(None)` for a URL without host, else the host as
/// the URL serializes it (domains lower-cased and IDNA-encoded by the url crate).
pub uninterp spec fn url_host(input: Seq<char>) -> Option<Option<Seq<char>>>;

/// The views of an optional `String`.
pub open spec fn opt_text(o: Option<String>) -> Option<Seq<char>> {
    match o {
        Some(s) => Some(s@),
        None => None,
    }
}

/// Parses `input` as an absolute URL and reads its host: calls
/// `url::Url::parse` and then `Url::host_str`; a parse error is rendered with
/// `to_string`. Trusted: the outcome is `url_host(input)`; the text of a parse
/// error is not stated.
#[verifier::external_body]
fn parse_url_host(input: &str) -> (r: Result<Option<String>, String>)
    ensures
        r is Err <==> url_host(input@) is None,
        r is Ok ==> url_host(input@) == Some(opt_text(r->Ok_0)),
{
    url::Url::parse(input).map(|u| u.host_str().map(|h| h.to_string())).map_err(|e| e.to_string())
}

/// The site with a scheme: unchanged if it holds `://`, else after `https://`.
pub open spec fn with_scheme(site: Seq<char>) -> Seq<char> {
    if contains_text(site, "://"@) {
        site
    } else {
        "https://"@ + site
    }
}

/// The URL text that a site argument is parsed as: the argument trimmed, with
/// `https://` in front unless it holds `://`. An argument of only white space
/// is refused.
pub fn site_url(raw: &str) -> (r: Result<String, String>)
    ensures
        trimmed(raw@).len() == 0 ==> r is Err && r->Err_0@ == "site cannot be empty"@,
        trimmed(raw@).len() > 0 ==> r is Ok && r->Ok_0@ == with_scheme(trimmed(raw@)),
{
    let raw = trim(raw);
    if raw.is_empty() {
        return Err(String::from_str("site cannot be empty"));
    }
    if contains(raw, "://") {
        Ok(String::from_str(raw))
    } else {
        let mut s = String::from_str("https://");
        s.append(raw);
        Ok(s)
    }
}

/// The site for a parsed URL's host: the host lower-cased; a URL without host
/// is refused.
pub fn site_from_host(host: Option<String>) -> (r: Result<String, String>)
    ensures
        host is None ==> r is Err && r->Err_0@ == "site must contain a hostname"@,
        host matches Some(h) ==> r is Ok && r->Ok_0@ == lowercase(h@),
{
    match host {
        Some(h) => Ok(to_lowercase(h.as_str())),
        None => Err(String::from_str("site must contain a hostname")),
    }
}

/// Normalizes a site to its lower-cased host name: the input is trimmed,
/// given `https://` when it has no scheme, parsed as a URL, and its host is
/// lower-cased. Path, query and fragment play no part.
pub fn normalize_site(raw: &str) -> (r: Result<String, String>)
    ensures
        trimmed(raw@).len() == 0 ==> r is Err && r->Err_0@ == "site cannot be empty"@,
        trimmed(raw@).len() > 0 ==> {
            let host = url_host(with_scheme(trimmed(raw@)));
            &&& host is None ==> r is Err
            &&& host == Some(None::<Seq<char>>) ==> r is Err && r->Err_0@
                == "site must contain a hostname"@
            &&& host matches Some(Some(h)) ==> r is Ok && r->Ok_0@ == lowercase(h)
        },
{
    let url = site_url(raw)?;
    let host = parse_url_host(url.as_str())?;
    site_from_host(host)
}


/// `site` holds the characters `:`, `/`, `/` at positions `i`, `i + 1`, `i + 2`.
pub open spec fn scheme_mark_at(site: Seq<char>, i: int) -> bool {
    0 <= i && i + 2 < site.len() && site[i] == ':' && site[i + 1] == '/' && site[i + 2] == '/'
}

/// A site argument without `://` is parsed with `https://` in front, whatever
/// other `:` it holds (as in `host:port`); one that holds `://` is parsed as
/// it is.
pub proof fn lemma_scheme_prefix(site: Seq<char>)
    ensures
        (forall|i: int| !#[trigger] scheme_mark_at(site, i)) ==> with_scheme(site) == seq![
            'h',
            't',
            't',
            'p',
            's',
            ':',
            '/',
            '/',
        ] + site,
        (exists|i: int| #[trigger] scheme_mark_at(site, i)) ==> with_scheme(site) == site,
{
    reveal_strlit("://");
    reveal_strlit("https://");
    let pat = "://"@;
    assert(pat =~= seq![':', '/', '/']);
    assert("https://"@ =~= seq!['h', 't', 't', 'p', 's', ':', '/', '/']);
    if contains_text(site, pat) {
        let i = choose|i: int| crate::text::occurs_at(site, pat, i);
        assert(site.subrange(i, i + 3)[0] == site[i]);
        assert(site.subrange(i, i + 3)[1] == site[i + 1]);
        assert(site.subrange(i, i + 3)[2] == site[i + 2]);
        assert(scheme_mark_at(site, i));
    } else {
        assert forall|i: int| #[trigger] scheme_mark_at(site, i) implies false by {
            assert(site.subrange(i, i + 3) =~= pat);
            assert(crate::text::occurs_at(site, pat, i));
        }
    }
}

} // verus!
