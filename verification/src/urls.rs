use vstd::prelude::*;

verus! {

/// The absolute address text that base-relative resolution of `path` against
/// the base `https://{domain}` produces, or `None` when the input cannot be
/// resolved to an address at all.
pub uninterp spec fn resolve_spec(domain: Seq<char>, path: Seq<char>) -> Option<Seq<char>>;

/// The normalized serialization of `input` parsed as an absolute address,
/// or `None` when `input` is not one.
pub uninterp spec fn parse_spec(input: Seq<char>) -> Option<Seq<char>>;

/// The domain-name host of the address `url`, or `None` when `url` does not
/// parse or its host is not a domain name.
pub uninterp spec fn host_of(url: Seq<char>) -> Option<Seq<char>>;

/// The scheme of the address `url`.
pub uninterp spec fn scheme_of(url: Seq<char>) -> Seq<char>;

/// The parts of one parsed absolute address, as plain values: its normalized
/// text, its host (absent for addresses without a domain-name host), and its
/// scheme.
#[derive(Debug)]
pub struct UrlParts {
    pub text: String,
    pub host: Option<String>,
    pub scheme: String,
}

impl UrlParts {
    /// The host and scheme fields are exactly those of the text field.
    pub open spec fn consistent(&self) -> bool {
        &&& (match self.host {
            Some(h) => host_of(self.text@) == Some(h@),
            None => host_of(self.text@) is None,
        })
        &&& self.scheme@ == scheme_of(self.text@)
    }
}

/// Relies on url::Url::options().base_url(..).parse for resolving `path`
/// against the base `https://{domain}`, and on Url::as_str, Url::domain and
/// Url::scheme to read the result. A Url re-parses from its own
/// serialization unchanged, so the host and scheme reported here are those
/// of the returned text.
#[verifier::external_body]
pub fn build_url(domain: &str, path: &str) -> (r: Option<UrlParts>)
    ensures
        match r {
            Some(p) => {
                &&& resolve_spec(domain@, path@) == Some(p.text@)
                &&& (match p.host {
                    Some(h) => host_of(p.text@) == Some(h@),
                    None => host_of(p.text@) is None,
                })
                &&& p.scheme@ == scheme_of(p.text@)
            },
            None => resolve_spec(domain@, path@) is None,
        },
{
    let base = url::Url::parse(&format!("https://{}", domain)).ok()?;
    let u = url::Url::options().base_url(Some(&base)).parse(path).ok()?;
    Some(UrlParts {
        text: u.as_str().to_string(),
        host: u.domain().map(|d| d.to_string()),
        scheme: u.scheme().to_string(),
    })
}

/// Relies on url::Url::parse for reading `input` as an absolute address, and
/// on Url::as_str, Url::domain and Url::scheme to read the result. A Url
/// re-parses from its own serialization unchanged, so the host and scheme
/// reported here are those of the returned text.
#[verifier::external_body]
pub fn parse_url(input: &str) -> (r: Option<UrlParts>)
    ensures
        match r {
            Some(p) => {
                &&& parse_spec(input@) == Some(p.text@)
                &&& (match p.host {
                    Some(h) => host_of(p.text@) == Some(h@),
                    None => host_of(p.text@) is None,
                })
                &&& p.scheme@ == scheme_of(p.text@)
            },
            None => parse_spec(input@) is None,
        },
{
    let u = url::Url::parse(input).ok()?;
    Some(UrlParts {
        text: u.as_str().to_string(),
        host: u.domain().map(|d| d.to_string()),
        scheme: u.scheme().to_string(),
    })
}

/// Relies on url::Url::parse and url::Url::domain: reports the domain-name
/// host of the address `input`, or `None` when `input` does not parse or its
/// host is not a domain name.
#[verifier::external_body]
pub fn host_of_text(input: &str) -> (r: Option<String>)
    ensures
        match r {
            Some(h) => host_of(input@) == Some(h@),
            None => host_of(input@) is None,
        },
{
    let u = url::Url::parse(input).ok()?;
    u.domain().map(|d| d.to_string())
}

/// Whether two pieces of text hold the same characters.
pub fn text_eq(a: &str, b: &str) -> (r: bool)
    ensures
        r == (a@ == b@),
{
    let sa: String = a.to_string();
    let sb: String = b.to_string();
    sa == sb
}

} // verus!
