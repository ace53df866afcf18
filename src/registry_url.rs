use vstd::prelude::*;

verus! {

/// Whether `s` parses as an absolute URL.
pub uninterp spec fn url_parses(s: Seq<char>) -> bool;

/// The canonical serialization of the URL that `s` parses to.
pub uninterp spec fn url_serialization(s: Seq<char>) -> Seq<char>;

/// The host of the URL that `s` parses to, if it has one.
pub uninterp spec fn url_host(s: Seq<char>) -> Option<Seq<char>>;

/// What the resolver and the cache key read of a parsed registry URL.
pub struct UrlView {
    pub serialization: Seq<char>,
    pub host: Option<Seq<char>>,
}

/// The URL that `s` parses to, as far as this library reads it.
pub open spec fn parsed_url(s: Seq<char>) -> UrlView {
    UrlView { serialization: url_serialization(s), host: url_host(s) }
}

/// A parsed, absolute URL of a registry index: its canonical serialization and
/// its host.
#[derive(Debug, Clone)]
pub struct RegistryUrl {
    pub serialization: String,
    pub host: Option<String>,
}

impl View for RegistryUrl {
    type V = UrlView;

    open spec fn view(&self) -> UrlView {
        UrlView {
            serialization: self.serialization@,
            host: match self.host {
                Some(h) => Some(h@),
                None => None,
            },
        }
    }
}

/// Relies on `url::Url::parse`, with `Url::as_str` and `Url::host_str` to
/// read the result: whether the parse succeeds, the serialization and the
/// host are functions of the input text alone.
#[verifier::external_body]
fn parse_url(s: &str) -> (r: Option<RegistryUrl>)
    ensures
        r is Some <==> url_parses(s@),
        r matches Some(u) ==> u@.serialization == url_serialization(s@) && u@.host == url_host(s@),
{
    match url::Url::parse(s) {
        Ok(u) => Some(RegistryUrl {
            serialization: u.as_str().to_string(),
            host: u.host_str().map(|h| h.to_string()),
        }),
        Err(_) => None,
    }
}

impl RegistryUrl {
    /// Parses `s` as an absolute URL.
    pub fn parse(s: &str) -> (r: Option<RegistryUrl>)
        ensures
            r is Some <==> url_parses(s@),
            r matches Some(u) ==> u@ == parsed_url(s@),
    {
        parse_url(s)
    }

    /// The canonical serialization of the URL.
    pub fn as_str(&self) -> (r: &str)
        ensures
            r@ == self@.serialization,
    {
        self.serialization.as_str()
    }
}

} // verus!
