//! URL parsing through the `url` implementation that `reqwest` re-exports.
use vstd::prelude::*;

use crate::text::opt_view;

verus! {

/// The parts of a parsed URL that the control plane reads: scheme, host
/// text (`Url::host_str`) and port (`Url::port_or_known_default`).
#[derive(Debug, Clone)]
pub struct ParsedUrl {
    pub scheme: String,
    pub host: Option<String>,
    pub port: Option<u16>,
}

impl ParsedUrl {
    pub open spec fn parts(self) -> (Seq<char>, Option<Seq<char>>, Option<u16>) {
        (self.scheme@, opt_view(self.host), self.port)
    }
}

/// What `reqwest::Url::parse` gives for a text: on success its scheme,
/// host text and known port, on failure the error's text.
pub uninterp spec fn url_parse_result(input: Seq<char>) -> Result<
    (Seq<char>, Option<Seq<char>>, Option<u16>),
    Seq<char>,
>;

/// Calls `reqwest::Url::parse` and reads `scheme`, `host_str` and
/// `port_or_known_default` of the result, or the `Display` text of the
/// parse error. The contract only ties the outcome to the input through
/// `url_parse_result`; the URL grammar itself is not restated.
#[verifier::external_body]
pub fn parse_url(input: &str) -> (r: Result<ParsedUrl, String>)
    ensures
        match r {
            Ok(u) => url_parse_result(input@) == Ok::<
                (Seq<char>, Option<Seq<char>>, Option<u16>),
                Seq<char>,
            >(u.parts()),
            Err(e) => url_parse_result(input@) == Err::<
                (Seq<char>, Option<Seq<char>>, Option<u16>),
                Seq<char>,
            >(e@),
        },
{
    match reqwest::Url::parse(input) {
        Ok(url) => Ok(
            ParsedUrl {
                scheme: url.scheme().to_owned(),
                host: url.host_str().map(str::to_owned),
                port: url.port_or_known_default(),
            },
        ),
        Err(error) => Err(error.to_string()),
    }
}

} // verus!
