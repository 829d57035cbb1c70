//! The error type of the proxy, and its conversions.
use vstd::prelude::*;

verus! {

#[verifier::external_type_specification]
#[verifier::external_body]
pub struct ExIoError(std::io::Error);

#[verifier::external_type_specification]
#[verifier::external_body]
pub struct ExHttpParseError(httparse::Error);

#[verifier::external_type_specification]
#[verifier::external_body]
pub struct ExUrlParseError(url::ParseError);

#[verifier::external_type_specification]
#[verifier::external_body]
pub struct ExJsonError(serde_json::Error);

/// Every error that the proxy reports.
#[derive(Debug)]
pub enum ProxyError {
    /// An I/O error.
    Io(std::io::Error),
    /// An HTTP head that could not be parsed.
    HttpParse(httparse::Error),
    /// An upstream address that is not a URL.
    UrlParse(url::ParseError),
    /// A JSON document that could not be read or written.
    Json(serde_json::Error),
    /// Any other failure, described by its message.
    Custom(String),
}

/// The text that `std::io::Error`'s `Display` writes; nothing is claimed of it.
#[verifier::external_body]
fn io_error_text(e: &std::io::Error) -> String {
    e.to_string()
}

/// The text that `httparse::Error`'s `Display` writes; nothing is claimed of it.
#[verifier::external_body]
fn http_parse_error_text(e: &httparse::Error) -> String {
    e.to_string()
}

/// The text that `url::ParseError`'s `Display` writes; nothing is claimed of it.
#[verifier::external_body]
fn url_error_text(e: &url::ParseError) -> String {
    e.to_string()
}

/// The text that `serde_json::Error`'s `Display` writes; nothing is claimed of it.
#[verifier::external_body]
fn json_error_text(e: &serde_json::Error) -> String {
    e.to_string()
}

impl ProxyError {
    /// A `Custom` error with the given message.
    pub fn custom(msg: &str) -> (e: ProxyError)
        ensures
            e matches ProxyError::Custom(m) && m@ == msg@,
    {
        ProxyError::Custom(msg.to_owned())
    }

    /// The human-readable description of the error: the message of a
    /// `Custom` error, and for the others a fixed prefix naming the kind,
    /// followed by the underlying error's own text.
    pub fn message(&self) -> (s: String)
        ensures
            match self {
                ProxyError::Custom(m) => s@ == m@,
                ProxyError::Io(_) => "IO error: "@.is_prefix_of(s@),
                ProxyError::HttpParse(_) => "HTTP parse error: "@.is_prefix_of(s@),
                ProxyError::UrlParse(_) => "URL parse error: "@.is_prefix_of(s@),
                ProxyError::Json(_) => "JSON error: "@.is_prefix_of(s@),
            },
    {
        match self {
            ProxyError::Io(e) => "IO error: ".to_owned().concat(io_error_text(e).as_str()),
            ProxyError::HttpParse(e) => "HTTP parse error: ".to_owned().concat(
                http_parse_error_text(e).as_str(),
            ),
            ProxyError::UrlParse(e) => "URL parse error: ".to_owned().concat(url_error_text(e).as_str()),
            ProxyError::Json(e) => "JSON error: ".to_owned().concat(json_error_text(e).as_str()),
            ProxyError::Custom(m) => m.clone(),
        }
    }
}

impl From<std::io::Error> for ProxyError {
    fn from(err: std::io::Error) -> (e: ProxyError) {
        ProxyError::Io(err)
    }
}

impl vstd::std_specs::convert::FromSpecImpl<std::io::Error> for ProxyError {
    open spec fn obeys_from_spec() -> bool {
        true
    }

    open spec fn from_spec(err: std::io::Error) -> ProxyError {
        ProxyError::Io(err)
    }
}

impl From<httparse::Error> for ProxyError {
    fn from(err: httparse::Error) -> (e: ProxyError) {
        ProxyError::HttpParse(err)
    }
}

impl vstd::std_specs::convert::FromSpecImpl<httparse::Error> for ProxyError {
    open spec fn obeys_from_spec() -> bool {
        true
    }

    open spec fn from_spec(err: httparse::Error) -> ProxyError {
        ProxyError::HttpParse(err)
    }
}

impl From<url::ParseError> for ProxyError {
    fn from(err: url::ParseError) -> (e: ProxyError) {
        ProxyError::UrlParse(err)
    }
}

impl vstd::std_specs::convert::FromSpecImpl<url::ParseError> for ProxyError {
    open spec fn obeys_from_spec() -> bool {
        true
    }

    open spec fn from_spec(err: url::ParseError) -> ProxyError {
        ProxyError::UrlParse(err)
    }
}

impl From<serde_json::Error> for ProxyError {
    fn from(err: serde_json::Error) -> (e: ProxyError) {
        ProxyError::Json(err)
    }
}

impl vstd::std_specs::convert::FromSpecImpl<serde_json::Error> for ProxyError {
    open spec fn obeys_from_spec() -> bool {
        true
    }

    open spec fn from_spec(err: serde_json::Error) -> ProxyError {
        ProxyError::Json(err)
    }
}

impl From<String> for ProxyError {
    fn from(msg: String) -> (e: ProxyError) {
        ProxyError::Custom(msg)
    }
}

impl vstd::std_specs::convert::FromSpecImpl<String> for ProxyError {
    open spec fn obeys_from_spec() -> bool {
        true
    }

    open spec fn from_spec(msg: String) -> ProxyError {
        ProxyError::Custom(msg)
    }
}

/// Converting a message makes a `Custom` error that holds a copy of it. A
/// copy is a new `String`, equal to the message only in its characters, so
/// the general `from_spec` equation is not claimed for this conversion; its
/// own `ensures` says what it returns.
impl<'a> From<&'a str> for ProxyError {
    fn from(msg: &'a str) -> (e: ProxyError)
        ensures
            e matches ProxyError::Custom(m) && m@ == msg@,
    {
        ProxyError::custom(msg)
    }
}

impl<'a> vstd::std_specs::convert::FromSpecImpl<&'a str> for ProxyError {
    open spec fn obeys_from_spec() -> bool {
        false
    }

    open spec fn from_spec(msg: &'a str) -> ProxyError {
        ProxyError::Custom(arbitrary())
    }
}

} // verus!
