//! The upstream proxy's address: where to connect and which credentials to present.
use vstd::prelude::*;
use crate::error::ProxyError;
use crate::text::{decimal, decimal_string};

verus! {

/// The parts of an upstream URL that the proxy uses.
pub struct UpstreamUrl {
    /// The host, where the URL has one.
    pub host: Option<String>,
    /// The port, given or the scheme's known default.
    pub port: Option<u16>,
    /// The user name, empty where there is none.
    pub username: String,
    /// The password, where there is one.
    pub password: Option<String>,
}

/// The text of an optional string.
pub open spec fn opt_view(s: Option<String>) -> Option<Seq<char>> {
    match s {
        Some(v) => Some(v@),
        None => None,
    }
}

impl UpstreamUrl {
    /// Host, port, user name and password as plain values.
    pub open spec fn parts(self) -> (Option<Seq<char>>, Option<u16>, Seq<char>, Option<Seq<char>>) {
        (opt_view(self.host), self.port, self.username@, opt_view(self.password))
    }
}

/// What `url::Url::parse` makes of `s`: `None` where it reports an error, and
/// otherwise what the parsed URL's `host_str`, `port_or_known_default`,
/// `username` and `password` return.
pub uninterp spec fn url_components(s: Seq<char>) -> Option<
    (Option<Seq<char>>, Option<u16>, Seq<char>, Option<Seq<char>>),
>;

/// Calls `url::Url::parse` on `s` and reads the parts the proxy uses from the
/// result. The contract only ties the outcome to the name `url_components`;
/// the URL grammar is not stated.
#[verifier::external_body]
fn parse_upstream_url(s: &str) -> (r: Result<UpstreamUrl, url::ParseError>)
    ensures
        r is Ok <==> url_components(s@) is Some,
        r matches Ok(u) ==> url_components(s@) == Some(u.parts()),
{
    match url::Url::parse(s) {
        Err(e) => Err(e),
        Ok(u) => Ok(
            UpstreamUrl {
                host: u.host_str().map(|h| h.to_string()),
                port: u.port_or_known_default(),
                username: u.username().to_string(),
                password: u.password().map(|p| p.to_string()),
            },
        ),
    }
}

/// Parses the upstream address as a URL; a parse failure is a `UrlParse` error.
pub fn parse_upstream(s: &str) -> (r: Result<UpstreamUrl, ProxyError>)
    ensures
        match url_components(s@) {
            Some(parts) => r matches Ok(u) && u.parts() == parts,
            None => r matches Err(ProxyError::UrlParse(_)),
        },
{
    match parse_upstream_url(s) {
        Ok(u) => Ok(u),
        Err(e) => Err(ProxyError::UrlParse(e)),
    }
}

/// The character of the standard Base64 alphabet for the 6-bit value `v`:
/// `A`-`Z`, `a`-`z`, `0`-`9`, `+`, `/`.
pub open spec fn base64_char(v: int) -> char {
    if v < 26 {
        (65 + v) as char
    } else if v < 52 {
        (97 + v - 26) as char
    } else if v < 62 {
        (48 + v - 52) as char
    } else if v == 62 {
        '+'
    } else {
        '/'
    }
}

/// The standard Base64 encoding (RFC 4648), with padding, of `input`: each
/// group of three bytes becomes four characters of six bits each, and a last
/// group of one or two bytes is padded with `=` to four characters.
pub open spec fn base64_standard(input: Seq<u8>) -> Seq<char>
    decreases input.len(),
{
    if input.len() == 0 {
        Seq::empty()
    } else if input.len() == 1 {
        let b0 = input[0] as int;
        seq![base64_char(b0 / 4), base64_char((b0 % 4) * 16), '=', '=']
    } else if input.len() == 2 {
        let b0 = input[0] as int;
        let b1 = input[1] as int;
        seq![base64_char(b0 / 4), base64_char((b0 % 4) * 16 + b1 / 16), base64_char((b1 % 16) * 4), '=']
    } else {
        let b0 = input[0] as int;
        let b1 = input[1] as int;
        let b2 = input[2] as int;
        seq![
            base64_char(b0 / 4),
            base64_char((b0 % 4) * 16 + b1 / 16),
            base64_char((b1 % 16) * 4 + b2 / 64),
            base64_char(b2 % 64),
        ] + base64_standard(input.skip(3))
    }
}

/// Calls `Engine::encode` of `base64::engine::general_purpose::STANDARD`,
/// the standard alphabet with padding, which is what `base64_standard`
/// states. The `requires` keeps the input short enough that the
/// crate's computation of the output length cannot overflow, where it panics.
#[verifier::external_body]
pub(crate) fn encode_base64(input: &[u8]) -> (s: String)
    requires
        input@.len() <= usize::MAX / 2,
    ensures
        s@ == base64_standard(input@),
{
    base64::Engine::encode(&base64::engine::general_purpose::STANDARD, input)
}

/// `host:port`, the address to connect to.
pub open spec fn connect_address(host: Seq<char>, port: u16) -> Seq<char> {
    host + ":"@ + decimal(port as nat)
}

/// The credentials to present upstream: `user:password` where the URL names
/// a user (an absent password counts as empty), and none otherwise.
pub open spec fn credentials_of(username: Seq<char>, password: Option<Seq<char>>) -> Option<Seq<char>> {
    if username.len() == 0 {
        None
    } else {
        Some(
            username + ":"@ + match password {
                Some(p) => p,
                None => Seq::empty(),
            },
        )
    }
}

/// Where and how to reach the upstream proxy.
pub struct UpstreamTarget {
    /// `host:port`.
    pub connect_addr: String,
    /// `user:password`, where the URL names a user.
    pub credentials: Option<String>,
}

/// The upstream target described by a parsed URL: an error where the URL
/// has no host or no port.
pub fn upstream_target(url: &UpstreamUrl) -> (r: Result<UpstreamTarget, ProxyError>)
    ensures
        match url.parts() {
            (None, _, _, _) => r matches Err(ProxyError::Custom(m)) && m@ == "Invalid upstream host"@,
            (Some(_), None, _, _) => r matches Err(ProxyError::Custom(m)) && m@
                == "Invalid upstream port"@,
            (Some(host), Some(port), user, pass) => r matches Ok(t) && t.connect_addr@
                == connect_address(host, port) && opt_view(t.credentials) == credentials_of(
                user,
                pass,
            ),
        },
{
    let host = match &url.host {
        Some(h) => h,
        None => {
            return Err(ProxyError::custom("Invalid upstream host"));
        },
    };
    let port = match url.port {
        Some(p) => p,
        None => {
            return Err(ProxyError::custom("Invalid upstream port"));
        },
    };
    let connect_addr = host.clone().concat(":").concat(decimal_string(port as u64).as_str());
    let credentials = if url.username.as_str().is_empty() {
        None
    } else {
        let pass: &str = match &url.password {
            Some(p) => p.as_str(),
            None => "",
        };
        proof {
            reveal_strlit("");
        }
        Some(url.username.clone().concat(":").concat(pass))
    };
    Ok(UpstreamTarget { connect_addr, credentials })
}

} // verus!
