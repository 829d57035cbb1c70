//! The decisions of a proxied connection: what to connect to, and what to
//! send upstream for a tunnel or for a forwarded request.
use vstd::prelude::*;
use vstd::utf8::{encode_utf8, valid_utf8};
use crate::error::ProxyError;
use crate::headers::{adjust_request_headers, adjusted_head, inject_proxy_auth, injected_head};
use crate::request::{body_lengths, body_plan, field_views, http_request_head, parse_head, RequestHead};
use crate::upstream::{
    base64_standard, connect_address, credentials_of, encode_base64, opt_view, parse_upstream,
    upstream_target, url_components, UpstreamTarget,
};

verus! {

/// A client's request head, with its method.
pub struct ClientRequest {
    /// The parsed head.
    pub head: RequestHead,
    /// The request method.
    pub method: String,
}

/// Reads a client's request head. Fails where the head cannot be parsed or
/// has no method.
pub fn read_request(header_bytes: &[u8]) -> (r: Result<ClientRequest, ProxyError>)
    ensures
        match http_request_head(header_bytes@) {
            Err(text) => r matches Err(ProxyError::Custom(m)) && m@ == "Failed to parse HTTP request: "@
                + text,
            Ok((None, _)) => r matches Err(ProxyError::Custom(m)) && m@ == "No HTTP method found"@,
            Ok((Some(method), fields)) => r matches Ok(c) && c.method@ == method && c.head.parts()
                == (Some(method), fields),
        },
{
    let head = parse_head(header_bytes)?;
    let method = match &head.method {
        Some(m) => m.clone(),
        None => {
            return Err(ProxyError::custom("No HTTP method found"));
        },
    };
    Ok(ClientRequest { head, method })
}

/// Reads the upstream address. Fails where it is not a URL with a host and
/// a port.
pub fn resolve_upstream(upstream_addr: &str) -> (r: Result<UpstreamTarget, ProxyError>)
    ensures
        match url_components(upstream_addr@) {
            None => r matches Err(ProxyError::UrlParse(_)),
            Some((None, _, _, _)) => r matches Err(ProxyError::Custom(m)) && m@
                == "Invalid upstream host"@,
            Some((Some(_), None, _, _)) => r matches Err(ProxyError::Custom(m)) && m@
                == "Invalid upstream port"@,
            Some((Some(host), Some(port), user, pass)) => r matches Ok(t) && t.connect_addr@
                == connect_address(host, port) && opt_view(t.credentials) == credentials_of(
                user,
                pass,
            ),
        },
{
    let url = parse_upstream(upstream_addr)?;
    upstream_target(&url)
}

/// The head of a tunnel request as sent upstream: the client's head as it
/// came, or, where there are credentials, with a `Proxy-Authorization` line
/// carrying their Base64 encoding.
pub open spec fn tunnel_head_bytes(head: Seq<u8>, credentials: Option<Seq<char>>) -> Seq<u8> {
    match credentials {
        None => head,
        Some(c) => injected_head(head, encode_utf8(base64_standard(encode_utf8(c)))),
    }
}

/// What to send upstream first for a CONNECT request.
pub fn tunnel_head(header_bytes: &[u8], credentials: &Option<String>) -> (out: Vec<u8>)
    requires
        credentials matches Some(c) ==> valid_utf8(header_bytes@) && encode_utf8(c@).len()
            <= usize::MAX / 2,
    ensures
        out@ == tunnel_head_bytes(header_bytes@, opt_view(*credentials)),
{
    match credentials {
        None => vstd::slice::slice_to_vec(header_bytes),
        Some(c) => {
            let encoded = encode_base64(c.as_str().as_bytes());
            inject_proxy_auth(header_bytes, encoded.as_str())
        },
    }
}

/// How a plain request is relayed: its rewritten head, then the bodies its
/// `Content-Length` headers announce, then the error that stopped the
/// relaying of bodies, if any.
pub struct ForwardPlan {
    pub head: Vec<u8>,
    pub body_lengths: Vec<usize>,
    pub body_error: Option<ProxyError>,
}

/// Plans the relaying of a plain (not CONNECT) request whose head is
/// `header_bytes`, parsed as `head`.
pub fn forward_plan(header_bytes: &[u8], head: &RequestHead) -> (r: Result<ForwardPlan, ProxyError>)
    ensures
        match r {
            Ok(p) => {
                &&& valid_utf8(header_bytes@)
                &&& p.head@ == adjusted_head(header_bytes@)
                &&& p.body_lengths@ == body_lengths(field_views(head.headers@)).0
                &&& match body_lengths(field_views(head.headers@)).1 {
                    None => p.body_error is None,
                    Some(msg) => p.body_error matches Some(ProxyError::Custom(m)) && m@ == msg,
                }
            },
            Err(e) => !valid_utf8(header_bytes@) && (e matches ProxyError::Custom(m) && m@
                == "Invalid UTF-8 in request headers"@),
        },
{
    let adjusted = adjust_request_headers(header_bytes)?;
    let (lengths, error) = body_plan(&head.headers);
    Ok(ForwardPlan { head: adjusted, body_lengths: lengths, body_error: error })
}

} // verus!
