//! Reading a client's request head: its method and headers, and the bodies
//! that its `Content-Length` headers announce.
use vstd::prelude::*;
use vstd::string::StringSliceAdditionalSpecFns;
use vstd::utf8::valid_utf8;
use crate::error::ProxyError;
use crate::headers::is_valid_utf8;
use crate::text::{ascii_ci_eq, eq_ignore_ascii_case, parse_usize, parse_usize_spec};

verus! {

/// The number of header slots offered to the HTTP parser.
pub const HEADER_SLOTS: usize = 64;

/// One header slot: the header's name and value as bytes.
pub struct HeaderField {
    pub name: Vec<u8>,
    pub value: Vec<u8>,
}

/// A parsed request head.
pub struct RequestHead {
    /// The request method, where the parser found one.
    pub method: Option<String>,
    /// All header slots, in order; slots the parser did not fill hold an
    /// empty name and value.
    pub headers: Vec<HeaderField>,
}

/// The names and values of header slots.
pub open spec fn field_views(fields: Seq<HeaderField>) -> Seq<(Seq<u8>, Seq<u8>)> {
    fields.map_values(|f: HeaderField| (f.name@, f.value@))
}

/// The method's text, where there is one.
pub open spec fn method_view(method: Option<String>) -> Option<Seq<char>> {
    match method {
        Some(m) => Some(m@),
        None => None,
    }
}

impl RequestHead {
    /// The method and header slots as plain values.
    pub open spec fn parts(self) -> (Option<Seq<char>>, Seq<(Seq<u8>, Seq<u8>)>) {
        (method_view(self.method), field_views(self.headers@))
    }
}

/// What `httparse::Request::parse` makes of `bytes` when it is given
/// `HEADER_SLOTS` header slots: where it reports an error, the text that the
/// error's `Display` writes; otherwise the method it found and the contents of
/// all the slots after the call, header names as their bytes.
pub uninterp spec fn http_request_head(bytes: Seq<u8>) -> Result<
    (Option<Seq<char>>, Seq<(Seq<u8>, Seq<u8>)>),
    Seq<char>,
>;

/// Calls `httparse::Request::parse` on `bytes` with `HEADER_SLOTS` empty
/// header slots, and gives an error by its text. The contract only ties the
/// outcome to the name `http_request_head`; the HTTP grammar that httparse
/// applies is not stated.
#[verifier::external_body]
fn parse_request_head(bytes: &[u8]) -> (r: Result<RequestHead, String>)
    ensures
        match http_request_head(bytes@) {
            Ok(parts) => r matches Ok(h) && h.parts() == parts,
            Err(text) => r matches Err(t) && t@ == text,
        },
{
    let mut slots = [httparse::EMPTY_HEADER; HEADER_SLOTS];
    let mut req = httparse::Request::new(&mut slots);
    match req.parse(bytes) {
        Err(e) => Err(e.to_string()),
        Ok(_) => {
            let method = req.method.map(|m| m.to_string());
            let headers = slots.iter().map(
                |h| HeaderField { name: h.name.as_bytes().to_vec(), value: h.value.to_vec() },
            ).collect();
            Ok(RequestHead { method, headers })
        },
    }
}

/// Parses a request head. An error of the parser is reported as a `Custom`
/// error: `Failed to parse HTTP request: ` followed by the parser's message.
pub fn parse_head(bytes: &[u8]) -> (r: Result<RequestHead, ProxyError>)
    ensures
        match http_request_head(bytes@) {
            Ok(parts) => r matches Ok(h) && h.parts() == parts,
            Err(text) => r matches Err(ProxyError::Custom(m)) && m@ == "Failed to parse HTTP request: "@
                + text,
        },
{
    match parse_request_head(bytes) {
        Ok(h) => Ok(h),
        Err(text) => Err(
            ProxyError::Custom("Failed to parse HTTP request: ".to_owned().concat(text.as_str())),
        ),
    }
}

/// `CONNECT`
pub open spec fn connect_method() -> Seq<u8> {
    seq![67u8, 79, 78, 78, 69, 67, 84]
}

/// `content-length`
pub open spec fn content_length_name() -> Seq<u8> {
    seq![99u8, 111, 110, 116, 101, 110, 116, 45, 108, 101, 110, 103, 116, 104]
}

/// The method asks for a tunnel: it is `CONNECT`, in any ASCII case.
pub fn is_connect(method: &str) -> (r: bool)
    ensures
        r == ascii_ci_eq(method.spec_bytes(), connect_method()),
{
    let word: Vec<u8> = vec![67u8, 79, 78, 78, 69, 67, 84];
    proof {
        assert(word@ =~= connect_method());
    }
    eq_ignore_ascii_case(method.as_bytes(), word.as_slice())
}

/// The bodies to relay for the header slots `fields`, in order: one length
/// for each `Content-Length` header (name in any ASCII case), up to the first
/// whose value is not UTF-8 or not a decimal number; that one gives the
/// message of the error that ends the relaying.
pub open spec fn body_lengths(fields: Seq<(Seq<u8>, Seq<u8>)>) -> (Seq<usize>, Option<Seq<char>>)
    decreases fields.len(),
{
    if fields.len() == 0 {
        (Seq::empty(), None)
    } else {
        let f = fields[0];
        let rest = body_lengths(fields.drop_first());
        if !ascii_ci_eq(f.0, content_length_name()) {
            rest
        } else if !valid_utf8(f.1) {
            (Seq::empty(), Some("Invalid Content-Length header"@))
        } else {
            match parse_usize_spec(f.1) {
                None => (Seq::empty(), Some("Invalid Content-Length value"@)),
                Some(n) => (seq![n] + rest.0, rest.1),
            }
        }
    }
}

/// The bodies that follow a forwarded head: the lengths to relay in order,
/// and the error met after them, if any.
pub fn body_plan(headers: &Vec<HeaderField>) -> (r: (Vec<usize>, Option<ProxyError>))
    ensures
        r.0@ == body_lengths(field_views(headers@)).0,
        match body_lengths(field_views(headers@)).1 {
            None => r.1 is None,
            Some(msg) => r.1 matches Some(ProxyError::Custom(m)) && m@ == msg,
        },
{
    let ghost fv = field_views(headers@);
    let name: Vec<u8> = vec![99u8, 111, 110, 116, 101, 110, 116, 45, 108, 101, 110, 103, 116, 104];
    proof {
        assert(name@ =~= content_length_name());
    }
    let mut lengths: Vec<usize> = Vec::new();
    let n = headers.len();
    let mut i: usize = 0;
    proof {
        assert(fv.skip(0) =~= fv);
    }
    while i < n
        invariant
            n == headers@.len(),
            fv == field_views(headers@),
            name@ == content_length_name(),
            i <= n,
            lengths@ + body_lengths(fv.skip(i as int)).0 == body_lengths(fv).0,
            body_lengths(fv.skip(i as int)).1 == body_lengths(fv).1,
        decreases n - i,
    {
        let f = &headers[i];
        let ghost t = fv.skip(i as int);
        proof {
            assert(t[0] == (f.name@, f.value@));
            assert(t.drop_first() =~= fv.skip(i + 1));
        }
        if eq_ignore_ascii_case(f.name.as_slice(), name.as_slice()) {
            if !is_valid_utf8(f.value.as_slice()) {
                proof {
                    assert(lengths@ + Seq::<usize>::empty() =~= lengths@);
                }
                return (lengths, Some(ProxyError::custom("Invalid Content-Length header")));
            }
            match parse_usize(f.value.as_slice()) {
                None => {
                    proof {
                        assert(lengths@ + Seq::<usize>::empty() =~= lengths@);
                    }
                    return (lengths, Some(ProxyError::custom("Invalid Content-Length value")));
                },
                Some(len) => {
                    let ghost before = lengths@;
                    lengths.push(len);
                    proof {
                        assert(before + body_lengths(t).0 =~= lengths@ + body_lengths(
                            fv.skip(i + 1),
                        ).0);
                    }
                },
            }
        }
        i = i + 1;
    }
    proof {
        assert(fv.skip(n as int) =~= Seq::<(Seq<u8>, Seq<u8>)>::empty());
        assert(lengths@ + Seq::<usize>::empty() =~= lengths@);
    }
    (lengths, None)
}

} // verus!
