//! Collecting an HTTP head byte by byte until the blank line that ends it.
use vstd::prelude::*;
use crate::error::ProxyError;
use crate::text::{CR, LF};

verus! {

/// The most bytes a head may hold without being complete.
pub const MAX_HEADER_LEN: usize = 8192;

/// Number of `\r` bytes at the end of `s`.
pub open spec fn trailing_crs(s: Seq<u8>) -> nat
    decreases s.len(),
{
    if s.len() > 0 && s.last() == CR {
        1 + trailing_crs(s.drop_last())
    } else {
        0
    }
}

/// `s` ends with `\r\n` followed by zero or more `\r`.
pub open spec fn ends_with_break_then_crs(s: Seq<u8>) -> bool {
    let r = trailing_crs(s);
    r + 2 <= s.len() && s[s.len() - r - 2] == CR && s[s.len() - r - 1] == LF
}

/// `s` ends with an empty line: `\r\n`, then one or more `\r`, then `\n`.
pub open spec fn ends_with_blank_line(s: Seq<u8>) -> bool {
    &&& s.len() > 0
    &&& s.last() == LF
    &&& trailing_crs(s.drop_last()) >= 1
    &&& ends_with_break_then_crs(s.drop_last())
}

/// Which side of a connection a head comes from.
#[derive(Clone, Copy, PartialEq, Eq, Debug)]
pub enum HeadSource {
    /// A request head sent by a client.
    Client,
    /// A response head sent by the upstream proxy.
    Upstream,
}

/// The message of the error for a head that grew too long.
pub open spec fn too_large_message(source: HeadSource) -> Seq<char> {
    match source {
        HeadSource::Client => "Request header too large"@,
        HeadSource::Upstream => "Response header too large"@,
    }
}

/// The bytes of a head read so far, with what is needed to see where it ends.
pub struct HeaderReader {
    source: HeadSource,
    bytes: Vec<u8>,
    prev_was_cr: bool,
    line_breaks: u8,
}

impl View for HeaderReader {
    type V = Seq<u8>;

    closed spec fn view(&self) -> Seq<u8> {
        self.bytes@
    }
}

impl HeaderReader {
    /// The bookkeeping agrees with the bytes read.
    pub closed spec fn wf(self) -> bool {
        &&& self.prev_was_cr == (self.bytes@.len() > 0 && self.bytes@.last() == CR)
        &&& if ends_with_blank_line(self.bytes@) {
            self.line_breaks == 2
        } else if ends_with_break_then_crs(self.bytes@) {
            self.line_breaks == 1
        } else {
            self.line_breaks == 0
        }
    }

    /// Where the head comes from.
    pub closed spec fn head_source(self) -> HeadSource {
        self.source
    }

    /// An empty reader for a head from `source`.
    pub fn new(source: HeadSource) -> (r: HeaderReader)
        ensures
            r.wf(),
            r@ == Seq::<u8>::empty(),
            r.head_source() == source,
    {
        HeaderReader { source, bytes: Vec::new(), prev_was_cr: false, line_breaks: 0 }
    }

    /// Adds the next byte of the head. Gives `Ok(true)` when the head is
    /// complete, that is when the bytes read end with an empty line;
    /// `Ok(false)` when more bytes are needed; and an error when the head is
    /// still incomplete and longer than `MAX_HEADER_LEN` bytes.
    pub fn push(&mut self, byte: u8) -> (r: Result<bool, ProxyError>)
        requires
            old(self).wf(),
            !ends_with_blank_line(old(self)@),
            old(self)@.len() <= MAX_HEADER_LEN,
        ensures
            final(self).wf(),
            final(self)@ == old(self)@.push(byte),
            final(self).head_source() == old(self).head_source(),
            match r {
                Ok(true) => ends_with_blank_line(final(self)@),
                Ok(false) => !ends_with_blank_line(final(self)@) && final(self)@.len()
                    <= MAX_HEADER_LEN,
                Err(e) => {
                    &&& !ends_with_blank_line(final(self)@)
                    &&& final(self)@.len() > MAX_HEADER_LEN
                    &&& e matches ProxyError::Custom(m) && m@ == too_large_message(
                        old(self).head_source(),
                    )
                },
            },
    {
        let ghost old_bytes = self.bytes@;
        self.bytes.push(byte);
        let ghost s = self.bytes@;
        proof {
            assert(s.drop_last() =~= old_bytes);
        }
        let (prev, breaks) = if byte == CR {
            proof {
                assert(trailing_crs(s) == trailing_crs(old_bytes) + 1);
                let r = trailing_crs(old_bytes);
                if r + 2 <= old_bytes.len() {
                    assert(s[s.len() - (r + 1) - 2] == old_bytes[old_bytes.len() - r - 2]);
                    assert(s[s.len() - (r + 1) - 1] == old_bytes[old_bytes.len() - r - 1]);
                }
            }
            (true, self.line_breaks)
        } else if byte == LF && self.prev_was_cr {
            proof {
                assert(trailing_crs(s) == 0);
                assert(trailing_crs(old_bytes) >= 1);
            }
            (false, self.line_breaks + 1)
        } else {
            proof {
                assert(trailing_crs(s) == 0);
            }
            (false, 0)
        };
        let done = breaks == 2;
        let too_large = !done && self.bytes.len() > MAX_HEADER_LEN;
        self.prev_was_cr = prev;
        self.line_breaks = breaks;
        if done {
            Ok(true)
        } else if too_large {
            Err(
                match self.source {
                    HeadSource::Client => ProxyError::custom("Request header too large"),
                    HeadSource::Upstream => ProxyError::custom("Response header too large"),
                },
            )
        } else {
            Ok(false)
        }
    }

    /// The bytes read so far.
    pub fn bytes(&self) -> (b: &Vec<u8>)
        ensures
            b@ == self@,
    {
        &self.bytes
    }

    /// Gives up the reader for the bytes read.
    pub fn into_bytes(self) -> (b: Vec<u8>)
        ensures
            b@ == self@,
    {
        self.bytes
    }
}

} // verus!
