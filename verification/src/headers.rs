//! Rewriting request heads before they are sent upstream.
use vstd::prelude::*;
use vstd::string::StringSliceAdditionalSpecFns;
use vstd::utf8::valid_utf8;
use crate::error::ProxyError;
use crate::text::{
    ascii_ci_starts_with, ascii_lower, byte_lines, crlf, crlf_at, join_crlf, join_lines,
    lemma_ascii_valid_utf8, lemma_filter_all, lemma_filter_keeps, lemma_filter_push,
    lemma_join_split, lemma_join_utf8, lemma_split_join, lemma_split_lines_no_crlf,
    lemma_split_lines_utf8, lemma_split_no_crlf, no_crlf, split_crlf,
    split_lines, starts_with_ignore_ascii_case, CR, LF,
};

verus! {

/// `std::str::from_utf8` succeeds on `bytes`; its documentation says it does
/// exactly when the bytes are well-formed UTF-8, which vstd's `valid_utf8` states.
#[verifier::external_body]
pub(crate) fn is_valid_utf8(bytes: &[u8]) -> (r: bool)
    ensures
        r == valid_utf8(bytes@),
{
    match std::str::from_utf8(bytes) {
        Ok(_) => true,
        Err(_) => false,
    }
}

/// `proxy-connection:`
pub open spec fn proxy_connection_prefix() -> Seq<u8> {
    seq![112u8, 114, 111, 120, 121, 45, 99, 111, 110, 110, 101, 99, 116, 105, 111, 110, 58]
}

/// `connection:`
pub open spec fn connection_prefix() -> Seq<u8> {
    seq![99u8, 111, 110, 110, 101, 99, 116, 105, 111, 110, 58]
}

/// `Connection: close`
pub open spec fn connection_close_line() -> Seq<u8> {
    seq![67u8, 111, 110, 110, 101, 99, 116, 105, 111, 110, 58, 32, 99, 108, 111, 115, 101]
}

/// `Proxy-Authorization: Basic `
pub open spec fn proxy_authorization_prefix() -> Seq<u8> {
    seq![
        80u8, 114, 111, 120, 121, 45, 65, 117, 116, 104, 111, 114, 105, 122, 97, 116, 105, 111, 110,
        58, 32, 66, 97, 115, 105, 99, 32,
    ]
}

/// A `Proxy-Connection` line, whatever the case of its name. (No non-ASCII
/// character lowercases to these ASCII letters followed by the rest of the
/// name, so this agrees with testing the Unicode lowercase of the line.)
pub open spec fn is_proxy_connection_line(line: Seq<u8>) -> bool {
    ascii_ci_starts_with(line, proxy_connection_prefix())
}

/// A `Connection` line, whatever the case of its name.
pub open spec fn is_connection_line(line: Seq<u8>) -> bool {
    ascii_ci_starts_with(line, connection_prefix())
}

/// A line of a forwarded head: `Connection` lines become `Connection: close`,
/// other lines are kept.
pub open spec fn forwarded_line(line: Seq<u8>) -> Seq<u8> {
    if is_connection_line(line) {
        connection_close_line()
    } else {
        line
    }
}

/// The lines of a head as forwarded: `Proxy-Connection` lines dropped, the
/// rest rewritten by `forwarded_line`, in their order.
pub open spec fn forwarded_lines(lines: Seq<Seq<u8>>) -> Seq<Seq<u8>> {
    lines.filter(|l: Seq<u8>| !is_proxy_connection_line(l)).map_values(
        |l: Seq<u8>| forwarded_line(l),
    )
}

/// A request head as forwarded upstream.
pub open spec fn adjusted_head(head: Seq<u8>) -> Seq<u8> {
    join_crlf(forwarded_lines(split_crlf(head)))
}

/// The lines of `lines` without the empty lines at its end.
pub open spec fn strip_trailing_empty(lines: Seq<Seq<u8>>) -> Seq<Seq<u8>>
    decreases lines.len(),
{
    if lines.len() > 0 && lines.last().len() == 0 {
        strip_trailing_empty(lines.drop_last())
    } else {
        lines
    }
}

/// The `Proxy-Authorization` line for the Base64 credentials `encoded`.
pub open spec fn proxy_authorization_line(encoded: Seq<u8>) -> Seq<u8> {
    proxy_authorization_prefix() + encoded
}

/// A head with a `Proxy-Authorization` line added after its last non-empty
/// line, ended by an empty line.
pub open spec fn injected_head(head: Seq<u8>, encoded: Seq<u8>) -> Seq<u8> {
    join_crlf(strip_trailing_empty(split_crlf(head)).push(proxy_authorization_line(encoded)))
        + crlf() + crlf()
}

fn proxy_connection_prefix_bytes() -> (v: Vec<u8>)
    ensures
        v@ == proxy_connection_prefix(),
{
    let v: Vec<u8> = vec![112u8, 114, 111, 120, 121, 45, 99, 111, 110, 110, 101, 99, 116, 105, 111, 110, 58];
    proof {
        assert(v@ =~= proxy_connection_prefix());
    }
    v
}

fn connection_prefix_bytes() -> (v: Vec<u8>)
    ensures
        v@ == connection_prefix(),
{
    let v: Vec<u8> = vec![99u8, 111, 110, 110, 101, 99, 116, 105, 111, 110, 58];
    proof {
        assert(v@ =~= connection_prefix());
    }
    v
}

fn connection_close_line_bytes() -> (v: Vec<u8>)
    ensures
        v@ == connection_close_line(),
{
    let v: Vec<u8> = vec![67u8, 111, 110, 110, 101, 99, 116, 105, 111, 110, 58, 32, 99, 108, 111, 115, 101];
    proof {
        assert(v@ =~= connection_close_line());
    }
    v
}

fn proxy_authorization_prefix_bytes() -> (v: Vec<u8>)
    ensures
        v@ == proxy_authorization_prefix(),
{
    let v: Vec<u8> = vec![
        80u8, 114, 111, 120, 121, 45, 65, 117, 116, 104, 111, 114, 105, 122, 97, 116, 105, 111, 110,
        58, 32, 66, 97, 115, 105, 99, 32,
    ];
    proof {
        assert(v@ =~= proxy_authorization_prefix());
    }
    v
}

/// Prepares a request head for the upstream: drops `Proxy-Connection` lines
/// and turns every `Connection` line into `Connection: close`. A head that
/// is not UTF-8 is refused.
pub fn adjust_request_headers(header_bytes: &[u8]) -> (r: Result<Vec<u8>, ProxyError>)
    ensures
        match r {
            Ok(out) => valid_utf8(header_bytes@) && out@ == adjusted_head(header_bytes@),
            Err(e) => !valid_utf8(header_bytes@) && (e matches ProxyError::Custom(m) && m@
                == "Invalid UTF-8 in request headers"@),
        },
{
    if !is_valid_utf8(header_bytes) {
        return Err(ProxyError::custom("Invalid UTF-8 in request headers"));
    }
    let lines = split_lines(header_bytes);
    let ghost ls = split_crlf(header_bytes@);
    let ghost keep = |l: Seq<u8>| !is_proxy_connection_line(l);
    let ghost rewrite = |l: Seq<u8>| forwarded_line(l);
    let pc = proxy_connection_prefix_bytes();
    let conn = connection_prefix_bytes();
    let mut out_lines: Vec<Vec<u8>> = Vec::new();
    let n = lines.len();
    let mut i: usize = 0;
    while i < n
        invariant
            n == lines@.len(),
            ls == byte_lines(lines@),
            pc@ == proxy_connection_prefix(),
            conn@ == connection_prefix(),
            i <= n,
            keep == (|l: Seq<u8>| !is_proxy_connection_line(l)),
            rewrite == (|l: Seq<u8>| forwarded_line(l)),
            byte_lines(out_lines@) == ls.take(i as int).filter(keep).map_values(rewrite),
        decreases n - i,
    {
        let line = &lines[i];
        proof {
            assert(ls.take(i + 1) =~= ls.take(i as int).push(line@));
            lemma_filter_push(ls.take(i as int), line@, keep);
        }
        let ghost before = out_lines@;
        if starts_with_ignore_ascii_case(line.as_slice(), pc.as_slice()) {
        } else if starts_with_ignore_ascii_case(line.as_slice(), conn.as_slice()) {
            out_lines.push(connection_close_line_bytes());
            proof {
                assert(byte_lines(out_lines@) =~= byte_lines(before).push(connection_close_line()));
            }
        } else {
            out_lines.push(line.clone());
            proof {
                assert(byte_lines(out_lines@) =~= byte_lines(before).push(line@));
            }
        }
        i = i + 1;
    }
    proof {
        assert(ls.take(n as int) =~= ls);
    }
    Ok(join_lines(&out_lines))
}

/// Adds a `Proxy-Authorization: Basic <encoded>` line to a CONNECT head,
/// after its last non-empty line, and ends the head with an empty line.
pub fn inject_proxy_auth(header_bytes: &[u8], encoded: &str) -> (out: Vec<u8>)
    requires
        valid_utf8(header_bytes@),
    ensures
        out@ == injected_head(header_bytes@, encoded.spec_bytes()),
{
    let mut lines = split_lines(header_bytes);
    let ghost all = split_crlf(header_bytes@);
    while lines.len() > 0 && lines[lines.len() - 1].len() == 0
        invariant
            strip_trailing_empty(byte_lines(lines@)) == strip_trailing_empty(all),
        decreases lines.len(),
    {
        let ghost before = byte_lines(lines@);
        lines.pop();
        proof {
            assert(byte_lines(lines@) =~= before.drop_last());
        }
    }
    proof {
        assert(strip_trailing_empty(byte_lines(lines@)) == byte_lines(lines@));
    }
    let mut auth = proxy_authorization_prefix_bytes();
    let enc = encoded.as_bytes();
    let m = enc.len();
    let mut k: usize = 0;
    while k < m
        invariant
            m == enc@.len(),
            enc@ == encoded.spec_bytes(),
            k <= m,
            auth@ == proxy_authorization_prefix() + enc@.take(k as int),
        decreases m - k,
    {
        auth.push(enc[k]);
        k = k + 1;
        proof {
            assert(enc@.take(k as int) =~= enc@.take(k - 1).push(enc@[k - 1]));
        }
    }
    proof {
        assert(enc@.take(m as int) =~= enc@);
    }
    let ghost before = byte_lines(lines@);
    lines.push(auth);
    proof {
        assert(byte_lines(lines@) =~= before.push(proxy_authorization_line(encoded.spec_bytes())));
    }
    let mut out = join_lines(&lines);
    out.push(CR);
    out.push(LF);
    out.push(CR);
    out.push(LF);
    proof {
        let j = join_crlf(byte_lines(lines@));
        assert(out@ =~= j + crlf() + crlf());
    }
    out
}

proof fn lemma_close_line_facts()
    ensures
        no_crlf(connection_close_line()),
        !is_proxy_connection_line(connection_close_line()),
        is_connection_line(connection_close_line()),
        !is_proxy_connection_line(Seq::<u8>::empty()),
        !is_connection_line(Seq::<u8>::empty()),
{
    let c = connection_close_line();
    assert forall|j: int| !#[trigger] crlf_at(c, j) by {
        if 0 <= j < c.len() {
            assert(c[j] != CR);
        }
    }
    assert(ascii_lower(c[0]) != ascii_lower(proxy_connection_prefix()[0]));
    assert(c.take(11) =~= seq![67u8, 111, 110, 110, 101, 99, 116, 105, 111, 110, 58]);
}

/// The lines of a forwarded head hold no break, are no `Proxy-Connection`
/// lines, and their `Connection` lines read `Connection: close`.
proof fn lemma_forwarded_lines_clean(head: Seq<u8>)
    ensures
        ({
            let f = forwarded_lines(split_crlf(head));
            forall|i: int|
                0 <= i < f.len() ==> {
                    &&& no_crlf(#[trigger] f[i])
                    &&& !is_proxy_connection_line(f[i])
                    &&& (is_connection_line(f[i]) ==> f[i] == connection_close_line())
                }
        }),
{
    let lines = split_crlf(head);
    let keep = |l: Seq<u8>| !is_proxy_connection_line(l);
    lemma_split_lines_no_crlf(head);
    lemma_filter_keeps(lines, keep, |l: Seq<u8>| no_crlf(l));
    lemma_close_line_facts();
}

/// A forwarded head has no `Proxy-Connection` line, and each of its
/// `Connection` lines reads `Connection: close`.
pub proof fn law_forwarded_head_clean(head: Seq<u8>)
    ensures
        forall|i: int|
            0 <= i < split_crlf(adjusted_head(head)).len() ==> {
                let line = #[trigger] split_crlf(adjusted_head(head))[i];
                &&& !is_proxy_connection_line(line)
                &&& (is_connection_line(line) ==> line == connection_close_line())
            },
{
    let f = forwarded_lines(split_crlf(head));
    lemma_forwarded_lines_clean(head);
    lemma_close_line_facts();
    if f.len() >= 1 {
        lemma_split_join(f);
    } else {
        assert(adjusted_head(head) == Seq::<u8>::empty());
        assert forall|j: int| !#[trigger] crlf_at(Seq::<u8>::empty(), j) by {}
        lemma_split_no_crlf(Seq::<u8>::empty());
    }
}

/// Forwarding a head a second time changes nothing.
pub proof fn law_adjust_idempotent(head: Seq<u8>)
    ensures
        adjusted_head(adjusted_head(head)) == adjusted_head(head),
{
    let f = forwarded_lines(split_crlf(head));
    let keep = |l: Seq<u8>| !is_proxy_connection_line(l);
    let rewrite = |l: Seq<u8>| forwarded_line(l);
    lemma_forwarded_lines_clean(head);
    lemma_close_line_facts();
    if f.len() >= 1 {
        lemma_split_join(f);
        lemma_filter_all(f, keep);
        assert(f.filter(keep).map_values(rewrite) =~= f);
    } else {
        let e = Seq::<u8>::empty();
        assert(adjusted_head(head) == e);
        assert forall|j: int| !#[trigger] crlf_at(e, j) by {}
        lemma_split_no_crlf(e);
        let one = seq![e];
        lemma_filter_all(one, keep);
        assert(one.filter(keep).map_values(rewrite) =~= one);
    }
}

proof fn lemma_strip_is_prefix(lines: Seq<Seq<u8>>)
    ensures
        strip_trailing_empty(lines).len() <= lines.len(),
        forall|i: int|
            0 <= i < strip_trailing_empty(lines).len() ==> #[trigger] strip_trailing_empty(lines)[i]
                == lines[i],
    decreases lines.len(),
{
    if lines.len() > 0 && lines.last().len() == 0 {
        lemma_strip_is_prefix(lines.drop_last());
    }
}

proof fn lemma_no_crlf_concat(a: Seq<u8>, b: Seq<u8>)
    requires
        no_crlf(a),
        no_crlf(b),
        a.len() == 0 || a.last() != CR,
    ensures
        no_crlf(a + b),
{
    let c = a + b;
    assert forall|j: int| !#[trigger] crlf_at(c, j) by {
        if crlf_at(c, j) {
            if j + 1 < a.len() {
                assert(crlf_at(a, j));
            } else if j >= a.len() {
                assert(crlf_at(b, j - a.len()));
            } else {
                assert(c[j] == a.last());
            }
        }
    }
}

/// The lines of a head with credentials added: the head's lines without the
/// empty lines at its end, then the `Proxy-Authorization` line, then the
/// empty line that ends the head (the text ends with `\r\n\r\n`).
pub proof fn law_injected_head_lines(head: Seq<u8>, encoded: Seq<u8>)
    requires
        no_crlf(encoded),
    ensures
        split_crlf(injected_head(head, encoded)) == strip_trailing_empty(split_crlf(head)).push(
            proxy_authorization_line(encoded),
        ).push(Seq::empty()).push(Seq::empty()),
{
    let e = Seq::<u8>::empty();
    let lines = split_crlf(head);
    let stripped = strip_trailing_empty(lines);
    let auth = proxy_authorization_line(encoded);
    let with_auth = stripped.push(auth);
    let all = with_auth.push(e).push(e);
    lemma_split_lines_no_crlf(head);
    lemma_strip_is_prefix(lines);
    let p = proxy_authorization_prefix();
    assert forall|j: int| !#[trigger] crlf_at(p, j) by {
        if 0 <= j < p.len() {
            assert(p[j] != CR);
        }
    }
    lemma_no_crlf_concat(p, encoded);
    assert forall|j: int| !#[trigger] crlf_at(e, j) by {}
    assert forall|i: int| 0 <= i < all.len() implies no_crlf(#[trigger] all[i]) by {
        if i < stripped.len() {
            assert(all[i] == lines[i]);
        }
    }
    lemma_split_join(all);
    assert(all.drop_last() =~= with_auth.push(e));
    assert(with_auth.push(e).drop_last() =~= with_auth);
    assert(join_crlf(with_auth.push(e)) == join_crlf(with_auth) + crlf() + e);
    assert(join_crlf(all) == join_crlf(with_auth.push(e)) + crlf() + e);
    assert(join_crlf(all) =~= join_crlf(with_auth) + crlf() + crlf());
}

/// A forwarded head is valid UTF-8 again, so forwarding it a second time is
/// accepted and gives it back unchanged: `adjust_request_headers` applied to
/// its own output returns that output.
pub proof fn law_adjust_request_headers_idempotent(head: Seq<u8>)
    requires
        valid_utf8(head),
    ensures
        valid_utf8(adjusted_head(head)),
        adjusted_head(adjusted_head(head)) == adjusted_head(head),
{
    let lines = split_crlf(head);
    let keep = |l: Seq<u8>| !is_proxy_connection_line(l);
    let f = forwarded_lines(lines);
    lemma_split_lines_utf8(head);
    lemma_filter_keeps(lines, keep, |l: Seq<u8>| valid_utf8(l));
    let c = connection_close_line();
    assert forall|i: int| 0 <= i < c.len() implies #[trigger] c[i] < 0x80 by {}
    lemma_ascii_valid_utf8(c);
    assert forall|i: int| 0 <= i < f.len() implies valid_utf8(#[trigger] f[i]) by {
        assert(valid_utf8(lines.filter(keep)[i]));
    }
    lemma_join_utf8(f);
    law_adjust_idempotent(head);
}

/// `line` begins with `word`, a word of lowercase ASCII letters and
/// punctuation, each letter written in either ASCII case.
pub open spec fn begins_with_word(line: Seq<u8>, word: Seq<u8>) -> bool {
    line.len() >= word.len() && forall|j: int|
        0 <= j < word.len() ==> (#[trigger] line[j] == word[j] || (97 <= word[j] <= 122 && line[j]
            + 32 == word[j]))
}

proof fn lemma_begins_with_word(line: Seq<u8>, word: Seq<u8>)
    requires
        forall|j: int| 0 <= j < word.len() ==> !(65 <= #[trigger] word[j] <= 90),
    ensures
        ascii_ci_starts_with(line, word) == begins_with_word(line, word),
{
    if line.len() >= word.len() {
        let t = line.take(word.len() as int);
        if ascii_ci_starts_with(line, word) {
            assert forall|j: int| 0 <= j < word.len() implies (#[trigger] line[j] == word[j] || (97
                <= word[j] <= 122 && line[j] + 32 == word[j])) by {
                assert(t[j] == line[j]);
                assert(ascii_lower(t[j]) == ascii_lower(word[j]));
            }
        }
        if begins_with_word(line, word) {
            assert forall|j: int| 0 <= j < t.len() implies ascii_lower(#[trigger] t[j]) == ascii_lower(
                word[j],
            ) by {
                assert(t[j] == line[j]);
            }
        }
    }
}

/// The lines of a head as they go upstream, taken one by one in their
/// order: a line that begins with `proxy-connection:` (any ASCII case) is
/// left out, one that begins with `connection:` (any ASCII case) becomes
/// `Connection: close`, and any other line goes as it is.
pub open spec fn lines_sent_upstream(lines: Seq<Seq<u8>>) -> Seq<Seq<u8>>
    decreases lines.len(),
{
    if lines.len() == 0 {
        Seq::empty()
    } else {
        let sent = lines_sent_upstream(lines.drop_last());
        let line = lines.last();
        if begins_with_word(
            line,
            seq![112u8, 114, 111, 120, 121, 45, 99, 111, 110, 110, 101, 99, 116, 105, 111, 110, 58],
        ) {
            sent
        } else if begins_with_word(line, seq![99u8, 111, 110, 110, 101, 99, 116, 105, 111, 110, 58]) {
            sent.push(seq![67u8, 111, 110, 110, 101, 99, 116, 105, 111, 110, 58, 32, 99, 108, 111, 115, 101])
        } else {
            sent.push(line)
        }
    }
}

proof fn lemma_lines_sent_upstream(lines: Seq<Seq<u8>>)
    ensures
        forwarded_lines(lines) == lines_sent_upstream(lines),
    decreases lines.len(),
{
    let keep = |l: Seq<u8>| !is_proxy_connection_line(l);
    let rewrite = |l: Seq<u8>| forwarded_line(l);
    if lines.len() == 0 {
        reveal(Seq::filter);
        assert(forwarded_lines(lines) =~= Seq::<Seq<u8>>::empty());
    } else {
        let init = lines.drop_last();
        let x = lines.last();
        lemma_lines_sent_upstream(init);
        assert(init.push(x) =~= lines);
        lemma_filter_push(init, x, keep);
        let pc = seq![112u8, 114, 111, 120, 121, 45, 99, 111, 110, 110, 101, 99, 116, 105, 111, 110, 58];
        let cn = seq![99u8, 111, 110, 110, 101, 99, 116, 105, 111, 110, 58];
        let close = seq![67u8, 111, 110, 110, 101, 99, 116, 105, 111, 110, 58, 32, 99, 108, 111, 115, 101];
        assert forall|j: int| 0 <= j < pc.len() implies !(65 <= #[trigger] pc[j] <= 90) by {}
        assert forall|j: int| 0 <= j < cn.len() implies !(65 <= #[trigger] cn[j] <= 90) by {}
        assert(proxy_connection_prefix() =~= pc);
        assert(connection_prefix() =~= cn);
        assert(connection_close_line() =~= close);
        lemma_begins_with_word(x, pc);
        lemma_begins_with_word(x, cn);
        let fi = init.filter(keep);
        if keep(x) {
            assert(fi.push(x).map_values(rewrite) =~= fi.map_values(rewrite).push(rewrite(x)));
        }
    }
}

/// How a head is forwarded: its lines (split at `\r\n`) become
/// `lines_sent_upstream` of them, joined again with `\r\n`; where some line
/// is left, these are exactly the lines of the forwarded head. So every line
/// that begins with neither `proxy-connection:` nor `connection:` reaches
/// the upstream unchanged and in its order.
pub proof fn law_forwarded_lines(head: Seq<u8>)
    ensures
        adjusted_head(head) == join_crlf(lines_sent_upstream(split_crlf(head))),
        lines_sent_upstream(split_crlf(head)).len() >= 1 ==> split_crlf(adjusted_head(head))
            == lines_sent_upstream(split_crlf(head)),
{
    let lines = split_crlf(head);
    lemma_lines_sent_upstream(lines);
    if lines_sent_upstream(lines).len() >= 1 {
        lemma_forwarded_lines_clean(head);
        lemma_split_join(forwarded_lines(lines));
    }
}

proof fn lemma_lines_sent_unchanged(lines: Seq<Seq<u8>>)
    requires
        forall|i: int|
            0 <= i < lines.len() ==> !begins_with_word(
                #[trigger] lines[i],
                seq![112u8, 114, 111, 120, 121, 45, 99, 111, 110, 110, 101, 99, 116, 105, 111, 110, 58],
            ) && !begins_with_word(lines[i], seq![99u8, 111, 110, 110, 101, 99, 116, 105, 111, 110, 58]),
    ensures
        lines_sent_upstream(lines) == lines,
    decreases lines.len(),
{
    if lines.len() > 0 {
        let init = lines.drop_last();
        assert forall|i: int| 0 <= i < init.len() implies !begins_with_word(
            #[trigger] init[i],
            seq![112u8, 114, 111, 120, 121, 45, 99, 111, 110, 110, 101, 99, 116, 105, 111, 110, 58],
        ) && !begins_with_word(init[i], seq![99u8, 111, 110, 110, 101, 99, 116, 105, 111, 110, 58]) by {
            assert(init[i] == lines[i]);
        }
        lemma_lines_sent_unchanged(init);
        assert(lines[lines.len() - 1] == lines.last());
        assert(init.push(lines.last()) =~= lines);
    }
}

/// A head none of whose lines begins with `proxy-connection:` or
/// `connection:` (in any ASCII case) is forwarded exactly as it came: every
/// other header, such as `Proxy-Authorization`, reaches the upstream
/// unchanged and in its place.
pub proof fn law_other_lines_forwarded_unchanged(head: Seq<u8>)
    requires
        forall|i: int|
            0 <= i < split_crlf(head).len() ==> !begins_with_word(
                #[trigger] split_crlf(head)[i],
                seq![112u8, 114, 111, 120, 121, 45, 99, 111, 110, 110, 101, 99, 116, 105, 111, 110, 58],
            ) && !begins_with_word(
                split_crlf(head)[i],
                seq![99u8, 111, 110, 110, 101, 99, 116, 105, 111, 110, 58],
            ),
    ensures
        adjusted_head(head) == head,
{
    law_forwarded_lines(head);
    lemma_lines_sent_unchanged(split_crlf(head));
    lemma_join_split(head);
}

} // verus!
