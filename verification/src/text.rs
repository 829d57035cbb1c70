//! Byte-level text helpers: CRLF line splitting and joining, ASCII
//! case-insensitive comparison, and decimal numbers.
use vstd::prelude::*;
use vstd::utf8::{
    is_continuation_byte, is_leading_byte_width_1, length_of_first_scalar,
    partial_valid_utf8_extend_ascii_block, pop_first_scalar, valid_first_scalar, valid_utf8,
    valid_utf8_concat,
};

verus! {

pub const CR: u8 = 13;

pub const LF: u8 = 10;

pub const PLUS: u8 = 43;

pub const ZERO: u8 = 48;

pub const NINE: u8 = 57;

/// The two-byte line break `\r\n`.
pub open spec fn crlf() -> Seq<u8> {
    seq![CR, LF]
}

/// A line break starts at index `j` of `s`.
pub open spec fn crlf_at(s: Seq<u8>, j: int) -> bool {
    0 <= j && j + 1 < s.len() && s[j] == CR && s[j + 1] == LF
}

/// `s` holds no line break.
pub open spec fn no_crlf(s: Seq<u8>) -> bool {
    forall|j: int| !#[trigger] crlf_at(s, j)
}

/// Length of the first line of `s`: the index of the leftmost line break, or
/// the whole length when there is none.
pub open spec fn first_line_len(s: Seq<u8>) -> nat
    decreases s.len(),
{
    if s.len() < 2 {
        s.len()
    } else if s[0] == CR && s[1] == LF {
        0
    } else {
        1 + first_line_len(s.drop_first())
    }
}

/// What `str::split("\r\n")` yields: the pieces between the line breaks,
/// found from the left.
pub open spec fn split_crlf(s: Seq<u8>) -> Seq<Seq<u8>>
    decreases s.len(),
{
    let n = first_line_len(s);
    if n >= s.len() {
        seq![s]
    } else {
        proof {
            lemma_first_line_len(s);
        }
        seq![s.take(n as int)] + split_crlf(s.skip(n as int + 2))
    }
}

/// The lines joined with `\r\n` between them, as `join("\r\n")` does.
pub open spec fn join_crlf(lines: Seq<Seq<u8>>) -> Seq<u8>
    decreases lines.len(),
{
    if lines.len() == 0 {
        Seq::empty()
    } else if lines.len() == 1 {
        lines[0]
    } else {
        join_crlf(lines.drop_last()) + crlf() + lines.last()
    }
}

/// The contents of a vector of byte vectors.
pub open spec fn byte_lines(v: Seq<Vec<u8>>) -> Seq<Seq<u8>> {
    v.map_values(|l: Vec<u8>| l@)
}

pub proof fn lemma_first_line_len(s: Seq<u8>)
    ensures
        first_line_len(s) <= s.len(),
        forall|j: int| 0 <= j < first_line_len(s) ==> !#[trigger] crlf_at(s, j),
        first_line_len(s) < s.len() ==> crlf_at(s, first_line_len(s) as int),
    decreases s.len(),
{
    if s.len() >= 2 && !(s[0] == CR && s[1] == LF) {
        let t = s.drop_first();
        lemma_first_line_len(t);
        assert forall|j: int| 0 <= j < first_line_len(s) implies !#[trigger] crlf_at(s, j) by {
            if j > 0 {
                assert(!crlf_at(t, j - 1));
            }
        }
        if first_line_len(s) < s.len() {
            assert(crlf_at(t, first_line_len(t) as int));
        }
    }
}

/// Where no break starts before `k`, the first line is at least `k` long; a
/// break at `k` ends it there, and with no room left for a break it is the
/// whole of `s`.
pub proof fn lemma_first_line_at(s: Seq<u8>, k: int)
    requires
        0 <= k <= s.len(),
        forall|j: int| 0 <= j < k ==> !#[trigger] crlf_at(s, j),
    ensures
        first_line_len(s) >= k,
        crlf_at(s, k) ==> first_line_len(s) == k,
        k + 1 >= s.len() ==> first_line_len(s) == s.len(),
    decreases k,
{
    lemma_first_line_len(s);
    if k > 0 && s.len() >= 2 {
        assert(!crlf_at(s, 0));
        let t = s.drop_first();
        assert forall|j: int| 0 <= j < k - 1 implies !#[trigger] crlf_at(t, j) by {
            assert(!crlf_at(s, j + 1));
        }
        lemma_first_line_at(t, k - 1);
        if crlf_at(s, k) {
            assert(crlf_at(t, k - 1));
        }
    }
}

pub proof fn lemma_split_no_crlf(s: Seq<u8>)
    requires
        no_crlf(s),
    ensures
        split_crlf(s) == seq![s],
{
    lemma_first_line_len(s);
    if first_line_len(s) < s.len() {
        assert(crlf_at(s, first_line_len(s) as int));
    }
}

/// A break between `a` and `y` separates exactly the lines of `a` from those of `y`.
pub proof fn lemma_split_concat(a: Seq<u8>, y: Seq<u8>)
    ensures
        split_crlf(a + crlf() + y) == split_crlf(a) + split_crlf(y),
    decreases a.len(),
{
    let t = a + crlf() + y;
    lemma_first_line_len(a);
    let n = first_line_len(a);
    assert forall|j: int| 0 <= j < n implies !#[trigger] crlf_at(t, j) by {
        assert(!crlf_at(a, j));
        if j + 1 >= a.len() {
            assert(t[j + 1] == CR);
        }
    }
    if n < a.len() {
        assert(crlf_at(a, n as int));
        assert(crlf_at(t, n as int));
        lemma_first_line_at(t, n as int);
        let a2 = a.skip(n as int + 2);
        lemma_split_concat(a2, y);
        assert(t.skip(n as int + 2) =~= a2 + crlf() + y);
        assert(t.take(n as int) =~= a.take(n as int));
        assert(split_crlf(a) == seq![a.take(n as int)] + split_crlf(a2));
        assert(split_crlf(t) == seq![t.take(n as int)] + split_crlf(t.skip(n as int + 2)));
        assert(split_crlf(t) =~= split_crlf(a) + split_crlf(y));
    } else {
        assert(crlf_at(t, a.len() as int));
        lemma_first_line_at(t, a.len() as int);
        assert(t.skip(a.len() as int + 2) =~= y);
        assert(t.take(a.len() as int) =~= a);
        assert(split_crlf(a) == seq![a]);
        assert(split_crlf(t) =~= split_crlf(a) + split_crlf(y));
    }
}

/// Splitting undoes joining, for lines that hold no break.
pub proof fn lemma_split_join(lines: Seq<Seq<u8>>)
    requires
        lines.len() >= 1,
        forall|i: int| 0 <= i < lines.len() ==> no_crlf(#[trigger] lines[i]),
    ensures
        split_crlf(join_crlf(lines)) == lines,
    decreases lines.len(),
{
    if lines.len() == 1 {
        lemma_split_no_crlf(lines[0]);
        assert(seq![lines[0]] =~= lines);
    } else {
        let init = lines.drop_last();
        lemma_split_join(init);
        lemma_split_concat(join_crlf(init), lines.last());
        lemma_split_no_crlf(lines.last());
        assert(init + seq![lines.last()] =~= lines);
    }
}

/// Joining a line in front of at least one more puts a break after it.
pub proof fn lemma_join_prepend(a: Seq<u8>, lines: Seq<Seq<u8>>)
    requires
        lines.len() >= 1,
    ensures
        join_crlf(seq![a] + lines) == a + crlf() + join_crlf(lines),
    decreases lines.len(),
{
    let all = seq![a] + lines;
    if lines.len() == 1 {
        assert(all.drop_last() =~= seq![a]);
        assert(all.last() == lines[0]);
        assert(join_crlf(seq![a]) == a);
        assert(join_crlf(all) == join_crlf(all.drop_last()) + crlf() + all.last());
        assert(join_crlf(lines) == lines[0]);
    } else {
        let init = lines.drop_last();
        lemma_join_prepend(a, init);
        assert(all.drop_last() =~= seq![a] + init);
        assert(all.last() == lines.last());
        assert(join_crlf(all) == join_crlf(all.drop_last()) + crlf() + all.last());
        assert(join_crlf(lines) == join_crlf(init) + crlf() + lines.last());
        assert(join_crlf(all) =~= a + crlf() + join_crlf(lines));
    }
}

/// Joining the lines of `s` with breaks gives `s` back.
pub proof fn lemma_join_split(s: Seq<u8>)
    ensures
        join_crlf(split_crlf(s)) == s,
    decreases s.len(),
{
    lemma_first_line_len(s);
    let n = first_line_len(s);
    if n < s.len() {
        let rest = s.skip(n as int + 2);
        lemma_join_split(rest);
        lemma_split_lines_no_crlf(rest);
        lemma_join_prepend(s.take(n as int), split_crlf(rest));
        assert(crlf_at(s, n as int));
        assert(s =~= s.take(n as int) + crlf() + rest);
    }
}

/// Every line that splitting yields is free of breaks, and there is at least one.
pub proof fn lemma_split_lines_no_crlf(s: Seq<u8>)
    ensures
        split_crlf(s).len() >= 1,
        forall|i: int| 0 <= i < split_crlf(s).len() ==> no_crlf(#[trigger] split_crlf(s)[i]),
    decreases s.len(),
{
    lemma_first_line_len(s);
    let n = first_line_len(s);
    if n < s.len() {
        let rest = s.skip(n as int + 2);
        lemma_split_lines_no_crlf(rest);
        let first = s.take(n as int);
        assert forall|j: int| !#[trigger] crlf_at(first, j) by {
            if crlf_at(first, j) {
                assert(crlf_at(s, j));
            }
        }
        assert forall|i: int| 0 <= i < split_crlf(s).len() implies no_crlf(
            #[trigger] split_crlf(s)[i],
        ) by {
            if i > 0 {
                assert(split_crlf(s)[i] == split_crlf(rest)[i - 1]);
            }
        }
    } else {
        assert forall|j: int| !#[trigger] crlf_at(s, j) by {
            if crlf_at(s, j) {
                assert(j >= n);
            }
        }
    }
}

/// Splits `s` at every `\r\n`, as `str::split("\r\n")` does.
pub fn split_lines(s: &[u8]) -> (lines: Vec<Vec<u8>>)
    ensures
        byte_lines(lines@) == split_crlf(s@),
{
    let n = s.len();
    let mut lines: Vec<Vec<u8>> = Vec::new();
    let mut cur: Vec<u8> = Vec::new();
    let mut start: usize = 0;
    let mut i: usize = 0;
    proof {
        assert(s@.subrange(0, n as int) =~= s@);
        assert(byte_lines(lines@) + split_crlf(s@) =~= split_crlf(s@));
    }
    while i < n
        invariant
            n == s@.len(),
            start <= i <= n,
            cur@ == s@.subrange(start as int, i as int),
            forall|j: int|
                0 <= j < i - start ==> !#[trigger] crlf_at(s@.subrange(start as int, n as int), j),
            byte_lines(lines@) + split_crlf(s@.subrange(start as int, n as int)) == split_crlf(s@),
        decreases n - i,
    {
        let ghost rest = s@.subrange(start as int, n as int);
        if i + 1 < n && s[i] == CR && s[i + 1] == LF {
            let ghost k = i - start;
            proof {
                assert(crlf_at(rest, k));
                lemma_first_line_at(rest, k);
                assert(rest.take(k) =~= cur@);
                assert(rest.skip(k + 2) =~= s@.subrange(i + 2, n as int));
                assert(split_crlf(rest) == seq![rest.take(k)] + split_crlf(rest.skip(k + 2)));
            }
            let ghost old_lines = lines@;
            lines.push(cur);
            cur = Vec::new();
            start = i + 2;
            i = i + 2;
            proof {
                assert(byte_lines(lines@) =~= byte_lines(old_lines) + seq![rest.take(k)]);
                assert(cur@ =~= s@.subrange(start as int, i as int));
            }
        } else {
            cur.push(s[i]);
            proof {
                assert(cur@ =~= s@.subrange(start as int, i + 1));
                assert(!crlf_at(rest, i - start));
            }
            i = i + 1;
        }
    }
    proof {
        let rest = s@.subrange(start as int, n as int);
        lemma_first_line_at(rest, rest.len() as int);
        assert(cur@ =~= rest);
    }
    let ghost old_lines = lines@;
    lines.push(cur);
    proof {
        assert(byte_lines(lines@) =~= byte_lines(old_lines) + seq![s@.subrange(start as int, n as int)]);
    }
    lines
}

/// Joins the lines with `\r\n` between them.
pub fn join_lines(lines: &Vec<Vec<u8>>) -> (out: Vec<u8>)
    ensures
        out@ == join_crlf(byte_lines(lines@)),
{
    let mut out: Vec<u8> = Vec::new();
    let n = lines.len();
    let ghost ls = byte_lines(lines@);
    let mut i: usize = 0;
    while i < n
        invariant
            n == lines@.len(),
            ls == byte_lines(lines@),
            i <= n,
            out@ == join_crlf(ls.take(i as int)),
        decreases n - i,
    {
        let line = &lines[i];
        let ghost before = out@;
        if i > 0 {
            out.push(CR);
            out.push(LF);
        }
        let m = line.len();
        let mut k: usize = 0;
        while k < m
            invariant
                m == line@.len(),
                k <= m,
                out@ == (if i > 0 { before + crlf() } else { before }) + line@.take(k as int),
            decreases m - k,
        {
            out.push(line[k]);
            k = k + 1;
            proof {
                assert(line@.take(k as int) =~= line@.take(k - 1) + seq![line@[k - 1]]);
            }
        }
        proof {
            assert(line@.take(m as int) =~= line@);
            let t = ls.take(i + 1);
            assert(t.drop_last() =~= ls.take(i as int));
            assert(t.last() == line@);
            if i == 0 {
                assert(before =~= Seq::<u8>::empty());
                assert(out@ =~= line@);
            }
        }
        i = i + 1;
    }
    proof {
        assert(ls.take(n as int) =~= ls);
    }
    out
}

/// ASCII lower case of one byte; other bytes are left as they are.
pub open spec fn ascii_lower(b: u8) -> u8 {
    if 65 <= b && b <= 90 {
        (b + 32) as u8
    } else {
        b
    }
}

/// Equal up to ASCII case, as `eq_ignore_ascii_case` compares.
pub open spec fn ascii_ci_eq(a: Seq<u8>, b: Seq<u8>) -> bool {
    a.len() == b.len() && forall|i: int| 0 <= i < a.len() ==> ascii_lower(#[trigger] a[i]) == ascii_lower(b[i])
}

/// `s` begins with `prefix`, up to ASCII case.
pub open spec fn ascii_ci_starts_with(s: Seq<u8>, prefix: Seq<u8>) -> bool {
    s.len() >= prefix.len() && ascii_ci_eq(s.take(prefix.len() as int), prefix)
}

pub fn lower_byte(b: u8) -> (r: u8)
    ensures
        r == ascii_lower(b),
{
    if 65 <= b && b <= 90 {
        b + 32
    } else {
        b
    }
}

/// Whether `s` begins with `prefix`, ignoring ASCII case.
pub fn starts_with_ignore_ascii_case(s: &[u8], prefix: &[u8]) -> (r: bool)
    ensures
        r == ascii_ci_starts_with(s@, prefix@),
{
    let n = prefix.len();
    if s.len() < n {
        return false;
    }
    let mut i: usize = 0;
    while i < n
        invariant
            n == prefix@.len(),
            n <= s@.len(),
            i <= n,
            forall|j: int| 0 <= j < i ==> ascii_lower(#[trigger] s@[j]) == ascii_lower(prefix@[j]),
        decreases n - i,
    {
        if lower_byte(s[i]) != lower_byte(prefix[i]) {
            proof {
                assert(s@.take(n as int)[i as int] == s@[i as int]);
            }
            return false;
        }
        i = i + 1;
    }
    proof {
        assert forall|j: int| 0 <= j < n implies ascii_lower(#[trigger] s@.take(n as int)[j])
            == ascii_lower(prefix@[j]) by {
            assert(s@.take(n as int)[j] == s@[j]);
        }
    }
    true
}

/// Whether `a` and `b` are equal, ignoring ASCII case.
pub fn eq_ignore_ascii_case(a: &[u8], b: &[u8]) -> (r: bool)
    ensures
        r == ascii_ci_eq(a@, b@),
{
    if a.len() != b.len() {
        return false;
    }
    let r = starts_with_ignore_ascii_case(a, b);
    proof {
        assert(a@.take(b@.len() as int) =~= a@);
    }
    r
}

/// The decimal digit character for `d`.
pub open spec fn digit_char(d: nat) -> char {
    (d + 48) as char
}

/// The decimal representation of `n`, without leading zeros, as `Display`
/// writes an unsigned integer.
pub open spec fn decimal(n: nat) -> Seq<char>
    decreases n,
{
    if n < 10 {
        seq![digit_char(n)]
    } else {
        decimal(n / 10) + seq![digit_char(n % 10)]
    }
}

fn digit_str(d: u64) -> (s: &'static str)
    requires
        d < 10,
    ensures
        s@ == seq![digit_char(d as nat)],
{
    proof {
        reveal_strlit("0");
        reveal_strlit("1");
        reveal_strlit("2");
        reveal_strlit("3");
        reveal_strlit("4");
        reveal_strlit("5");
        reveal_strlit("6");
        reveal_strlit("7");
        reveal_strlit("8");
        reveal_strlit("9");
    }
    if d == 0 {
        "0"
    } else if d == 1 {
        "1"
    } else if d == 2 {
        "2"
    } else if d == 3 {
        "3"
    } else if d == 4 {
        "4"
    } else if d == 5 {
        "5"
    } else if d == 6 {
        "6"
    } else if d == 7 {
        "7"
    } else if d == 8 {
        "8"
    } else {
        "9"
    }
}

/// The decimal representation of `n`.
pub fn decimal_string(n: u64) -> (s: String)
    ensures
        s@ == decimal(n as nat),
    decreases n,
{
    if n < 10 {
        digit_str(n).to_owned()
    } else {
        let head = decimal_string(n / 10);
        head.concat(digit_str(n % 10))
    }
}

/// `s` consists of ASCII decimal digits only.
pub open spec fn all_digits(s: Seq<u8>) -> bool {
    forall|i: int| 0 <= i < s.len() ==> ZERO <= #[trigger] s[i] <= NINE
}

/// The number that the digits of `s` spell, most significant first.
pub open spec fn digits_value(s: Seq<u8>) -> nat
    decreases s.len(),
{
    if s.len() == 0 {
        0
    } else {
        digits_value(s.drop_last()) * 10 + (s.last() - ZERO) as nat
    }
}

/// The digits after an optional leading `+`.
pub open spec fn unsigned_digits(s: Seq<u8>) -> Seq<u8> {
    if s.len() > 0 && s[0] == PLUS {
        s.drop_first()
    } else {
        s
    }
}

/// What `str::parse::<usize>` gives for the text `s`: an optional `+`, then
/// one or more digits, whose value fits in a `usize`.
pub open spec fn parse_usize_spec(s: Seq<u8>) -> Option<usize> {
    let d = unsigned_digits(s);
    if d.len() > 0 && all_digits(d) && digits_value(d) <= usize::MAX {
        Some(digits_value(d) as usize)
    } else {
        None
    }
}

proof fn lemma_digits_value_grows(s: Seq<u8>, k: int)
    requires
        all_digits(s),
        0 <= k <= s.len(),
    ensures
        digits_value(s.take(k)) <= digits_value(s),
    decreases s.len() - k,
{
    if k < s.len() {
        lemma_digits_value_grows(s, k + 1);
        assert(s.take(k + 1).drop_last() =~= s.take(k));
    } else {
        assert(s.take(k) =~= s);
    }
}

/// Reads an unsigned decimal number as `str::parse::<usize>` does.
pub fn parse_usize(s: &[u8]) -> (r: Option<usize>)
    ensures
        r == parse_usize_spec(s@),
{
    let n = s.len();
    let start: usize = if n > 0 && s[0] == PLUS {
        1
    } else {
        0
    };
    let ghost d = unsigned_digits(s@);
    proof {
        assert(d =~= s@.subrange(start as int, n as int));
    }
    if start >= n {
        return None;
    }
    let mut v: usize = 0;
    let mut i: usize = start;
    while i < n
        invariant
            n == s@.len(),
            start <= i <= n,
            d == s@.subrange(start as int, n as int),
            d == unsigned_digits(s@),
            all_digits(d.take(i - start)),
            v as nat == digits_value(d.take(i - start)),
        decreases n - i,
    {
        let b = s[i];
        let ghost t = d.take(i + 1 - start);
        proof {
            assert(t.drop_last() =~= d.take(i - start));
            assert(t.last() == b);
        }
        if b < ZERO || b > NINE {
            proof {
                assert(d[i - start] == b);
                assert(!all_digits(d));
                assert(parse_usize_spec(s@) is None);
            }
            return None;
        }
        proof {
            assert forall|j: int| 0 <= j < t.len() implies ZERO <= #[trigger] t[j] <= NINE by {
                if j < t.len() - 1 {
                    assert(t[j] == d.take(i - start)[j]);
                }
            }
        }
        match v.checked_mul(10) {
            None => {
                proof {
                    if all_digits(d) {
                        lemma_digits_value_grows(d, i + 1 - start);
                    }
                }
                return None;
            },
            Some(m) => match m.checked_add((b - ZERO) as usize) {
                None => {
                    proof {
                        assert(digits_value(t) == v * 10 + (b - ZERO));
                        if all_digits(d) {
                            lemma_digits_value_grows(d, i + 1 - start);
                            assert(digits_value(d) > usize::MAX);
                        }
                        assert(parse_usize_spec(s@) is None);
                    }
                    return None;
                },
                Some(w) => {
                    v = w;
                },
            },
        }
        i = i + 1;
    }
    proof {
        assert(d.take(n - start) =~= d);
    }
    Some(v)
}

/// Bytes below 0x80 are valid UTF-8, each byte one character.
pub proof fn lemma_ascii_valid_utf8(s: Seq<u8>)
    requires
        forall|i: int| 0 <= i < s.len() ==> #[trigger] s[i] < 0x80,
    ensures
        valid_utf8(s),
{
    assert forall|i: int| 0 <= 0 <= i < s.len() <= s.len() implies #[trigger] is_leading_byte_width_1(
        s[i],
    ) by {}
    partial_valid_utf8_extend_ascii_block(s, 0, s.len() as int);
    assert(s.subrange(0, 0) =~= Seq::<u8>::empty());
    assert(s.subrange(0, s.len() as int) =~= s);
}

/// Valid UTF-8 that begins with an ASCII byte stays valid without it.
pub proof fn lemma_utf8_drop_ascii(t: Seq<u8>)
    requires
        valid_utf8(t),
        t.len() > 0,
        t[0] < 0x80,
    ensures
        valid_utf8(t.drop_first()),
{
    assert(pop_first_scalar(t) =~= t.drop_first());
}

/// Valid UTF-8 cut at an ASCII byte gives two valid halves.
pub proof fn lemma_utf8_split_at_ascii(s: Seq<u8>, i: int)
    requires
        valid_utf8(s),
        0 <= i < s.len(),
        s[i] < 0x80,
    ensures
        valid_utf8(s.take(i)),
        valid_utf8(s.skip(i)),
    decreases s.len(),
{
    if i == 0 {
        assert(s.take(0) =~= Seq::<u8>::empty());
        assert(s.skip(0) =~= s);
    } else {
        let k = length_of_first_scalar(s);
        assert(k <= i) by {
            if k > i {
                assert(is_continuation_byte(s[i]));
            }
        }
        let rest = pop_first_scalar(s);
        assert(rest =~= s.skip(k));
        assert(rest[i - k] == s[i]);
        lemma_utf8_split_at_ascii(rest, i - k);
        let t = s.take(i);
        assert(t[0] == s[0]);
        assert(k >= 2 ==> t[1] == s[1]);
        assert(k >= 3 ==> t[2] == s[2]);
        assert(k >= 4 ==> t[3] == s[3]);
        assert(valid_first_scalar(t));
        assert(pop_first_scalar(t) =~= rest.take(i - k));
        assert(s.skip(i) =~= rest.skip(i - k));
    }
}

/// The lines of valid UTF-8 are valid UTF-8.
pub proof fn lemma_split_lines_utf8(s: Seq<u8>)
    requires
        valid_utf8(s),
    ensures
        forall|i: int| 0 <= i < split_crlf(s).len() ==> valid_utf8(#[trigger] split_crlf(s)[i]),
    decreases s.len(),
{
    lemma_first_line_len(s);
    let n = first_line_len(s);
    if n < s.len() {
        assert(crlf_at(s, n as int));
        lemma_utf8_split_at_ascii(s, n as int);
        let t = s.skip(n as int);
        lemma_utf8_drop_ascii(t);
        assert(t.drop_first()[0] == LF);
        lemma_utf8_drop_ascii(t.drop_first());
        assert(t.drop_first().drop_first() =~= s.skip(n as int + 2));
        let rest = s.skip(n as int + 2);
        lemma_split_lines_utf8(rest);
        assert forall|i: int| 0 <= i < split_crlf(s).len() implies valid_utf8(
            #[trigger] split_crlf(s)[i],
        ) by {
            if i > 0 {
                assert(split_crlf(s)[i] == split_crlf(rest)[i - 1]);
            }
        }
    }
}

/// Lines of valid UTF-8 joined by `\r\n` are valid UTF-8.
pub proof fn lemma_join_utf8(lines: Seq<Seq<u8>>)
    requires
        forall|i: int| 0 <= i < lines.len() ==> valid_utf8(#[trigger] lines[i]),
    ensures
        valid_utf8(join_crlf(lines)),
    decreases lines.len(),
{
    if lines.len() == 0 {
        lemma_ascii_valid_utf8(Seq::<u8>::empty());
    } else if lines.len() > 1 {
        let init = lines.drop_last();
        assert forall|i: int| 0 <= i < init.len() implies valid_utf8(#[trigger] init[i]) by {
            assert(init[i] == lines[i]);
        }
        lemma_join_utf8(init);
        lemma_ascii_valid_utf8(crlf());
        assert(valid_utf8(lines[lines.len() - 1]));
        valid_utf8_concat(join_crlf(init), crlf());
        valid_utf8_concat(join_crlf(init) + crlf(), lines.last());
    } else {
        assert(valid_utf8(lines[0]));
    }
}

/// Filtering a sequence with one more element at its end.
pub proof fn lemma_filter_push<A>(s: Seq<A>, x: A, pred: spec_fn(A) -> bool)
    ensures
        s.push(x).filter(pred) == (if pred(x) {
            s.filter(pred).push(x)
        } else {
            s.filter(pred)
        }),
{
    reveal(Seq::filter);
    assert(s.push(x).drop_last() =~= s);
}

/// What holds of every element of a sequence holds of every element kept by
/// a filter, and those elements pass the filter.
pub proof fn lemma_filter_keeps<A>(s: Seq<A>, pred: spec_fn(A) -> bool, prop: spec_fn(A) -> bool)
    requires
        forall|i: int| 0 <= i < s.len() ==> prop(#[trigger] s[i]),
    ensures
        forall|i: int|
            0 <= i < s.filter(pred).len() ==> prop(#[trigger] s.filter(pred)[i]) && pred(
                s.filter(pred)[i],
            ),
    decreases s.len(),
{
    reveal(Seq::filter);
    if s.len() > 0 {
        let init = s.drop_last();
        assert forall|i: int| 0 <= i < init.len() implies prop(#[trigger] init[i]) by {
            assert(init[i] == s[i]);
        }
        lemma_filter_keeps(init, pred, prop);
        let fi = init.filter(pred);
        let fs = s.filter(pred);
        assert(fs == (if pred(s.last()) {
            fi.push(s.last())
        } else {
            fi
        }));
        assert forall|i: int| 0 <= i < fs.len() implies prop(#[trigger] fs[i]) && pred(fs[i]) by {
            if i < fi.len() {
                assert(fs[i] == fi[i]);
            } else {
                assert(fs[i] == s.last());
                assert(s[s.len() - 1] == s.last());
            }
        }
    }
}

/// A filter that every element passes keeps the sequence as it is.
pub proof fn lemma_filter_all<A>(s: Seq<A>, pred: spec_fn(A) -> bool)
    requires
        forall|i: int| 0 <= i < s.len() ==> pred(#[trigger] s[i]),
    ensures
        s.filter(pred) == s,
    decreases s.len(),
{
    reveal(Seq::filter);
    if s.len() > 0 {
        let init = s.drop_last();
        assert forall|i: int| 0 <= i < init.len() implies pred(#[trigger] init[i]) by {
            assert(init[i] == s[i]);
        }
        lemma_filter_all(init, pred);
        assert(init.push(s.last()) =~= s);
    }
}

} // verus!
