//! Reading and answering plain HTTP/1.1 requests: where the headers end, the
//! `Content-Length` they announce, the request line, and the two JSON fields
//! that an order carries.

use vstd::prelude::*;
use crate::text::{
    chars_of, count_leading_non_ws, count_leading_ws, count_trailing_ws, decimal, find,
    find_bytes, find_chars, find_from, is_ws, leading_non_ws, lemma_find_from,
    lemma_find_from_is, lemma_find_from_none, lemma_leading_non_ws, lemma_leading_ws,
    lemma_trim_range, matches_at, push_decimal, string_of, trim, trim_start,
};
use vstd::string::StringExecFns;

verus! {

// ---------------------------------------------------------------------------
// Byte-level reading
// ---------------------------------------------------------------------------

/// The position of the first occurrence of `needle` in `haystack`, scanning
/// the windows of `haystack` in order (`needle` must not be empty).
pub fn find_subslice(haystack: &[u8], needle: &[u8]) -> (res: Option<usize>)
    requires
        needle@.len() > 0,
    ensures
        match res {
            Some(i) => find(haystack@, needle@) == Some(i as int),
            None => find(haystack@, needle@) is None,
        },
{
    find_bytes(haystack, needle, 0)
}

/// The bytes that end the header block of a request: `\r\n\r\n`.
pub open spec fn header_end_marker() -> Seq<u8> {
    seq![13u8, 10u8, 13u8, 10u8]
}

/// The characters that `String::from_utf8_lossy` makes of `bytes`: the UTF-8
/// decoding, with each maximal invalid sequence replaced by U+FFFD.
pub uninterp spec fn lossy_utf8(bytes: Seq<u8>) -> Seq<char>;

/// `String::from_utf8_lossy(bytes).into_owned()`. Its result is named by
/// `lossy_utf8`, a function of the bytes alone; as std documents, bytes that
/// are valid UTF-8 come out as their decoding, unchanged. What replaces
/// invalid sequences is left to the name.
#[verifier::external_body]
fn from_utf8_lossy(bytes: &[u8]) -> (res: String)
    ensures
        res@ == lossy_utf8(bytes@),
        vstd::utf8::valid_utf8(bytes@) ==> res@ == vstd::utf8::decode_utf8(bytes@),
{
    String::from_utf8_lossy(bytes).into_owned()
}

/// The request text of the bytes read so far, invalid UTF-8 replaced by U+FFFD.
pub fn decode_request(data: &[u8]) -> (res: String)
    ensures
        res@ == lossy_utf8(data@),
        vstd::utf8::valid_utf8(data@) ==> res@ == vstd::utf8::decode_utf8(data@),
{
    from_utf8_lossy(data)
}

/// Whether the bytes read so far hold a whole request: the header block is
/// closed by `\r\n\r\n` and at least `Content-Length` body bytes follow it.
pub open spec fn request_is_complete(data: Seq<u8>) -> bool {
    match find(data, header_end_marker()) {
        None => false,
        Some(h) => data.len() - (h + 4) >= content_length_of(lossy_utf8(data.take(h))),
    }
}

/// Whether a request whose bytes so far are `data` can stop being read: the
/// header block is complete and the body holds the announced length.
pub fn request_complete(data: &[u8]) -> (res: bool)
    ensures
        res == request_is_complete(data@),
{
    let marker: [u8; 4] = [13u8, 10u8, 13u8, 10u8];
    assert(marker@ =~= header_end_marker());
    match find_subslice(data, marker.as_slice()) {
        None => false,
        Some(h) => {
            proof {
                lemma_find_from(data@, header_end_marker(), 0);
            }
            let head = vstd::slice::slice_subrange(data, 0, h);
            assert(head@ =~= data@.take(h as int));
            let headers = from_utf8_lossy(head);
            let length = content_length(headers.as_str());
            data.len() - (h + 4) >= length
        },
    }
}

/// Once the bytes read hold a whole request, reading more keeps them whole:
/// the end of the headers and the announced length stay where they were.
pub proof fn law_complete_request_stays_complete(data: Seq<u8>, more: Seq<u8>)
    requires
        request_is_complete(data),
    ensures
        request_is_complete(data + more),
{
    let m = header_end_marker();
    let all = data + more;
    lemma_find_from(data, m, 0);
    let h = find(data, m)->0;
    assert(all.subrange(h, h + 4) =~= data.subrange(h, h + 4));
    assert forall|j: int| 0 <= j < h implies !matches_at(all, m, j) by {
        assert(!matches_at(data, m, j));
        assert(all.subrange(j, j + 4) =~= data.subrange(j, j + 4));
    }
    lemma_find_from_is(all, m, 0, h);
    assert(all.take(h) =~= data.take(h));
}

// ---------------------------------------------------------------------------
// Header block
// ---------------------------------------------------------------------------

/// `line` without one trailing `\r`.
pub open spec fn strip_cr(line: Seq<char>) -> Seq<char> {
    if line.len() > 0 && line.last() == '\r' {
        line.drop_last()
    } else {
        line
    }
}

/// The ASCII lower-case form of `c`; other characters are unchanged.
pub open spec fn ascii_lower(c: char) -> char {
    if 'A' <= c <= 'Z' {
        ((c as u32) + 32) as char
    } else {
        c
    }
}

/// The header name `content-length`.
pub open spec fn content_length_name() -> Seq<char> {
    seq!['c', 'o', 'n', 't', 'e', 'n', 't', '-', 'l', 'e', 'n', 'g', 't', 'h']
}

/// `name.eq_ignore_ascii_case("content-length")`.
pub open spec fn is_content_length_name(name: Seq<char>) -> bool {
    name.len() == content_length_name().len() && forall|i: int|
        0 <= i < name.len() ==> ascii_lower(#[trigger] name[i]) == content_length_name()[i]
}

/// `char::is_ascii_digit`.
pub open spec fn is_ascii_digit(c: char) -> bool {
    '0' <= c <= '9'
}

/// The number written by the decimal digits `d`.
pub open spec fn digits_value(d: Seq<char>) -> nat
    decreases d.len(),
{
    if d.len() == 0 {
        0
    } else {
        digits_value(d.drop_last()) * 10 + ((d.last() as u32) - 48) as nat
    }
}

/// Whether every character of `d` is an ASCII digit.
pub open spec fn all_digits(d: Seq<char>) -> bool {
    forall|i: int| 0 <= i < d.len() ==> is_ascii_digit(#[trigger] d[i])
}

/// The digits of a number written with an optional leading `+`.
pub open spec fn unsigned_digits(v: Seq<char>) -> Seq<char> {
    if v.len() > 0 && v[0] == '+' {
        v.drop_first()
    } else {
        v
    }
}

/// `v.parse::<usize>()`: an optional `+`, then one or more decimal digits
/// whose value fits in a `usize`.
pub open spec fn parse_usize(v: Seq<char>) -> Option<nat> {
    let d = unsigned_digits(v);
    if d.len() > 0 && all_digits(d) && digits_value(d) <= usize::MAX {
        Some(digits_value(d))
    } else {
        None
    }
}

/// What one header line says of the body length: `Some` when the line is
/// `name: value` with `name` equal to `content-length` up to ASCII case and
/// surrounding whitespace, and `value` (trimmed) a number.
pub open spec fn line_content_length(line: Seq<char>) -> Option<nat> {
    match find(line, seq![':']) {
        None => None,
        Some(c) => if is_content_length_name(trim(line.take(c))) {
            parse_usize(trim(line.skip(c + 1)))
        } else {
            None
        },
    }
}

/// The first length announced by a line of `headers` at or after `pos`,
/// taking the lines in order (`str::lines`: split at `\n`, one trailing `\r`
/// dropped).
pub open spec fn content_length_from(headers: Seq<char>, pos: int) -> Option<nat>
    decreases headers.len() - pos,
{
    if pos < 0 || pos >= headers.len() {
        None
    } else {
        match find_from(headers, seq!['\n'], pos) {
            None => line_content_length(headers.skip(pos)),
            Some(e) => match line_content_length(strip_cr(headers.subrange(pos, e))) {
                Some(v) => Some(v),
                None => {
                    proof {
                        lemma_find_from(headers, seq!['\n'], pos);
                    }
                    content_length_from(headers, e + 1)
                },
            },
        }
    }
}

/// The body length that a header block announces: the first parsable
/// `Content-Length` line, 0 when there is none.
pub open spec fn content_length_of(headers: Seq<char>) -> nat {
    match content_length_from(headers, 0) {
        Some(v) => v,
        None => 0,
    }
}

/// A number written by `decimal` reads back as itself: it is a non-empty run
/// of digits with that value.
pub proof fn law_decimal_reads_back(n: nat)
    ensures
        decimal(n).len() > 0,
        all_digits(decimal(n)),
        digits_value(decimal(n)) == n,
        decimal(n)[0] != '+',
    decreases n,
{
    if n < 10 {
        let c = crate::text::digit_char(n as int);
        assert((c as u32) == n + 48);
        assert(decimal(n).drop_last() =~= Seq::<char>::empty());
        assert(digits_value(Seq::<char>::empty()) == 0);
        assert(decimal(n).last() == c);
    } else {
        law_decimal_reads_back(n / 10);
        let x = decimal(n / 10);
        let c = crate::text::digit_char((n % 10) as int);
        assert(decimal(n) == x.push(c));
        assert(x.push(c).drop_last() =~= x);
        assert(x.push(c)[0] == x[0]);
        assert((c as u32) == (n % 10) + 48);
        assert(digits_value(x.push(c)) == digits_value(x) * 10 + (n % 10));
        assert forall|i: int| 0 <= i < x.push(c).len() implies is_ascii_digit(#[trigger] x.push(c)[i]) by {
            if i < x.len() {
                assert(x.push(c)[i] == x[i]);
            }
        }
    }
}

/// The header name as a response writes it, `Content-Length`, followed by `: `.
pub open spec fn content_length_prefix() -> Seq<char> {
    seq!['C', 'o', 'n', 't', 'e', 'n', 't', '-', 'L', 'e', 'n', 'g', 't', 'h', ':', ' ']
}

/// A text with no whitespace at either end is its own trim.
proof fn lemma_trim_unpadded(x: Seq<char>)
    requires
        x.len() > 0,
        !is_ws(x[0]),
        !is_ws(x.last()),
    ensures
        trim(x) == x,
{
    crate::text::lemma_leading_ws_is(x, 0);
    assert(trim_start(x) =~= x);
    crate::text::lemma_trailing_ws_is(x, 0);
    assert(crate::text::trim_end(x) =~= x);
}

/// The `Content-Length` line that `http_response` writes for a body of `n`
/// bytes is read back by `content_length` as `n`.
pub proof fn law_length_line_reads_back(n: nat)
    requires
        n <= usize::MAX,
    ensures
        line_content_length(content_length_prefix() + decimal(n)) == Some(n),
        "Content-Length: "@ == content_length_prefix(),
{
    reveal_strlit("Content-Length: ");
    assert("Content-Length: "@ =~= content_length_prefix());
    let p = content_length_prefix();
    let d = decimal(n);
    let line = p + d;
    law_decimal_reads_back(n);
    // the first colon is at 14
    assert(line.subrange(14, 15) =~= seq![':']);
    assert forall|j: int| 0 <= j < 14 implies !matches_at(line, seq![':'], j) by {
        assert(line.subrange(j, j + 1)[0] == line[j]);
        assert(line[j] == p[j]);
    }
    lemma_find_from_is(line, seq![':'], 0, 14);
    // the name
    let name = line.take(14);
    assert(name[0] == 'C');
    assert(name.last() == 'h');
    lemma_trim_unpadded(name);
    assert(is_content_length_name(name)) by {
        assert forall|i: int| 0 <= i < name.len() implies ascii_lower(#[trigger] name[i])
            == content_length_name()[i] by {
            assert(name[i] == p[i]);
        }
    }
    // the value
    let v = line.skip(15);
    assert(v =~= seq![' '] + d);
    assert(d[0] == v[1]);
    assert(is_ascii_digit(d[0]));
    crate::text::lemma_leading_ws_is(v, 1);
    assert(trim_start(v) =~= d);
    assert(is_ascii_digit(d.last()));
    lemma_trim_unpadded(d);
    assert(trim(v) == d);
    assert(unsigned_digits(d) == d);
}

/// `HTTP/1.1 `.
pub open spec fn version_prefix() -> Seq<char> {
    seq!['H', 'T', 'T', 'P', '/', '1', '.', '1', ' ']
}

/// `Content-Type: application/json`.
pub open spec fn json_type_line() -> Seq<char> {
    seq![
        'C', 'o', 'n', 't', 'e', 'n', 't', '-', 'T', 'y', 'p', 'e', ':', ' ', 'a', 'p', 'p', 'l',
        'i', 'c', 'a', 't', 'i', 'o', 'n', '/', 'j', 's', 'o', 'n',
    ]
}

/// `Connection: close`.
pub open spec fn close_line() -> Seq<char> {
    seq!['C', 'o', 'n', 'n', 'e', 'c', 't', 'i', 'o', 'n', ':', ' ', 'c', 'l', 'o', 's', 'e']
}

/// `\r\n`.
pub open spec fn crlf() -> Seq<char> {
    seq!['\r', '\n']
}

/// The header block of `http_response(status, body)` for a body of `n` bytes
/// (everything before the blank line).
#[verifier::opaque]
pub open spec fn response_head(status: Seq<char>, n: nat) -> Seq<char> {
    version_prefix() + status + crlf() + json_type_line() + crlf() + content_length_prefix()
        + decimal(n) + crlf() + close_line()
}

/// A JSON response is its header block, a blank line, and the body.
pub proof fn lemma_response_layout(status: Seq<char>, body: &str)
    ensures
        json_response_text(status, body) == response_head(status, body.len() as nat) + crlf()
            + crlf() + body@,
{
    reveal(response_head);
    reveal_strlit("HTTP/1.1 ");
    reveal_strlit("\r\nContent-Type: application/json\r\nContent-Length: ");
    reveal_strlit("\r\nConnection: close\r\n\r\n");
    assert("HTTP/1.1 "@ =~= version_prefix());
    assert("\r\nContent-Type: application/json\r\nContent-Length: "@ =~= crlf() + json_type_line()
        + crlf() + content_length_prefix());
    assert("\r\nConnection: close\r\n\r\n"@ =~= crlf() + close_line() + crlf() + crlf());
    assert(json_response_text(status, body) =~= response_head(status, body.len() as nat) + crlf()
        + crlf() + body@);
}

/// The first `\n` at or after `pos` is the one at `k` when none lies between.
proof fn lemma_next_newline(h: Seq<char>, pos: int, k: int)
    requires
        0 <= pos <= k < h.len(),
        h[k] == '\n',
        forall|j: int| pos <= j < k ==> h[j] != '\n',
    ensures
        find_from(h, seq!['\n'], pos) == Some(k),
{
    assert(h.subrange(k, k + 1) =~= seq!['\n']);
    assert forall|j: int| pos <= j < k implies !matches_at(h, seq!['\n'], j) by {
        assert(h.subrange(j, j + 1)[0] == h[j]);
    }
    lemma_find_from_is(h, seq!['\n'], pos, k);
}

/// A line with no `:` announces no length.
proof fn lemma_no_colon_no_length(line: Seq<char>)
    requires
        forall|j: int| 0 <= j < line.len() ==> line[j] != ':',
    ensures
        line_content_length(line) is None,
{
    assert forall|j: int| 0 <= j implies !matches_at(line, seq![':'], j) by {
        if j + 1 <= line.len() {
            assert(line.subrange(j, j + 1)[0] == line[j]);
        }
    }
    lemma_find_from_none(line, seq![':'], 0);
}

/// Where the parts of a response's header block stand.
proof fn lemma_head_layout(status: Seq<char>, n: nat)
    ensures
        ({
            let h = response_head(status, n);
            let d = decimal(n);
            let a = 9 + status.len() as int;
            let b = a + 34;
            let c = b + 16 + d.len() as int;
            &&& h.len() == c + 19
            &&& forall|j: int| 0 <= j < 9 ==> h[j] == version_prefix()[j]
            &&& forall|j: int| 9 <= j < a ==> h[j] == status[j - 9]
            &&& h[a] == '\r' && h[a + 1] == '\n'
            &&& h.subrange(a + 2, a + 32) == json_type_line()
            &&& h[a + 32] == '\r' && h[a + 33] == '\n'
            &&& h.subrange(b, c) == content_length_prefix() + d
            &&& h[c] == '\r' && h[c + 1] == '\n'
            &&& h.subrange(c + 2, c + 19) == close_line()
        }),
{
    reveal(response_head);
    let h = response_head(status, n);
    let d = decimal(n);
    let a: int = 9 + status.len() as int;
    let b: int = a + 34;
    let c: int = b + 16 + d.len();
    assert(h.subrange(a + 2, a + 32) =~= json_type_line());
    assert(h.subrange(b, c) =~= content_length_prefix() + d);
    assert(h.subrange(c + 2, c + 19) =~= close_line());
}

/// A line that starts with `H` announces no length: whatever comes before
/// its first colon, trimmed, starts with `H`, so it is not `content-length`.
proof fn lemma_h_line_no_length(line: Seq<char>)
    requires
        line.len() > 0,
        line[0] == 'H',
    ensures
        line_content_length(line) is None,
{
    lemma_find_from(line, seq![':'], 0);
    match find(line, seq![':']) {
        None => {},
        Some(c) => {
            assert(line.subrange(c, c + 1)[0] == line[c]);
            assert(c > 0);
            let x = line.take(c);
            assert(x[0] == 'H');
            crate::text::lemma_leading_ws_is(x, 0);
            assert(trim_start(x) =~= x);
            crate::text::lemma_trailing_ws(x);
            assert(crate::text::trailing_ws(x) < x.len()) by {
                if crate::text::trailing_ws(x) == x.len() {
                    assert(is_ws(x[0]));
                }
            }
            let name = trim(x);
            assert(name.len() > 0 && name[0] == x[0]);
            assert(ascii_lower(name[0]) == 'h');
            assert(!is_content_length_name(name)) by {
                if name.len() == content_length_name().len() {
                    assert(ascii_lower(name[0]) != content_length_name()[0]);
                }
            }
        },
    }
}

/// The first line of a response's header block announces no length.
proof fn lemma_status_line(status: Seq<char>, n: nat)
    requires
        forall|i: int| 0 <= i < status.len() ==> status[i] != '\n',
    ensures
        ({
            let h = response_head(status, n);
            let a = 9 + status.len() as int;
            &&& find_from(h, seq!['\n'], 0) == Some(a + 1)
            &&& line_content_length(strip_cr(h.subrange(0, a + 1))) is None
        }),
{
    let h = response_head(status, n);
    let a: int = 9 + status.len() as int;
    lemma_head_layout(status, n);
    assert forall|j: int| 0 <= j < a implies h[j] != '\n' by {
        if j >= 9 {
            assert(h[j] == status[j - 9]);
        }
    }
    lemma_next_newline(h, 0, a + 1);
    let l1 = strip_cr(h.subrange(0, a + 1));
    assert(l1 =~= h.subrange(0, a));
    assert(l1[0] == version_prefix()[0]);
    lemma_h_line_no_length(l1);
}

/// The content-type line announces no length.
proof fn lemma_type_line()
    ensures
        line_content_length(json_type_line()) is None,
{
    let l2 = json_type_line();
    assert(l2.subrange(12, 13) =~= seq![':']);
    assert forall|j: int| 0 <= j < 12 implies !matches_at(l2, seq![':'], j) by {
        assert(l2.subrange(j, j + 1)[0] == l2[j]);
    }
    lemma_find_from_is(l2, seq![':'], 0, 12);
    let name2 = l2.take(12);
    assert(name2[0] == 'C' && name2.last() == 'e');
    lemma_trim_unpadded(name2);
}

/// The header block that `http_response` writes announces the body length,
/// as `content_length` reads it, whenever the status has no line break.
pub proof fn law_response_announces_body_length(status: Seq<char>, n: nat)
    requires
        n <= usize::MAX,
        forall|i: int| 0 <= i < status.len() ==> status[i] != '\n',
    ensures
        content_length_of(response_head(status, n)) == n,
{
    let h = response_head(status, n);
    let d = decimal(n);
    law_decimal_reads_back(n);
    law_length_line_reads_back(n);
    lemma_head_layout(status, n);
    lemma_status_line(status, n);
    lemma_type_line();
    let a: int = 9 + status.len() as int;
    let b: int = a + 34;
    let c: int = b + 16 + d.len();
    // the second line
    assert forall|j: int| a + 2 <= j < a + 32 implies h[j] != '\n' by {
        assert(h[j] == h.subrange(a + 2, a + 32)[j - a - 2]);
    }
    lemma_next_newline(h, a + 2, a + 33);
    assert(strip_cr(h.subrange(a + 2, a + 33)) =~= json_type_line());
    // the third line
    assert forall|j: int| b <= j < c implies h[j] != '\n' by {
        assert(h[j] == h.subrange(b, c)[j - b]);
        if j >= b + 16 {
            assert(h.subrange(b, c)[j - b] == d[j - b - 16]);
            assert(is_ascii_digit(d[j - b - 16]));
        }
    }
    lemma_next_newline(h, b, c + 1);
    assert(strip_cr(h.subrange(b, c + 1)) =~= content_length_prefix() + d);
    assert(content_length_from(h, b) == Some(n));
    assert(content_length_from(h, a + 2) == content_length_from(h, b));
    assert(content_length_from(h, 0) == content_length_from(h, a + 2));
}

/// `\r\n\r\n`, the blank line that separates the headers from the body.
pub open spec fn blank_line() -> Seq<char> {
    seq!['\r', '\n', '\r', '\n']
}

/// The only line breaks in a response's header block are the three that end
/// its first three lines, and it ends with `ose`.
proof fn lemma_head_newlines(status: Seq<char>, n: nat)
    requires
        forall|i: int| 0 <= i < status.len() ==> status[i] != '\n',
    ensures
        ({
            let h = response_head(status, n);
            let a = 9 + status.len() as int;
            let c = a + 50 + decimal(n).len() as int;
            &&& h.len() == c + 19
            &&& forall|k: int| 0 <= k < h.len() && h[k] == '\n' ==> k == a + 1 || k == a + 33 || k == c + 1
            &&& h[h.len() - 3] == 'o' && h[h.len() - 2] == 's' && h[h.len() - 1] == 'e'
        }),
{
    let h = response_head(status, n);
    let d = decimal(n);
    let a: int = 9 + status.len() as int;
    let b: int = a + 34;
    let c: int = b + 16 + d.len();
    lemma_head_layout(status, n);
    law_decimal_reads_back(n);
    assert forall|k: int| 0 <= k < h.len() && h[k] == '\n' implies k == a + 1 || k == a + 33 || k == c + 1 by {
        if k < 9 {
            assert(h[k] == version_prefix()[k]);
        } else if k < a {
            assert(h[k] == status[k - 9]);
        } else if a + 2 <= k < a + 32 {
            assert(h[k] == h.subrange(a + 2, a + 32)[k - a - 2]);
        } else if b <= k < c {
            assert(h[k] == h.subrange(b, c)[k - b]);
            if k >= b + 16 {
                assert(h.subrange(b, c)[k - b] == d[k - b - 16]);
                assert(is_ascii_digit(d[k - b - 16]));
            }
        } else if c + 2 <= k {
            assert(h[k] == h.subrange(c + 2, c + 19)[k - c - 2]);
        }
    }
    assert(h[h.len() - 3] == h.subrange(c + 2, c + 19)[14]);
    assert(h[h.len() - 2] == h.subrange(c + 2, c + 19)[15]);
    assert(h[h.len() - 1] == h.subrange(c + 2, c + 19)[16]);
}

/// The first blank line of what `http_response` writes falls right after the
/// header block: splitting there gives back the header block, which announces
/// the body's length, and the body itself (for a status with no line break).
pub proof fn law_response_splits_at_blank_line(status: Seq<char>, body: &str)
    requires
        forall|i: int| 0 <= i < status.len() ==> status[i] != '\n',
    ensures
        ({
            let t = json_response_text(status, body);
            let h = response_head(status, body.len() as nat);
            &&& find(t, blank_line()) == Some(h.len() as int)
            &&& t.take(h.len() as int) == h
            &&& t.skip(h.len() + 4int) == body@
            &&& content_length_of(h) == body.len()
        }),
{
    let n = body.len() as nat;
    let t = json_response_text(status, body);
    let h = response_head(status, n);
    let m = blank_line();
    let a: int = 9 + status.len() as int;
    let c: int = a + 50 + decimal(n).len();
    lemma_response_layout(status, body);
    lemma_head_newlines(status, n);
    law_response_announces_body_length(status, n);
    let len = h.len() as int;
    assert(t.subrange(len, len + 4) =~= m);
    assert forall|j: int| 0 <= j < len implies !matches_at(t, m, j) by {
        if matches_at(t, m, j) {
            let w = t.subrange(j, j + 4);
            assert(w[0] == t[j] && w[1] == t[j + 1] && w[3] == t[j + 3]);
            if j + 3 < len {
                assert(t[j + 1] == h[j + 1] && t[j + 3] == h[j + 3]);
            } else {
                assert(t[j] == h[j]);
            }
        }
    }
    lemma_find_from_is(t, m, 0, len);
    assert(t.take(len) =~= h);
    assert(t.skip(len + 4) =~= body@);
}

/// Lower-cases an ASCII letter.
fn lower(c: char) -> (r: char)
    ensures
        r == ascii_lower(c),
{
    if 'A' <= c && c <= 'Z' {
        let b: u8 = (c as u8) + 32;
        b as char
    } else {
        c
    }
}

/// Parses `s[from..to]` as a `usize`, as `str::parse::<usize>` does.
fn parse_usize_chars(s: &[char], from: usize, to: usize) -> (res: Option<usize>)
    requires
        from <= to <= s@.len(),
    ensures
        match res {
            Some(v) => parse_usize(s@.subrange(from as int, to as int)) == Some(v as nat),
            None => parse_usize(s@.subrange(from as int, to as int)) is None,
        },
{
    let ghost v = s@.subrange(from as int, to as int);
    let mut start = from;
    if start < to && s[start] == '+' {
        start = start + 1;
    }
    let ghost d = s@.subrange(start as int, to as int);
    assert(d =~= unsigned_digits(v));
    if start == to {
        return None;
    }
    let mut value: usize = 0;
    let mut i = start;
    while i < to
        invariant
            start <= i <= to <= s@.len(),
            d == s@.subrange(start as int, to as int),
            v == s@.subrange(from as int, to as int),
            d == unsigned_digits(v),
            all_digits(s@.subrange(start as int, i as int)),
            value as nat == digits_value(s@.subrange(start as int, i as int)),
        decreases to - i,
    {
        let c = s[i];
        let ghost prefix = s@.subrange(start as int, i + 1);
        assert(prefix.drop_last() =~= s@.subrange(start as int, i as int));
        if !('0' <= c && c <= '9') {
            assert(!all_digits(d)) by {
                assert(d[i - start] == c);
            }
            assert(parse_usize(v) is None);
            return None;
        }
        let dv: u32 = (c as u32) - 48;
        assert(d.take(i + 1 - start) =~= prefix);
        assert(digits_value(prefix) == digits_value(s@.subrange(start as int, i as int)) * 10 + dv);
        match value.checked_mul(10) {
            None => {
                proof {
                    if all_digits(d) {
                        lemma_digits_value_prefix_bound(d, (i + 1 - start) as int);
                    }
                }
                assert(parse_usize(v) is None);
                return None;
            },
            Some(m) => match m.checked_add(dv as usize) {
                None => {
                    proof {
                        if all_digits(d) {
                            lemma_digits_value_prefix_bound(d, (i + 1 - start) as int);
                        }
                    }
                    assert(parse_usize(v) is None);
                    return None;
                },
                Some(n) => {
                    value = n;
                },
            },
        }
        i = i + 1;
    }
    assert(s@.subrange(start as int, i as int) =~= d);
    Some(value)
}

/// The value of a prefix of digits is at most the value of the whole.
proof fn lemma_digits_value_prefix_bound(d: Seq<char>, k: int)
    requires
        0 <= k <= d.len(),
        all_digits(d),
    ensures
        digits_value(d.take(k)) <= digits_value(d),
    decreases d.len() - k,
{
    if k < d.len() {
        lemma_digits_value_prefix_bound(d, k + 1);
        assert(d.take(k + 1).drop_last() =~= d.take(k));
        assert(is_ascii_digit(d[k]));
    } else {
        assert(d.take(k) =~= d);
    }
}

/// What the line `s[from..to]` says of the body length (see `line_content_length`).
fn line_length(s: &[char], from: usize, to: usize) -> (res: Option<usize>)
    requires
        from <= to <= s@.len(),
    ensures
        match res {
            Some(v) => line_content_length(s@.subrange(from as int, to as int)) == Some(v as nat),
            None => line_content_length(s@.subrange(from as int, to as int)) is None,
        },
{
    let ghost line = s@.subrange(from as int, to as int);
    let slen = s.len();
    let colon: [char; 1] = [':'];
    assert(colon@ =~= seq![':']);
    let c = match find_chars(s, colon.as_slice(), from) {
        None => {
            proof {
                lemma_find_from(s@, seq![':'], from as int);
                assert forall|j: int| 0 <= j implies !matches_at(line, seq![':'], j) by {
                    if matches_at(line, seq![':'], j) {
                        assert(line.subrange(j, j + 1) =~= s@.subrange(from + j, from + j + 1));
                        assert(!matches_at(s@, seq![':'], from + j));
                    }
                }
                lemma_find_from_none(line, seq![':'], 0);
            }
            return None;
        },
        Some(c) => c,
    };
    if c >= to {
        proof {
            lemma_find_from(s@, seq![':'], from as int);
            assert forall|j: int| 0 <= j implies !matches_at(line, seq![':'], j) by {
                if matches_at(line, seq![':'], j) {
                    assert(line.subrange(j, j + 1) =~= s@.subrange(from + j, from + j + 1));
                    assert(!matches_at(s@, seq![':'], from + j));
                }
            }
            lemma_find_from_none(line, seq![':'], 0);
        }
        return None;
    }
    proof {
        lemma_find_from(s@, seq![':'], from as int);
        let k = c - from;
        assert(line.subrange(k, k + 1) =~= s@.subrange(c as int, c + 1));
        assert forall|j: int| 0 <= j < k implies !matches_at(line, seq![':'], j) by {
            if matches_at(line, seq![':'], j) {
                assert(line.subrange(j, j + 1) =~= s@.subrange(from + j, from + j + 1));
                assert(!matches_at(s@, seq![':'], from + j));
            }
        }
        lemma_find_from_is(line, seq![':'], 0, k);
    }
    // name: s[from..c] trimmed
    let lead = count_leading_ws(s, from);
    let name_start = if from + lead <= c { from + lead } else { c };
    let trail = count_trailing_ws(s, c);
    let name_end = if c - trail >= name_start { c - trail } else { name_start };
    assert(line.take(c - from) =~= s@.subrange(from as int, c as int));
    assert(trim(line.take(c - from)) =~= s@.subrange(name_start as int, name_end as int)) by {
        lemma_trim_range(s@, from as int, c as int, lead as int, trail as int);
    }
    if name_end - name_start != 14 {
        return None;
    }
    let target: [char; 14] = ['c', 'o', 'n', 't', 'e', 'n', 't', '-', 'l', 'e', 'n', 'g', 't', 'h'];
    assert(target@ =~= content_length_name());
    let mut i: usize = 0;
    while i < 14
        invariant
            name_end - name_start == 14,
            name_end <= s@.len(),
            line == s@.subrange(from as int, to as int),
            find(line, seq![':']) == Some((c - from) as int),
            trim(line.take(c - from)) == s@.subrange(name_start as int, name_end as int),
            target@ == content_length_name(),
            i <= 14,
            forall|t: int|
                0 <= t < i ==> ascii_lower(s@[name_start + t]) == content_length_name()[t],
        decreases 14 - i,
    {
        if lower(s[name_start + i]) != target[i] {
            let ghost name = s@.subrange(name_start as int, name_end as int);
            assert(name[i as int] == s@[name_start + i]);
            return None;
        }
        i = i + 1;
    }
    let ghost name = s@.subrange(name_start as int, name_end as int);
    assert(is_content_length_name(name)) by {
        assert forall|t: int| 0 <= t < name.len() implies ascii_lower(#[trigger] name[t])
            == content_length_name()[t] by {
            assert(name[t] == s@[name_start + t]);
        }
    }
    // value: s[c+1..to] trimmed
    let vlead = count_leading_ws(s, c + 1);
    let v_start = if c + 1 + vlead <= to { c + 1 + vlead } else { to };
    let vtrail = count_trailing_ws(s, to);
    let v_end = if to - vtrail >= v_start { to - vtrail } else { v_start };
    assert(trim(line.skip(c - from + 1)) =~= s@.subrange(v_start as int, v_end as int)) by {
        assert(line.skip(c - from + 1) =~= s@.subrange(c + 1, to as int));
        lemma_trim_range(s@, c + 1, to as int, vlead as int, vtrail as int);
    }
    parse_usize_chars(s, v_start, v_end)
}

/// The body length announced by a header block (0 when no line announces one).
pub fn content_length(headers: &str) -> (res: usize)
    ensures
        res as nat == content_length_of(headers@),
{
    let s = chars_of(headers);
    let newline: [char; 1] = ['\n'];
    assert(newline@ =~= seq!['\n']);
    let mut pos: usize = 0;
    while pos < s.len()
        invariant
            pos <= s@.len(),
            s@ == headers@,
            newline@ == seq!['\n'],
            content_length_from(s@, 0) == content_length_from(s@, pos as int),
        decreases s@.len() - pos,
    {
        match find_chars(s.as_slice(), newline.as_slice(), pos) {
            None => {
                assert(s@.skip(pos as int) =~= s@.subrange(pos as int, s@.len() as int));
                assert(find_from(s@, seq!['\n'], pos as int) is None);
                assert(content_length_from(s@, pos as int) == line_content_length(
                    s@.skip(pos as int),
                ));
                return match line_length(s.as_slice(), pos, s.len()) {
                    Some(v) => v,
                    None => 0,
                };
            },
            Some(e) => {
                proof {
                    lemma_find_from(s@, seq!['\n'], pos as int);
                }
                let end = if e > pos && s[e - 1] == '\r' { e - 1 } else { e };
                assert(strip_cr(s@.subrange(pos as int, e as int)) =~= s@.subrange(
                    pos as int,
                    end as int,
                ));
                match line_length(s.as_slice(), pos, end) {
                    Some(v) => {
                        return v;
                    },
                    None => {
                        pos = e + 1;
                    },
                }
            },
        }
    }
    0
}

// ---------------------------------------------------------------------------
// Request line
// ---------------------------------------------------------------------------

/// The first line of a request (`str::lines().next()`, empty when there is none).
pub open spec fn first_line(s: Seq<char>) -> Seq<char> {
    match find(s, seq!['\n']) {
        Some(i) => strip_cr(s.take(i)),
        None => s,
    }
}

/// The whitespace-separated words of `s`, in order (`str::split_whitespace`).
pub open spec fn tokens(s: Seq<char>) -> Seq<Seq<char>>
    decreases s.len(),
{
    let t = trim_start(s);
    if t.len() == 0 {
        Seq::empty()
    } else {
        proof {
            lemma_leading_ws(s);
            assert(t[0] == s[leading_ws_of(s)]);
            lemma_leading_non_ws(t);
        }
        let n = leading_non_ws(t);
        seq![t.take(n as int)] + tokens(t.skip(n as int))
    }
}

/// The words of a request line are non-empty and hold no whitespace.
pub proof fn law_words_are_unbroken(s: Seq<char>)
    ensures
        forall|k: int| 0 <= k < tokens(s).len() ==> #[trigger] tokens(s)[k].len() > 0 && forall|i: int|
            0 <= i < tokens(s)[k].len() ==> !is_ws(tokens(s)[k][i]),
    decreases s.len(),
{
    let t = trim_start(s);
    if t.len() > 0 {
        lemma_leading_ws(s);
        assert(t[0] == s[leading_ws_of(s)]);
        lemma_leading_non_ws(t);
        let n = leading_non_ws(t);
        law_words_are_unbroken(t.skip(n as int));
        lemma_non_ws_run(t);
        let w = t.take(n as int);
        let rest = tokens(t.skip(n as int));
        assert(tokens(s) == seq![w] + rest);
        assert forall|k: int| 0 <= k < tokens(s).len() implies #[trigger] tokens(s)[k].len() > 0
            && forall|i: int| 0 <= i < tokens(s)[k].len() ==> !is_ws(tokens(s)[k][i]) by {
            if k == 0 {
                assert(tokens(s)[0] == w);
                assert forall|i: int| 0 <= i < w.len() implies !is_ws(w[i]) by {
                    assert(w[i] == t[i]);
                }
            } else {
                assert(tokens(s)[k] == rest[k - 1]);
            }
        }
    }
}

/// The characters counted by `leading_non_ws` are not whitespace.
proof fn lemma_non_ws_run(t: Seq<char>)
    ensures
        forall|i: int| 0 <= i < leading_non_ws(t) ==> !is_ws(#[trigger] t[i]),
    decreases t.len(),
{
    lemma_leading_non_ws(t);
    if t.len() > 0 && !is_ws(t[0]) {
        lemma_non_ws_run(t.drop_first());
        assert forall|i: int| 0 <= i < leading_non_ws(t) implies !is_ws(#[trigger] t[i]) by {
            if i > 0 {
                assert(t[i] == t.drop_first()[i - 1]);
            }
        }
    }
}

/// The count of leading whitespace of `s`, as an integer.
pub open spec fn leading_ws_of(s: Seq<char>) -> int {
    crate::text::leading_ws(s) as int
}

/// The words of the request line of `request`: method, target, version.
pub open spec fn request_words(request: Seq<char>) -> Seq<Seq<char>> {
    tokens(first_line(request))
}

/// The views of a vector of strings.
pub open spec fn texts(v: Seq<String>) -> Seq<Seq<char>> {
    v.map_values(|t: String| t@)
}

/// The words of `l`, in order.
fn words_of(l: &[char]) -> (res: Vec<String>)
    ensures
        texts(res@) == tokens(l@),
{
    let mut out: Vec<String> = Vec::new();
    let mut i: usize = 0;
    assert(l@.skip(0) =~= l@);
    assert(texts(out@) =~= Seq::<Seq<char>>::empty());
    assert(texts(out@) + tokens(l@) =~= tokens(l@));
    while i < l.len()
        invariant
            i <= l@.len(),
            tokens(l@) == texts(out@) + tokens(l@.skip(i as int)),
        decreases l@.len() - i,
    {
        let lw = count_leading_ws(l, i);
        let j = i + lw;
        let ghost x = l@.skip(i as int);
        assert(trim_start(x) =~= l@.skip(j as int));
        if j == l.len() {
            assert(tokens(x) =~= Seq::<Seq<char>>::empty());
            assert(texts(out@) + tokens(x) =~= texts(out@));
            i = j;
        } else {
            let n = count_leading_non_ws(l, j);
            let word = string_of(l, j, j + n);
            proof {
                assert(l@.skip(j as int)[0] == l@[j as int]);
                assert(l@.skip(j as int).take(n as int) =~= l@.subrange(j as int, j + n));
                assert(l@.skip(j as int).skip(n as int) =~= l@.skip(j + n));
                assert(tokens(x) == seq![l@.subrange(j as int, j + n)] + tokens(l@.skip(j + n)));
            }
            let ghost before = out@;
            out.push(word);
            assert(texts(out@) =~= texts(before).push(word@));
            assert(texts(out@) + tokens(l@.skip(j + n)) =~= texts(before) + tokens(x));
            i = j + n;
            proof {
                lemma_leading_non_ws(l@.skip(j as int));
            }
        }
    }
    assert(l@.skip(i as int) =~= Seq::<char>::empty());
    assert(tokens(l@.skip(i as int)) =~= Seq::<Seq<char>>::empty());
    assert(texts(out@) + Seq::<Seq<char>>::empty() =~= texts(out@));
    out
}

/// The words of the request line of `request` (its first line split at whitespace).
pub fn request_parts(request: &str) -> (res: Vec<String>)
    ensures
        texts(res@) == request_words(request@),
{
    let s = chars_of(request);
    let newline: [char; 1] = ['\n'];
    assert(newline@ =~= seq!['\n']);
    let end = match find_chars(s.as_slice(), newline.as_slice(), 0) {
        Some(e) => {
            proof {
                lemma_find_from(s@, seq!['\n'], 0);
            }
            if e > 0 && s[e - 1] == '\r' {
                e - 1
            } else {
                e
            }
        },
        None => s.len(),
    };
    let line = vstd::slice::slice_subrange(s.as_slice(), 0, end);
    assert(line@ =~= first_line(request@));
    words_of(line)
}

// ---------------------------------------------------------------------------
// JSON fields of an order
// ---------------------------------------------------------------------------

/// `"key"`: the key in double quotes.
pub open spec fn quoted(key: Seq<char>) -> Seq<char> {
    seq!['"'] + key + seq!['"']
}

/// The position just after the first `:` that follows the first occurrence
/// of `"key"` in `body`.
pub open spec fn value_start(body: Seq<char>, key: Seq<char>) -> Option<int> {
    match find(body, quoted(key)) {
        None => None,
        Some(i) => match find_from(body, seq![':'], i + quoted(key).len()) {
            None => None,
            Some(c) => Some(c + 1),
        },
    }
}

/// The text between the next two double quotes after the key's colon.
pub open spec fn string_field(body: Seq<char>, key: Seq<char>) -> Option<Seq<char>> {
    match value_start(body, key) {
        None => None,
        Some(v) => match find_from(body, seq!['"'], v) {
            None => None,
            Some(q) => match find_from(body, seq!['"'], q + 1) {
                None => None,
                Some(e) => Some(body.subrange(q + 1, e)),
            },
        },
    }
}

/// The first `c` at or after `from` is the one at `k` when none lies between.
proof fn lemma_next_char(s: Seq<char>, c: char, from: int, k: int)
    requires
        0 <= from <= k < s.len(),
        s[k] == c,
        forall|j: int| from <= j < k ==> s[j] != c,
    ensures
        find_from(s, seq![c], from) == Some(k),
{
    assert(s.subrange(k, k + 1) =~= seq![c]);
    assert forall|j: int| from <= j < k implies !matches_at(s, seq![c], j) by {
        assert(s.subrange(j, j + 1)[0] == s[j]);
    }
    lemma_find_from_is(s, seq![c], from, k);
}

/// The string value of a key is what its own field holds, whatever fields
/// come before it: in `pre "key" gap1 : gap2 "v" rest`, with no `"key"`
/// earlier, no colon in `gap1`, no quote in `gap2` and none in `v`, the value
/// read is `v`.
pub proof fn law_string_field_reads_the_keys_value(
    pre: Seq<char>,
    key: Seq<char>,
    gap1: Seq<char>,
    gap2: Seq<char>,
    v: Seq<char>,
    rest: Seq<char>,
)
    requires
        forall|j: int| 0 <= j < pre.len() ==> !matches_at(pre + quoted(key), quoted(key), j),
        forall|i: int| 0 <= i < gap1.len() ==> gap1[i] != ':',
        forall|i: int| 0 <= i < gap2.len() ==> gap2[i] != '"',
        forall|i: int| 0 <= i < v.len() ==> v[i] != '"',
    ensures
        string_field(
            pre + quoted(key) + gap1 + seq![':'] + gap2 + seq!['"'] + v + seq!['"'] + rest,
            key,
        ) == Some(v),
{
    let qk = quoted(key);
    let pq = pre + qk;
    let body = pre + qk + gap1 + seq![':'] + gap2 + seq!['"'] + v + seq!['"'] + rest;
    let p = pre.len() as int;
    let a = p + qk.len();
    let c = a + gap1.len();
    let q = c + 1 + gap2.len();
    let e = q + 1 + v.len();
    // the key
    assert(body.subrange(p, a) =~= qk);
    assert forall|j: int| 0 <= j < p implies !matches_at(body, qk, j) by {
        assert(!matches_at(pq, qk, j));
        assert(body.subrange(j, j + qk.len()) =~= pq.subrange(j, j + qk.len()));
    }
    lemma_find_from_is(body, qk, 0, p);
    // the colon
    assert forall|j: int| a <= j < c implies body[j] != ':' by {
        assert(body[j] == gap1[j - a]);
    }
    lemma_next_char(body, ':', a, c);
    // the opening quote
    assert forall|j: int| c + 1 <= j < q implies body[j] != '"' by {
        assert(body[j] == gap2[j - c - 1]);
    }
    lemma_next_char(body, '"', c + 1, q);
    // the closing quote
    assert forall|j: int| q + 1 <= j < e implies body[j] != '"' by {
        assert(body[j] == v[j - q - 1]);
    }
    lemma_next_char(body, '"', q + 1, e);
    assert(body.subrange(q + 1, e) =~= v);
}

/// The number of ASCII digits at the start of `s`.
pub open spec fn leading_digits(s: Seq<char>) -> nat
    decreases s.len(),
{
    if s.len() > 0 && is_ascii_digit(s[0]) {
        1 + leading_digits(s.drop_first())
    } else {
        0
    }
}

/// A run of digits followed by a non-digit (or nothing) has that many
/// leading digits.
proof fn lemma_leading_digits_of(d: Seq<char>, rest: Seq<char>)
    requires
        all_digits(d),
        rest.len() > 0 ==> !is_ascii_digit(rest[0]),
    ensures
        leading_digits(d + rest) == d.len(),
    decreases d.len(),
{
    if d.len() > 0 {
        assert(is_ascii_digit(d[0]));
        assert((d + rest)[0] == d[0]);
        assert((d + rest).drop_first() =~= d.drop_first() + rest);
        assert forall|i: int| 0 <= i < d.drop_first().len() implies is_ascii_digit(#[trigger] d.drop_first()[i]) by {
            assert(d.drop_first()[i] == d[i + 1]);
        }
        lemma_leading_digits_of(d.drop_first(), rest);
    } else {
        assert(d + rest =~= rest);
    }
}

/// The number value of a key is what its own field holds, whatever fields
/// come before it: in `pre "key" gap1 : ws digits rest`, with no `"key"`
/// earlier, no colon in `gap1`, only whitespace in `ws`, and `rest` not
/// starting with a digit, the value read is the number the digits write (when
/// it fits in a `u64`).
pub proof fn law_number_field_reads_the_keys_value(
    pre: Seq<char>,
    key: Seq<char>,
    gap1: Seq<char>,
    ws: Seq<char>,
    digits: Seq<char>,
    rest: Seq<char>,
)
    requires
        forall|j: int| 0 <= j < pre.len() ==> !matches_at(pre + quoted(key), quoted(key), j),
        forall|i: int| 0 <= i < gap1.len() ==> gap1[i] != ':',
        forall|i: int| 0 <= i < ws.len() ==> is_ws(#[trigger] ws[i]),
        digits.len() > 0,
        all_digits(digits),
        rest.len() > 0 ==> !is_ascii_digit(rest[0]),
        digits_value(digits) <= u64::MAX,
    ensures
        number_field(pre + quoted(key) + gap1 + seq![':'] + ws + digits + rest, key) == Some(
            digits_value(digits),
        ),
{
    let qk = quoted(key);
    let pq = pre + qk;
    let body = pre + qk + gap1 + seq![':'] + ws + digits + rest;
    let p = pre.len() as int;
    let a = p + qk.len();
    let c = a + gap1.len();
    assert(body.subrange(p, a) =~= qk);
    assert forall|j: int| 0 <= j < p implies !matches_at(body, qk, j) by {
        assert(!matches_at(pq, qk, j));
        assert(body.subrange(j, j + qk.len()) =~= pq.subrange(j, j + qk.len()));
    }
    lemma_find_from_is(body, qk, 0, p);
    assert forall|j: int| a <= j < c implies body[j] != ':' by {
        assert(body[j] == gap1[j - a]);
    }
    lemma_next_char(body, ':', a, c);
    let after = body.skip(c + 1);
    let t = digits + rest;
    assert(after =~= ws + t);
    assert(is_ascii_digit(digits[0]));
    assert(t[0] == digits[0]);
    assert forall|i: int| 0 <= i < ws.len() implies is_ws(#[trigger] (ws + t)[i]) by {
        assert((ws + t)[i] == ws[i]);
    }
    assert((ws + t)[ws.len() as int] == t[0]);
    crate::text::lemma_leading_ws_is(ws + t, ws.len() as int);
    assert(trim_start(after) =~= t);
    lemma_leading_digits_of(digits, rest);
    assert(t.take(digits.len() as int) =~= digits);
}

/// The number written by the digits that follow the key's colon (after
/// whitespace); `None` when there are none or the number exceeds `u64`.
pub open spec fn number_field(body: Seq<char>, key: Seq<char>) -> Option<nat> {
    match value_start(body, key) {
        None => None,
        Some(v) => {
            let t = trim_start(body.skip(v));
            let d = t.take(leading_digits(t) as int);
            if d.len() > 0 && digits_value(d) <= u64::MAX {
                Some(digits_value(d))
            } else {
                None
            }
        },
    }
}

/// Where the value of `key` starts in `b` (see `value_start`).
fn find_value_start(b: &[char], key: &str) -> (res: Option<usize>)
    ensures
        match res {
            Some(v) => value_start(b@, key@) == Some(v as int) && v <= b@.len(),
            None => value_start(b@, key@) is None,
        },
{
    let blen = b.len();
    let k = chars_of(key);
    let mut pat: Vec<char> = Vec::new();
    pat.push('"');
    let mut i: usize = 0;
    while i < k.len()
        invariant
            i <= k@.len(),
            pat@ == seq!['"'] + k@.take(i as int),
        decreases k@.len() - i,
    {
        pat.push(k[i]);
        assert(k@.take(i + 1) =~= k@.take(i as int).push(k@[i as int]));
        i = i + 1;
    }
    pat.push('"');
    assert(k@.take(i as int) =~= k@);
    assert(pat@ =~= quoted(key@));
    let start = match find_chars(b, pat.as_slice(), 0) {
        None => {
            return None;
        },
        Some(p) => p,
    };
    proof {
        lemma_find_from(b@, quoted(key@), 0);
    }
    let colon: [char; 1] = [':'];
    assert(colon@ =~= seq![':']);
    match find_chars(b, colon.as_slice(), start + pat.len()) {
        None => None,
        Some(c) => {
            proof {
                lemma_find_from(b@, seq![':'], start + pat@.len());
            }
            Some(c + 1)
        },
    }
}

/// The string value of `key` in a JSON-like body: the text between the two
/// double quotes that follow the key's colon.
pub fn json_string_field(body: &str, key: &str) -> (res: Option<String>)
    ensures
        match res {
            Some(v) => string_field(body@, key@) == Some(v@),
            None => string_field(body@, key@) is None,
        },
{
    let b = chars_of(body);
    let blen = b.len();
    let v = match find_value_start(b.as_slice(), key) {
        None => {
            return None;
        },
        Some(v) => v,
    };
    let quote: [char; 1] = ['"'];
    assert(quote@ =~= seq!['"']);
    let q = match find_chars(b.as_slice(), quote.as_slice(), v) {
        None => {
            return None;
        },
        Some(q) => q,
    };
    proof {
        lemma_find_from(b@, seq!['"'], v as int);
    }
    let e = match find_chars(b.as_slice(), quote.as_slice(), q + 1) {
        None => {
            return None;
        },
        Some(e) => e,
    };
    proof {
        lemma_find_from(b@, seq!['"'], q + 1);
    }
    Some(string_of(b.as_slice(), q + 1, e))
}

/// The unsigned number value of `key` in a JSON-like body: the decimal digits
/// that follow the key's colon and any whitespace.
pub fn json_number_field(body: &str, key: &str) -> (res: Option<u64>)
    ensures
        match res {
            Some(n) => number_field(body@, key@) == Some(n as nat),
            None => number_field(body@, key@) is None,
        },
{
    let b = chars_of(body);
    let v = match find_value_start(b.as_slice(), key) {
        None => {
            return None;
        },
        Some(v) => v,
    };
    let blen = b.len();
    let lw = count_leading_ws(b.as_slice(), v);
    let start = v + lw;
    let ghost t = trim_start(b@.skip(v as int));
    assert(t =~= b@.skip(start as int));
    let mut i = start;
    let mut value: u64 = 0;
    while i < b.len() && '0' <= b[i] && b[i] <= '9'
        invariant
            start <= i <= b@.len(),
            t == b@.skip(start as int),
            b@ == body@,
            value_start(b@, key@) == Some(v as int),
            t == trim_start(b@.skip(v as int)),
            value as nat == digits_value(b@.subrange(start as int, i as int)),
            leading_digits(t) == (i - start) + leading_digits(b@.skip(i as int)),
        decreases b@.len() - i,
    {
        let ghost prefix = b@.subrange(start as int, i + 1);
        assert(prefix.drop_last() =~= b@.subrange(start as int, i as int));
        assert(prefix.last() == b@[i as int]);
        assert(b@.skip(i as int).drop_first() =~= b@.skip(i + 1));
        assert(b@.skip(i as int)[0] == b@[i as int]);
        let dv: u32 = (b[i] as u32) - 48;
        assert(digits_value(prefix) == value * 10 + dv);
        match value.checked_mul(10) {
            None => {
                proof {
                    lemma_digits_value_monotone(t, (i + 1 - start) as int);
                    assert(t.take(i + 1 - start) =~= prefix);
                }
                return None;
            },
            Some(m) => match m.checked_add(dv as u64) {
                None => {
                    proof {
                        lemma_digits_value_monotone(t, (i + 1 - start) as int);
                        assert(t.take(i + 1 - start) =~= prefix);
                    }
                    return None;
                },
                Some(n) => {
                    value = n;
                },
            },
        }
        i = i + 1;
    }
    assert(leading_digits(b@.skip(i as int)) == 0);
    assert(t.take(leading_digits(t) as int) =~= b@.subrange(start as int, i as int));
    if i == start {
        return None;
    }
    Some(value)
}

/// The value of a longer run of leading digits is at least that of a shorter one.
proof fn lemma_digits_value_monotone(t: Seq<char>, k: int)
    requires
        0 <= k <= leading_digits(t),
    ensures
        digits_value(t.take(k)) <= digits_value(t.take(leading_digits(t) as int)),
    decreases leading_digits(t) - k,
{
    lemma_leading_digits(t);
    if k < leading_digits(t) {
        lemma_digits_value_monotone(t, k + 1);
        assert(t.take(k + 1).drop_last() =~= t.take(k));
    }
}

proof fn lemma_leading_digits(t: Seq<char>)
    ensures
        leading_digits(t) <= t.len(),
    decreases t.len(),
{
    if t.len() > 0 && is_ascii_digit(t[0]) {
        lemma_leading_digits(t.drop_first());
    }
}

// ---------------------------------------------------------------------------
// Responses
// ---------------------------------------------------------------------------

/// The response `http_response(status, body)` sends: a JSON response that
/// announces the body's length in bytes and closes the connection.
pub open spec fn json_response_text(status: Seq<char>, body: &str) -> Seq<char> {
    "HTTP/1.1 "@ + status + "\r\nContent-Type: application/json\r\nContent-Length: "@ + decimal(
        body.len() as nat,
    ) + "\r\nConnection: close\r\n\r\n"@ + body@
}

/// An HTTP/1.1 response with a JSON body, its length in bytes, and
/// `Connection: close`.
pub fn http_response(status: &str, body: &str) -> (res: String)
    ensures
        res@ == json_response_text(status@, body),
{
    let mut res = String::from_str("HTTP/1.1 ");
    res.append(status);
    res.append("\r\nContent-Type: application/json\r\nContent-Length: ");
    push_decimal(&mut res, body.len() as u64);
    res.append("\r\nConnection: close\r\n\r\n");
    res.append(body);
    res
}

} // verus!
