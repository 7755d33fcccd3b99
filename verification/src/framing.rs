//! The `Content-Length` framing of LSP messages.
//!
//! A frame is a header, ended by an empty line (`\r\n\r\n`), that holds a
//! `Content-Length: N` field, followed by exactly `N` bytes of body.
use vstd::prelude::*;
use vstd::utf8::{decode_utf8, encode_utf8, valid_utf8};

use crate::error::{protocol, LspzError};
use crate::json::Json;
use crate::json_text::{json_from_slice, json_parse_of};
use crate::text::{
    all_ascii, ascii_lower_char, chars_of, decimal, is_digit, is_ws, lead_ws, lemma_decimal_digits,
    lemma_index_of_lf, lemma_parse_decimal, line_end, lowercase, parse_u64, parse_u64_range, push_str,
    push_u64, split_lines, string_of_range, strip_cr, to_lowercase, trail_ws, trim, trim_range,
};

verus! {

/// The largest body a frame may announce: 16 MB.
pub const MAX_BODY_SIZE: usize = 16777216;

/// `std::str::from_utf8`: the text of the bytes when they are valid UTF-8.
#[verifier::external_body]
fn utf8_text(b: &[u8]) -> (r: Option<String>)
    ensures
        match r {
            Some(s) => valid_utf8(b@) && s@ == decode_utf8(b@),
            None => !valid_utf8(b@),
        },
{
    match std::str::from_utf8(b) {
        Ok(s) => Some(s.to_owned()),
        Err(_) => None,
    }
}

/// `content-length:`, the field name as it reads after lowercasing.
pub open spec fn field_prefix() -> Seq<char> {
    seq!['c', 'o', 'n', 't', 'e', 'n', 't', '-', 'l', 'e', 'n', 'g', 't', 'h', ':']
}

/// The trimmed value of the first line that starts with the field name once
/// trimmed and lowercased.
pub open spec fn field_value(lines: Seq<Seq<char>>) -> Option<Seq<char>>
    decreases lines.len(),
{
    if lines.len() == 0 {
        None
    } else {
        let low = lowercase(trim(lines[0]));
        if low.len() >= 15 && low.take(15) == field_prefix() {
            Some(trim(low.skip(15)))
        } else {
            field_value(lines.drop_first())
        }
    }
}

/// What a header says of the body length.
pub enum LengthField {
    /// No line holds the field.
    Missing,
    /// The field's value, which is not a `u64`.
    Invalid(Seq<char>),
    /// The announced length.
    Length(int),
}

/// What the header text `h` says of the body length.
pub open spec fn length_field(h: Seq<char>) -> LengthField {
    match field_value(split_lines(h)) {
        None => LengthField::Missing,
        Some(v) => match parse_u64(v) {
            Some(n) => LengthField::Length(n),
            None => LengthField::Invalid(v),
        },
    }
}

/// The message of the error for a header without the field.
pub open spec fn missing_message() -> Seq<char> {
    "missing Content-Length header"@
}

/// The message of the error for a value that is not a `u64`.
pub open spec fn invalid_message(v: Seq<char>) -> Seq<char> {
    "invalid Content-Length: "@ + v
}

/// Whether `v[0..15]` is the lowercase field name.
fn starts_with_field(v: &Vec<char>) -> (r: bool)
    ensures
        r == (v@.len() >= 15 && v@.take(15) == field_prefix()),
{
    let expected: [char; 15] = [
        'c',
        'o',
        'n',
        't',
        'e',
        'n',
        't',
        '-',
        'l',
        'e',
        'n',
        'g',
        't',
        'h',
        ':',
    ];
    if v.len() < 15 {
        return false;
    }
    let mut i: usize = 0;
    while i < 15
        invariant
            0 <= i <= 15 <= v.len(),
            expected@ == field_prefix(),
            forall|k: int| 0 <= k < i ==> v@[k] == field_prefix()[k],
        decreases 15 - i,
    {
        if v[i] != expected[i] {
            proof {
                assert(v@.take(15)[i as int] != field_prefix()[i as int]);
            }
            return false;
        }
        i = i + 1;
    }
    proof {
        assert(v@.take(15) =~= field_prefix());
    }
    true
}

proof fn lemma_split_lines_step(s: Seq<char>, i: int)
    requires
        index_of_lf_is(s, i),
    ensures
        split_lines(s) == seq![strip_cr(s.take(i))] + split_lines(s.skip(i + 1)),
{
}

/// `index_of_lf(s) == Some(i)` with `i` in range.
pub open spec fn index_of_lf_is(s: Seq<char>, i: int) -> bool {
    &&& crate::text::index_of_lf(s) == Some(i)
    &&& 0 <= i < s.len()
}

/// Reads the body length from an LSP header: the first line that, trimmed and
/// lowercased, starts with `content-length:` gives the value after it,
/// trimmed, which must parse as a `u64`.
pub fn parse_content_length(header: &str) -> (r: Result<u64, LspzError>)
    ensures
        match length_field(header@) {
            LengthField::Missing => r matches Err(LspzError::Protocol(m)) && m@ == missing_message(),
            LengthField::Invalid(v) => r matches Err(LspzError::Protocol(m)) && m@
                == invalid_message(v),
            LengthField::Length(n) => r matches Ok(x) && x == n,
        },
{
    let v = chars_of(header);
    let mut p: usize = 0;
    proof {
        assert(v@.skip(0) =~= v@);
    }
    while p < v.len()
        invariant
            0 <= p <= v.len(),
            v@ == header@,
            field_value(split_lines(v@)) == field_value(split_lines(v@.skip(p as int))),
        decreases v.len() - p,
    {
        let e = line_end(&v, p);
        let ghost s = v@.skip(p as int);
        let mut le = e;
        if e < v.len() && e > p && v[e - 1] == '\r' {
            le = e - 1;
        }
        let ghost line = if e < v.len() {
            strip_cr(s.take(e - p))
        } else {
            s
        };
        proof {
            if e < v.len() {
                assert(index_of_lf_is(s, e - p));
                lemma_split_lines_step(s, e - p);
                if e > p && v@[e - 1] == '\r' {
                    assert(s.take(e - p).last() == v@[e - 1]);
                    assert(line =~= v@.subrange(p as int, le as int));
                } else {
                    assert(line =~= v@.subrange(p as int, le as int));
                }
            } else {
                assert(line =~= v@.subrange(p as int, le as int));
            }
            assert(split_lines(s).len() > 0 && split_lines(s)[0] == line) by {
                if e == v.len() {
                    assert(s.len() > 0);
                }
            }
        }
        let (a, b) = trim_range(&v, p, le);
        let t = string_of_range(&v, a, b);
        let low = to_lowercase(t.as_str());
        let lv = chars_of(low.as_str());
        if starts_with_field(&lv) {
            let (x, y) = trim_range(&lv, 15, lv.len());
            proof {
                assert(lv@.subrange(15, lv@.len() as int) =~= lv@.skip(15));
            }
            match parse_u64_range(&lv, x, y) {
                Some(n) => {
                    return Ok(n);
                },
                None => {
                    let mut msg = "invalid Content-Length: ".to_owned();
                    let val = string_of_range(&lv, x, y);
                    push_str(&mut msg, val.as_str());
                    return Err(LspzError::Protocol(msg));
                },
            }
        }
        proof {
            if e < v.len() {
                let rest = split_lines(s.skip(e - p + 1));
                assert((seq![line] + rest).drop_first() =~= rest);
                assert(s.skip(e - p + 1) =~= v@.skip(e + 1));
            } else {
                assert(split_lines(s) =~= seq![s]);
                assert(seq![s].drop_first() =~= Seq::<Seq<char>>::empty());
                assert(v@.skip(v@.len() as int) =~= Seq::<char>::empty());
            }
        }
        p = if e < v.len() {
            e + 1
        } else {
            v.len()
        };
    }
    proof {
        assert(v@.skip(p as int) =~= Seq::<char>::empty());
        assert(split_lines(Seq::<char>::empty()) =~= Seq::<Seq<char>>::empty());
    }
    Err(protocol("missing Content-Length header"))
}

/// Reads the body length from an LSP header (the same reading as
/// [`parse_content_length`]).
pub fn parse_content_length_from_header(header: &str) -> (r: Result<u64, LspzError>)
    ensures
        match length_field(header@) {
            LengthField::Missing => r matches Err(LspzError::Protocol(m)) && m@ == missing_message(),
            LengthField::Invalid(v) => r matches Err(LspzError::Protocol(m)) && m@
                == invalid_message(v),
            LengthField::Length(n) => r matches Ok(x) && x == n,
        },
{
    parse_content_length(header)
}


// ─── Frames ────────────────────────────────────────────────────────────────

/// Whether `b[i..i + 4]` is `\r\n\r\n`.
pub open spec fn is_terminator_at(b: Seq<u8>, i: int) -> bool {
    &&& 0 <= i
    &&& i + 4 <= b.len()
    &&& b[i] == 13
    &&& b[i + 1] == 10
    &&& b[i + 2] == 13
    &&& b[i + 3] == 10
}

/// The end of the first `\r\n\r\n` at or after `i`, if any.
pub open spec fn header_end_from(b: Seq<u8>, i: int) -> Option<int>
    decreases b.len() - i,
{
    if i < 0 || i + 4 > b.len() {
        None
    } else if is_terminator_at(b, i) {
        Some(i + 4)
    } else {
        header_end_from(b, i + 1)
    }
}

/// The end of the header: just after the first `\r\n\r\n`, if any.
pub open spec fn header_end(b: Seq<u8>) -> Option<int> {
    header_end_from(b, 0)
}

/// What reading a frame from the start of a buffer gives.
pub enum FrameParse {
    /// More bytes are needed.
    Incomplete,
    /// The frame is malformed; a protocol error with this message.
    Failed(Seq<char>),
    /// A body, and the number of bytes that the frame takes.
    Complete(Seq<u8>, int),
}

/// The message of the error for a body above the limit.
pub open spec fn too_large_message(n: int) -> Seq<char> {
    "body too large: "@ + decimal(n as nat) + " > "@ + decimal(MAX_BODY_SIZE as nat)
}

/// The message of the error for a header that is not UTF-8.
pub open spec fn not_utf8_message() -> Seq<char> {
    "header is not valid UTF-8"@
}

/// Reading the frame at the start of `b`.
pub open spec fn spec_parse_frame(b: Seq<u8>) -> FrameParse {
    match header_end(b) {
        None => FrameParse::Incomplete,
        Some(h) => if !valid_utf8(b.take(h)) {
            FrameParse::Failed(not_utf8_message())
        } else {
            match length_field(decode_utf8(b.take(h))) {
                LengthField::Missing => FrameParse::Failed(missing_message()),
                LengthField::Invalid(v) => FrameParse::Failed(invalid_message(v)),
                LengthField::Length(n) => if n > MAX_BODY_SIZE {
                    FrameParse::Failed(too_large_message(n))
                } else if b.len() < h + n {
                    FrameParse::Incomplete
                } else {
                    FrameParse::Complete(b.subrange(h, h + n), h + n)
                },
            }
        },
    }
}

/// The body of one frame.
#[derive(Debug)]
pub struct Frame {
    pub body: Vec<u8>,
}

/// A copy of `b[lo..hi]`.
fn copy_range(b: &[u8], lo: usize, hi: usize) -> (r: Vec<u8>)
    requires
        lo <= hi <= b@.len(),
    ensures
        r@ == b@.subrange(lo as int, hi as int),
{
    let mut r: Vec<u8> = Vec::new();
    let mut i = lo;
    while i < hi
        invariant
            lo <= i <= hi <= b@.len(),
            r@ == b@.subrange(lo as int, i as int),
        decreases hi - i,
    {
        r.push(b[i]);
        i = i + 1;
        assert(r@ =~= b@.subrange(lo as int, i as int));
    }
    r
}

/// The end of the first `\r\n\r\n` in `buf`, if any.
pub fn find_header_end(buf: &[u8]) -> (r: Option<usize>)
    ensures
        match r {
            Some(h) => header_end(buf@) == Some(h as int),
            None => header_end(buf@) is None,
        },
{
    let mut i: usize = 0;
    while i < buf.len() && buf.len() - i >= 4
        invariant
            0 <= i <= buf@.len(),
            header_end(buf@) == header_end_from(buf@, i as int),
        decreases buf.len() - i,
    {
        if buf[i] == 13 && buf[i + 1] == 10 && buf[i + 2] == 13 && buf[i + 3] == 10 {
            return Some(i + 4);
        }
        i = i + 1;
    }
    None
}

/// Reads the frame at the start of `buf`: `Ok(None)` when more bytes are
/// needed, else the body and the number of bytes the frame takes.
pub fn parse_frame(buf: &[u8]) -> (r: Result<Option<(Frame, usize)>, LspzError>)
    ensures
        match spec_parse_frame(buf@) {
            FrameParse::Incomplete => r matches Ok(None),
            FrameParse::Failed(m) => r matches Err(LspzError::Protocol(x)) && x@ == m,
            FrameParse::Complete(body, c) => r matches Ok(Some((f, n))) && f.body@ == body && n == c,
        },
{
    let h = match find_header_end(buf) {
        Some(h) => h,
        None => return Ok(None),
    };
    proof {
        assert(h <= buf@.len()) by {
            lemma_header_end_from_bound(buf@, 0);
        }
    }
    let hb = copy_range(buf, 0, h);
    proof {
        assert(hb@ =~= buf@.take(h as int));
    }
    let header = match utf8_text(hb.as_slice()) {
        Some(t) => t,
        None => return Err(protocol("header is not valid UTF-8")),
    };
    let n = parse_content_length(header.as_str())?;
    if n > 16777216u64 {
        let mut msg = "body too large: ".to_owned();
        push_u64(&mut msg, n);
        push_str(&mut msg, " > ");
        push_u64(&mut msg, 16777216u64);
        proof {
            assert(msg@ =~= too_large_message(n as int));
        }
        return Err(LspzError::Protocol(msg));
    }
    if buf.len() - h < n as usize {
        return Ok(None);
    }
    let total = h + n as usize;
    let body = copy_range(buf, h, total);
    Ok(Some((Frame { body }, total)))
}

proof fn lemma_header_end_from_bound(b: Seq<u8>, i: int)
    ensures
        header_end_from(b, i) matches Some(h) ==> 4 <= h <= b.len(),
    decreases b.len() - i,
{
    if !(i < 0 || i + 4 > b.len()) && !is_terminator_at(b, i) {
        lemma_header_end_from_bound(b, i + 1);
    }
}

/// The header of a frame whose body has `n` bytes.
pub open spec fn frame_header(n: nat) -> Seq<char> {
    "Content-Length: "@ + decimal(n) + "\r\n\r\n"@
}

/// Frames a body: `Content-Length: N\r\n\r\n` followed by the body.
pub fn serialize_frame(body: &[u8]) -> (r: Vec<u8>)
    ensures
        r@ == encode_utf8(frame_header(body@.len())) + body@,
{
    let mut h = "Content-Length: ".to_owned();
    push_u64(&mut h, body.len() as u64);
    push_str(&mut h, "\r\n\r\n");
    let hb = h.as_str().as_bytes();
    let mut out = copy_range(hb, 0, hb.len());
    let mut i: usize = 0;
    let ghost start = out@;
    proof {
        assert(start =~= hb@);
    }
    while i < body.len()
        invariant
            0 <= i <= body@.len(),
            start == encode_utf8(h@),
            out@ == start + body@.take(i as int),
        decreases body.len() - i,
    {
        out.push(body[i]);
        i = i + 1;
        assert(out@ =~= start + body@.take(i as int));
    }
    proof {
        assert(body@.take(i as int) =~= body@);
        assert(h@ =~= frame_header(body@.len()));
    }
    out
}

/// The first `\r\n\r\n` found from `i` on is the one at `k`.
proof fn lemma_header_end_at(b: Seq<u8>, i: int, k: int)
    requires
        0 <= i <= k,
        is_terminator_at(b, k),
        forall|j: int| i <= j < k ==> !is_terminator_at(b, j),
    ensures
        header_end_from(b, i) == Some(k + 4),
    decreases k - i,
{
    if i < k {
        lemma_header_end_at(b, i + 1, k);
    }
}

/// The line of a frame header: `Content-Length: N`.
pub open spec fn length_line(n: nat) -> Seq<char> {
    "Content-Length: "@ + decimal(n)
}

/// The header of a body of `n` bytes is its length line and an empty line;
/// every character of it is ASCII, and only the line ends are `\r` or `\n`.
proof fn lemma_frame_header_shape(n: nat)
    ensures
        frame_header(n) == length_line(n) + seq!['\r', '\n', '\r', '\n'],
        length_line(n).len() == 16 + decimal(n).len(),
        forall|i: int| 0 <= i < length_line(n).len() ==> (#[trigger] length_line(n)[i] as u32) < 128
            && '\0' <= length_line(n)[i] <= '\u{7f}' && length_line(n)[i] != '\r' && length_line(n)[i] != '\n',
        forall|i: int| 16 <= i < length_line(n).len() ==> is_digit(#[trigger] length_line(n)[i]),
        length_line(n)[0] == 'C',
{
    reveal_strlit("Content-Length: ");
    reveal_strlit("\r\n\r\n");
    lemma_decimal_digits(n);
    let l = length_line(n);
    let d = decimal(n);
    assert(frame_header(n) =~= l + seq!['\r', '\n', '\r', '\n']);
    assert forall|i: int| 16 <= i < l.len() implies is_digit(#[trigger] l[i]) by {
        assert(l[i] == d[i - 16]);
    }
    assert forall|i: int| 0 <= i < l.len() implies (#[trigger] l[i] as u32) < 128 && '\0' <= l[i] <= '\u{7f}' && l[i] != '\r' && l[i] != '\n' by {
        if i >= 16 {
            assert(l[i] == d[i - 16]);
            assert(is_digit(d[i - 16]));
        }
    }
}

/// The lines of a frame header: the length line, then an empty line.
proof fn lemma_header_lines(n: nat)
    ensures
        split_lines(frame_header(n)) == seq![length_line(n), Seq::<char>::empty()],
{
    lemma_frame_header_shape(n);
    let l = length_line(n);
    let h = frame_header(n);
    let k = l.len() as int;
    assert forall|j: int| 0 <= j < k + 1 implies h[j] != '\n' by {
        if j < k {
            assert(h[j] == l[j]);
        }
    }
    lemma_index_of_lf(h, k + 1);
    assert(h.take(k + 1) =~= l.push('\r'));
    assert(strip_cr(h.take(k + 1)) =~= l);
    let t = h.skip(k + 2);
    assert(t =~= seq!['\r', '\n']);
    lemma_index_of_lf(t, 1);
    assert(t.take(1) =~= seq!['\r']);
    assert(strip_cr(t.take(1)) =~= Seq::<char>::empty());
    assert(t.skip(2) =~= Seq::<char>::empty());
    assert(split_lines(t.skip(2)) =~= Seq::<Seq<char>>::empty());
    assert(split_lines(t) =~= seq![Seq::<char>::empty()]);
    assert(split_lines(h) =~= seq![l] + split_lines(t));
}

/// A frame header announces the length of its body.
proof fn lemma_header_length(n: nat)
    requires
        n <= u64::MAX,
    ensures
        length_field(frame_header(n)) == LengthField::Length(n as int),
{
    lemma_header_lines(n);
    lemma_frame_header_shape(n);
    reveal_strlit("Content-Length: ");
    let l = length_line(n);
    let d = decimal(n);
    lemma_decimal_digits(n);
    // The line has no surrounding whitespace.
    assert(!is_ws(l[0]));
    assert(lead_ws(l) == 0);
    assert(l.last() == l[l.len() - 1]);
    assert(is_digit(l[l.len() - 1]));
    assert(!is_ws(l.last()));
    assert(trail_ws(l) == 0);
    assert(trim(l) =~= l);
    // Lowercased, it starts with the field name, followed by a space and the digits.
    assert(all_ascii(l));
    let low = lowercase(l);
    assert(low =~= Seq::new(l.len(), |i: int| ascii_lower_char(l[i])));
    assert(low.take(15) =~= field_prefix()) by {
        assert forall|i: int| 0 <= i < 15 implies low[i] == field_prefix()[i] by {
            assert(low[i] == ascii_lower_char(l[i]));
        }
    }
    let v = low.skip(15);
    assert(v[0] == ' ');
    assert forall|i: int| 1 <= i < v.len() implies v[i] == d[i - 1] by {
        assert(v[i] == low[i + 15]);
        assert(l[i + 15] == d[i - 1]);
        assert(is_digit(d[i - 1]));
    }
    assert(v.drop_first() =~= d);
    assert(is_ws(v[0]));
    assert(lead_ws(v.drop_first()) == 0) by {
        assert(is_digit(d[0]));
    }
    assert(lead_ws(v) == 1);
    let t = v.skip(1);
    assert(t =~= d);
    assert(t.last() == d[d.len() - 1]);
    assert(trail_ws(t) == 0) by {
        assert(is_digit(d[d.len() - 1]));
    }
    assert(trim(v) =~= d);
    assert(field_value(split_lines(frame_header(n))) == Some(d)) by {
        let ls = seq![l, Seq::<char>::empty()];
        assert(ls[0] == l);
    }
    lemma_parse_decimal(n);
}

/// What a read gives back of a write: a frame written for a body, followed by
/// any further bytes, reads as that body, and the frame takes exactly the
/// bytes written for it.
pub proof fn lemma_frame_roundtrip(body: Seq<u8>, rest: Seq<u8>)
    requires
        body.len() <= MAX_BODY_SIZE,
    ensures
        spec_parse_frame(encode_utf8(frame_header(body.len())) + body + rest) == FrameParse::Complete(
            body,
            (encode_utf8(frame_header(body.len())).len() + body.len()) as int,
        ),
{
    let n = body.len();
    let h = frame_header(n);
    lemma_frame_header_shape(n);
    lemma_header_length(n);
    let l = length_line(n);
    assert(vstd::utf8::is_ascii_chars(h)) by {
        assert forall|i: int| 0 <= i < h.len() implies '\0' <= #[trigger] h[i] <= '\u{7f}' by {
            if i < l.len() {
                assert(h[i] == l[i]);
                assert('\0' <= l[i] <= '\u{7f}');
            } else {
                assert(h[i] == seq!['\r', '\n', '\r', '\n'][i - l.len()]);
            }
        }
    }
    vstd::utf8::is_ascii_chars_encode_utf8(h);
    vstd::utf8::encode_utf8_valid_utf8(h);
    vstd::utf8::encode_utf8_decode_utf8(h);
    let hb = encode_utf8(h);
    let b = hb + body + rest;
    let k = l.len() as int;
    assert(hb.len() == k + 4);
    assert forall|j: int| 0 <= j < k implies !is_terminator_at(b, j) by {
        assert(b[j] == hb[j]);
        assert(h[j] == l[j]);
        assert(hb[j] == h[j] as u8);
        assert(l[j] != '\r');
        assert((l[j] as u32) < 128);
    }
    assert(is_terminator_at(b, k)) by {
        assert(b[k] == hb[k] && hb[k] == h[k] as u8);
        assert(b[k + 1] == hb[k + 1] && hb[k + 1] == h[k + 1] as u8);
        assert(b[k + 2] == hb[k + 2] && hb[k + 2] == h[k + 2] as u8);
        assert(b[k + 3] == hb[k + 3] && hb[k + 3] == h[k + 3] as u8);
    }
    lemma_header_end_at(b, 0, k);
    assert(b.take(k + 4) =~= hb);
    assert(b.subrange(k + 4, k + 4 + n) =~= body);
}

/// Where the first terminator is found at or after `i`, no terminator comes
/// before it.
proof fn lemma_header_end_from_first(b: Seq<u8>, i: int)
    ensures
        header_end_from(b, i) matches Some(h) ==> is_terminator_at(b, h - 4) && i <= h - 4 && forall|
            j: int,
        |
            i <= j < h - 4 ==> !#[trigger] is_terminator_at(b, j),
    decreases b.len() - i,
{
    if !(i < 0 || i + 4 > b.len()) && !is_terminator_at(b, i) {
        lemma_header_end_from_first(b, i + 1);
    }
}

/// With no terminator at or after `i`, none is found.
proof fn lemma_no_terminator(b: Seq<u8>, i: int)
    requires
        forall|j: int| i <= j ==> !#[trigger] is_terminator_at(b, j),
    ensures
        header_end_from(b, i) is None,
    decreases b.len() - i,
{
    if !(i < 0 || i + 4 > b.len()) {
        lemma_no_terminator(b, i + 1);
    }
}

/// Reading a frame that arrives in two pieces: the first piece alone is an
/// incomplete frame (so a reader keeps it and returns nothing), and the two
/// pieces together read as the frame's body, taking all of their bytes.
pub proof fn lemma_frame_streaming(body: Seq<u8>, a: Seq<u8>, b: Seq<u8>)
    requires
        body.len() <= MAX_BODY_SIZE,
        a + b == encode_utf8(frame_header(body.len())) + body,
        a.len() < (a + b).len(),
    ensures
        spec_parse_frame(a) == FrameParse::Incomplete,
        spec_parse_frame(a + b) == FrameParse::Complete(body, (a + b).len() as int),
{
    let f = a + b;
    let hb = encode_utf8(frame_header(body.len()));
    lemma_frame_roundtrip(body, Seq::empty());
    assert(hb + body + Seq::<u8>::empty() =~= f);
    let h = header_end(f).unwrap();
    lemma_header_end_from_first(f, 0);
    let n = body.len() as int;
    assert(h == hb.len());
    assert forall|j: int| 0 <= j && #[trigger] is_terminator_at(a, j) implies is_terminator_at(f, j) by {
        assert(a[j] == f[j] && a[j + 1] == f[j + 1] && a[j + 2] == f[j + 2] && a[j + 3] == f[j + 3]);
    }
    if a.len() < h {
        assert forall|j: int| 0 <= j implies !#[trigger] is_terminator_at(a, j) by {
            if is_terminator_at(a, j) {
                assert(is_terminator_at(f, j));
                assert(j < h - 4);
            }
        }
        lemma_no_terminator(a, 0);
    } else {
        assert(is_terminator_at(a, h - 4)) by {
            assert(a[h - 4] == f[h - 4] && a[h - 3] == f[h - 3] && a[h - 2] == f[h - 2] && a[h - 1] == f[h - 1]);
        }
        assert forall|j: int| 0 <= j < h - 4 implies !#[trigger] is_terminator_at(a, j) by {
            if is_terminator_at(a, j) {
                assert(is_terminator_at(f, j));
            }
        }
        lemma_header_end_at(a, 0, h - 4);
        assert(a.take(h) =~= f.take(h));
    }
}

/// Reassembles frames from bytes that arrive in pieces.
pub struct FrameReader {
    buffer: Vec<u8>,
}

impl View for FrameReader {
    type V = Seq<u8>;

    /// The bytes received and not yet taken by a frame.
    closed spec fn view(&self) -> Seq<u8> {
        self.buffer@
    }
}

impl FrameReader {
    /// A reader with nothing buffered.
    pub fn new() -> (r: FrameReader)
        ensures
            r@ == Seq::<u8>::empty(),
    {
        FrameReader { buffer: Vec::new() }
    }

    /// Appends `data` to the buffered bytes and takes the frame at their
    /// start, if complete: its bytes leave the buffer and its body is read as
    /// JSON (a JSON parse error when it is not JSON). When the frame is
    /// incomplete or malformed the buffer keeps all the bytes.
    pub fn feed(&mut self, data: &[u8]) -> (r: Result<Option<Json>, LspzError>)
        ensures
            match spec_parse_frame(old(self)@ + data@) {
                FrameParse::Incomplete => r matches Ok(None) && final(self)@ == old(self)@ + data@,
                FrameParse::Failed(m) => r matches Err(LspzError::Protocol(x)) && x@ == m
                    && final(self)@ == old(self)@ + data@,
                FrameParse::Complete(body, c) => final(self)@ == (old(self)@ + data@).skip(c)
                    && match json_parse_of(body) {
                    Ok(v) => r matches Ok(Some(j)) && j@ == v,
                    Err(m) => r matches Err(LspzError::JsonParse(x)) && x@ == m,
                },
            },
    {
        let ghost all = self.buffer@ + data@;
        let mut i: usize = 0;
        while i < data.len()
            invariant
                0 <= i <= data@.len(),
                all == old(self)@ + data@,
                self.buffer@ == old(self)@ + data@.take(i as int),
            decreases data.len() - i,
        {
            self.buffer.push(data[i]);
            i = i + 1;
            assert(self.buffer@ =~= old(self)@ + data@.take(i as int));
        }
        proof {
            assert(data@.take(i as int) =~= data@);
        }
        match parse_frame(self.buffer.as_slice()) {
            Err(e) => Err(e),
            Ok(None) => Ok(None),
            Ok(Some((frame, consumed))) => {
                let rest = copy_range(self.buffer.as_slice(), consumed, self.buffer.len());
                self.buffer = rest;
                proof {
                    assert(self.buffer@ =~= all.skip(consumed as int));
                }
                match json_from_slice(frame.body.as_slice()) {
                    Ok(j) => Ok(Some(j)),
                    Err(e) => Err(e),
                }
            },
        }
    }
}

impl Default for FrameReader {
    fn default() -> (r: FrameReader)
        ensures
            r@ == Seq::<u8>::empty(),
    {
        FrameReader::new()
    }
}

} // verus!
