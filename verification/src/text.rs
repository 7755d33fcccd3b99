//! Text helpers on strings and their character sequences: building strings,
//! whitespace and trimming, lines, decimal numbers, case and substrings.
use vstd::prelude::*;
use vstd::string::StringSliceAdditionalSpecFns;

use crate::init::join_lines;

verus! {

/// Appends one character to a string (`String::push`).
#[verifier::external_body]
pub(crate) fn push_char(s: &mut String, c: char)
    ensures
        final(s)@ == old(s)@.push(c),
{
    s.push(c);
}

/// The characters of a string slice, in order.
pub fn chars_of(s: &str) -> (v: Vec<char>)
    ensures
        v@ == s@,
{
    let mut v: Vec<char> = Vec::new();
    for c in it: s.chars()
        invariant
            v@ == it.seq().take(it.index() as int),
    {
        v.push(c);
    }
    v
}

/// Whether two string slices hold the same characters, compared byte by byte
/// (a string's bytes are the UTF-8 encoding of its characters).
pub(crate) fn str_eq(a: &str, b: &str) -> (r: bool)
    ensures
        r == (a@ == b@),
{
    let x = a.as_bytes();
    let y = b.as_bytes();
    proof {
        vstd::utf8::encode_utf8_decode_utf8(a@);
        vstd::utf8::encode_utf8_decode_utf8(b@);
    }
    if x.len() != y.len() {
        return false;
    }
    let mut i: usize = 0;
    while i < x.len()
        invariant
            0 <= i <= x@.len(),
            x@.len() == y@.len(),
            x@ == vstd::utf8::encode_utf8(a@),
            y@ == vstd::utf8::encode_utf8(b@),
            forall|j: int| 0 <= j < i ==> x@[j] == y@[j],
        decreases x.len() - i,
    {
        if x[i] != y[i] {
            return false;
        }
        i = i + 1;
    }
    proof {
        assert(x@ =~= y@);
    }
    true
}

/// Appends a string slice to a string.
pub fn push_str(s: &mut String, t: &str)
    ensures
        final(s)@ == old(s)@ + t@,
{
    s.append(t);
}

/// A string holding the given characters.
pub fn string_of(v: &[char]) -> (r: String)
    ensures
        r@ == v@,
{
    let mut r = String::new();
    let mut i: usize = 0;
    while i < v.len()
        invariant
            0 <= i <= v.len(),
            r@ == v@.take(i as int),
        decreases v.len() - i,
    {
        push_char(&mut r, v[i]);
        i = i + 1;
        assert(r@ =~= v@.take(i as int));
    }
    assert(v@.take(i as int) =~= v@);
    r
}

/// A string holding the characters `v[lo..hi]`.
pub fn string_of_range(v: &Vec<char>, lo: usize, hi: usize) -> (r: String)
    requires
        lo <= hi <= v.len(),
    ensures
        r@ == v@.subrange(lo as int, hi as int),
{
    let mut r = String::new();
    let mut i: usize = lo;
    while i < hi
        invariant
            lo <= i <= hi <= v.len(),
            r@ == v@.subrange(lo as int, i as int),
        decreases hi - i,
    {
        push_char(&mut r, v[i]);
        i = i + 1;
        assert(r@ =~= v@.subrange(lo as int, i as int));
    }
    r
}

// ─── Whitespace and trimming ───────────────────────────────────────────────

/// Whether a character has the Unicode `White_Space` property (what
/// `char::is_whitespace` tests).
pub open spec fn is_ws(c: char) -> bool {
    let n = c as u32;
    ||| 0x9 <= n <= 0xd
    ||| n == 0x20
    ||| n == 0x85
    ||| n == 0xa0
    ||| n == 0x1680
    ||| 0x2000 <= n <= 0x200a
    ||| n == 0x2028
    ||| n == 0x2029
    ||| n == 0x202f
    ||| n == 0x205f
    ||| n == 0x3000
}

/// Whether a character is whitespace.
pub fn is_whitespace(c: char) -> (r: bool)
    ensures
        r == is_ws(c),
{
    let n = c as u32;
    (0x9 <= n && n <= 0xd) || n == 0x20 || n == 0x85 || n == 0xa0 || n == 0x1680 || (0x2000 <= n
        && n <= 0x200a) || n == 0x2028 || n == 0x2029 || n == 0x202f || n == 0x205f || n == 0x3000
}

/// The number of whitespace characters at the start of `s`.
pub open spec fn lead_ws(s: Seq<char>) -> nat
    decreases s.len(),
{
    if s.len() > 0 && is_ws(s[0]) {
        1 + lead_ws(s.drop_first())
    } else {
        0
    }
}

/// The number of whitespace characters at the end of `s`.
pub open spec fn trail_ws(s: Seq<char>) -> nat
    decreases s.len(),
{
    if s.len() > 0 && is_ws(s.last()) {
        1 + trail_ws(s.drop_last())
    } else {
        0
    }
}

/// `s` without leading and trailing whitespace (what `str::trim` returns).
pub open spec fn trim(s: Seq<char>) -> Seq<char> {
    let t = s.skip(lead_ws(s) as int);
    t.take(t.len() - trail_ws(t))
}

pub(crate) proof fn lemma_lead_ws_bound(s: Seq<char>)
    ensures
        lead_ws(s) <= s.len(),
    decreases s.len(),
{
    if s.len() > 0 && is_ws(s[0]) {
        lemma_lead_ws_bound(s.drop_first());
    }
}

pub(crate) proof fn lemma_trail_ws_bound(s: Seq<char>)
    ensures
        trail_ws(s) <= s.len(),
    decreases s.len(),
{
    if s.len() > 0 && is_ws(s.last()) {
        lemma_trail_ws_bound(s.drop_last());
    }
}

/// The bounds of `v[lo..hi]` with leading and trailing whitespace removed.
pub fn trim_range(v: &Vec<char>, lo: usize, hi: usize) -> (r: (usize, usize))
    requires
        lo <= hi <= v.len(),
    ensures
        lo <= r.0 <= r.1 <= hi,
        v@.subrange(r.0 as int, r.1 as int) == trim(v@.subrange(lo as int, hi as int)),
{
    let ghost s = v@.subrange(lo as int, hi as int);
    let mut a: usize = lo;
    while a < hi && is_whitespace(v[a])
        invariant
            lo <= a <= hi <= v.len(),
            s == v@.subrange(lo as int, hi as int),
            lead_ws(s) == (a - lo) + lead_ws(v@.subrange(a as int, hi as int)),
        decreases hi - a,
    {
        proof {
            assert(v@.subrange(a as int, hi as int).drop_first() =~= v@.subrange(a + 1, hi as int));
        }
        a = a + 1;
    }
    proof {
        assert(lead_ws(v@.subrange(a as int, hi as int)) == 0);
        assert(s.skip(lead_ws(s) as int) =~= v@.subrange(a as int, hi as int));
    }
    let ghost t = v@.subrange(a as int, hi as int);
    let mut b: usize = hi;
    while b > a && is_whitespace(v[b - 1])
        invariant
            lo <= a <= b <= hi <= v.len(),
            t == v@.subrange(a as int, hi as int),
            trail_ws(t) == (hi - b) + trail_ws(v@.subrange(a as int, b as int)),
        decreases b - a,
    {
        proof {
            assert(v@.subrange(a as int, b as int).drop_last() =~= v@.subrange(a as int, b - 1));
        }
        b = b - 1;
    }
    proof {
        assert(trail_ws(v@.subrange(a as int, b as int)) == 0);
        assert(t.take(t.len() - trail_ws(t)) =~= v@.subrange(a as int, b as int));
    }
    (a, b)
}

// ─── Lines ─────────────────────────────────────────────────────────────────

/// The index of the first line feed in `s`, if any.
pub open spec fn index_of_lf(s: Seq<char>) -> Option<int>
    decreases s.len(),
{
    if s.len() == 0 {
        None
    } else if s[0] == '\n' {
        Some(0)
    } else {
        match index_of_lf(s.drop_first()) {
            Some(i) => Some(i + 1),
            None => None,
        }
    }
}

/// A line without one trailing carriage return.
pub open spec fn strip_cr(l: Seq<char>) -> Seq<char> {
    if l.len() > 0 && l.last() == '\r' {
        l.drop_last()
    } else {
        l
    }
}

/// The lines of `s`, as `str::lines` gives them: split at each `\n`, a `\r`
/// before that `\n` removed, no empty line after a final line ending.
pub open spec fn split_lines(s: Seq<char>) -> Seq<Seq<char>>
    decreases s.len(),
{
    match index_of_lf(s) {
        None => if s.len() == 0 {
            Seq::empty()
        } else {
            seq![s]
        },
        Some(i) => if 0 <= i < s.len() {
            seq![strip_cr(s.take(i))] + split_lines(s.skip(i + 1))
        } else {
            Seq::empty()
        },
    }
}

pub(crate) proof fn lemma_index_of_lf(s: Seq<char>, i: int)
    requires
        0 <= i <= s.len(),
        forall|k: int| 0 <= k < i ==> s[k] != '\n',
    ensures
        i < s.len() && s[i] == '\n' ==> index_of_lf(s) == Some(i),
        i == s.len() ==> index_of_lf(s) is None,
    decreases i,
{
    if i > 0 {
        lemma_index_of_lf(s.drop_first(), i - 1);
    }
}

/// The end of the line that starts at `p`: the index of the next line feed,
/// or the length when there is none.
pub fn line_end(v: &Vec<char>, p: usize) -> (r: usize)
    requires
        p <= v.len(),
    ensures
        p <= r <= v.len(),
        r < v.len() ==> index_of_lf(v@.skip(p as int)) == Some(r - p),
        r == v.len() ==> index_of_lf(v@.skip(p as int)) is None,
{
    let mut e: usize = p;
    while e < v.len() && v[e] != '\n'
        invariant
            p <= e <= v.len(),
            forall|k: int| p <= k < e ==> v@[k] != '\n',
        decreases v.len() - e,
    {
        e = e + 1;
    }
    proof {
        let s = v@.skip(p as int);
        assert forall|k: int| 0 <= k < e - p implies s[k] != '\n' by {
            assert(s[k] == v@[p + k]);
        }
        lemma_index_of_lf(s, e - p);
    }
    e
}

// ─── Numbers ───────────────────────────────────────────────────────────────

/// Whether a character is an ASCII digit.
pub open spec fn is_digit(c: char) -> bool {
    '0' <= c <= '9'
}

/// The value of a sequence of decimal digits.
pub open spec fn digits_value(s: Seq<char>) -> int
    decreases s.len(),
{
    if s.len() == 0 {
        0
    } else {
        digits_value(s.drop_last()) * 10 + (s.last() as int - '0' as int)
    }
}

/// The digits that `u64::from_str` reads: an optional `+`, then the rest.
pub open spec fn unsigned_digits(s: Seq<char>) -> Seq<char> {
    if s.len() > 0 && s[0] == '+' {
        s.drop_first()
    } else {
        s
    }
}

/// What `u64::from_str` gives for `s`: an optional `+` followed by one or more
/// ASCII digits whose value fits in 64 bits.
pub open spec fn parse_u64(s: Seq<char>) -> Option<int> {
    let d = unsigned_digits(s);
    if d.len() > 0 && (forall|i: int| 0 <= i < d.len() ==> is_digit(#[trigger] d[i])) && digits_value(d)
        <= u64::MAX {
        Some(digits_value(d))
    } else {
        None
    }
}

proof fn lemma_digits_value_monotone(s: Seq<char>, i: int)
    requires
        0 <= i <= s.len(),
        forall|k: int| 0 <= k < s.len() ==> is_digit(#[trigger] s[k]),
    ensures
        0 <= digits_value(s.take(i)) <= digits_value(s),
    decreases s.len() - i,
{
    if i < s.len() {
        lemma_digits_value_monotone(s, i + 1);
        assert(s.take(i + 1).drop_last() =~= s.take(i));
        let v = digits_value(s.take(i));
        assert(v * 10 >= v) by (nonlinear_arith)
            requires
                v >= 0,
        ;
    } else {
        assert(s.take(i) =~= s);
        lemma_digits_value_nonneg(s);
    }
}

proof fn lemma_digits_value_nonneg(s: Seq<char>)
    requires
        forall|k: int| 0 <= k < s.len() ==> is_digit(#[trigger] s[k]),
    ensures
        digits_value(s) >= 0,
    decreases s.len(),
{
    if s.len() > 0 {
        let p = s.drop_last();
        assert forall|k: int| 0 <= k < p.len() implies is_digit(#[trigger] p[k]) by {
            assert(p[k] == s[k]);
        }
        lemma_digits_value_nonneg(p);
    }
}

/// Parses `v[lo..hi]` as `u64::from_str` does.
pub fn parse_u64_range(v: &Vec<char>, lo: usize, hi: usize) -> (r: Option<u64>)
    requires
        lo <= hi <= v.len(),
    ensures
        match r {
            Some(n) => parse_u64(v@.subrange(lo as int, hi as int)) == Some(n as int),
            None => parse_u64(v@.subrange(lo as int, hi as int)) is None,
        },
{
    let ghost s = v@.subrange(lo as int, hi as int);
    let mut start = lo;
    if lo < hi && v[lo] == '+' {
        start = lo + 1;
    }
    let ghost d = v@.subrange(start as int, hi as int);
    proof {
        assert(unsigned_digits(s) =~= d);
    }
    if start == hi {
        return None;
    }
    let mut acc: u64 = 0;
    let mut i: usize = start;
    while i < hi
        invariant
            lo <= start <= i <= hi <= v.len(),
            d == v@.subrange(start as int, hi as int),
            s == v@.subrange(lo as int, hi as int),
            unsigned_digits(s) == d,
            forall|k: int| 0 <= k < i - start ==> is_digit(#[trigger] d[k]),
            acc as int == digits_value(d.take(i - start)),
        decreases hi - i,
    {
        let c = v[i];
        if !('0' <= c && c <= '9') {
            proof {
                assert(d[i - start] == c);
            }
            return None;
        }
        let dv: u64 = (c as u32 - '0' as u32) as u64;
        proof {
            assert(d.take(i - start + 1).drop_last() =~= d.take(i - start));
            assert(d.take(i - start + 1).last() == c);
        }
        let fits = acc <= 1844674407370955161u64 && (acc < 1844674407370955161u64 || dv <= 5);
        if !fits {
            proof {
                let k = i - start + 1;
                assert(digits_value(d.take(k)) > u64::MAX);
                if forall|j: int| 0 <= j < d.len() ==> is_digit(#[trigger] d[j]) {
                    lemma_digits_value_monotone(d, k);
                }
            }
            return None;
        }
        acc = acc * 10 + dv;
        i = i + 1;
    }
    proof {
        assert(d.take(i - start) =~= d);
    }
    Some(acc)
}


/// The ASCII digit of a number below ten.
pub open spec fn digit_char(d: int) -> char {
    ('0' as int + d) as char
}

/// The decimal text of a natural number, without leading zeros.
pub open spec fn decimal(n: nat) -> Seq<char>
    decreases n,
{
    if n < 10 {
        seq![digit_char(n as int)]
    } else {
        decimal(n / 10).push(digit_char((n % 10) as int))
    }
}

/// The decimal text of an integer, with a leading `-` when negative.
pub open spec fn signed_decimal(n: int) -> Seq<char> {
    if n < 0 {
        seq!['-'] + decimal((-n) as nat)
    } else {
        decimal(n as nat)
    }
}

/// The decimal text of a number is a non-empty run of digits whose value is
/// the number.
pub proof fn lemma_decimal_digits(n: nat)
    ensures
        decimal(n).len() > 0,
        forall|i: int| 0 <= i < decimal(n).len() ==> is_digit(#[trigger] decimal(n)[i]),
        digits_value(decimal(n)) == n,
    decreases n,
{
    if n < 10 {
        assert(digit_char(n as int) as int == '0' as int + n);
        let t = seq![digit_char(n as int)];
        assert(t.drop_last() =~= Seq::<char>::empty());
        assert(digits_value(Seq::<char>::empty()) == 0);
        assert(digits_value(t) == digits_value(t.drop_last()) * 10 + (t.last() as int - '0' as int));
        assert(decimal(n) == t);
    } else {
        lemma_decimal_digits(n / 10);
        let d = (n % 10) as int;
        let s = decimal(n / 10);
        let t = s.push(digit_char(d));
        assert(digit_char(d) as int == '0' as int + d);
        assert(t.drop_last() =~= s);
        assert forall|i: int| 0 <= i < t.len() implies is_digit(#[trigger] t[i]) by {
            if i < s.len() {
                assert(t[i] == s[i]);
            }
        }
        assert(digits_value(t) == digits_value(s) * 10 + d);
        assert((n / 10) * 10 + n % 10 == n) by (nonlinear_arith);
        assert(decimal(n) == t);
    }
}

/// The decimal text of a 64-bit number reads back as the number.
pub proof fn lemma_parse_decimal(n: nat)
    requires
        n <= u64::MAX,
    ensures
        parse_u64(decimal(n)) == Some(n as int),
{
    lemma_decimal_digits(n);
    let d = decimal(n);
    assert(d[0] != '+') by {
        assert(is_digit(d[0]));
    }
    assert(unsigned_digits(d) == d);
}

/// Appends the decimal text of `n`.
pub fn push_u64(s: &mut String, n: u64)
    ensures
        final(s)@ == old(s)@ + decimal(n as nat),
    decreases n,
{
    if n >= 10 {
        push_u64(s, n / 10);
    }
    let d: u32 = (n % 10) as u32;
    let c = char_of_digit(d);
    push_char(s, c);
    proof {
        if n >= 10 {
            assert(old(s)@ + decimal(n as nat) =~= (old(s)@ + decimal((n / 10) as nat)).push(c));
        } else {
            assert(old(s)@ + decimal(n as nat) =~= old(s)@.push(c));
        }
    }
}

/// The ASCII digit of `d` (below ten).
fn char_of_digit(d: u32) -> (c: char)
    requires
        d < 10,
    ensures
        c == digit_char(d as int),
{
    if d == 0 { '0' } else if d == 1 { '1' } else if d == 2 { '2' } else if d == 3 { '3' } else if d == 4 {
        '4'
    } else if d == 5 { '5' } else if d == 6 { '6' } else if d == 7 { '7' } else if d == 8 { '8' } else { '9' }
}

/// Appends the decimal text of a signed number.
pub fn push_i64(s: &mut String, n: i64)
    ensures
        final(s)@ == old(s)@ + signed_decimal(n as int),
{
    if n < 0 {
        push_char(s, '-');
        let m: u64 = if n == i64::MIN {
            9223372036854775808u64
        } else {
            (-n) as u64
        };
        push_u64(s, m);
        proof {
            assert(old(s)@ + signed_decimal(n as int) =~= old(s)@.push('-') + decimal(m as nat));
        }
    } else {
        push_u64(s, n as u64);
    }
}


// ─── Case ──────────────────────────────────────────────────────────────────

/// What `str::to_lowercase` gives for a text.
pub uninterp spec fn unicode_lowercase(s: Seq<char>) -> Seq<char>;

/// Whether every character of `s` is ASCII.
pub open spec fn all_ascii(s: Seq<char>) -> bool {
    forall|i: int| 0 <= i < s.len() ==> #[trigger] s[i] <= '\u{7f}'
}

/// ASCII lowercase of one character.
pub open spec fn ascii_lower_char(c: char) -> char {
    if 'A' <= c <= 'Z' {
        ((c as u32) + 32) as char
    } else {
        c
    }
}

/// What `str::to_lowercase` gives: on ASCII text, `A`–`Z` become `a`–`z`
/// and every other character stays as it is; on other text, the Unicode
/// mapping.
pub open spec fn lowercase(s: Seq<char>) -> Seq<char> {
    if all_ascii(s) {
        Seq::new(s.len(), |i: int| ascii_lower_char(s[i]))
    } else {
        unicode_lowercase(s)
    }
}

/// `str::to_lowercase`. The Unicode mapping it applies is not stated here,
/// only that it is a function of the text and that on ASCII text it turns
/// `A`–`Z` into `a`–`z` and keeps every other character.
#[verifier::external_body]
pub(crate) fn to_lowercase(s: &str) -> (r: String)
    ensures
        r@ == unicode_lowercase(s@),
        all_ascii(s@) ==> r@ == Seq::new(s@.len(), |i: int| ascii_lower_char(s@[i])),
{
    s.to_lowercase()
}


/// Whether `t` occurs in `s` at position `i`.
pub open spec fn occurs_at(s: Seq<char>, t: Seq<char>, i: int) -> bool {
    0 <= i && i + t.len() <= s.len() && s.subrange(i, i + t.len()) == t
}

/// Whether `t` occurs in `s` (what `str::contains` tests for a string pattern).
pub open spec fn contains_sub(s: Seq<char>, t: Seq<char>) -> bool {
    exists|i: int| occurs_at(s, t, i)
}

/// Whether `t` occurs in `s`.
pub fn contains_str(s: &str, t: &str) -> (r: bool)
    ensures
        r == contains_sub(s@, t@),
{
    let sv = chars_of(s);
    let tv = chars_of(t);
    if tv.len() > sv.len() {
        proof {
            assert forall|i: int| !occurs_at(s@, t@, i) by {}
        }
        return false;
    }
    let mut i: usize = 0;
    while i <= sv.len() - tv.len()
        invariant
            sv@ == s@,
            tv@ == t@,
            tv.len() <= sv.len(),
            0 <= i <= sv.len() - tv.len() + 1,
            forall|k: int| 0 <= k < i ==> !occurs_at(s@, t@, k),
        decreases sv.len() - i,
    {
        let mut j: usize = 0;
        let mut same = true;
        while j < tv.len()
            invariant
                sv@ == s@,
                tv@ == t@,
                i + tv.len() <= sv.len(),
                0 <= j <= tv.len(),
                same == (forall|k: int| 0 <= k < j ==> sv@[i + k] == tv@[k]),
            decreases tv.len() - j,
        {
            if sv[i + j] != tv[j] {
                same = false;
            }
            j = j + 1;
        }
        if same {
            proof {
                assert(sv@.subrange(i as int, i + tv.len()) =~= tv@);
                assert(occurs_at(s@, t@, i as int));
            }
            return true;
        }
        proof {
            assert(!occurs_at(s@, t@, i as int)) by {
                if occurs_at(s@, t@, i as int) {
                    assert forall|k: int| 0 <= k < j implies sv@[i + k] == tv@[k] by {
                        assert(sv@.subrange(i as int, i + tv.len())[k] == sv@[i + k]);
                    }
                }
            }
        }
        i = i + 1;
    }
    proof {
        assert forall|k: int| occurs_at(s@, t@, k) implies false by {
            assert(k < i);
        }
    }
    false
}

/// The digits that `i64::from_str` reads after an optional sign.
pub open spec fn signed_digits(s: Seq<char>) -> Seq<char> {
    if s.len() > 0 && (s[0] == '+' || s[0] == '-') {
        s.drop_first()
    } else {
        s
    }
}

/// What `i64::from_str` gives for `s`: an optional sign followed by one or
/// more ASCII digits whose value fits in 64 signed bits.
pub open spec fn parse_i64(s: Seq<char>) -> Option<int> {
    let d = signed_digits(s);
    let neg = s.len() > 0 && s[0] == '-';
    let v = if neg {
        -digits_value(d)
    } else {
        digits_value(d)
    };
    if d.len() > 0 && (forall|i: int| 0 <= i < d.len() ==> is_digit(#[trigger] d[i])) && i64::MIN <= v
        <= i64::MAX {
        Some(v)
    } else {
        None
    }
}

/// Parses a string as `i64::from_str` does.
pub fn parse_i64_str(s: &str) -> (r: Option<i64>)
    ensures
        match r {
            Some(n) => parse_i64(s@) == Some(n as int),
            None => parse_i64(s@) is None,
        },
{
    let v = chars_of(s);
    if v.len() == 0 {
        return None;
    }
    let neg = v[0] == '-';
    let start: usize = if v[0] == '+' || v[0] == '-' {
        1
    } else {
        0
    };
    let ghost d = v@.subrange(start as int, v@.len() as int);
    proof {
        assert(signed_digits(s@) =~= d);
    }
    if start == v.len() {
        return None;
    }
    // The magnitude is read as an unsigned number first.
    let mut acc: u64 = 0;
    let mut i: usize = start;
    while i < v.len()
        invariant
            0 <= start <= i <= v.len(),
            v@ == s@,
            d == v@.subrange(start as int, v@.len() as int),
            signed_digits(s@) == d,
            neg == (s@.len() > 0 && s@[0] == '-'),
            forall|k: int| 0 <= k < i - start ==> is_digit(#[trigger] d[k]),
            acc as int == digits_value(d.take(i - start)),
            acc <= 9223372036854775808u64,
        decreases v.len() - i,
    {
        let c = v[i];
        if !('0' <= c && c <= '9') {
            proof {
                assert(d[i - start] == c);
            }
            return None;
        }
        let dv: u64 = (c as u32 - '0' as u32) as u64;
        proof {
            assert(d.take(i - start + 1).drop_last() =~= d.take(i - start));
            assert(d.take(i - start + 1).last() == c);
        }
        let fits = acc < 922337203685477580u64 || (acc == 922337203685477580u64 && dv <= 8);
        if !fits {
            proof {
                let k = i - start + 1;
                assert(digits_value(d.take(k)) > 9223372036854775808);
                if forall|j: int| 0 <= j < d.len() ==> is_digit(#[trigger] d[j]) {
                    lemma_digits_value_monotone(d, k);
                }
            }
            return None;
        }
        acc = acc * 10 + dv;
        i = i + 1;
    }
    proof {
        assert(d.take(i - start) =~= d);
    }
    if neg {
        if acc == 9223372036854775808u64 {
            Some(i64::MIN)
        } else {
            Some(-(acc as i64))
        }
    } else {
        if acc > 9223372036854775807u64 {
            None
        } else {
            Some(acc as i64)
        }
    }
}


/// Whether the UTF-8 encoding of `s` has more than `n` bytes.
pub fn utf8_len_exceeds(s: &str, n: usize) -> (r: bool)
    ensures
        r == (vstd::utf8::encode_utf8(s@).len() > n),
{
    let v = chars_of(s);
    let mut total: usize = 0;
    let mut i: usize = 0;
    proof {
        assert(v@.skip(0) =~= v@);
    }
    while i < v.len()
        invariant
            0 <= i <= v.len(),
            v@ == s@,
            total <= n,
            total + vstd::utf8::encode_utf8(v@.skip(i as int)).len() == vstd::utf8::encode_utf8(v@).len(),
        decreases v.len() - i,
    {
        let c = v[i];
        let w: usize = if (c as u32) <= 0x7f {
            1
        } else if (c as u32) <= 0x7ff {
            2
        } else if (c as u32) <= 0xffff {
            3
        } else {
            4
        };
        proof {
            let t = v@.skip(i as int);
            assert(t[0] == c);
            assert(t.drop_first() =~= v@.skip(i + 1));
            let u = c as u32;
            vstd::utf8::char_is_scalar(c);
            if u <= 0x7f {
                assert(vstd::utf8::has_width_1_encoding(u));
            } else if u <= 0x7ff {
                assert(vstd::utf8::has_width_2_encoding(u));
            } else if u <= 0xffff {
                assert(vstd::utf8::has_width_3_encoding(u));
            } else {
                assert(vstd::utf8::has_width_4_encoding(u));
            }
            assert(vstd::utf8::encode_scalar(u).len() == w);
        }
        if w > n - total {
            return true;
        }
        total = total + w;
        i = i + 1;
    }
    proof {
        assert(v@.skip(i as int) =~= Seq::<char>::empty());
    }
    false
}


/// `s` without trailing whitespace (what `str::trim_end` returns).
pub open spec fn trim_end(s: Seq<char>) -> Seq<char> {
    s.take(s.len() - trail_ws(s))
}

/// The end of `v[lo..hi]` once trailing whitespace is removed.
pub fn trim_end_range(v: &Vec<char>, lo: usize, hi: usize) -> (r: usize)
    requires
        lo <= hi <= v.len(),
    ensures
        lo <= r <= hi,
        v@.subrange(lo as int, r as int) == trim_end(v@.subrange(lo as int, hi as int)),
{
    let ghost t = v@.subrange(lo as int, hi as int);
    let mut b: usize = hi;
    while b > lo && is_whitespace(v[b - 1])
        invariant
            lo <= b <= hi <= v.len(),
            t == v@.subrange(lo as int, hi as int),
            trail_ws(t) == (hi - b) + trail_ws(v@.subrange(lo as int, b as int)),
        decreases b - lo,
    {
        proof {
            assert(v@.subrange(lo as int, b as int).drop_last() =~= v@.subrange(lo as int, b - 1));
        }
        b = b - 1;
    }
    proof {
        assert(trail_ws(v@.subrange(lo as int, b as int)) == 0);
        assert(t.take(t.len() - trail_ws(t)) =~= v@.subrange(lo as int, b as int));
    }
    b
}

/// Every line of a text is its part up to the next line feed.
pub proof fn lemma_split_lines_nonempty(s: Seq<char>)
    ensures
        (split_lines(s).len() > 0) == (s.len() > 0),
{
    match index_of_lf(s) {
        None => {},
        Some(i) => {
            lemma_index_of_lf_range(s);
        },
    }
}

proof fn lemma_index_of_lf_range(s: Seq<char>)
    ensures
        index_of_lf(s) matches Some(i) ==> 0 <= i < s.len() && s[i] == '\n',
    decreases s.len(),
{
    if s.len() > 0 && s[0] != '\n' {
        lemma_index_of_lf_range(s.drop_first());
    }
}


/// Whether `s` holds the character `c`.
pub fn contains_char(s: &str, c: char) -> (r: bool)
    ensures
        r == s@.contains(c),
{
    let v = chars_of(s);
    let mut i: usize = 0;
    while i < v.len()
        invariant
            0 <= i <= v.len(),
            v@ == s@,
            forall|k: int| 0 <= k < i ==> v@[k] != c,
        decreases v.len() - i,
    {
        if v[i] == c {
            return true;
        }
        i = i + 1;
    }
    false
}

/// `index_of_lf` finds the first line feed, and none when there is none.
pub(crate) proof fn lemma_index_of_lf_first(s: Seq<char>)
    ensures
        match index_of_lf(s) {
            Some(i) => 0 <= i < s.len() && s[i] == '\n' && forall|k: int| 0 <= k < i ==> s[k] != '\n',
            None => forall|k: int| 0 <= k < s.len() ==> s[k] != '\n',
        },
    decreases s.len(),
{
    if s.len() > 0 {
        lemma_index_of_lf_first(s.drop_first());
        assert forall|k: int| 0 < k < s.len() implies s[k] == s.drop_first()[k - 1] by {}
    }
}

/// The lines of a text that ends with a line feed, followed by more text,
/// are its lines followed by those of the rest.
pub(crate) proof fn lemma_split_lines_concat(x: Seq<char>, y: Seq<char>)
    requires
        x.len() > 0,
        x.last() == '\n',
    ensures
        split_lines(x + y) == split_lines(x) + split_lines(y),
    decreases x.len(),
{
    lemma_index_of_lf_first(x);
    let i = index_of_lf(x).unwrap();
    let s = x + y;
    assert forall|k: int| 0 <= k < i implies s[k] != '\n' by {
        assert(s[k] == x[k]);
    }
    lemma_index_of_lf(s, i);
    assert(s.take(i) =~= x.take(i));
    assert(s.skip(i + 1) =~= x.skip(i + 1) + y);
    let rest = x.skip(i + 1);
    if rest.len() == 0 {
        assert(rest + y =~= y);
        assert(split_lines(rest) =~= Seq::<Seq<char>>::empty());
    } else {
        assert(rest.last() == x.last());
        lemma_split_lines_concat(rest, y);
    }
    assert(split_lines(s) =~= split_lines(x) + split_lines(y));
}

/// Lines joined: a first line, a line feed and the others joined.
pub(crate) proof fn lemma_join_lines_front(a: Seq<char>, ls: Seq<Seq<char>>)
    requires
        ls.len() > 0,
    ensures
        join_lines(seq![a] + ls) == a + "\n"@ + join_lines(ls),
    decreases ls.len(),
{
    let all = seq![a] + ls;
    assert(all.len() > 1);
    assert(all.last() == ls.last());
    if ls.len() == 1 {
        assert(all.drop_last() =~= seq![a]);
        assert(join_lines(seq![a]) == a);
    } else {
        lemma_join_lines_front(a, ls.drop_last());
        assert(all.drop_last() =~= seq![a] + ls.drop_last());
        assert(a + "\n"@ + join_lines(ls.drop_last()) + "\n"@ + ls.last() =~= a + "\n"@ + (join_lines(
            ls.drop_last(),
        ) + "\n"@ + ls.last()));
    }
}

/// The lines of a text without carriage returns that ends with a line feed,
/// joined again, are the text without its final line feed.
pub(crate) proof fn lemma_join_split(x: Seq<char>)
    requires
        x.len() > 0,
        x.last() == '\n',
        forall|k: int| 0 <= k < x.len() ==> x[k] != '\r',
    ensures
        join_lines(split_lines(x)) == x.drop_last(),
    decreases x.len(),
{
    lemma_index_of_lf_first(x);
    let i = index_of_lf(x).unwrap();
    let first = x.take(i);
    assert(strip_cr(first) == first) by {
        if first.len() > 0 {
            assert(first.last() == x[i - 1]);
        }
    }
    let rest = x.skip(i + 1);
    if rest.len() == 0 {
        assert(split_lines(rest) =~= Seq::<Seq<char>>::empty());
        assert(split_lines(x) =~= seq![first]);
        assert(i == x.len() - 1);
        assert(first =~= x.drop_last());
    } else {
        assert(rest.last() == x.last());
        assert forall|k: int| 0 <= k < rest.len() implies rest[k] != '\r' by {
            assert(rest[k] == x[k + i + 1]);
        }
        lemma_join_split(rest);
        lemma_split_lines_nonempty(rest);
        lemma_join_lines_front(first, split_lines(rest));
        assert(split_lines(x) =~= seq![first] + split_lines(rest));
        assert(first + "\n"@ + rest.drop_last() =~= x.drop_last()) by {
            reveal_strlit("\n");
        }
    }
}

/// Every line of a text occurs in it.
pub(crate) proof fn lemma_line_occurs(s: Seq<char>, k: int)
    requires
        0 <= k < split_lines(s).len(),
    ensures
        exists|p: int| occurs_at(s, split_lines(s)[k], p),
    decreases s.len(),
{
    lemma_index_of_lf_first(s);
    match index_of_lf(s) {
        None => {
            assert(split_lines(s)[k] == s);
            assert(s.subrange(0, s.len() as int) =~= s);
            assert(occurs_at(s, s, 0));
        },
        Some(i) => {
            let first = strip_cr(s.take(i));
            let rest = s.skip(i + 1);
            assert(split_lines(s) == seq![first] + split_lines(rest));
            if k == 0 {
                assert(split_lines(s)[0] == first);
                assert(s.subrange(0, first.len() as int) =~= first);
                assert(occurs_at(s, first, 0));
            } else {
                lemma_line_occurs(rest, k - 1);
                let l = split_lines(rest)[k - 1];
                assert(split_lines(s)[k] == l);
                let p = choose|p: int| occurs_at(rest, l, p);
                assert(s.subrange(p + i + 1, p + i + 1 + l.len()) =~= rest.subrange(p, p + l.len()));
                assert(occurs_at(s, l, p + i + 1));
            }
        },
    }
}

/// A line whose trimmed form is `t` has `t` in it.
pub(crate) proof fn lemma_trim_occurs(l: Seq<char>)
    ensures
        occurs_at(l, trim(l), lead_ws(l) as int),
{
    lemma_lead_ws_bound(l);
    let t = l.skip(lead_ws(l) as int);
    lemma_trail_ws_bound(t);
    let a = lead_ws(l) as int;
    assert(l.subrange(a, a + trim(l).len()) =~= trim(l));
}

} // verus!
