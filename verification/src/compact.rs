//! The compact format of LSP diagnostics.
//!
//! Several raw diagnostics with the same message, severity and code become one
//! entry with several ranges. A range is `[line, char, line, char]`; in a list
//! of ranges the first is absolute and each later one is the difference from
//! the one before it.
use vstd::prelude::*;

use crate::error::{protocol, LspzError};
use crate::json::{
    entries_view, find_key, jarray, jint, jobject, jstr, juint, opt_entry, push_entry, push_opt_entry, seq_view,
    Json, JsonV,
};
use crate::interceptors::diagnostics::{
    collect_entries, compact_groups, compact_of_group, compressible, lemma_total_ones, raw_entries,
    spec_compressed,
};
use vstd::seq_lib::lemma_multiset_commutative;

use crate::text::push_char;
use crate::text::str_eq;

verus! {

/// A severity, encoded as a single character.
#[derive(Debug, Clone, Copy, PartialEq, Eq, Hash, Structural)]
pub enum CompactSeverity {
    /// Error (LSP severity 1).
    E,
    /// Warning (LSP severity 2).
    W,
    /// Information (LSP severity 3).
    I,
    /// Hint (LSP severity 4).
    H,
}

/// The severity that an LSP severity number (1–4) denotes.
pub open spec fn spec_from_lsp(n: int) -> Option<CompactSeverity> {
    if n == 1 {
        Some(CompactSeverity::E)
    } else if n == 2 {
        Some(CompactSeverity::W)
    } else if n == 3 {
        Some(CompactSeverity::I)
    } else if n == 4 {
        Some(CompactSeverity::H)
    } else {
        None
    }
}

/// The LSP severity number of a severity.
pub open spec fn spec_to_lsp(s: CompactSeverity) -> int {
    match s {
        CompactSeverity::E => 1,
        CompactSeverity::W => 2,
        CompactSeverity::I => 3,
        CompactSeverity::H => 4,
    }
}

/// The single letter by which a severity is written.
pub open spec fn severity_letter(s: CompactSeverity) -> Seq<char> {
    match s {
        CompactSeverity::E => seq!['E'],
        CompactSeverity::W => seq!['W'],
        CompactSeverity::I => seq!['I'],
        CompactSeverity::H => seq!['H'],
    }
}

/// The severity written as the given letter, if any.
pub open spec fn severity_of_letter(t: Seq<char>) -> Option<CompactSeverity> {
    if t == seq!['E'] {
        Some(CompactSeverity::E)
    } else if t == seq!['W'] {
        Some(CompactSeverity::W)
    } else if t == seq!['I'] {
        Some(CompactSeverity::I)
    } else if t == seq!['H'] {
        Some(CompactSeverity::H)
    } else {
        None
    }
}

impl CompactSeverity {
    /// Converts an LSP severity number (1–4).
    pub fn from_lsp(severity: u64) -> (r: Option<CompactSeverity>)
        ensures
            r == spec_from_lsp(severity as int),
    {
        match severity {
            1 => Some(CompactSeverity::E),
            2 => Some(CompactSeverity::W),
            3 => Some(CompactSeverity::I),
            4 => Some(CompactSeverity::H),
            _ => None,
        }
    }

    /// Converts back to an LSP severity number (1–4).
    pub fn to_lsp(self) -> (r: u64)
        ensures
            r as int == spec_to_lsp(self),
            1 <= r <= 4,
    {
        match self {
            CompactSeverity::E => 1,
            CompactSeverity::W => 2,
            CompactSeverity::I => 3,
            CompactSeverity::H => 4,
        }
    }

    /// The letter by which this severity is written.
    pub fn letter(self) -> (r: &'static str)
        ensures
            r@ == severity_letter(self),
    {
        match self {
            CompactSeverity::E => {
                proof {
                    reveal_strlit("E");
                }
                "E"
            },
            CompactSeverity::W => {
                proof {
                    reveal_strlit("W");
                }
                "W"
            },
            CompactSeverity::I => {
                proof {
                    reveal_strlit("I");
                }
                "I"
            },
            CompactSeverity::H => {
                proof {
                    reveal_strlit("H");
                }
                "H"
            },
        }
    }

    /// The severity written as the given letter, if any.
    pub fn from_letter(t: &str) -> (r: Option<CompactSeverity>)
        ensures
            r == severity_of_letter(t@),
    {
        proof {
            reveal_strlit("E");
            reveal_strlit("W");
            reveal_strlit("I");
            reveal_strlit("H");
            assert("E"@ =~= seq!['E']);
            assert("W"@ =~= seq!['W']);
            assert("I"@ =~= seq!['I']);
            assert("H"@ =~= seq!['H']);
        }
        if str_eq(t, "E") {
            Some(CompactSeverity::E)
        } else if str_eq(t, "W") {
            Some(CompactSeverity::W)
        } else if str_eq(t, "I") {
            Some(CompactSeverity::I)
        } else if str_eq(t, "H") {
            Some(CompactSeverity::H)
        } else {
            None
        }
    }
}

/// Converting a severity to its LSP number and back gives the severity again;
/// a number that denotes a severity is that severity's number.
pub proof fn lemma_severity_roundtrip(s: CompactSeverity, n: int)
    ensures
        spec_from_lsp(spec_to_lsp(s)) == Some(s),
        spec_from_lsp(n) == Some(s) ==> spec_to_lsp(s) == n,
        severity_of_letter(severity_letter(s)) == Some(s),
{
    let e = seq!['E'];
    let w = seq!['W'];
    let i = seq!['I'];
    let h = seq!['H'];
    assert(e[0] == 'E' && w[0] == 'W' && i[0] == 'I' && h[0] == 'H');
    assert(e != w && e != i && e != h && w != i && w != h && i != h);
}

// ─── Ranges ────────────────────────────────────────────────────────────────

/// The four numbers of a range, as integers.
pub open spec fn seq4(a: [i64; 4]) -> Seq<int> {
    seq![a@[0] as int, a@[1] as int, a@[2] as int, a@[3] as int]
}

/// A list of ranges, each as its four numbers.
pub open spec fn ranges_view(v: Seq<[i64; 4]>) -> Seq<Seq<int>> {
    Seq::new(v.len(), |i: int| seq4(v[i]))
}

/// Whether an integer fits in `i64`.
pub open spec fn fits_i64(x: int) -> bool {
    i64::MIN <= x <= i64::MAX
}

/// The range that an LSP range value `{start: {line, character}, end: {line, character}}` denotes.
pub open spec fn spec_encode_range(r: JsonV) -> Option<Seq<int>> {
    match (r.get("start"@), r.get("end"@)) {
        (Some(s), Some(e)) => match (
            s.get_i64("line"@),
            s.get_i64("character"@),
            e.get_i64("line"@),
            e.get_i64("character"@),
        ) {
            (Some(a), Some(b), Some(c), Some(d)) => Some(seq![a, b, c, d]),
            _ => None,
        },
        _ => None,
    }
}

/// The ranges of those values that denote one, in order.
pub open spec fn encoded_ranges(rs: Seq<JsonV>) -> Seq<Seq<int>>
    decreases rs.len(),
{
    if rs.len() == 0 {
        Seq::empty()
    } else {
        let before = encoded_ranges(rs.drop_last());
        match spec_encode_range(rs.last()) {
            Some(a) => before.push(a),
            None => before,
        }
    }
}

/// The difference of two ranges, number by number.
pub open spec fn sub4(a: Seq<int>, b: Seq<int>) -> Seq<int> {
    seq![a[0] - b[0], a[1] - b[1], a[2] - b[2], a[3] - b[3]]
}

/// The sum of two ranges, number by number.
pub open spec fn add4(a: Seq<int>, b: Seq<int>) -> Seq<int> {
    seq![a[0] + b[0], a[1] + b[1], a[2] + b[2], a[3] + b[3]]
}

/// Delta encoding: the first range as it is, each later one minus the one before it.
pub open spec fn spec_deltas(a: Seq<Seq<int>>) -> Seq<Seq<int>> {
    Seq::new(a.len(), |j: int| if j == 0 { a[0] } else { sub4(a[j], a[j - 1]) })
}

/// Delta decoding: each range is the sum of the encoded ones up to it.
pub open spec fn spec_decode(e: Seq<Seq<int>>) -> Seq<Seq<int>>
    decreases e.len(),
{
    if e.len() == 0 {
        Seq::empty()
    } else if e.len() == 1 {
        seq![e[0]]
    } else {
        let d = spec_decode(e.drop_last());
        d.push(add4(d.last(), e.last()))
    }
}

/// Whether every number of every range fits in `i64`.
pub open spec fn all_fit(a: Seq<Seq<int>>) -> bool {
    forall|i: int, k: int| 0 <= i < a.len() && 0 <= k < 4 ==> fits_i64(#[trigger] a[i][k])
}

/// Whether every range has four numbers.
pub open spec fn all_len4(a: Seq<Seq<int>>) -> bool {
    forall|i: int| 0 <= i < a.len() ==> (#[trigger] a[i]).len() == 4
}

proof fn lemma_decode_len(e: Seq<Seq<int>>)
    ensures
        spec_decode(e).len() == e.len(),
    decreases e.len(),
{
    if e.len() > 1 {
        lemma_decode_len(e.drop_last());
    }
}

/// Decoding a delta-encoded list of ranges gives back the ranges.
pub proof fn lemma_decode_deltas(a: Seq<Seq<int>>)
    requires
        all_len4(a),
    ensures
        spec_decode(spec_deltas(a)) == a,
    decreases a.len(),
{
    if a.len() == 0 {
        assert(spec_decode(spec_deltas(a)) =~= a);
    } else if a.len() == 1 {
        assert(spec_decode(spec_deltas(a)) =~= a);
    } else {
        let p = a.drop_last();
        assert(spec_deltas(a).drop_last() =~= spec_deltas(p));
        lemma_decode_deltas(p);
        lemma_decode_len(spec_deltas(p));
        let d = spec_decode(spec_deltas(p));
        assert(d.last() == a[a.len() - 2]);
        let x = add4(d.last(), spec_deltas(a).last());
        assert(x =~= a.last());
        assert(spec_decode(spec_deltas(a)) =~= a);
    }
}

/// Decoding the ranges of a list whose first range is absolute agrees with
/// decoding from an all-zero previous range.
proof fn lemma_decode_step(e: Seq<Seq<int>>, i: int)
    requires
        1 <= i < e.len(),
    ensures
        spec_decode(e.take(i + 1)) == spec_decode(e.take(i)).push(
            add4(spec_decode(e.take(i)).last(), e[i]),
        ),
{
    assert(e.take(i + 1).drop_last() =~= e.take(i));
}

/// Encodes an LSP range value into `[line_start, char_start, line_end, char_end]`.
pub fn encode_range(range: &Json) -> (r: Option<[i64; 4]>)
    ensures
        match r {
            Some(a) => spec_encode_range(range@) == Some(seq4(a)),
            None => spec_encode_range(range@) is None,
        },
{
    let start = match range.get("start") {
        Some(s) => s,
        None => return None,
    };
    let end = match range.get("end") {
        Some(e) => e,
        None => return None,
    };
    let a = match start.get("line") {
        Some(v) => match v.as_i64() {
            Some(n) => n,
            None => return None,
        },
        None => return None,
    };
    let b = match start.get("character") {
        Some(v) => match v.as_i64() {
            Some(n) => n,
            None => return None,
        },
        None => return None,
    };
    let c = match end.get("line") {
        Some(v) => match v.as_i64() {
            Some(n) => n,
            None => return None,
        },
        None => return None,
    };
    let d = match end.get("character") {
        Some(v) => match v.as_i64() {
            Some(n) => n,
            None => return None,
        },
        None => return None,
    };
    let out = [a, b, c, d];
    assert(seq4(out) =~= seq![a as int, b as int, c as int, d as int]);
    Some(out)
}

/// Whether consecutive ranges differ by amounts that fit in `i64`.
pub open spec fn deltas_fit(a: Seq<Seq<int>>) -> bool {
    all_fit(spec_deltas(a))
}

/// Encodes the ranges that the given values denote (those that denote none
/// are skipped), with delta compression: the first is absolute, each later one
/// is the difference from the one before it.
pub fn encode_ranges_with_delta(ranges: Vec<Json>) -> (r: Vec<[i64; 4]>)
    requires
        deltas_fit(encoded_ranges(seq_view(ranges@))),
    ensures
        ranges_view(r@) == spec_deltas(encoded_ranges(seq_view(ranges@))),
{
    let ghost all = encoded_ranges(seq_view(ranges@));
    let mut result: Vec<[i64; 4]> = Vec::new();
    let mut prev: [i64; 4] = [0, 0, 0, 0];
    let mut i: usize = 0;
    while i < ranges.len()
        invariant
            0 <= i <= ranges.len(),
            all == encoded_ranges(seq_view(ranges@)),
            deltas_fit(all),
            ({
                let done = encoded_ranges(seq_view(ranges@.take(i as int)));
                &&& ranges_view(result@) == spec_deltas(done)
                &&& done.len() > 0 ==> seq4(prev) == done.last()
                &&& done.len() == 0 ==> seq4(prev) == seq![0int, 0, 0, 0]
                &&& done.len() <= all.len()
                &&& forall|j: int| 0 <= j < done.len() ==> #[trigger] done[j] == all[j]
            }),
        decreases ranges.len() - i,
    {
        let ghost done = encoded_ranges(seq_view(ranges@.take(i as int)));
        proof {
            lemma_encoded_prefix(seq_view(ranges@), i as int);
            assert(seq_view(ranges@.take(i + 1)) =~= seq_view(ranges@).take(i + 1));
            assert(seq_view(ranges@.take(i as int)) =~= seq_view(ranges@).take(i as int));
        }
        match encode_range(&ranges[i]) {
            Some(abs) => {
                let ghost next = done.push(seq4(abs));
                proof {
                    assert(seq_view(ranges@).take(i + 1).drop_last() =~= seq_view(ranges@).take(i as int));
                    assert(encoded_ranges(seq_view(ranges@.take(i + 1))) == next);
                    lemma_encoded_prefix(seq_view(ranges@), i + 1);
                    assert(next[done.len() as int] == all[done.len() as int]);
                    let dj = spec_deltas(all)[done.len() as int];
                    assert(all_fit(spec_deltas(all)));
                    assert(fits_i64(dj[0]) && fits_i64(dj[1]) && fits_i64(dj[2]) && fits_i64(dj[3]));
                }
                let delta = [
                    abs[0] - prev[0],
                    abs[1] - prev[1],
                    abs[2] - prev[2],
                    abs[3] - prev[3],
                ];
                proof {
                    if done.len() == 0 {
                        assert(seq4(delta) =~= seq4(abs));
                    } else {
                        assert(seq4(delta) =~= sub4(seq4(abs), done.last()));
                    }
                }
                let ghost old_result = result@;
                result.push(delta);
                prev = abs;
                proof {
                    assert(ranges_view(old_result) == spec_deltas(done));
                    assert(result@ == old_result.push(delta));
                    assert(ranges_view(old_result).len() == old_result.len());
                    assert(spec_deltas(done).len() == done.len());
                    assert(old_result.len() == done.len());
                    assert(result@.len() == done.len() + 1);
                    assert(result@[done.len() as int] == delta);
                    assert forall|j: int| 0 <= j < done.len() implies #[trigger] spec_deltas(next)[j]
                        == spec_deltas(done)[j] by {
                        assert(next[j] == done[j]);
                        if j > 0 {
                            assert(next[j - 1] == done[j - 1]);
                        }
                    }
                    assert(ranges_view(result@)[done.len() as int] == seq4(delta));
                    assert(ranges_view(result@) =~= spec_deltas(next));
                }
            },
            None => {
                proof {
                    assert(seq_view(ranges@).take(i + 1).drop_last() =~= seq_view(ranges@).take(i as int));
                }
            },
        }
        i = i + 1;
    }
    proof {
        assert(ranges@.take(i as int) =~= ranges@);
    }
    result
}

/// The encoded ranges of a prefix of the values are a prefix of the encoded ranges of all of them.
proof fn lemma_encoded_prefix(rs: Seq<JsonV>, i: int)
    requires
        0 <= i <= rs.len(),
    ensures
        encoded_ranges(rs.take(i)).len() <= encoded_ranges(rs).len(),
        forall|j: int|
            0 <= j < encoded_ranges(rs.take(i)).len() ==> #[trigger] encoded_ranges(rs.take(i))[j]
                == encoded_ranges(rs)[j],
    decreases rs.len() - i,
{
    if i < rs.len() {
        lemma_encoded_prefix(rs, i + 1);
        assert(rs.take(i + 1).drop_last() =~= rs.take(i));
        let a = encoded_ranges(rs.take(i));
        let b = encoded_ranges(rs.take(i + 1));
        assert(a.len() <= b.len());
        assert forall|j: int| 0 <= j < a.len() implies #[trigger] a[j] == encoded_ranges(rs)[j] by {
            assert(a[j] == b[j]);
        }
    } else {
        assert(rs.take(i) =~= rs);
    }
}

/// Decodes a delta-encoded range: `prev + delta`, number by number.
pub fn decode_delta_range(delta: &[i64; 4], prev: &[i64; 4]) -> (r: [i64; 4])
    requires
        fits_i64(prev@[0] + delta@[0]),
        fits_i64(prev@[1] + delta@[1]),
        fits_i64(prev@[2] + delta@[2]),
        fits_i64(prev@[3] + delta@[3]),
    ensures
        seq4(r) == add4(seq4(*prev), seq4(*delta)),
{
    let r = [prev[0] + delta[0], prev[1] + delta[1], prev[2] + delta[2], prev[3] + delta[3]];
    assert(seq4(r) =~= add4(seq4(*prev), seq4(*delta)));
    r
}

/// Reconstructs the absolute ranges from a delta-encoded list.
pub fn decode_ranges(encoded: &[[i64; 4]]) -> (r: Vec<[i64; 4]>)
    requires
        all_fit(spec_decode(ranges_view(encoded@))),
    ensures
        ranges_view(r@) == spec_decode(ranges_view(encoded@)),
{
    let ghost e = ranges_view(encoded@);
    proof {
        lemma_decode_len(e);
    }
    let mut result: Vec<[i64; 4]> = Vec::new();
    let mut i: usize = 0;
    while i < encoded.len()
        invariant
            0 <= i <= encoded.len(),
            e == ranges_view(encoded@),
            e.len() == encoded@.len(),
            all_fit(spec_decode(e)),
            spec_decode(e).len() == e.len(),
            ranges_view(result@) == spec_decode(e.take(i as int)),
        decreases encoded.len() - i,
    {
        proof {
            lemma_decode_prefix(e, i + 1);
        }
        if i == 0 {
            result.push(encoded[0]);
            proof {
                assert(e.take(1) =~= seq![e[0]]);
                assert(ranges_view(result@) =~= spec_decode(e.take(1)));
            }
        } else {
            proof {
                lemma_decode_step(e, i as int);
                lemma_decode_len(e.take(i as int));
                let d = spec_decode(e.take(i + 1));
                assert(d[i as int] == spec_decode(e)[i as int]);
                assert(d[i as int] == add4(spec_decode(e.take(i as int)).last(), e[i as int]));
                assert(spec_decode(e.take(i as int)).last() == ranges_view(result@)[i - 1]);
                assert(fits_i64(spec_decode(e)[i as int][0]));
                assert(fits_i64(spec_decode(e)[i as int][1]));
                assert(fits_i64(spec_decode(e)[i as int][2]));
                assert(fits_i64(spec_decode(e)[i as int][3]));
            }
            let prev = result[i - 1];
            let next = decode_delta_range(&encoded[i], &prev);
            result.push(next);
            proof {
                lemma_decode_step(e, i as int);
                assert(ranges_view(result@) =~= spec_decode(e.take(i + 1)));
            }
        }
        i = i + 1;
    }
    proof {
        assert(e.take(i as int) =~= e);
    }
    result
}

/// Decoding a prefix gives a prefix of the decoding.
proof fn lemma_decode_prefix(e: Seq<Seq<int>>, i: int)
    requires
        0 <= i <= e.len(),
    ensures
        spec_decode(e.take(i)).len() == i,
        forall|j: int| 0 <= j < i ==> #[trigger] spec_decode(e.take(i))[j] == spec_decode(e)[j],
    decreases e.len() - i,
{
    lemma_decode_len(e.take(i));
    if i < e.len() {
        lemma_decode_prefix(e, i + 1);
        lemma_decode_len(e.take(i + 1));
        if i >= 1 {
            lemma_decode_step(e, i);
            assert forall|j: int| 0 <= j < i implies #[trigger] spec_decode(e.take(i))[j]
                == spec_decode(e)[j] by {
                assert(spec_decode(e.take(i))[j] == spec_decode(e.take(i + 1))[j]);
            }
        } else {
            assert(e.take(0) =~= Seq::<Seq<int>>::empty());
        }
    } else {
        assert(e.take(i) =~= e);
    }
}


// ─── Tags ──────────────────────────────────────────────────────────────────

/// The letters of the known tags, in order: `Unnecessary` (1) is `U`,
/// `Deprecated` (2) is `D`; other values are skipped.
pub open spec fn tag_letters(tags: Seq<JsonV>) -> Seq<char>
    decreases tags.len(),
{
    if tags.len() == 0 {
        Seq::empty()
    } else {
        let before = tag_letters(tags.drop_last());
        match tags.last().as_u64() {
            Some(n) => if n == 1 {
                before.push('U')
            } else if n == 2 {
                before.push('D')
            } else {
                before
            },
            None => before,
        }
    }
}

/// Letters joined by commas: `"U,D"`.
pub open spec fn join_letters(cs: Seq<char>) -> Seq<char>
    decreases cs.len(),
{
    if cs.len() == 0 {
        Seq::empty()
    } else if cs.len() == 1 {
        seq![cs[0]]
    } else {
        join_letters(cs.drop_last()) + seq![',', cs.last()]
    }
}

/// The compact form of a list of LSP diagnostic tags: none when the list is
/// empty or holds no known tag.
pub open spec fn spec_encode_tags(tags: Seq<JsonV>) -> Option<Seq<char>> {
    if tags.len() == 0 || tag_letters(tags).len() == 0 {
        None
    } else {
        Some(join_letters(tag_letters(tags)))
    }
}

/// Encodes LSP diagnostic tags: `Unnecessary` (1) as `"U"`, `Deprecated` (2)
/// as `"D"`, several as `"U,D"`.
pub fn encode_tags(tags: &[Json]) -> (r: Option<String>)
    ensures
        match r {
            Some(s) => spec_encode_tags(seq_view(tags@)) == Some(s@),
            None => spec_encode_tags(seq_view(tags@)) is None,
        },
{
    let ghost tv = seq_view(tags@);
    let mut out = String::new();
    let mut count: usize = 0;
    let mut i: usize = 0;
    while i < tags.len()
        invariant
            0 <= i <= tags.len(),
            tv == seq_view(tags@),
            count as int == tag_letters(tv.take(i as int)).len(),
            out@ == join_letters(tag_letters(tv.take(i as int))),
            count <= i,
        decreases tags.len() - i,
    {
        proof {
            assert(tv.take(i + 1).drop_last() =~= tv.take(i as int));
        }
        let letter: Option<char> = match tags[i].as_u64() {
            Some(1) => Some('U'),
            Some(2) => Some('D'),
            _ => None,
        };
        match letter {
            Some(c) => {
                if count > 0 {
                    push_char(&mut out, ',');
                }
                push_char(&mut out, c);
                count = count + 1;
                proof {
                    let before = tag_letters(tv.take(i as int));
                    let after = tag_letters(tv.take(i + 1));
                    assert(after == before.push(c));
                    assert(after.drop_last() =~= before);
                    if before.len() == 0 {
                        assert(out@ =~= join_letters(after));
                    } else {
                        assert(out@ =~= join_letters(after));
                    }
                }
            },
            None => {},
        }
        i = i + 1;
    }
    proof {
        assert(tv.take(i as int) =~= tv);
    }
    if tags.len() == 0 || count == 0 {
        None
    } else {
        Some(out)
    }
}

// ─── The compact diagnostic types ─────────────────────────────────────────

/// One compact diagnostic entry.
///
/// Several raw diagnostics with the same (message, severity, code) are merged
/// into one entry with several ranges.
#[derive(Debug, Clone)]
pub struct CompactDiagnostic {
    /// The normalised message text.
    pub m: String,
    /// The severity.
    pub s: CompactSeverity,
    /// The ranges: the first absolute, the later ones delta-encoded.
    pub r: Vec<[i64; 4]>,
    /// The diagnostic code, if any.
    pub c: Option<String>,
    /// The tags, comma separated (`"U"`, `"D"`, `"U,D"`), if any.
    pub t: Option<String>,
    /// How many diagnostics were merged (1 when absent from the JSON form).
    pub n: u32,
}

/// The model of a compact diagnostic entry.
#[verifier::ext_equal]
pub struct CompactDiagnosticV {
    pub m: Seq<char>,
    pub s: CompactSeverity,
    pub r: Seq<Seq<int>>,
    pub c: Option<Seq<char>>,
    pub t: Option<Seq<char>>,
    pub n: int,
}

/// The characters of an optional string.
pub open spec fn opt_str_view(o: Option<String>) -> Option<Seq<char>> {
    match o {
        Some(s) => Some(s@),
        None => None,
    }
}

impl CompactDiagnostic {
    pub open spec fn view(self) -> CompactDiagnosticV {
        CompactDiagnosticV {
            m: self.m@,
            s: self.s,
            r: ranges_view(self.r@),
            c: opt_str_view(self.c),
            t: opt_str_view(self.t),
            n: self.n as int,
        }
    }
}

/// The top-level compact diagnostics message.
#[derive(Debug, Clone)]
pub struct CompactDiagnostics {
    /// Format version (currently 1).
    pub version: u32,
    /// The document URI.
    pub uri: String,
    /// The compact entries.
    pub diagnostics: Vec<CompactDiagnostic>,
}

/// The model of a compact diagnostics message.
#[verifier::ext_equal]
pub struct CompactDiagnosticsV {
    pub version: int,
    pub uri: Seq<char>,
    pub diagnostics: Seq<CompactDiagnosticV>,
}

impl CompactDiagnostics {
    pub open spec fn view(self) -> CompactDiagnosticsV {
        CompactDiagnosticsV {
            version: self.version as int,
            uri: self.uri@,
            diagnostics: Seq::new(self.diagnostics@.len(), |i: int| self.diagnostics@[i].view()),
        }
    }
}

/// Whether a merge count is 1 (then the JSON form leaves it out).
pub fn is_one(n: &u32) -> (r: bool)
    ensures
        r == (*n == 1),
{
    *n == 1
}

// ─── JSON form ─────────────────────────────────────────────────────────────

/// A range as a JSON array of four integers.
pub open spec fn range_json(a: Seq<int>) -> JsonV {
    JsonV::Array(seq![JsonV::Int(a[0]), JsonV::Int(a[1]), JsonV::Int(a[2]), JsonV::Int(a[3])])
}

/// The JSON form of a compact entry: `m`, `s`, `r`, then `c` and `t` when
/// present, then `n` unless it is 1.
pub open spec fn diag_json(d: CompactDiagnosticV) -> JsonV {
    JsonV::Object(
        seq![
            ("m"@, JsonV::Str(d.m)),
            ("s"@, JsonV::Str(severity_letter(d.s))),
            ("r"@, JsonV::Array(Seq::new(d.r.len(), |i: int| range_json(d.r[i])))),
        ] + opt_entry(
            "c"@,
            match d.c {
                Some(c) => Some(JsonV::Str(c)),
                None => None,
            },
        ) + opt_entry(
            "t"@,
            match d.t {
                Some(t) => Some(JsonV::Str(t)),
                None => None,
            },
        ) + (if d.n != 1 {
            seq![("n"@, JsonV::Int(d.n))]
        } else {
            Seq::empty()
        }),
    )
}

/// The JSON form of a compact diagnostics message.
pub open spec fn diagnostics_json(c: CompactDiagnosticsV) -> JsonV {
    JsonV::Object(
        seq![
            ("version"@, JsonV::Int(c.version)),
            ("uri"@, JsonV::Str(c.uri)),
            ("diagnostics"@, JsonV::Array(Seq::new(c.diagnostics.len(), |i: int| diag_json(c.diagnostics[i])))),
        ],
    )
}

/// A range as a JSON array of four integers.
pub fn range_to_json(a: &[i64; 4]) -> (r: Json)
    ensures
        r@ == range_json(seq4(*a)),
{
    let mut v: Vec<Json> = Vec::new();
    v.push(jint(a[0]));
    v.push(jint(a[1]));
    v.push(jint(a[2]));
    v.push(jint(a[3]));
    let r = jarray(v);
    assert(seq_view(v@) =~= seq![JsonV::Int(a@[0] as int), JsonV::Int(a@[1] as int), JsonV::Int(a@[2] as int), JsonV::Int(a@[3] as int)]);
    r
}

/// An optional string as an optional JSON string.
fn opt_jstr(o: &Option<String>) -> (r: Option<Json>)
    ensures
        match r {
            Some(j) => opt_str_view(*o) matches Some(s) && j@ == JsonV::Str(s),
            None => o is None,
        },
{
    match o {
        Some(s) => Some(jstr(s.as_str())),
        None => None,
    }
}

impl CompactDiagnostic {
    /// The JSON form of this entry.
    pub fn to_json(&self) -> (r: Json)
        ensures
            r@ == diag_json(self.view()),
    {
        let mut ranges: Vec<Json> = Vec::new();
        let mut i: usize = 0;
        while i < self.r.len()
            invariant
                0 <= i <= self.r.len(),
                ranges@.len() == i,
                forall|k: int| 0 <= k < i ==> #[trigger] ranges@[k]@ == range_json(seq4(self.r@[k])),
            decreases self.r.len() - i,
        {
            ranges.push(range_to_json(&self.r[i]));
            i = i + 1;
        }
        let mut out: Vec<(String, Json)> = Vec::new();
        push_entry(&mut out, "m", jstr(self.m.as_str()));
        push_entry(&mut out, "s", jstr(self.s.letter()));
        let rj = jarray(ranges);
        push_entry(&mut out, "r", rj);
        push_opt_entry(&mut out, "c", opt_jstr(&self.c));
        push_opt_entry(&mut out, "t", opt_jstr(&self.t));
        let ghost before_n = entries_view(out@);
        if !is_one(&self.n) {
            push_entry(&mut out, "n", juint(self.n as u64));
        }
        proof {
            let d = self.view();
            assert(seq_view(ranges@) =~= Seq::new(d.r.len(), |i: int| range_json(d.r[i])));
            assert(entries_view(out@) =~= diag_json(d)->Object_0);
        }
        jobject(out)
    }
}

impl CompactDiagnostics {
    /// The JSON form of this message.
    pub fn to_json(&self) -> (r: Json)
        ensures
            r@ == diagnostics_json(self.view()),
    {
        let mut items: Vec<Json> = Vec::new();
        let mut i: usize = 0;
        while i < self.diagnostics.len()
            invariant
                0 <= i <= self.diagnostics.len(),
                items@.len() == i,
                forall|k: int|
                    0 <= k < i ==> #[trigger] items@[k]@ == diag_json(self.diagnostics@[k].view()),
            decreases self.diagnostics.len() - i,
        {
            items.push(self.diagnostics[i].to_json());
            i = i + 1;
        }
        let mut out: Vec<(String, Json)> = Vec::new();
        push_entry(&mut out, "version", juint(self.version as u64));
        push_entry(&mut out, "uri", jstr(self.uri.as_str()));
        push_entry(&mut out, "diagnostics", jarray(items));
        proof {
            let c = self.view();
            assert(seq_view(items@) =~= Seq::new(c.diagnostics.len(), |i: int| diag_json(c.diagnostics[i])));
            assert(entries_view(out@) =~= diagnostics_json(c)->Object_0);
        }
        jobject(out)
    }
}


// ─── Reading one raw LSP diagnostic ───────────────────────────────────────

/// The all-zero range, used where a diagnostic has no readable range.
pub open spec fn zero_range() -> Seq<int> {
    seq![0int, 0, 0, 0]
}

/// The message of a raw diagnostic (empty when absent).
pub open spec fn message_of(d: JsonV) -> Seq<char> {
    match d.get_str("message"@) {
        Some(m) => m,
        None => Seq::empty(),
    }
}

/// The severity of a raw diagnostic: its LSP number when that is 1–4,
/// a warning otherwise.
pub open spec fn severity_of(d: JsonV) -> CompactSeverity {
    match d.get_u64("severity"@) {
        Some(n) => match spec_from_lsp(n) {
            Some(s) => s,
            None => CompactSeverity::W,
        },
        None => CompactSeverity::W,
    }
}

/// The range of a raw diagnostic (all zeros when it has none that can be read).
pub open spec fn range_of(d: JsonV) -> Seq<int> {
    match d.get("range"@) {
        Some(r) => match spec_encode_range(r) {
            Some(a) => a,
            None => zero_range(),
        },
        None => zero_range(),
    }
}

/// The compact tags of a raw diagnostic.
pub open spec fn tags_of(d: JsonV) -> Option<Seq<char>> {
    match d.get_array("tags"@) {
        Some(t) => spec_encode_tags(t),
        None => None,
    }
}

pub fn diag_message(d: &Json) -> (r: String)
    ensures
        r@ == message_of(d@),
{
    match d.get("message") {
        Some(v) => match v.as_str() {
            Some(m) => m.to_owned(),
            None => String::new(),
        },
        None => String::new(),
    }
}

pub fn diag_severity(d: &Json) -> (r: CompactSeverity)
    ensures
        r == severity_of(d@),
{
    match d.get("severity") {
        Some(v) => match v.as_u64() {
            Some(n) => match CompactSeverity::from_lsp(n) {
                Some(s) => s,
                None => CompactSeverity::W,
            },
            None => CompactSeverity::W,
        },
        None => CompactSeverity::W,
    }
}

pub fn diag_range(d: &Json) -> (r: [i64; 4])
    ensures
        seq4(r) == range_of(d@),
{
    let zero: [i64; 4] = [0, 0, 0, 0];
    assert(seq4(zero) =~= zero_range());
    match d.get("range") {
        Some(v) => match encode_range(v) {
            Some(a) => a,
            None => zero,
        },
        None => zero,
    }
}

pub fn diag_tags(d: &Json) -> (r: Option<String>)
    ensures
        opt_str_view(r) == tags_of(d@),
{
    match d.get("tags") {
        Some(v) => match v.as_array() {
            Some(t) => encode_tags(t.as_slice()),
            None => None,
        },
        None => None,
    }
}

/// The code of a raw diagnostic, when it is a string.
pub fn diag_code(d: &Json) -> (r: Option<String>)
    ensures
        opt_str_view(r) == d@.get_str("code"@),
{
    match d.get("code") {
        Some(v) => match v.as_str() {
            Some(c) => Some(c.to_owned()),
            None => None,
        },
        None => None,
    }
}

// ─── Compress ───────────────────────────────────────────────────────────────

/// The compact entry of one raw diagnostic (no merging).
pub open spec fn compact_of_raw(d: JsonV) -> CompactDiagnosticV {
    CompactDiagnosticV {
        m: message_of(d),
        s: severity_of(d),
        r: seq![range_of(d)],
        c: d.get_str("code"@),
        t: tags_of(d),
        n: 1,
    }
}

/// The compact form of `publishDiagnostics` params, when they have a string
/// `uri` and a `diagnostics` array: diagnostics with the same message,
/// severity and code are merged into one entry, in the order in which each
/// first occurs, with all their ranges (delta-encoded when there are several)
/// and their number.
pub open spec fn spec_compress(p: JsonV) -> Option<CompactDiagnosticsV> {
    spec_compressed(p, false)
}

/// The compact entry of one raw diagnostic.
pub fn compact_raw(d: &Json) -> (r: CompactDiagnostic)
    ensures
        r.view() == compact_of_raw(d@),
{
    let mut ranges: Vec<[i64; 4]> = Vec::new();
    ranges.push(diag_range(d));
    let entry = CompactDiagnostic {
        m: diag_message(d),
        s: diag_severity(d),
        r: ranges,
        c: diag_code(d),
        t: diag_tags(d),
        n: 1,
    };
    proof {
        assert(entry.view() =~= compact_of_raw(d@));
    }
    entry
}

/// Compresses LSP `textDocument/publishDiagnostics` params
/// (`{"uri": "...", "diagnostics": [...]}`) into the compact format, merging
/// the diagnostics that share a message, severity and code.
pub fn compress(params: &Json) -> (r: Result<Json, LspzError>)
    requires
        compressible(params@, false),
    ensures
        match r {
            Ok(j) => spec_compress(params@) matches Some(c) && j@ == diagnostics_json(c),
            Err(e) => spec_compress(params@) is None && e is Protocol,
        },
{
    let uri = match params.get("uri") {
        Some(v) => match v.as_str() {
            Some(u) => u.to_owned(),
            None => return Err(protocol("missing 'uri' in publishDiagnostics")),
        },
        None => return Err(protocol("missing 'uri' in publishDiagnostics")),
    };
    let ds = match params.get("diagnostics") {
        Some(v) => match v.as_array() {
            Some(a) => a,
            None => return Err(protocol("missing 'diagnostics' array")),
        },
        None => return Err(protocol("missing 'diagnostics' array")),
    };
    let entries = match collect_entries(ds, false) {
        Some(es) => es,
        None => return Err(protocol("missing 'diagnostics' array")),
    };
    let ghost raw = raw_entries(seq_view(ds@), false);
    proof {
        lemma_total_ones(raw);
    }
    let groups = group_by_key(entries);
    let ghost gm = entries_model(groups@);
    proof {
        assert forall|k: int|
            0 <= k < groups@.len() && 1 < (#[trigger] groups@[k]).ranges@.len() implies deltas_fit(
            ranges_view(groups@[k].ranges@),
        ) by {
            assert(gm[k] == groups@[k].view());
        }
    }
    let merged = compact_groups(groups);
    let result = CompactDiagnostics { version: 1, uri, diagnostics: merged };
    proof {
        let c = spec_compress(params@).unwrap();
        assert forall|k: int| 0 <= k < gm.len() implies #[trigger] result.view().diagnostics[k]
            == c.diagnostics[k] by {
            assert(gm[k] == groups@[k].view());
        }
        assert(result.view() =~= c);
    }
    Ok(result.to_json())
}

// ─── Reading the compact form back ────────────────────────────────────────

/// An optional string field: absent or `null` is none, a string is some, any
/// other value cannot be read (outer `None`).
pub open spec fn read_opt_str(v: Option<JsonV>) -> Option<Option<Seq<char>>> {
    match v {
        None => Some(None),
        Some(JsonV::Null) => Some(None),
        Some(JsonV::Str(s)) => Some(Some(s)),
        _ => None,
    }
}

/// A `u32` field.
pub open spec fn read_u32(v: Option<JsonV>) -> Option<int> {
    match v {
        Some(x) => match x.as_u64() {
            Some(n) => if n <= u32::MAX {
                Some(n)
            } else {
                None
            },
            None => None,
        },
        None => None,
    }
}

/// A range written as an array of exactly four integers.
pub open spec fn read_range(v: JsonV) -> Option<Seq<int>> {
    match v.as_array() {
        Some(a) => if a.len() == 4 {
            match (a[0].as_i64(), a[1].as_i64(), a[2].as_i64(), a[3].as_i64()) {
                (Some(x), Some(y), Some(z), Some(w)) => Some(seq![x, y, z, w]),
                _ => None,
            }
        } else {
            None
        },
        None => None,
    }
}

/// A list of ranges, when every element is one.
pub open spec fn read_ranges(vs: Seq<JsonV>) -> Option<Seq<Seq<int>>>
    decreases vs.len(),
{
    if vs.len() == 0 {
        Some(Seq::empty())
    } else {
        match (read_ranges(vs.drop_last()), read_range(vs.last())) {
            (Some(rs), Some(r)) => Some(rs.push(r)),
            _ => None,
        }
    }
}

/// A compact entry: `m`, `s` and `r` are required, `c` and `t` optional, `n`
/// defaults to 0.
pub open spec fn read_diag(v: JsonV) -> Option<CompactDiagnosticV> {
    if !v.is_object() {
        None
    } else {
        match (
            v.get_str("m"@),
            v.get_str("s"@),
            v.get_array("r"@),
            read_opt_str(v.get("c"@)),
            read_opt_str(v.get("t"@)),
        ) {
            (Some(m), Some(st), Some(ra), Some(c), Some(t)) => match (
                severity_of_letter(st),
                read_ranges(ra),
            ) {
                (Some(s), Some(r)) => {
                    let n = match v.get("n"@) {
                        None => Some(0int),
                        Some(x) => read_u32(Some(x)),
                    };
                    match n {
                        Some(n) => Some(CompactDiagnosticV { m, s, r, c, t, n }),
                        None => None,
                    }
                },
                _ => None,
            },
            _ => None,
        }
    }
}

/// A list of compact entries, when every element is one.
pub open spec fn read_diags(vs: Seq<JsonV>) -> Option<Seq<CompactDiagnosticV>>
    decreases vs.len(),
{
    if vs.len() == 0 {
        Some(Seq::empty())
    } else {
        match (read_diags(vs.drop_last()), read_diag(vs.last())) {
            (Some(ds), Some(d)) => Some(ds.push(d)),
            _ => None,
        }
    }
}

/// A compact diagnostics message: an object with a `u32` `version`, a string
/// `uri` and an array of entries `diagnostics`.
pub open spec fn read_compact(v: JsonV) -> Option<CompactDiagnosticsV> {
    if !v.is_object() {
        None
    } else {
        match (read_u32(v.get("version"@)), v.get_str("uri"@), v.get_array("diagnostics"@)) {
            (Some(version), Some(uri), Some(ds)) => match read_diags(ds) {
                Some(diagnostics) => Some(CompactDiagnosticsV { version, uri, diagnostics }),
                None => None,
            },
            _ => None,
        }
    }
}

fn read_opt_str_exec(v: Option<&Json>) -> (r: Option<Option<String>>)
    ensures
        match r {
            Some(o) => read_opt_str(
                match v {
                    Some(x) => Some(x@),
                    None => None,
                },
            ) == Some(opt_str_view(o)),
            None => read_opt_str(
                match v {
                    Some(x) => Some(x@),
                    None => None,
                },
            ) is None,
        },
{
    match v {
        None => Some(None),
        Some(Json::Null) => Some(None),
        Some(Json::Str(s)) => Some(Some(s.clone())),
        Some(_) => None,
    }
}

fn read_u32_exec(v: &Json) -> (r: Option<u32>)
    ensures
        match r {
            Some(n) => read_u32(Some(v@)) == Some(n as int),
            None => read_u32(Some(v@)) is None,
        },
{
    match v.as_u64() {
        Some(n) => if n <= 4294967295u64 {
            Some(n as u32)
        } else {
            None
        },
        None => None,
    }
}

fn read_range_exec(v: &Json) -> (r: Option<[i64; 4]>)
    ensures
        match r {
            Some(a) => read_range(v@) == Some(seq4(a)),
            None => read_range(v@) is None,
        },
{
    let a = match v.as_array() {
        Some(a) => a,
        None => return None,
    };
    if a.len() != 4 {
        return None;
    }
    let x = match a[0].as_i64() {
        Some(n) => n,
        None => return None,
    };
    let y = match a[1].as_i64() {
        Some(n) => n,
        None => return None,
    };
    let z = match a[2].as_i64() {
        Some(n) => n,
        None => return None,
    };
    let w = match a[3].as_i64() {
        Some(n) => n,
        None => return None,
    };
    let out = [x, y, z, w];
    assert(seq4(out) =~= seq![x as int, y as int, z as int, w as int]);
    Some(out)
}

#[verifier::loop_isolation(false)]
fn read_diag_exec(v: &Json) -> (r: Option<CompactDiagnostic>)
    ensures
        match r {
            Some(d) => read_diag(v@) == Some(d.view()),
            None => read_diag(v@) is None,
        },
{
    if !v.is_object() {
        return None;
    }
    let m = match v.get("m") {
        Some(x) => match x.as_str() {
            Some(m) => m.to_owned(),
            None => return None,
        },
        None => return None,
    };
    let st = match v.get("s") {
        Some(x) => match x.as_str() {
            Some(st) => st,
            None => return None,
        },
        None => return None,
    };
    let ra = match v.get("r") {
        Some(x) => match x.as_array() {
            Some(ra) => ra,
            None => return None,
        },
        None => return None,
    };
    let c = match read_opt_str_exec(v.get("c")) {
        Some(c) => c,
        None => return None,
    };
    let t = match read_opt_str_exec(v.get("t")) {
        Some(t) => t,
        None => return None,
    };
    let s = match CompactSeverity::from_letter(st) {
        Some(s) => s,
        None => return None,
    };
    let ghost rv = seq_view(ra@);
    let mut r: Vec<[i64; 4]> = Vec::new();
    let mut i: usize = 0;
    while i < ra.len()
        invariant
            0 <= i <= ra.len(),
            rv == seq_view(ra@),
            read_ranges(rv.take(i as int)) == Some(ranges_view(r@)),
        decreases ra.len() - i,
    {
        proof {
            assert(rv.take(i + 1).drop_last() =~= rv.take(i as int));
        }
        match read_range_exec(&ra[i]) {
            Some(a) => {
                let ghost old_r = r@;
                r.push(a);
                proof {
                    assert(ranges_view(r@) =~= ranges_view(old_r).push(seq4(a)));
                }
            },
            None => {
                proof {
                    lemma_read_ranges_fail(rv, i as int);
                }
                return None;
            },
        }
        i = i + 1;
    }
    proof {
        assert(rv.take(i as int) =~= rv);
    }
    let n: u32 = match v.get("n") {
        None => 0,
        Some(x) => match read_u32_exec(x) {
            Some(n) => n,
            None => return None,
        },
    };
    let d = CompactDiagnostic { m, s, r, c, t, n };
    proof {
        assert(read_diag(v@) == Some(d.view()));
    }
    Some(d)
}

/// A list that holds an element that is not a range cannot be read.
proof fn lemma_read_ranges_fail(vs: Seq<JsonV>, i: int)
    requires
        0 <= i < vs.len(),
        read_range(vs[i]) is None,
    ensures
        read_ranges(vs) is None,
    decreases vs.len(),
{
    if i < vs.len() - 1 {
        lemma_read_ranges_fail(vs.drop_last(), i);
    }
}

/// A list that holds an element that is not an entry cannot be read.
proof fn lemma_read_diags_fail(vs: Seq<JsonV>, i: int)
    requires
        0 <= i < vs.len(),
        read_diag(vs[i]) is None,
    ensures
        read_diags(vs) is None,
    decreases vs.len(),
{
    if i < vs.len() - 1 {
        lemma_read_diags_fail(vs.drop_last(), i);
    }
}

impl CompactDiagnostics {
    /// Reads the JSON form of a compact diagnostics message.
    #[verifier::loop_isolation(false)]
    pub fn from_json(v: &Json) -> (r: Option<CompactDiagnostics>)
        ensures
            match r {
                Some(c) => read_compact(v@) == Some(c.view()),
                None => read_compact(v@) is None,
            },
    {
        if !v.is_object() {
            return None;
        }
        let version = match v.get("version") {
            Some(x) => match read_u32_exec(x) {
                Some(n) => n,
                None => return None,
            },
            None => return None,
        };
        let uri = match v.get("uri") {
            Some(x) => match x.as_str() {
                Some(u) => u.to_owned(),
                None => return None,
            },
            None => return None,
        };
        let ds = match v.get("diagnostics") {
            Some(x) => match x.as_array() {
                Some(ds) => ds,
                None => return None,
            },
            None => return None,
        };
        let ghost dv = seq_view(ds@);
        let mut out: Vec<CompactDiagnostic> = Vec::new();
        let mut i: usize = 0;
        while i < ds.len()
            invariant
                0 <= i <= ds.len(),
                dv == seq_view(ds@),
                read_diags(dv.take(i as int)) == Some(
                    Seq::new(out@.len(), |k: int| out@[k].view()),
                ),
            decreases ds.len() - i,
        {
            proof {
                assert(dv.take(i + 1).drop_last() =~= dv.take(i as int));
            }
            match read_diag_exec(&ds[i]) {
                Some(d) => {
                    let ghost before = Seq::new(out@.len(), |k: int| out@[k].view());
                    out.push(d);
                    proof {
                        assert(Seq::new(out@.len(), |k: int| out@[k].view()) =~= before.push(
                            d.view(),
                        ));
                    }
                },
                None => {
                    proof {
                        lemma_read_diags_fail(dv, i as int);
                    }
                    return None;
                },
            }
            i = i + 1;
        }
        proof {
            assert(dv.take(i as int) =~= dv);
        }
        let c = CompactDiagnostics { version, uri, diagnostics: out };
        proof {
            assert(read_compact(v@) =~= Some(c.view()));
        }
        Some(c)
    }
}


// ─── Decompress ─────────────────────────────────────────────────────────────

/// An LSP position `{line, character}`.
pub open spec fn position_json(line: int, ch: int) -> JsonV {
    JsonV::Object(seq![("line"@, JsonV::Int(line)), ("character"@, JsonV::Int(ch))])
}

/// An LSP range `{start, end}` from `[line, char, line, char]`.
pub open spec fn lsp_range_json(a: Seq<int>) -> JsonV {
    JsonV::Object(
        seq![("start"@, position_json(a[0], a[1])), ("end"@, position_json(a[2], a[3]))],
    )
}

/// One LSP diagnostic rebuilt from a compact entry and one absolute range.
pub open spec fn expanded_diag(d: CompactDiagnosticV, a: Seq<int>) -> JsonV {
    JsonV::Object(
        seq![
            ("range"@, lsp_range_json(a)),
            ("severity"@, JsonV::Int(spec_to_lsp(d.s))),
            ("message"@, JsonV::Str(d.m)),
        ] + opt_entry(
            "code"@,
            match d.c {
                Some(c) => Some(JsonV::Str(c)),
                None => None,
            },
        ),
    )
}

/// How many LSP diagnostics a compact entry stands for: its count, at least 1.
pub open spec fn expand_count(d: CompactDiagnosticV) -> int {
    if d.n < 1 {
        1
    } else {
        d.n
    }
}

/// The LSP diagnostics a compact entry stands for: as many as its count, the
/// ranges taken in turn (round-robin) when the count exceeds them.
pub open spec fn expand(d: CompactDiagnosticV) -> Seq<JsonV> {
    let abs = spec_decode(d.r);
    Seq::new(expand_count(d) as nat, |i: int| expanded_diag(d, abs[i % abs.len() as int]))
}

/// The `publishDiagnostics` params rebuilt from a compact message.
pub open spec fn spec_decompress(c: CompactDiagnosticsV) -> JsonV {
    JsonV::Object(
        seq![
            ("uri"@, JsonV::Str(c.uri)),
            ("diagnostics"@, JsonV::Array(
                Seq::new(c.diagnostics.len(), |i: int| expand(c.diagnostics[i])).flatten_alt(),
            )),
        ],
    )
}

/// Whether every entry of a compact message has a range, and its ranges decode
/// to numbers that fit in `i64`.
pub open spec fn decompressible(c: CompactDiagnosticsV) -> bool {
    forall|i: int|
        0 <= i < c.diagnostics.len() ==> #[trigger] c.diagnostics[i].r.len() > 0 && all_fit(
            spec_decode(c.diagnostics[i].r),
        )
}

/// An LSP position value.
fn position_to_json(line: i64, ch: i64) -> (r: Json)
    ensures
        r@ == position_json(line as int, ch as int),
{
    let mut out: Vec<(String, Json)> = Vec::new();
    push_entry(&mut out, "line", jint(line));
    push_entry(&mut out, "character", jint(ch));
    assert(entries_view(out@) =~= position_json(line as int, ch as int)->Object_0);
    jobject(out)
}

/// An LSP range value from `[line, char, line, char]`.
pub fn lsp_range_to_json(a: &[i64; 4]) -> (r: Json)
    ensures
        r@ == lsp_range_json(seq4(*a)),
{
    let mut out: Vec<(String, Json)> = Vec::new();
    push_entry(&mut out, "start", position_to_json(a[0], a[1]));
    push_entry(&mut out, "end", position_to_json(a[2], a[3]));
    assert(entries_view(out@) =~= lsp_range_json(seq4(*a))->Object_0);
    jobject(out)
}

/// Each decoded range is the one before it plus its delta; the first is as
/// written.
proof fn lemma_decode_at(e: Seq<Seq<int>>, i: int)
    requires
        0 <= i < e.len(),
    ensures
        spec_decode(e).len() == e.len(),
        i == 0 ==> spec_decode(e)[i] == e[0],
        i > 0 ==> spec_decode(e)[i] == add4(spec_decode(e)[i - 1], e[i]),
{
    lemma_decode_len(e);
    lemma_decode_prefix(e, i + 1);
    if i == 0 {
        assert(e.take(1) =~= seq![e[0]]);
    } else {
        lemma_decode_prefix(e, i);
        lemma_decode_step(e, i);
        assert(spec_decode(e)[i] == spec_decode(e.take(i + 1))[i]);
        assert(spec_decode(e.take(i)).last() == spec_decode(e.take(i))[i - 1]);
        assert(spec_decode(e.take(i)).last() == spec_decode(e)[i - 1]);
    }
}

/// Whether delta-encoded ranges decode to numbers that all fit in `i64`.
pub fn decodes_in_range(encoded: &[[i64; 4]]) -> (r: bool)
    ensures
        r == all_fit(spec_decode(ranges_view(encoded@))),
{
    let ghost e = ranges_view(encoded@);
    proof {
        lemma_decode_len(e);
    }
    let mut prev: [i64; 4] = [0, 0, 0, 0];
    let mut i: usize = 0;
    while i < encoded.len()
        invariant
            0 <= i <= encoded.len(),
            e == ranges_view(encoded@),
            spec_decode(e).len() == e.len(),
            i > 0 ==> seq4(prev) == spec_decode(e)[i - 1],
            forall|j: int, k: int| 0 <= j < i && 0 <= k < 4 ==> fits_i64(#[trigger] spec_decode(e)[j][k]),
        decreases encoded.len() - i,
    {
        proof {
            lemma_decode_at(e, i as int);
        }
        let x = encoded[i];
        assert(seq4(x) == e[i as int]);
        if i == 0 {
            prev = x;
        } else {
            let ghost d = spec_decode(e)[i as int];
            let mut next: [i64; 4] = [0, 0, 0, 0];
            let mut k: usize = 0;
            while k < 4
                invariant
                    0 <= k <= 4,
                    0 < i < encoded@.len(),
                    e == ranges_view(encoded@),
                    spec_decode(e).len() == e.len(),
                    d == spec_decode(e)[i as int],
                    d == add4(seq4(prev), seq4(x)),
                    forall|q: int| 0 <= q < k ==> next@[q] == d[q],
                decreases 4 - k,
            {
                match prev[k].checked_add(x[k]) {
                    Some(s) => {
                        next[k] = s;
                    },
                    None => {
                        proof {
                            assert(d[k as int] == prev[k as int] + x[k as int]);
                            assert(!fits_i64(spec_decode(e)[i as int][k as int]));
                            assert(!all_fit(spec_decode(e)));
                        }
                        return false;
                    },
                }
                k = k + 1;
            }
            prev = next;
            proof {
                assert(seq4(prev) =~= d);
            }
        }
        i = i + 1;
    }
    true
}

/// Whether a compact message can be decompressed: every entry has a range and
/// its ranges decode to numbers that fit in `i64`.
pub fn can_decompress(c: &CompactDiagnostics) -> (r: bool)
    ensures
        r == decompressible(c.view()),
{
    let ghost cv = c.view();
    let mut i: usize = 0;
    while i < c.diagnostics.len()
        invariant
            0 <= i <= c.diagnostics@.len(),
            cv == c.view(),
            forall|j: int| 0 <= j < i ==> #[trigger] cv.diagnostics[j].r.len() > 0 && all_fit(
                spec_decode(cv.diagnostics[j].r),
            ),
        decreases c.diagnostics.len() - i,
    {
        let d = &c.diagnostics[i];
        assert(cv.diagnostics[i as int] == d.view());
        if d.r.len() == 0 || !decodes_in_range(d.r.as_slice()) {
            proof {
                assert(cv.diagnostics[i as int].r == ranges_view(d.r@));
                assert(!(cv.diagnostics[i as int].r.len() > 0 && all_fit(spec_decode(cv.diagnostics[i as int].r))));
            }
            return false;
        }
        i = i + 1;
    }
    true
}

/// Decompresses a compact diagnostics value back to LSP `publishDiagnostics` params.
pub fn decompress(compact_val: &Json) -> (r: Result<Json, LspzError>)
    requires
        read_compact(compact_val@) matches Some(c) ==> decompressible(c),
    ensures
        match r {
            Ok(j) => read_compact(compact_val@) matches Some(c) && j@ == spec_decompress(c),
            Err(e) => read_compact(compact_val@) is None && e is JsonParse,
        },
{
    let compact = match CompactDiagnostics::from_json(compact_val) {
        Some(c) => c,
        None => return Err(LspzError::JsonParse("not a compact diagnostics message".to_owned())),
    };
    let ghost cv = compact.view();
    let ghost parts = Seq::new(cv.diagnostics.len(), |i: int| expand(cv.diagnostics[i]));
    let mut diagnostics: Vec<Json> = Vec::new();
    let mut k: usize = 0;
    while k < compact.diagnostics.len()
        invariant
            0 <= k <= compact.diagnostics.len(),
            cv == compact.view(),
            decompressible(cv),
            parts == Seq::new(cv.diagnostics.len(), |i: int| expand(cv.diagnostics[i])),
            seq_view(diagnostics@) == parts.take(k as int).flatten_alt(),
        decreases compact.diagnostics.len() - k,
    {
        let diag = &compact.diagnostics[k];
        let ghost dv = cv.diagnostics[k as int];
        assert(dv == diag.view());
        assert(cv.diagnostics[k as int].r.len() > 0);
        let rs = diag.r.as_slice();
        assert(rs@ == diag.r@);
        let absolute = decode_ranges(rs);
        proof {
            lemma_decode_len(dv.r);
        }
        let count: u32 = if diag.n > 1 { diag.n } else { 1 };
        let ghost start = seq_view(diagnostics@);
        let mut j: u32 = 0;
        while j < count
            invariant
                0 <= j <= count,
                count as int == expand_count(dv),
                absolute@.len() == dv.r.len(),
                absolute@.len() > 0,
                ranges_view(absolute@) == spec_decode(dv.r),
                dv == diag.view(),
                seq_view(diagnostics@) == start + expand(dv).take(j as int),
            decreases count - j,
        {
            let idx = (j as usize) % absolute.len();
            let a = absolute[idx];
            let mut obj: Vec<(String, Json)> = Vec::new();
            push_entry(&mut obj, "range", lsp_range_to_json(&a));
            push_entry(&mut obj, "severity", juint(diag.s.to_lsp()));
            push_entry(&mut obj, "message", jstr(diag.m.as_str()));
            push_opt_entry(&mut obj, "code", opt_jstr(&diag.c));
            let ghost before = seq_view(diagnostics@);
            let item = jobject(obj);
            proof {
                assert(seq4(a) == spec_decode(dv.r)[j as int % (spec_decode(dv.r).len() as int)]);
                assert(entries_view(obj@) =~= expanded_diag(dv, seq4(a))->Object_0);
            }
            diagnostics.push(item);
            proof {
                assert(seq_view(diagnostics@) =~= before.push(item@));
                assert(expand(dv).take(j + 1) =~= expand(dv).take(j as int).push(expand(dv)[j as int]));
                assert(seq_view(diagnostics@) =~= start + expand(dv).take(j + 1));
            }
            j = j + 1;
        }
        proof {
            assert(expand(dv).take(j as int) =~= expand(dv));
            assert(parts.take(k + 1).drop_last() =~= parts.take(k as int));
            assert(parts.take(k + 1).last() == expand(dv));
        }
        k = k + 1;
    }
    proof {
        assert(parts.take(k as int) =~= parts);
    }
    let mut out: Vec<(String, Json)> = Vec::new();
    push_entry(&mut out, "uri", jstr(compact.uri.as_str()));
    push_entry(&mut out, "diagnostics", jarray(diagnostics));
    proof {
        assert(entries_view(out@) =~= spec_decompress(cv)->Object_0);
    }
    Ok(jobject(out))
}


// ─── What decompressing gives back of compressing ─────────────────────────

/// A raw diagnostic as it comes back from compressing then decompressing:
/// its range (zeros when it had none that could be read), its severity (a
/// warning when it had none from 1 to 4), its message and its string code.
pub open spec fn restored_diag(d: JsonV) -> JsonV {
    JsonV::Object(
        seq![
            ("range"@, lsp_range_json(range_of(d))),
            ("severity"@, JsonV::Int(spec_to_lsp(severity_of(d)))),
            ("message"@, JsonV::Str(message_of(d))),
        ] + opt_entry(
            "code"@,
            match d.get_str("code"@) {
                Some(c) => Some(JsonV::Str(c)),
                None => None,
            },
        ),
    )
}

/// The entry of a raw diagnostic as it reads back from its JSON form (a
/// count of 1 is not written, and reads back as 0).
pub open spec fn read_back(d: CompactDiagnosticV) -> CompactDiagnosticV {
    CompactDiagnosticV { n: if d.n == 1 { 0 } else { d.n }, ..d }
}

/// The keys of the compact JSON form are distinct.
proof fn lemma_compact_keys()
    ensures
        "m"@ != "s"@,
        "m"@ != "r"@,
        "m"@ != "c"@,
        "m"@ != "t"@,
        "m"@ != "n"@,
        "s"@ != "r"@,
        "s"@ != "c"@,
        "s"@ != "t"@,
        "s"@ != "n"@,
        "r"@ != "c"@,
        "r"@ != "t"@,
        "r"@ != "n"@,
        "c"@ != "t"@,
        "c"@ != "n"@,
        "t"@ != "n"@,
        "version"@ != "uri"@,
        "version"@ != "diagnostics"@,
        "uri"@ != "diagnostics"@,
{
    reveal_strlit("m");
    reveal_strlit("s");
    reveal_strlit("r");
    reveal_strlit("c");
    reveal_strlit("t");
    reveal_strlit("n");
    reveal_strlit("version");
    reveal_strlit("uri");
    reveal_strlit("diagnostics");
    assert("m"@[0] != "s"@[0]);
    assert("m"@[0] != "r"@[0]);
    assert("m"@[0] != "c"@[0]);
    assert("m"@[0] != "t"@[0]);
    assert("m"@[0] != "n"@[0]);
    assert("s"@[0] != "r"@[0]);
    assert("s"@[0] != "c"@[0]);
    assert("s"@[0] != "t"@[0]);
    assert("s"@[0] != "n"@[0]);
    assert("r"@[0] != "c"@[0]);
    assert("r"@[0] != "t"@[0]);
    assert("r"@[0] != "n"@[0]);
    assert("c"@[0] != "t"@[0]);
    assert("c"@[0] != "n"@[0]);
    assert("t"@[0] != "n"@[0]);
    assert("version"@[0] != "uri"@[0]);
    assert("version"@[0] != "diagnostics"@[0]);
    assert("uri"@[0] != "diagnostics"@[0]);
}

/// Keys that none of the first `n` entries has are looked up in the rest.
proof fn lemma_find_key_after(es: Seq<(Seq<char>, JsonV)>, n: int, k: Seq<char>)
    requires
        0 <= n <= es.len(),
        forall|i: int| 0 <= i < n ==> (#[trigger] es[i]).0 != k,
    ensures
        find_key(es, k) == match find_key(es.skip(n), k) {
            Some(i) => Some(i + n),
            None => None::<int>,
        },
    decreases n,
{
    if n == 0 {
        assert(es.skip(0) =~= es);
    } else {
        assert forall|i: int| 0 <= i < n - 1 implies (#[trigger] es.drop_first()[i]).0 != k by {
            assert(es.drop_first()[i] == es[i + 1]);
        }
        lemma_find_key_after(es.drop_first(), n - 1, k);
        assert(es.drop_first().skip(n - 1) =~= es.skip(n));
    }
}

/// The numbers of a raw diagnostic's range fit in `i64`.
pub(crate) proof fn lemma_range_of_fits(d: JsonV)
    ensures
        range_of(d).len() == 4,
        forall|k: int| 0 <= k < 4 ==> fits_i64(#[trigger] range_of(d)[k]),
{
}

/// A key looked up in entries none of whose first `i` has it: found at `i`
/// when that entry has it, absent when there is no entry after them.
proof fn lemma_lookup(es: Seq<(Seq<char>, JsonV)>, k: Seq<char>, i: int)
    requires
        0 <= i <= es.len(),
        forall|j: int| 0 <= j < i ==> (#[trigger] es[j]).0 != k,
    ensures
        i < es.len() && es[i].0 == k ==> find_key(es, k) == Some(i),
        i == es.len() ==> find_key(es, k) is None,
{
    lemma_find_key_after(es, i, k);
    if i < es.len() && es[i].0 == k {
        assert(es.skip(i)[0].0 == k);
    }
    if i == es.len() {
        assert(es.skip(i).len() == 0);
    }
}

/// Ranges of four numbers that fit in `i64` read back from their JSON form.
proof fn lemma_read_ranges(r: Seq<Seq<int>>)
    requires
        all_len4(r),
        all_fit(r),
    ensures
        read_ranges(Seq::new(r.len(), |i: int| range_json(r[i]))) == Some(r),
    decreases r.len(),
{
    let ra = Seq::new(r.len(), |i: int| range_json(r[i]));
    if r.len() == 0 {
        assert(r =~= Seq::<Seq<int>>::empty());
    } else {
        let p = r.drop_last();
        assert(all_len4(p) && all_fit(p)) by {
            assert forall|i: int| 0 <= i < p.len() implies (#[trigger] p[i]).len() == 4 by {
                assert(p[i] == r[i]);
            }
            assert forall|i: int, k: int| 0 <= i < p.len() && 0 <= k < 4 implies fits_i64(
                #[trigger] p[i][k],
            ) by {
                assert(p[i] == r[i]);
            }
        }
        lemma_read_ranges(p);
        assert(ra.drop_last() =~= Seq::new(p.len(), |i: int| range_json(p[i])));
        let x = r.last();
        assert(x.len() == 4);
        assert(fits_i64(x[0]) && fits_i64(x[1]) && fits_i64(x[2]) && fits_i64(x[3])) by {
            assert(fits_i64(r[r.len() - 1][0]));
            assert(fits_i64(r[r.len() - 1][1]));
            assert(fits_i64(r[r.len() - 1][2]));
            assert(fits_i64(r[r.len() - 1][3]));
        }
        assert(read_range(ra.last()) == Some(x)) by {
            assert(x =~= seq![x[0], x[1], x[2], x[3]]);
        }
        assert(p.push(x) =~= r);
    }
}

/// The JSON form of a compact entry whose ranges have four numbers that fit
/// in `i64` and whose count fits in 32 bits reads back as that entry (a count
/// of 1 is not written, and reads back as 0).
pub(crate) proof fn lemma_read_entry(d: CompactDiagnosticV)
    requires
        all_len4(d.r),
        all_fit(d.r),
        0 <= d.n <= u32::MAX,
    ensures
        read_diag(diag_json(d)) == Some(read_back(d)),
{
    lemma_compact_keys();
    lemma_severity_roundtrip(d.s, 0);
    lemma_read_ranges(d.r);
    let j = diag_json(d);
    let es = j->Object_0;
    let base = seq![
        ("m"@, JsonV::Str(d.m)),
        ("s"@, JsonV::Str(severity_letter(d.s))),
        ("r"@, JsonV::Array(Seq::new(d.r.len(), |i: int| range_json(d.r[i])))),
    ];
    let ce = opt_entry("c"@, match d.c { Some(c) => Some(JsonV::Str(c)), None => None });
    let te = opt_entry("t"@, match d.t { Some(t) => Some(JsonV::Str(t)), None => None });
    let ne: Seq<(Seq<char>, JsonV)> = if d.n != 1 {
        seq![("n"@, JsonV::Int(d.n))]
    } else {
        Seq::empty()
    };
    assert(es =~= base + ce + te + ne);
    assert(find_key(es, "m"@) == Some(0int));
    assert(es.drop_first()[0].0 == "s"@);
    assert(find_key(es.drop_first(), "s"@) == Some(0int));
    assert(find_key(es, "s"@) == Some(1int));
    assert(es.drop_first().drop_first()[0].0 == "r"@);
    assert(find_key(es.drop_first().drop_first(), "r"@) == Some(0int));
    assert(find_key(es.drop_first(), "r"@) == Some(1int));
    assert(find_key(es, "r"@) == Some(2int));
    let rest = es.skip(3);
    assert(rest =~= ce + te + ne);
    lemma_find_key_after(es, 3, "c"@);
    lemma_find_key_after(es, 3, "t"@);
    lemma_find_key_after(es, 3, "n"@);
    let a = ce.len() as int;
    let b = a + te.len();
    assert(forall|i: int| 0 <= i < a ==> (#[trigger] rest[i]).0 == "c"@);
    assert(forall|i: int| a <= i < b ==> (#[trigger] rest[i]).0 == "t"@);
    assert(forall|i: int| b <= i < rest.len() ==> (#[trigger] rest[i]).0 == "n"@);
    if a > 0 {
        lemma_lookup(rest, "c"@, 0);
    } else {
        lemma_lookup(rest, "c"@, rest.len() as int);
    }
    if b > a {
        lemma_lookup(rest, "t"@, a);
    } else {
        lemma_lookup(rest, "t"@, rest.len() as int);
    }
    lemma_lookup(rest, "n"@, b);
    assert(j.get("c"@) == match d.c { Some(c) => Some(JsonV::Str(c)), None => None::<JsonV> });
    assert(j.get("t"@) == match d.t { Some(t) => Some(JsonV::Str(t)), None => None::<JsonV> });
    if d.n != 1 {
        assert(rest[b].0 == "n"@);
        assert(j.get("n"@) == Some(JsonV::Int(d.n)));
    } else {
        assert(b == rest.len());
        assert(j.get("n"@) is None);
    }
    assert(read_diag(j) == Some(read_back(d)));
}

/// Entries that read back one by one read back as a list.
proof fn lemma_read_entries(cs: Seq<CompactDiagnosticV>)
    requires
        forall|i: int| 0 <= i < cs.len() ==> read_diag(diag_json(#[trigger] cs[i])) == Some(read_back(cs[i])),
    ensures
        read_diags(Seq::new(cs.len(), |i: int| diag_json(cs[i]))) == Some(
            Seq::new(cs.len(), |i: int| read_back(cs[i])),
        ),
    decreases cs.len(),
{
    let js = Seq::new(cs.len(), |i: int| diag_json(cs[i]));
    let ds = Seq::new(cs.len(), |i: int| read_back(cs[i]));
    if cs.len() > 0 {
        let p = cs.drop_last();
        assert forall|i: int| 0 <= i < p.len() implies read_diag(diag_json(#[trigger] p[i])) == Some(
            read_back(p[i]),
        ) by {
            assert(p[i] == cs[i]);
        }
        lemma_read_entries(p);
        assert(js.drop_last() =~= Seq::new(p.len(), |i: int| diag_json(p[i])));
        assert(js.last() == diag_json(cs[cs.len() - 1]));
        assert(Seq::new(p.len(), |i: int| read_back(p[i])).push(read_back(cs[cs.len() - 1])) =~= ds);
    } else {
        assert(ds =~= Seq::<CompactDiagnosticV>::empty());
    }
}

/// An entry whose count is its number of ranges, of which it has at least
/// one, each of four numbers that fit in `i64`.
pub open spec fn well_counted(e: EntryV) -> bool {
    &&& e.count == e.ranges.len()
    &&& e.ranges.len() >= 1
    &&& all_len4(e.ranges)
    &&& all_fit(e.ranges)
}

/// Grouping well-counted entries gives well-counted groups.
pub(crate) proof fn lemma_group_shape(es: Seq<EntryV>)
    requires
        forall|k: int| 0 <= k < es.len() ==> well_counted(#[trigger] es[k]),
    ensures
        forall|k: int| 0 <= k < spec_group(es).len() ==> well_counted(#[trigger] spec_group(es)[k]),
    decreases es.len(),
{
    if es.len() > 0 {
        let pre = es.drop_last();
        assert forall|k: int| 0 <= k < pre.len() implies well_counted(#[trigger] pre[k]) by {
            assert(pre[k] == es[k]);
        }
        lemma_group_shape(pre);
        let g = spec_group(pre);
        let e = es.last();
        assert(well_counted(es[es.len() - 1]));
        lemma_find_group(g, key_of(e));
        match find_group(g, key_of(e)) {
            Some(j) => {
                let m = merge_into(g[j], e);
                assert(well_counted(g[j]));
                let rs = g[j].ranges + e.ranges;
                assert(m.ranges == rs);
                assert forall|i: int| 0 <= i < rs.len() implies (#[trigger] rs[i]).len() == 4 by {
                    if i < g[j].ranges.len() {
                        assert(rs[i] == g[j].ranges[i]);
                    } else {
                        assert(rs[i] == e.ranges[i - g[j].ranges.len()]);
                    }
                }
                assert forall|i: int, k: int| 0 <= i < rs.len() && 0 <= k < 4 implies fits_i64(
                    #[trigger] rs[i][k],
                ) by {
                    if i < g[j].ranges.len() {
                        assert(rs[i] == g[j].ranges[i]);
                    } else {
                        assert(rs[i] == e.ranges[i - g[j].ranges.len()]);
                    }
                }
                assert(well_counted(m));
                let g2 = g.update(j, m);
                assert forall|k: int| 0 <= k < g2.len() implies well_counted(#[trigger] g2[k]) by {
                    if k != j {
                        assert(g2[k] == g[k]);
                    }
                }
            },
            None => {
                let g2 = g.push(e);
                assert forall|k: int| 0 <= k < g2.len() implies well_counted(#[trigger] g2[k]) by {
                    if k < g.len() {
                        assert(g2[k] == g[k]);
                    }
                }
            },
        }
    }
}

/// The LSP diagnostic that a merged entry stands for at one of its ranges.
pub open spec fn group_diag(g: EntryV, a: Seq<int>) -> JsonV {
    JsonV::Object(
        seq![
            ("range"@, lsp_range_json(a)),
            ("severity"@, JsonV::Int(spec_to_lsp(g.severity))),
            ("message"@, JsonV::Str(g.message)),
        ] + opt_entry(
            "code"@,
            match g.code {
                Some(c) => Some(JsonV::Str(c)),
                None => None,
            },
        ),
    )
}

/// The LSP diagnostics that merged entries stand for: the ranges of each in
/// turn, with its message, severity and code.
pub open spec fn groups_restored(gs: Seq<EntryV>) -> Seq<JsonV> {
    Seq::new(
        gs.len(),
        |k: int| Seq::new(gs[k].ranges.len(), |i: int| group_diag(gs[k], gs[k].ranges[i])),
    ).flatten_alt()
}

/// What decompressing gives back of compressing: the compact form of
/// `publishDiagnostics` params reads back, can be decompressed, and gives the
/// same `uri` and, for each group of diagnostics that share a message,
/// severity and code (in the order in which each first occurs), one
/// diagnostic per range of the group, at that range, with the group's
/// message, severity and code.
pub proof fn lemma_compress_roundtrip(p: JsonV)
    requires
        spec_compress(p) is Some,
        compressible(p, false),
    ensures
        read_compact(diagnostics_json(spec_compress(p).unwrap())) matches Some(c) && decompressible(c)
            && spec_decompress(c) == JsonV::Object(
            seq![
                ("uri"@, JsonV::Str(p.get_str("uri"@).unwrap())),
                ("diagnostics"@, JsonV::Array(
                    groups_restored(spec_group(raw_entries(p.get_array("diagnostics"@).unwrap(), false))),
                )),
            ],
        ),
{
    lemma_compact_keys();
    let c = spec_compress(p).unwrap();
    let xs = p.get_array("diagnostics"@).unwrap();
    let raw = raw_entries(xs, false);
    let gs = spec_group(raw);
    assert forall|k: int| 0 <= k < raw.len() implies well_counted(#[trigger] raw[k]) by {
        lemma_range_of_fits(xs[k]);
        let r = raw[k].ranges;
        assert(r == seq![range_of(xs[k])]);
        assert forall|i: int, q: int| 0 <= i < r.len() && 0 <= q < 4 implies fits_i64(
            #[trigger] r[i][q],
        ) by {
            assert(r[i] == range_of(xs[k]));
        }
    }
    lemma_group_shape(raw);
    lemma_total_ones(raw);
    assert forall|k: int| 0 <= k < raw.len() implies (#[trigger] raw[k]).count >= 0 by {}
    lemma_group_invariants(raw);
    let cd = c.diagnostics;
    assert(cd.len() == gs.len());
    assert forall|k: int| 0 <= k < cd.len() implies read_diag(diag_json(#[trigger] cd[k])) == Some(
        read_back(cd[k]),
    ) && spec_decode(cd[k].r) == gs[k].ranges && cd[k].r.len() > 0 by {
        let g = gs[k];
        assert(well_counted(g));
        assert(cd[k] == compact_of_group(g));
        if g.ranges.len() > 1 {
            assert(deltas_fit(g.ranges));
            let dl = spec_deltas(g.ranges);
            assert forall|i: int| 0 <= i < dl.len() implies (#[trigger] dl[i]).len() == 4 by {}
            lemma_decode_deltas(g.ranges);
        } else {
            assert(spec_decode(g.ranges) =~= g.ranges);
        }
        lemma_read_entry(cd[k]);
    }
    lemma_read_entries(cd);
    let j = diagnostics_json(c);
    let es = j->Object_0;
    assert(find_key(es, "version"@) == Some(0int));
    assert(es.drop_first()[0].0 == "uri"@);
    assert(find_key(es.drop_first(), "uri"@) == Some(0int));
    assert(find_key(es, "uri"@) == Some(1int));
    assert(es.drop_first().drop_first()[0].0 == "diagnostics"@);
    assert(find_key(es.drop_first().drop_first(), "diagnostics"@) == Some(0int));
    assert(find_key(es.drop_first(), "diagnostics"@) == Some(1int));
    assert(find_key(es, "diagnostics"@) == Some(2int));
    let ds = Seq::new(cd.len(), |i: int| read_back(cd[i]));
    let c2 = CompactDiagnosticsV { version: 1, uri: c.uri, diagnostics: ds };
    assert(read_compact(j) == Some(c2));
    assert forall|i: int| 0 <= i < c2.diagnostics.len() implies #[trigger] c2.diagnostics[i].r.len() > 0
        && all_fit(spec_decode(c2.diagnostics[i].r)) by {
        assert(c2.diagnostics[i].r == cd[i].r);
        assert(well_counted(gs[i]));
    }
    let parts = Seq::new(c2.diagnostics.len(), |i: int| expand(c2.diagnostics[i]));
    let want = Seq::new(
        gs.len(),
        |k: int| Seq::new(gs[k].ranges.len(), |i: int| group_diag(gs[k], gs[k].ranges[i])),
    );
    assert forall|k: int| 0 <= k < parts.len() implies #[trigger] parts[k] == want[k] by {
        let d = c2.diagnostics[k];
        let g = gs[k];
        assert(well_counted(g));
        assert(spec_decode(d.r) == g.ranges);
        assert(expand_count(d) == g.ranges.len());
        assert forall|i: int| 0 <= i < g.ranges.len() implies #[trigger] expand(d)[i] == want[k][i] by {
            let n = g.ranges.len() as int;
            assert(i % n == i) by (nonlinear_arith)
                requires
                    0 <= i < n,
            ;
            assert(expanded_diag(d, g.ranges[i]) == group_diag(g, g.ranges[i]));
        }
        assert(expand(d) =~= want[k]);
    }
    assert(parts =~= want);
}

/// The diagnostics that one merged entry stands for: one per range.
pub open spec fn entry_restored(g: EntryV) -> Seq<JsonV> {
    Seq::new(g.ranges.len(), |i: int| group_diag(g, g.ranges[i]))
}

/// The diagnostics of each entry, entry by entry.
pub open spec fn restored_parts(gs: Seq<EntryV>) -> Seq<Seq<JsonV>> {
    Seq::new(gs.len(), |k: int| entry_restored(gs[k]))
}

/// Flattening after appending one part adds that part's diagnostics.
proof fn lemma_flatten_push(s: Seq<Seq<JsonV>>, x: Seq<JsonV>)
    ensures
        s.push(x).flatten_alt().to_multiset() =~= s.flatten_alt().to_multiset().add(x.to_multiset()),
{
    assert(s.push(x).drop_last() =~= s);
    lemma_multiset_commutative(s.flatten_alt(), x);
}

/// Replacing one part changes the flattened diagnostics by that part.
proof fn lemma_flatten_update(s: Seq<Seq<JsonV>>, j: int, y: Seq<JsonV>)
    requires
        0 <= j < s.len(),
    ensures
        s.update(j, y).flatten_alt().to_multiset().add(s[j].to_multiset()) =~= s.flatten_alt().to_multiset().add(
            y.to_multiset(),
        ),
    decreases s.len(),
{
    broadcast use vstd::multiset::group_multiset_axioms;
    let u = s.update(j, y);
    let p = s.drop_last();
    let lhs = u.flatten_alt().to_multiset().add(s[j].to_multiset());
    let rhs = s.flatten_alt().to_multiset().add(y.to_multiset());
    assert(s.flatten_alt() == p.flatten_alt() + s.last());
    assert(u.flatten_alt() == u.drop_last().flatten_alt() + u.last());
    lemma_multiset_commutative(p.flatten_alt(), s.last());
    if j == s.len() - 1 {
        assert(u.drop_last() =~= p);
        assert(u.last() == y);
        lemma_multiset_commutative(p.flatten_alt(), y);
        assert forall|v: JsonV| lhs.count(v) == rhs.count(v) by {}
    } else {
        lemma_flatten_update(p, j, y);
        assert(u.drop_last() =~= p.update(j, y));
        assert(u.last() == s.last());
        assert(p[j] == s[j]);
        lemma_multiset_commutative(p.update(j, y).flatten_alt(), s.last());
        let a = p.update(j, y).flatten_alt().to_multiset();
        let b = p.flatten_alt().to_multiset();
        assert forall|v: JsonV| a.count(v) + s[j].to_multiset().count(v) == b.count(v) + y.to_multiset().count(v) by {
            assert(a.add(p[j].to_multiset()).count(v) == b.add(y.to_multiset()).count(v));
        }
        assert forall|v: JsonV| lhs.count(v) == rhs.count(v) by {}
    }
    assert(lhs =~= rhs);
}

/// Merging an entry into a group with its key gives the diagnostics of both.
proof fn lemma_merge_restored(g: EntryV, e: EntryV)
    requires
        key_of(g) == key_of(e),
    ensures
        entry_restored(merge_into(g, e)) =~= entry_restored(g) + entry_restored(e),
{
    let m = merge_into(g, e);
    assert forall|i: int| 0 <= i < m.ranges.len() implies #[trigger] entry_restored(m)[i] == (
    entry_restored(g) + entry_restored(e))[i] by {
        if i < g.ranges.len() {
            assert(m.ranges[i] == g.ranges[i]);
        } else {
            assert(m.ranges[i] == e.ranges[i - g.ranges.len()]);
            assert(group_diag(m, m.ranges[i]) == group_diag(e, e.ranges[i - g.ranges.len()]));
        }
    }
}

/// Grouping entries changes neither which diagnostics they stand for nor how
/// many times each.
proof fn lemma_group_restored(es: Seq<EntryV>)
    ensures
        restored_parts(spec_group(es)).flatten_alt().to_multiset() =~= restored_parts(es).flatten_alt().to_multiset(),
    decreases es.len(),
{
    broadcast use vstd::multiset::group_multiset_axioms;
    if es.len() > 0 {
        let pre = es.drop_last();
        let e = es.last();
        lemma_group_restored(pre);
        let g = spec_group(pre);
        let xe = entry_restored(e);
        assert(restored_parts(es) =~= restored_parts(pre).push(xe));
        lemma_flatten_push(restored_parts(pre), xe);
        let before = restored_parts(g).flatten_alt().to_multiset();
        let want = restored_parts(es).flatten_alt().to_multiset();
        assert forall|v: JsonV| want.count(v) == before.count(v) + xe.to_multiset().count(v) by {
            assert(before.count(v) == restored_parts(pre).flatten_alt().to_multiset().count(v));
        }
        lemma_find_group(g, key_of(e));
        match find_group(g, key_of(e)) {
            Some(j) => {
                let m = merge_into(g[j], e);
                let got = restored_parts(g.update(j, m)).flatten_alt().to_multiset();
                assert(restored_parts(g.update(j, m)) =~= restored_parts(g).update(j, entry_restored(m)));
                lemma_merge_restored(g[j], e);
                lemma_flatten_update(restored_parts(g), j, entry_restored(m));
                lemma_multiset_commutative(entry_restored(g[j]), xe);
                assert(restored_parts(g)[j] == entry_restored(g[j]));
                assert forall|v: JsonV| got.count(v) == want.count(v) by {
                    assert(got.add(entry_restored(g[j]).to_multiset()).count(v) == before.add(
                        entry_restored(m).to_multiset(),
                    ).count(v));
                }
                assert(got =~= want);
            },
            None => {
                let got = restored_parts(g.push(e)).flatten_alt().to_multiset();
                assert(restored_parts(g.push(e)) =~= restored_parts(g).push(xe));
                lemma_flatten_push(restored_parts(g), xe);
                assert forall|v: JsonV| got.count(v) == want.count(v) by {}
                assert(got =~= want);
            },
        }
    } else {
        assert(spec_group(es) =~= es);
    }
}

/// The raw diagnostics, one part each, flatten to their restored forms.
proof fn lemma_raw_restored(xs: Seq<JsonV>)
    ensures
        restored_parts(raw_entries(xs, false)).flatten_alt() =~= Seq::new(xs.len(), |i: int| restored_diag(xs[i])),
    decreases xs.len(),
{
    let parts = restored_parts(raw_entries(xs, false));
    if xs.len() > 0 {
        let p = xs.drop_last();
        lemma_raw_restored(p);
        assert(parts.drop_last() =~= restored_parts(raw_entries(p, false)));
        let e = raw_entries(xs, false)[xs.len() - 1];
        assert(entry_restored(e) =~= seq![restored_diag(xs.last())]);
    }
}

/// Decompressing what was compressed gives back the diagnostics, each cut
/// down to its range, severity, message and code, as a multiset: every one
/// as many times as it occurred, only in another order.
pub proof fn lemma_compress_roundtrip_multiset(p: JsonV)
    requires
        spec_compress(p) is Some,
        compressible(p, false),
    ensures
        read_compact(diagnostics_json(spec_compress(p).unwrap())) matches Some(c) && decompressible(c)
            && spec_decompress(c).get_str("uri"@) == p.get_str("uri"@)
            && (spec_decompress(c).get_array("diagnostics"@) matches Some(out) && out.to_multiset()
            =~= Seq::new(
            p.get_array("diagnostics"@).unwrap().len(),
            |i: int| restored_diag(p.get_array("diagnostics"@).unwrap()[i]),
        ).to_multiset()),
{
    let xs = p.get_array("diagnostics"@).unwrap();
    let raw = raw_entries(xs, false);
    lemma_compress_roundtrip(p);
    lemma_compact_keys();
    lemma_group_restored(raw);
    lemma_raw_restored(xs);
    assert(groups_restored(spec_group(raw)) =~= restored_parts(spec_group(raw)).flatten_alt()) by {
        assert(restored_parts(spec_group(raw)) =~= Seq::new(
            spec_group(raw).len(),
            |k: int| Seq::new(spec_group(raw)[k].ranges.len(), |i: int| group_diag(spec_group(raw)[k], spec_group(raw)[k].ranges[i])),
        ));
    }
    let c = read_compact(diagnostics_json(spec_compress(p).unwrap())).unwrap();
    let d = spec_decompress(c);
    let es = d->Object_0;
    assert(es[0].0 == "uri"@);
    assert(es[1].0 == "diagnostics"@);
    assert(find_key(es, "uri"@) == Some(0int));
    assert(es.drop_first()[0].0 == "diagnostics"@);
    assert(find_key(es.drop_first(), "diagnostics"@) == Some(0int));
    assert(find_key(es, "diagnostics"@) == Some(1int));
}

/// The sum of the counts of compact entries.
pub open spec fn count_sum(ds: Seq<CompactDiagnosticV>) -> int
    decreases ds.len(),
{
    if ds.len() == 0 {
        0
    } else {
        count_sum(ds.drop_last()) + ds.last().n
    }
}

proof fn lemma_count_sum_groups(gs: Seq<EntryV>)
    ensures
        count_sum(Seq::new(gs.len(), |i: int| compact_of_group(gs[i]))) == total_count(gs),
    decreases gs.len(),
{
    if gs.len() > 0 {
        let p = gs.drop_last();
        lemma_count_sum_groups(p);
        assert(Seq::new(gs.len(), |i: int| compact_of_group(gs[i])).drop_last() =~= Seq::new(
            p.len(),
            |i: int| compact_of_group(p[i]),
        ));
    }
}

/// Compressing publishDiagnostics params accounts for every diagnostic once:
/// each compact entry stands for at least one diagnostic, and the counts of
/// the entries add up to the number of diagnostics in the params.
pub proof fn lemma_compress_counts(p: JsonV)
    requires
        spec_compress(p) is Some,
        compressible(p, false),
    ensures
        forall|k: int|
            0 <= k < spec_compress(p).unwrap().diagnostics.len() ==> #[trigger] spec_compress(p).unwrap().diagnostics[k].n >= 1,
        count_sum(spec_compress(p).unwrap().diagnostics) == p.get_array("diagnostics"@).unwrap().len(),
{
    let xs = p.get_array("diagnostics"@).unwrap();
    let raw = raw_entries(xs, false);
    let gs = spec_group(raw);
    assert forall|k: int| 0 <= k < raw.len() implies well_counted(#[trigger] raw[k]) by {
        lemma_range_of_fits(xs[k]);
        let r = raw[k].ranges;
        assert(r == seq![range_of(xs[k])]);
        assert forall|i: int, q: int| 0 <= i < r.len() && 0 <= q < 4 implies fits_i64(
            #[trigger] r[i][q],
        ) by {
            assert(r[i] == range_of(xs[k]));
        }
    }
    lemma_group_shape(raw);
    lemma_total_ones(raw);
    assert forall|k: int| 0 <= k < raw.len() implies (#[trigger] raw[k]).count >= 0 by {}
    lemma_group_invariants(raw);
    let cd = spec_compress(p).unwrap().diagnostics;
    assert(cd =~= Seq::new(gs.len(), |i: int| compact_of_group(gs[i])));
    lemma_count_sum_groups(gs);
    assert forall|k: int| 0 <= k < cd.len() implies #[trigger] cd[k].n >= 1 by {
        assert(well_counted(gs[k]));
    }
}

// ─── Grouping entries that share a key ─────────────────────────────────────

/// The result of one compression step: a message, its severity, code and tags,
/// the ranges at which it occurs and how many raw diagnostics it stands for.
#[derive(Debug)]
pub struct CompressedEntry {
    pub message: String,
    pub severity: CompactSeverity,
    pub code: Option<String>,
    pub tags: Option<String>,
    pub ranges: Vec<[i64; 4]>,
    pub count: u32,
}

/// The model of a compressed entry.
#[verifier::ext_equal]
pub struct EntryV {
    pub message: Seq<char>,
    pub severity: CompactSeverity,
    pub code: Option<Seq<char>>,
    pub tags: Option<Seq<char>>,
    pub ranges: Seq<Seq<int>>,
    pub count: int,
}

impl CompressedEntry {
    pub open spec fn view(self) -> EntryV {
        EntryV {
            message: self.message@,
            severity: self.severity,
            code: opt_str_view(self.code),
            tags: opt_str_view(self.tags),
            ranges: ranges_view(self.ranges@),
            count: self.count as int,
        }
    }
}

/// The models of a sequence of entries.
pub open spec fn entries_model(v: Seq<CompressedEntry>) -> Seq<EntryV> {
    Seq::new(v.len(), |i: int| v[i].view())
}

/// The key under which entries are grouped.
#[derive(Debug, Clone, Hash, PartialEq, Eq)]
pub struct NormalisedKey {
    pub message: String,
    pub severity: CompactSeverity,
    pub code: Option<String>,
}

/// The model of a grouping key.
pub struct KeyV {
    pub message: Seq<char>,
    pub severity: CompactSeverity,
    pub code: Option<Seq<char>>,
}

impl NormalisedKey {
    pub open spec fn view(self) -> KeyV {
        KeyV { message: self.message@, severity: self.severity, code: opt_str_view(self.code) }
    }

    /// The key of an entry.
    pub fn of_entry(e: &CompressedEntry) -> (k: NormalisedKey)
        ensures
            k.view() == key_of(e.view()),
    {
        let code = match &e.code {
            Some(c) => Some(c.clone()),
            None => None,
        };
        NormalisedKey { message: e.message.clone(), severity: e.severity, code }
    }
}

/// The grouping key of an entry: its message, severity and code.
pub open spec fn key_of(e: EntryV) -> KeyV {
    KeyV { message: e.message, severity: e.severity, code: e.code }
}

/// The index of the first entry of `g` with key `k`, if any.
pub open spec fn find_group(g: Seq<EntryV>, k: KeyV) -> Option<int>
    decreases g.len(),
{
    if g.len() == 0 {
        None
    } else {
        match find_group(g.drop_last(), k) {
            Some(j) => Some(j),
            None => if key_of(g.last()) == k {
                Some(g.len() - 1)
            } else {
                None
            },
        }
    }
}

/// An entry merged into a group: the ranges appended, the counts added; the
/// group keeps its own message, severity, code and tags.
pub open spec fn merge_into(g: EntryV, e: EntryV) -> EntryV {
    EntryV { ranges: g.ranges + e.ranges, count: g.count + e.count, ..g }
}

/// The groups of a sequence of entries, in the order in which each key first
/// occurs: entries with the same key are merged into the first of them.
pub open spec fn spec_group(es: Seq<EntryV>) -> Seq<EntryV>
    decreases es.len(),
{
    if es.len() == 0 {
        Seq::empty()
    } else {
        let g = spec_group(es.drop_last());
        match find_group(g, key_of(es.last())) {
            Some(j) => g.update(j, merge_into(g[j], es.last())),
            None => g.push(es.last()),
        }
    }
}

/// The sum of the counts of some entries.
pub open spec fn total_count(es: Seq<EntryV>) -> int
    decreases es.len(),
{
    if es.len() == 0 {
        0
    } else {
        total_count(es.drop_last()) + es.last().count
    }
}

/// Whether no two entries of `g` share a key.
pub open spec fn keys_distinct(g: Seq<EntryV>) -> bool {
    forall|i: int, j: int|
        0 <= i < g.len() && 0 <= j < g.len() && i != j ==> key_of(#[trigger] g[i]) != key_of(
            #[trigger] g[j],
        )
}

proof fn lemma_find_group(g: Seq<EntryV>, k: KeyV)
    ensures
        find_group(g, k) matches Some(j) ==> 0 <= j < g.len() && key_of(g[j]) == k && forall|
            i: int,
        |
            0 <= i < j ==> key_of(#[trigger] g[i]) != k,
        find_group(g, k) is None ==> forall|i: int| 0 <= i < g.len() ==> key_of(#[trigger] g[i]) != k,
    decreases g.len(),
{
    if g.len() > 0 {
        lemma_find_group(g.drop_last(), k);
        assert forall|i: int| 0 <= i < g.len() - 1 implies #[trigger] g[i] == g.drop_last()[i] by {}
    }
}

proof fn lemma_total_count_prefix(es: Seq<EntryV>, i: int)
    requires
        0 <= i < es.len(),
        forall|k: int| 0 <= k < es.len() ==> (#[trigger] es[k]).count >= 0,
    ensures
        total_count(es.take(i + 1)) == total_count(es.take(i)) + es[i].count,
        total_count(es.take(i)) <= total_count(es),
{
    assert(es.take(i + 1).drop_last() =~= es.take(i));
    lemma_total_count_monotone(es, i + 1);
}

proof fn lemma_total_count_monotone(es: Seq<EntryV>, i: int)
    requires
        0 <= i <= es.len(),
        forall|k: int| 0 <= k < es.len() ==> (#[trigger] es[k]).count >= 0,
    ensures
        total_count(es.take(i)) <= total_count(es),
    decreases es.len() - i,
{
    if i < es.len() {
        lemma_total_count_monotone(es, i + 1);
        assert(es.take(i + 1).drop_last() =~= es.take(i));
    } else {
        assert(es.take(i) =~= es);
    }
}

/// Grouping keeps the keys distinct, gives each group at most the total
/// count, and leaves the total count unchanged.
pub proof fn lemma_group_invariants(es: Seq<EntryV>)
    requires
        forall|k: int| 0 <= k < es.len() ==> (#[trigger] es[k]).count >= 0,
    ensures
        keys_distinct(spec_group(es)),
        total_count(spec_group(es)) == total_count(es),
        spec_group(es).len() <= es.len(),
        forall|k: int| 0 <= k < spec_group(es).len() ==> 0 <= (#[trigger] spec_group(es)[k]).count <= total_count(es),
    decreases es.len(),
{
    if es.len() > 0 {
        let pre = es.drop_last();
        assert forall|k: int| 0 <= k < pre.len() implies (#[trigger] pre[k]).count >= 0 by {
            assert(pre[k] == es[k]);
        }
        lemma_group_invariants(pre);
        let g = spec_group(pre);
        let e = es.last();
        lemma_find_group(g, key_of(e));
        match find_group(g, key_of(e)) {
            Some(j) => {
                let g2 = g.update(j, merge_into(g[j], e));
                lemma_total_count_update(g, j, merge_into(g[j], e));
                assert(key_of(merge_into(g[j], e)) == key_of(g[j]));
                assert forall|a: int, b: int|
                    0 <= a < g2.len() && 0 <= b < g2.len() && a != b implies key_of(
                    #[trigger] g2[a],
                ) != key_of(#[trigger] g2[b]) by {
                    assert(key_of(g2[a]) == key_of(g[a]));
                    assert(key_of(g2[b]) == key_of(g[b]));
                }
                assert forall|k: int| 0 <= k < g2.len() implies 0 <= (#[trigger] g2[k]).count
                    <= total_count(es) by {
                    lemma_total_count_ge(g2, k);
                }
            },
            None => {
                let g2 = g.push(e);
                assert(g2.drop_last() =~= g);
                assert forall|a: int, b: int|
                    0 <= a < g2.len() && 0 <= b < g2.len() && a != b implies key_of(
                    #[trigger] g2[a],
                ) != key_of(#[trigger] g2[b]) by {
                    if a < g.len() && b < g.len() {
                        assert(g2[a] == g[a]);
                        assert(g2[b] == g[b]);
                    } else if a < g.len() {
                        assert(g2[a] == g[a]);
                    } else {
                        assert(g2[b] == g[b]);
                    }
                }
                assert forall|k: int| 0 <= k < g2.len() implies 0 <= (#[trigger] g2[k]).count
                    <= total_count(es) by {
                    lemma_total_count_ge(g2, k);
                }
            },
        }
    }
}

proof fn lemma_total_count_ge(g: Seq<EntryV>, k: int)
    requires
        0 <= k < g.len(),
        forall|i: int| 0 <= i < g.len() ==> (#[trigger] g[i]).count >= 0,
    ensures
        g[k].count <= total_count(g),
    decreases g.len(),
{
    let pre = g.drop_last();
    if k < g.len() - 1 {
        assert(pre[k] == g[k]);
        assert forall|i: int| 0 <= i < pre.len() implies (#[trigger] pre[i]).count >= 0 by {
            assert(pre[i] == g[i]);
        }
        lemma_total_count_ge(pre, k);
        lemma_total_count_nonneg(pre);
    } else {
        assert forall|i: int| 0 <= i < pre.len() implies (#[trigger] pre[i]).count >= 0 by {
            assert(pre[i] == g[i]);
        }
        lemma_total_count_nonneg(pre);
    }
}

proof fn lemma_total_count_nonneg(g: Seq<EntryV>)
    requires
        forall|i: int| 0 <= i < g.len() ==> (#[trigger] g[i]).count >= 0,
    ensures
        total_count(g) >= 0,
    decreases g.len(),
{
    if g.len() > 0 {
        let pre = g.drop_last();
        assert forall|i: int| 0 <= i < pre.len() implies (#[trigger] pre[i]).count >= 0 by {
            assert(pre[i] == g[i]);
        }
        lemma_total_count_nonneg(pre);
    }
}

proof fn lemma_total_count_update(g: Seq<EntryV>, j: int, e: EntryV)
    requires
        0 <= j < g.len(),
    ensures
        total_count(g.update(j, e)) == total_count(g) - g[j].count + e.count,
    decreases g.len(),
{
    let g2 = g.update(j, e);
    if j == g.len() - 1 {
        assert(g2.drop_last() =~= g.drop_last());
    } else {
        assert(g2.drop_last() =~= g.drop_last().update(j, e));
        lemma_total_count_update(g.drop_last(), j, e);
    }
}

/// Whether two optional strings hold the same characters.
fn opt_str_eq(a: &Option<String>, b: &Option<String>) -> (r: bool)
    ensures
        r == (opt_str_view(*a) == opt_str_view(*b)),
{
    match (a, b) {
        (Some(x), Some(y)) => str_eq(x.as_str(), y.as_str()),
        (None, None) => true,
        _ => false,
    }
}

/// Whether an entry has the given key.
fn has_key(e: &CompressedEntry, k: &NormalisedKey) -> (r: bool)
    ensures
        r == (key_of(e.view()) == k.view()),
{
    let same = str_eq(e.message.as_str(), k.message.as_str()) && e.severity == k.severity
        && opt_str_eq(&e.code, &k.code);
    proof {
        if same {
            assert(key_of(e.view()) =~= k.view());
        }
    }
    same
}

/// Groups entries by (message, severity, code): the entries of each key are
/// merged into the first of them, whose ranges then hold all their ranges and
/// whose count is the sum of their counts. Groups come in the order in which
/// their keys first occur.
pub fn group_by_key(entries: Vec<CompressedEntry>) -> (r: Vec<CompressedEntry>)
    requires
        total_count(entries_model(entries@)) <= u32::MAX,
    ensures
        entries_model(r@) == spec_group(entries_model(entries@)),
{
    let ghost all = entries_model(entries@);
    let mut rest = entries;
    let mut groups: Vec<CompressedEntry> = Vec::new();
    let ghost mut done: int = 0;
    proof {
        assert forall|k: int| 0 <= k < all.len() implies (#[trigger] all[k]).count >= 0 by {}
    }
    while rest.len() > 0
        invariant
            0 <= done <= all.len(),
            entries_model(rest@) == all.skip(done),
            entries_model(groups@) == spec_group(all.take(done)),
            total_count(all) <= u32::MAX,
            forall|k: int| 0 <= k < all.len() ==> (#[trigger] all[k]).count >= 0,
        decreases rest.len(),
    {
        let ghost old_rest = rest@;
        proof {
            assert(entries_model(old_rest).len() == old_rest.len());
            assert(entries_model(old_rest)[0] == old_rest[0].view());
        }
        let e = rest.remove(0);
        let ghost g = entries_model(groups@);
        let ghost pre = all.take(done);
        proof {
            assert(e.view() == all[done]);
            assert(all.take(done + 1).drop_last() =~= pre);
            assert(all.take(done + 1).last() == all[done]);
            assert forall|k: int| 0 <= k < pre.len() implies (#[trigger] pre[k]).count >= 0 by {}
            lemma_group_invariants(pre);
            lemma_total_count_prefix(all, done);
            lemma_total_count_monotone(all, done + 1);
            lemma_find_group(g, key_of(e.view()));
        }
        let key = NormalisedKey::of_entry(&e);
        let mut j: usize = 0;
        let mut found = false;
        while j < groups.len()
            invariant_except_break
                !found,
            invariant
                0 <= j <= groups.len(),
                g == entries_model(groups@),
                forall|i: int| 0 <= i < j ==> key_of(#[trigger] g[i]) != key.view(),
            ensures
                found ==> j < groups.len() && key_of(g[j as int]) == key.view(),
                !found ==> j == groups.len(),
                forall|i: int| 0 <= i < j ==> key_of(#[trigger] g[i]) != key.view(),
            decreases groups.len() - j,
        {
            if has_key(&groups[j], &key) {
                found = true;
                break;
            }
            j = j + 1;
        }
        let mut e = e;
        if found {
            let ghost old_groups = groups@;
            let mut target = groups.remove(j);
            proof {
                assert(find_group(g, key_of(all[done])) == Some(j as int));
                assert(target.view().count <= total_count(pre));
            }
            target.ranges.append(&mut e.ranges);
            target.count = target.count + e.count;
            groups.insert(j, target);
            proof {
                assert(groups@ =~= old_groups.update(j as int, target));
                assert(target.view() =~= merge_into(g[j as int], all[done]));
                assert(entries_model(groups@) =~= g.update(j as int, merge_into(g[j as int], all[done])));
            }
        } else {
            proof {
                assert(find_group(g, key_of(all[done])) is None);
            }
            groups.push(e);
            proof {
                assert(entries_model(groups@) =~= g.push(all[done]));
            }
        }
        proof {
            assert(entries_model(rest@) =~= all.skip(done + 1)) by {
                assert(rest@ =~= old_rest.subrange(1, old_rest.len() as int));
                assert forall|i: int| 0 <= i < rest@.len() implies #[trigger] entries_model(rest@)[i]
                    == all.skip(done + 1)[i] by {
                    assert(entries_model(old_rest)[i + 1] == old_rest[i + 1].view());
                    assert(all.skip(done)[i + 1] == all[done + 1 + i]);
                }
            }
            done = done + 1;
        }
    }
    proof {
        assert(all.take(done) =~= all);
    }
    groups
}


/// Delta-encodes a list of ranges: the first as it is, each later one minus
/// the one before it.
pub fn delta_encode(ranges: &Vec<[i64; 4]>) -> (r: Vec<[i64; 4]>)
    requires
        deltas_fit(ranges_view(ranges@)),
    ensures
        ranges_view(r@) == spec_deltas(ranges_view(ranges@)),
{
    let ghost a = ranges_view(ranges@);
    let mut out: Vec<[i64; 4]> = Vec::new();
    let mut i: usize = 0;
    while i < ranges.len()
        invariant
            0 <= i <= ranges.len(),
            a == ranges_view(ranges@),
            deltas_fit(a),
            out@.len() == i,
            forall|j: int| 0 <= j < i ==> #[trigger] seq4(out@[j]) == spec_deltas(a)[j],
        decreases ranges.len() - i,
    {
        let cur = ranges[i];
        if i == 0 {
            out.push(cur);
        } else {
            let prev = ranges[i - 1];
            proof {
                let dj = spec_deltas(a)[i as int];
                assert(fits_i64(dj[0]) && fits_i64(dj[1]) && fits_i64(dj[2]) && fits_i64(dj[3]));
                assert(a[i as int] == seq4(cur));
                assert(a[i - 1] == seq4(prev));
            }
            let d = [cur[0] - prev[0], cur[1] - prev[1], cur[2] - prev[2], cur[3] - prev[3]];
            proof {
                assert(seq4(d) =~= sub4(a[i as int], a[i - 1]));
            }
            out.push(d);
        }
        i = i + 1;
    }
    proof {
        assert(ranges_view(out@) =~= spec_deltas(a));
    }
    out
}

/// Whether the differences between consecutive ranges fit in `i64`.
pub fn deltas_fit_exec(ranges: &Vec<[i64; 4]>) -> (r: bool)
    ensures
        r == deltas_fit(ranges_view(ranges@)),
{
    let ghost a = ranges_view(ranges@);
    let mut i: usize = 1;
    if ranges.len() == 0 {
        return true;
    }
    proof {
        let d0 = spec_deltas(a)[0];
        assert(d0 == seq4(ranges@[0]));
    }
    while i < ranges.len()
        invariant
            1 <= i <= ranges.len(),
            a == ranges_view(ranges@),
            forall|j: int, k: int| 0 <= j < i && 0 <= k < 4 ==> fits_i64(#[trigger] spec_deltas(a)[j][k]),
        decreases ranges.len() - i,
    {
        let cur = ranges[i];
        let prev = ranges[i - 1];
        let ok = cur[0].checked_sub(prev[0]).is_some() && cur[1].checked_sub(prev[1]).is_some()
            && cur[2].checked_sub(prev[2]).is_some() && cur[3].checked_sub(prev[3]).is_some();
        proof {
            assert(a[i as int] == seq4(cur));
            assert(a[i - 1] == seq4(prev));
            assert(spec_deltas(a)[i as int] == sub4(a[i as int], a[i - 1]));
        }
        if !ok {
            return false;
        }
        i = i + 1;
    }
    true
}

} // verus!
