//! Compression of `textDocument/publishDiagnostics`.
//!
//! Each diagnostic keeps its message, severity, code, tags and range; the
//! message is normalised so that diagnostics that differ only in the names
//! they mention share one; diagnostics with the same (message, severity,
//! code) are merged, and the ranges of a merged entry are delta-encoded.
use vstd::prelude::*;
use vstd::string::StringSliceAdditionalSpecFns;
use vstd::utf8::{decode_utf8, encode_utf8, is_char_boundary};

use crate::compact::{
    delta_encode, deltas_fit, deltas_fit_exec, diag_code, diag_range, diag_severity, diag_tags,
    diagnostics_json, group_by_key, message_of, opt_str_view, range_of, ranges_view, severity_of,
    spec_deltas, spec_group, tags_of, total_count, entries_model, CompactDiagnostic,
    CompactDiagnosticV, CompactDiagnostics, CompactDiagnosticsV, CompressedEntry, EntryV,
};
use crate::error::{protocol, LspzError};
use crate::interceptors::Direction;
use crate::json::{seq_view, Json, JsonV};
use crate::text::{
    chars_of, contains_str, contains_sub, parse_i64, parse_i64_str, push_char, push_i64, push_str,
    signed_decimal, str_eq, to_lowercase, lowercase, utf8_len_exceeds,
};

verus! {

// ─── Message normalisation ─────────────────────────────────────────────────

/// Whether a lowercased code denotes an unused variable.
pub open spec fn unused_var_code(c: Seq<char>) -> bool {
    ||| c == "unused_variable"@
    ||| c == "unused_variables"@
    ||| c == "unused_var"@
    ||| c == "unusedvar"@
    ||| c == "unused_variable_warning"@
    ||| c == "unused_variable_error"@
    ||| c == "var_not_used"@
    ||| c == "reportunusedvariable"@
}

/// Whether a lowercased code denotes an unused import.
pub open spec fn unused_import_code(c: Seq<char>) -> bool {
    ||| c == "unused_import"@
    ||| c == "unusedimport"@
    ||| c == "unused_imports"@
    ||| c == "import_not_used"@
    ||| c == "reportunusedimport"@
}

/// Whether a lowercased code denotes an unused variable.
fn is_unused_var_code(c: &str) -> (r: bool)
    ensures
        r == unused_var_code(c@),
{
    str_eq(c, "unused_variable") || str_eq(c, "unused_variables") || str_eq(c, "unused_var")
        || str_eq(c, "unusedvar") || str_eq(c, "unused_variable_warning") || str_eq(
        c,
        "unused_variable_error",
    ) || str_eq(c, "var_not_used") || str_eq(c, "reportunusedvariable")
}

/// Whether a lowercased code denotes an unused import.
fn is_unused_import_code(c: &str) -> (r: bool)
    ensures
        r == unused_import_code(c@),
{
    str_eq(c, "unused_import") || str_eq(c, "unusedimport") || str_eq(c, "unused_imports")
        || str_eq(c, "import_not_used") || str_eq(c, "reportunusedimport")
}

/// The normalised message of a numeric (TypeScript style) code, if known.
pub open spec fn numeric_code_message(n: int) -> Option<Seq<char>> {
    if n == 6133 {
        Some("unused variable"@)
    } else if n == 2322 {
        Some("type mismatch"@)
    } else if n == 2339 {
        Some("missing property"@)
    } else if n == 2552 {
        Some("unresolved reference"@)
    } else {
        None
    }
}

/// The normalised message of a numeric code, if known.
fn normalize_by_numeric_code(code: i64) -> (r: Option<&'static str>)
    ensures
        match r {
            Some(s) => numeric_code_message(code as int) == Some(s@),
            None => numeric_code_message(code as int) is None,
        },
{
    if code == 6133 {
        Some("unused variable")
    } else if code == 2322 {
        Some("type mismatch")
    } else if code == 2339 {
        Some("missing property")
    } else if code == 2552 {
        Some("unresolved reference")
    } else {
        None
    }
}

/// The message that a diagnostic code alone decides, if any: known codes for
/// unused variables and imports, codes that mention unused parameters,
/// assignments or mismatches (compared in lowercase), and known numeric codes.
pub open spec fn code_message(code: Seq<char>) -> Option<Seq<char>> {
    let low = lowercase(code);
    if unused_var_code(low) {
        Some("unused variable"@)
    } else if unused_import_code(low) {
        Some("unused import"@)
    } else if contains_sub(low, "unusedparam"@) {
        Some("unused parameter"@)
    } else if contains_sub(low, "assignment"@) || contains_sub(low, "mismatch"@) {
        Some("type mismatch"@)
    } else {
        match parse_i64(code) {
            Some(n) => numeric_code_message(n),
            None => None,
        }
    }
}

/// The state of the backtick scan: the text so far, whether a backtick is
/// open, and what it holds.
pub struct Backticks {
    pub out: Seq<char>,
    pub inside: bool,
    pub content: Seq<char>,
}

/// The text that stands for an identifier.
pub open spec fn ident_placeholder() -> Seq<char> {
    seq!['<', 'i', 'd', 'e', 'n', 't', '>']
}

/// One character of the backtick scan. A closed backtick pair whose content
/// is not empty and has no space becomes `<ident>`; any other pair stays.
pub open spec fn backtick_step(st: Backticks, ch: char) -> Backticks {
    if ch == '`' {
        if st.inside {
            if st.content.len() > 0 && !st.content.contains(' ') {
                Backticks { out: st.out + ident_placeholder(), inside: false, content: Seq::empty() }
            } else {
                Backticks {
                    out: st.out.push('`') + st.content.push('`'),
                    inside: false,
                    content: Seq::empty(),
                }
            }
        } else {
            Backticks { out: st.out, inside: true, content: st.content }
        }
    } else if st.inside {
        Backticks { out: st.out, inside: true, content: st.content.push(ch) }
    } else {
        Backticks { out: st.out.push(ch), inside: false, content: st.content }
    }
}

/// The backtick scan over a text.
pub open spec fn backtick_run(s: Seq<char>) -> Backticks
    decreases s.len(),
{
    if s.len() == 0 {
        Backticks { out: Seq::empty(), inside: false, content: Seq::empty() }
    } else {
        backtick_step(backtick_run(s.drop_last()), s.last())
    }
}

/// A text with each backtick-quoted identifier replaced by `<ident>`; an
/// unclosed backtick and what follows it stay as they are.
pub open spec fn spec_replace_backticks(s: Seq<char>) -> Seq<char> {
    let st = backtick_run(s);
    if st.inside {
        st.out.push('`') + st.content
    } else {
        st.out
    }
}

/// Replaces each backtick-quoted identifier (no spaces, not empty) by
/// `<ident>`: `` "use `foo`" `` becomes `"use <ident>"`.
pub fn replace_backtick_idents(s: &str) -> (r: String)
    ensures
        r@ == spec_replace_backticks(s@),
{
    let v = chars_of(s);
    let mut result = String::new();
    let mut in_backtick = false;
    let mut content = String::new();
    let mut has_space = false;
    let mut i: usize = 0;
    while i < v.len()
        invariant
            0 <= i <= v.len(),
            v@ == s@,
            backtick_run(v@.take(i as int)) == (Backticks {
                out: result@,
                inside: in_backtick,
                content: content@,
            }),
            has_space == content@.contains(' '),
        decreases v.len() - i,
    {
        let ch = v[i];
        proof {
            assert(v@.take(i + 1).drop_last() =~= v@.take(i as int));
            assert(v@.take(i + 1).last() == ch);
        }
        if ch == '`' {
            if in_backtick {
                if !content.as_str().is_empty() && !has_space {
                    push_str(&mut result, "<ident>");
                    proof {
                        reveal_strlit("<ident>");
                        assert("<ident>"@ =~= ident_placeholder());
                        assert(content@.len() > 0);
                    }
                } else {
                    push_char(&mut result, '`');
                    push_str(&mut result, content.as_str());
                    push_char(&mut result, '`');
                    proof {
                        if content@.len() == 0 {
                            assert(content@.len() == 0);
                        }
                    }
                }
                content = String::new();
                has_space = false;
                in_backtick = false;
                proof {
                    assert(!Seq::<char>::empty().contains(' '));
                }
            } else {
                in_backtick = true;
            }
        } else if in_backtick {
            let ghost before = content@;
            push_char(&mut content, ch);
            proof {
                if ch == ' ' {
                    assert(content@[content@.len() - 1] == ' ');
                } else if has_space {
                    let k = choose|k: int| 0 <= k < before.len() && before[k] == ' ';
                    assert(content@[k] == ' ');
                } else {
                    assert forall|k: int| 0 <= k < content@.len() implies content@[k] != ' ' by {
                        if k < before.len() {
                            assert(content@[k] == before[k]);
                        }
                    }
                }
            }
            has_space = has_space || ch == ' ';
        } else {
            push_char(&mut result, ch);
        }
        i = i + 1;
    }
    proof {
        assert(v@.take(i as int) =~= s@);
    }
    if in_backtick {
        push_char(&mut result, '`');
        push_str(&mut result, content.as_str());
    }
    result
}

/// Whether cutting a long text at its 197th byte does not split a character.
pub open spec fn truncation_ok(r: Seq<char>) -> bool {
    encode_utf8(r).len() > 200 ==> is_char_boundary(encode_utf8(r), 197)
}

/// A text of more than 200 bytes cut to its first 197 bytes and `...`.
pub open spec fn truncated(r: Seq<char>) -> Seq<char> {
    if encode_utf8(r).len() > 200 {
        decode_utf8(encode_utf8(r).take(197)) + "..."@
    } else {
        r
    }
}

/// Whether normalising a message does not cut a character in two.
pub open spec fn normalise_ok(m: Seq<char>, code: Option<Seq<char>>) -> bool {
    (code matches Some(c) && code_message(c) is Some) || truncation_ok(spec_replace_backticks(m))
}

/// The normalised message: the message that the code decides, if any; else
/// the message with identifiers replaced, cut to 197 bytes and `...` when it
/// has more than 200 bytes.
pub open spec fn spec_normalize(m: Seq<char>, code: Option<Seq<char>>) -> Seq<char> {
    match code {
        Some(c) => match code_message(c) {
            Some(x) => x,
            None => truncated(spec_replace_backticks(m)),
        },
        None => truncated(spec_replace_backticks(m)),
    }
}

/// The message that a code decides, if any.
fn message_for_code(code: &str) -> (r: Option<&'static str>)
    ensures
        match r {
            Some(s) => code_message(code@) == Some(s@),
            None => code_message(code@) is None,
        },
{
    let lower = to_lowercase(code);
    let low = lower.as_str();
    if is_unused_var_code(low) {
        return Some("unused variable");
    }
    if is_unused_import_code(low) {
        return Some("unused import");
    }
    if contains_str(low, "unusedparam") {
        return Some("unused parameter");
    }
    if contains_str(low, "assignment") || contains_str(low, "mismatch") {
        return Some("type mismatch");
    }
    match parse_i64_str(code) {
        Some(n) => normalize_by_numeric_code(n),
        None => None,
    }
}

/// The view of an optional string slice.
pub open spec fn opt_slice_view(o: Option<&str>) -> Option<Seq<char>> {
    match o {
        Some(s) => Some(s@),
        None => None,
    }
}

/// Normalises a message, or gives `None` where cutting it would split a
/// character.
fn try_normalize(message: &str, code: Option<&str>) -> (r: Option<String>)
    ensures
        match r {
            Some(s) => normalise_ok(message@, opt_slice_view(code)) && s@ == spec_normalize(
                message@,
                opt_slice_view(code),
            ),
            None => !normalise_ok(message@, opt_slice_view(code)),
        },
{
    if let Some(c) = code {
        if let Some(m) = message_for_code(c) {
            return Some(m.to_owned());
        }
    }
    let normalized = replace_backtick_idents(message);
    let text = normalized.as_str();
    if utf8_len_exceeds(text, 200) {
        if !text.is_char_boundary(197) {
            return None;
        }
        let (head, _) = text.split_at(197);
        let mut out = head.to_owned();
        push_str(&mut out, "...");
        proof {
            vstd::utf8::encode_utf8_decode_utf8(head@);
            assert(head.spec_bytes() =~= encode_utf8(text@).take(197));
            assert(head@ == decode_utf8(encode_utf8(text@).take(197)));
            assert(text@ == spec_replace_backticks(message@));
            assert(out@ == truncated(spec_replace_backticks(message@)));
        }
        Some(out)
    } else {
        proof {
            assert(normalized@ == truncated(spec_replace_backticks(message@)));
        }
        Some(normalized)
    }
}

/// Normalises a diagnostic message so that diagnostics that differ only in
/// the names they mention get the same one (see [`spec_normalize`]).
pub fn normalize_message(message: &str, code: Option<&str>) -> (r: String)
    requires
        normalise_ok(message@, opt_slice_view(code)),
    ensures
        r@ == spec_normalize(message@, opt_slice_view(code)),
{
    match try_normalize(message, code) {
        Some(s) => s,
        None => String::new(),
    }
}

// ─── The compressor ────────────────────────────────────────────────────────

/// The code of a diagnostic as text: a string code, or an integer code in
/// decimal.
pub open spec fn norm_code_of(d: JsonV) -> Option<Seq<char>> {
    match d.get("code"@) {
        Some(v) => match v.as_str() {
            Some(s) => Some(s),
            None => match v.as_i64() {
                Some(n) => Some(signed_decimal(n)),
                None => None,
            },
        },
        None => None,
    }
}

/// The entry of one raw diagnostic.
pub open spec fn entry_of(d: JsonV, normalise: bool) -> EntryV {
    EntryV {
        message: if normalise {
            spec_normalize(message_of(d), norm_code_of(d))
        } else {
            message_of(d)
        },
        severity: severity_of(d),
        code: d.get_str("code"@),
        tags: tags_of(d),
        ranges: seq![range_of(d)],
        count: 1,
    }
}

/// Whether the entry of a raw diagnostic can be made without a panic.
pub open spec fn entry_ok(d: JsonV, normalise: bool) -> bool {
    normalise ==> normalise_ok(message_of(d), norm_code_of(d))
}

/// The entries of raw diagnostics.
pub open spec fn raw_entries(ds: Seq<JsonV>, normalise: bool) -> Seq<EntryV> {
    Seq::new(ds.len(), |i: int| entry_of(ds[i], normalise))
}

/// The compact entry of a group: its ranges delta-encoded when it has more
/// than one.
pub open spec fn compact_of_group(e: EntryV) -> CompactDiagnosticV {
    CompactDiagnosticV {
        m: e.message,
        s: e.severity,
        r: if 1 < e.ranges.len() {
            spec_deltas(e.ranges)
        } else {
            e.ranges
        },
        c: e.code,
        t: e.tags,
        n: e.count,
    }
}

/// The compact form that the compressor makes of `publishDiagnostics` params
/// that have a string `uri` and a `diagnostics` array.
pub open spec fn spec_compressed(p: JsonV, normalise: bool) -> Option<CompactDiagnosticsV> {
    match (p.get_str("uri"@), p.get_array("diagnostics"@)) {
        (Some(uri), Some(ds)) => {
            let groups = spec_group(raw_entries(ds, normalise));
            Some(
                CompactDiagnosticsV {
                    version: 1,
                    uri,
                    diagnostics: Seq::new(groups.len(), |i: int| compact_of_group(groups[i])),
                },
            )
        },
        _ => None,
    }
}

/// Whether compressing the params runs without a panic: every message can be
/// normalised, the count fits in 32 bits, and the ranges of each group that
/// is delta-encoded differ by amounts that fit in `i64`.
pub open spec fn compressible(p: JsonV, normalise: bool) -> bool {
    match (p.get_str("uri"@), p.get_array("diagnostics"@)) {
        (Some(_), Some(ds)) => {
            let groups = spec_group(raw_entries(ds, normalise));
            &&& ds.len() <= u32::MAX
            &&& forall|i: int| 0 <= i < ds.len() ==> entry_ok(#[trigger] ds[i], normalise)
            &&& forall|k: int|
                0 <= k < groups.len() && 1 < (#[trigger] groups[k]).ranges.len()
                    ==> deltas_fit(groups[k].ranges)
        },
        _ => true,
    }
}

/// Compresses `textDocument/publishDiagnostics` notifications into the
/// compact format.
pub struct DiagnosticsCompressor {
    /// Whether messages are normalised before merging.
    pub enable_normalisation: bool,
}

impl Default for DiagnosticsCompressor {
    fn default() -> (r: DiagnosticsCompressor)
        ensures
            r.enable_normalisation,
    {
        DiagnosticsCompressor { enable_normalisation: true }
    }
}

/// The entry of one raw diagnostic, or `None` where normalising its message
/// would split a character.
fn diag_entry(d: &Json, normalise: bool) -> (r: Option<CompressedEntry>)
    ensures
        match r {
            Some(e) => entry_ok(d@, normalise) && e.view() == entry_of(d@, normalise),
            None => !entry_ok(d@, normalise),
        },
{
    let message = match d.get("message") {
        Some(v) => match v.as_str() {
            Some(m) => m.to_owned(),
            None => String::new(),
        },
        None => String::new(),
    };
    proof {
        assert(message@ == message_of(d@)) by {
            reveal_strlit("");
        }
    }
    let norm_code: Option<String> = match d.get("code") {
        Some(v) => match v.as_str() {
            Some(s) => Some(s.to_owned()),
            None => match v.as_i64() {
                Some(n) => {
                    let mut t = String::new();
                    push_i64(&mut t, n);
                    proof {
                        assert(t@ =~= signed_decimal(n as int));
                    }
                    Some(t)
                },
                None => None,
            },
        },
        None => None,
    };
    proof {
        assert(opt_str_view(norm_code) == norm_code_of(d@));
    }
    let normalized = if normalise {
        let code_ref: Option<&str> = match &norm_code {
            Some(c) => Some(c.as_str()),
            None => None,
        };
        assert(opt_slice_view(code_ref) == norm_code_of(d@));
        match try_normalize(message.as_str(), code_ref) {
            Some(s) => s,
            None => return None,
        }
    } else {
        message
    };
    let mut ranges: Vec<[i64; 4]> = Vec::new();
    ranges.push(diag_range(d));
    let e = CompressedEntry {
        message: normalized,
        severity: diag_severity(d),
        code: diag_code(d),
        tags: diag_tags(d),
        ranges,
        count: 1,
    };
    proof {
        assert(e.view() =~= entry_of(d@, normalise));
    }
    Some(e)
}

/// The entries of raw diagnostics, or `None` where one cannot be made.
pub(crate) fn collect_entries(ds: &Vec<Json>, normalise: bool) -> (r: Option<Vec<CompressedEntry>>)
    ensures
        match r {
            Some(es) => (forall|i: int| 0 <= i < ds@.len() ==> entry_ok(#[trigger] seq_view(ds@)[i], normalise))
                && entries_model(es@) == raw_entries(seq_view(ds@), normalise),
            None => exists|i: int| 0 <= i < ds@.len() && !entry_ok(#[trigger] seq_view(ds@)[i], normalise),
        },
{
    let ghost sv = seq_view(ds@);
    let mut out: Vec<CompressedEntry> = Vec::new();
    let mut i: usize = 0;
    while i < ds.len()
        invariant
            0 <= i <= ds.len(),
            sv == seq_view(ds@),
            out@.len() == i,
            forall|k: int| 0 <= k < i ==> entry_ok(#[trigger] sv[k], normalise),
            forall|k: int| 0 <= k < i ==> #[trigger] out@[k].view() == entry_of(sv[k], normalise),
        decreases ds.len() - i,
    {
        match diag_entry(&ds[i], normalise) {
            Some(e) => {
                out.push(e);
            },
            None => {
                proof {
                    assert(!entry_ok(sv[i as int], normalise));
                }
                return None;
            },
        }
        i = i + 1;
    }
    proof {
        assert(entries_model(out@) =~= raw_entries(sv, normalise));
    }
    Some(out)
}

pub(crate) proof fn lemma_total_ones(es: Seq<EntryV>)
    requires
        forall|i: int| 0 <= i < es.len() ==> (#[trigger] es[i]).count == 1,
    ensures
        total_count(es) == es.len(),
    decreases es.len(),
{
    if es.len() > 0 {
        let p = es.drop_last();
        assert forall|i: int| 0 <= i < p.len() implies (#[trigger] p[i]).count == 1 by {
            assert(p[i] == es[i]);
        }
        lemma_total_ones(p);
    }
}

/// The compact entries of groups of entries.
pub(crate) fn compact_groups(groups: Vec<CompressedEntry>) -> (r: Vec<CompactDiagnostic>)
    requires
        forall|k: int|
            0 <= k < groups@.len() && 1 < (#[trigger] groups@[k]).ranges@.len() ==> deltas_fit(
                ranges_view(groups@[k].ranges@),
            ),
    ensures
        r@.len() == groups@.len(),
        forall|k: int| 0 <= k < r@.len() ==> #[trigger] r@[k].view() == compact_of_group(
            groups@[k].view(),
        ),
{
    let ghost all = groups@;
    let mut rest = groups;
    let mut out: Vec<CompactDiagnostic> = Vec::new();
    let mut i: usize = 0;
    proof {
        assert(all.len() == rest.len());
    }
    while rest.len() > 0
        invariant
            0 <= i <= all.len(),
            all.len() <= usize::MAX,
            rest@ == all.skip(i as int),
            out@.len() == i,
            forall|k: int|
                0 <= k < all.len() && 1 < (#[trigger] all[k]).ranges@.len() ==> deltas_fit(
                    ranges_view(all[k].ranges@),
                ),
            forall|k: int| 0 <= k < i ==> #[trigger] out@[k].view() == compact_of_group(all[k].view()),
        decreases rest.len(),
    {
        let ghost old_rest = rest@;
        let g = rest.remove(0);
        proof {
            assert(g == all[i as int]);
        }
        let n = g.ranges.len();
        let r = if n > 1 {
            delta_encode(&g.ranges)
        } else {
            g.ranges
        };
        let d = CompactDiagnostic { m: g.message, s: g.severity, r, c: g.code, t: g.tags, n: g.count };
        proof {
            assert(d.view() =~= compact_of_group(all[i as int].view()));
        }
        out.push(d);
        proof {
            assert(rest@ =~= all.skip(i + 1));
        }
        i = i + 1;
    }
    proof {
        assert(all.skip(i as int).len() == 0);
    }
    out
}

impl DiagnosticsCompressor {
    /// The name under which the compressor is logged.
    pub fn name(&self) -> (r: &'static str)
        ensures
            r@ == "diagnostics_compressor"@,
    {
        "diagnostics_compressor"
    }

    /// Whether the compressor rewrites a message: `publishDiagnostics` from
    /// the server.
    pub fn applies_to(&self, method: &str, direction: Direction) -> (r: bool)
        ensures
            r == (method@ == "textDocument/publishDiagnostics"@ && direction
                == Direction::ServerToClient),
    {
        str_eq(method, "textDocument/publishDiagnostics") && direction == Direction::ServerToClient
    }

    /// Whether [`DiagnosticsCompressor::intercept`] can run on these params.
    pub fn accepts(&self, params: &Json) -> (r: bool)
        ensures
            r == compressible(params@, self.enable_normalisation),
    {
        let normalise = self.enable_normalisation;
        match params.get("uri") {
            Some(v) => if v.as_str().is_none() {
                return true;
            },
            None => return true,
        }
        let ds = match params.get("diagnostics") {
            Some(v) => match v.as_array() {
                Some(a) => a,
                None => return true,
            },
            None => return true,
        };
        if ds.len() > 4294967295 {
            return false;
        }
        let entries = match collect_entries(ds, normalise) {
            Some(es) => es,
            None => return false,
        };
        let ghost raw = raw_entries(seq_view(ds@), normalise);
        proof {
            lemma_total_ones(raw);
        }
        let groups = group_by_key(entries);
        let ghost gm = entries_model(groups@);
        let mut k: usize = 0;
        while k < groups.len()
            invariant
                0 <= k <= groups.len(),
                gm == entries_model(groups@),
                gm == spec_group(raw),
                raw == raw_entries(seq_view(ds@), normalise),
                normalise == self.enable_normalisation,
                params@.get_array("diagnostics"@) == Some(seq_view(ds@)),
                params@.get_str("uri"@) is Some,
                ds@.len() <= u32::MAX,
                forall|i: int| 0 <= i < ds@.len() ==> entry_ok(#[trigger] seq_view(ds@)[i], normalise),
                forall|j: int|
                    0 <= j < k && 1 < (#[trigger] gm[j]).ranges.len() ==> deltas_fit(gm[j].ranges),
            decreases groups.len() - k,
        {
            let n = groups[k].ranges.len();
            if n > 1 && !deltas_fit_exec(&groups[k].ranges) {
                proof {
                    assert(gm[k as int] == groups@[k as int].view());
                    assert(params@.get_array("diagnostics"@) == Some(seq_view(ds@)));
                    assert(1 < spec_group(raw)[k as int].ranges.len());
                    assert(!deltas_fit(spec_group(raw)[k as int].ranges));
                }
                return false;
            }
            proof {
                assert(gm[k as int] == groups@[k as int].view());
            }
            k = k + 1;
        }
        true
    }

    /// Compresses `publishDiagnostics` params into the compact format; a
    /// protocol error when they lack a string `uri` or a `diagnostics` array.
    pub fn intercept(&self, method: &str, params: Json, direction: Direction) -> (r: Result<
        Option<Json>,
        LspzError,
    >)
        requires
            compressible(params@, self.enable_normalisation),
        ensures
            match spec_compressed(params@, self.enable_normalisation) {
                Some(c) => r matches Ok(Some(j)) && j@ == diagnostics_json(c),
                None => r matches Err(LspzError::Protocol(m)) && m@ == (if params@.get_str(
                    "uri"@,
                ) is None {
                    "missing uri"@
                } else {
                    "missing diagnostics"@
                }),
            },
    {
        let normalise = self.enable_normalisation;
        let uri = match params.get("uri") {
            Some(v) => match v.as_str() {
                Some(u) => u.to_owned(),
                None => return Err(protocol("missing uri")),
            },
            None => return Err(protocol("missing uri")),
        };
        let ds = match params.get("diagnostics") {
            Some(v) => match v.as_array() {
                Some(a) => a,
                None => return Err(protocol("missing diagnostics")),
            },
            None => return Err(protocol("missing diagnostics")),
        };
        let entries = match collect_entries(ds, normalise) {
            Some(es) => es,
            None => return Err(protocol("missing diagnostics")),
        };
        let ghost raw = raw_entries(seq_view(ds@), normalise);
        proof {
            lemma_total_ones(raw);
        }
        let groups = group_by_key(entries);
        let ghost gm = entries_model(groups@);
        proof {
            assert forall|k: int|
                0 <= k < groups@.len() && 1 < (#[trigger] groups@[k]).ranges@.len() implies deltas_fit(
                ranges_view(groups@[k].ranges@),
            ) by {
                assert(gm[k] == groups@[k].view());
            }
        }
        let compact = compact_groups(groups);
        let result = CompactDiagnostics { version: 1, uri, diagnostics: compact };
        proof {
            let c = spec_compressed(params@, normalise).unwrap();
            assert forall|k: int| 0 <= k < gm.len() implies #[trigger] result.view().diagnostics[k]
                == c.diagnostics[k] by {
                assert(gm[k] == groups@[k].view());
            }
            assert(result.view() =~= c);
        }
        Ok(Some(result.to_json()))
    }
}

} // verus!
