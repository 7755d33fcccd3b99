//! The TOON output format: compact LSP results as short, line-oriented text
//! for language-model agents.
//!
//! ```text
//! uri: file:///src/main.rs
//! diagnostics[2]{severity,message,code,range,count}:
//!   warning,unused variable: `x`,unused_variables,10:5-10:15,2
//!   error,cannot find value `y`,E0425,20:0-20:10,1
//! ```
use vstd::prelude::*;

use crate::compact::{
    all_fit, count_sum, decode_ranges, fits_i64, lemma_compress_counts,
    lemma_decode_deltas, lemma_group_shape, range_of, ranges_view, spec_compress, spec_group,
    spec_to_lsp, well_counted, seq4, spec_decode, CompactDiagnostic, CompactDiagnosticV,
    CompactDiagnostics, CompactDiagnosticsV, CompactSeverity,
};
use crate::error::{protocol, LspzError};
use crate::interceptors::completions::completion_kind_char;
use crate::interceptors::diagnostics::{compact_of_group, compressible, raw_entries};
use crate::interceptors::symbols::symbol_kind_char;
use crate::json::{find_key, Json, JsonV};
use crate::text::{chars_of, contains_sub, occurs_at, decimal, push_char, push_i64, push_str, push_u64, signed_decimal, str_eq};

verus! {

// ─── Helpers ───────────────────────────────────────────────────────────────

/// The word for a severity.
pub open spec fn severity_word(s: CompactSeverity) -> Seq<char> {
    match s {
        CompactSeverity::E => "error"@,
        CompactSeverity::W => "warning"@,
        CompactSeverity::I => "info"@,
        CompactSeverity::H => "hint"@,
    }
}

/// The word for a severity.
pub fn severity_to_str(s: CompactSeverity) -> (r: &'static str)
    ensures
        r@ == severity_word(s),
{
    match s {
        CompactSeverity::E => "error",
        CompactSeverity::W => "warning",
        CompactSeverity::I => "info",
        CompactSeverity::H => "hint",
    }
}

/// `s` with each line feed written as the two characters `\n`.
pub open spec fn escape_newlines(s: Seq<char>) -> Seq<char>
    decreases s.len(),
{
    if s.len() == 0 {
        Seq::empty()
    } else {
        escape_newlines(s.drop_last()) + if s.last() == '\n' {
            seq!['\\', 'n']
        } else {
            seq![s.last()]
        }
    }
}

/// `s` with each double quote doubled.
pub open spec fn double_quotes(s: Seq<char>) -> Seq<char>
    decreases s.len(),
{
    if s.len() == 0 {
        Seq::empty()
    } else {
        double_quotes(s.drop_last()) + if s.last() == '"' {
            seq!['"', '"']
        } else {
            seq![s.last()]
        }
    }
}

/// A value as one CSV field: line feeds written as `\n`; quoted, with its
/// quotes doubled, when it holds a comma or a double quote.
pub open spec fn spec_escape_csv(s: Seq<char>) -> Seq<char> {
    let t = escape_newlines(s);
    if t.contains(',') || t.contains('"') {
        seq!['"'] + double_quotes(t) + seq!['"']
    } else {
        t
    }
}

/// Writes line feeds as `\n`.
pub fn escape_newlines_str(s: &str) -> (r: String)
    ensures
        r@ == escape_newlines(s@),
{
    let v = chars_of(s);
    let mut out = String::new();
    let mut i: usize = 0;
    while i < v.len()
        invariant
            0 <= i <= v.len(),
            v@ == s@,
            out@ == escape_newlines(v@.take(i as int)),
        decreases v.len() - i,
    {
        let c = v[i];
        proof {
            assert(v@.take(i + 1).drop_last() =~= v@.take(i as int));
        }
        if c == '\n' {
            push_char(&mut out, '\\');
            push_char(&mut out, 'n');
        } else {
            push_char(&mut out, c);
        }
        i = i + 1;
        assert(out@ =~= escape_newlines(v@.take(i as int)));
    }
    assert(v@.take(i as int) =~= s@);
    out
}

/// Escapes a value for one field of a TOON table row.
pub fn escape_csv(s: &str) -> (r: String)
    ensures
        r@ == spec_escape_csv(s@),
{
    let t = escape_newlines_str(s);
    let v = chars_of(t.as_str());
    let mut special = false;
    let mut i: usize = 0;
    while i < v.len()
        invariant
            0 <= i <= v.len(),
            special == exists|k: int| 0 <= k < i && (v@[k] == ',' || v@[k] == '"'),
        decreases v.len() - i,
    {
        if v[i] == ',' || v[i] == '"' {
            special = true;
        }
        i = i + 1;
    }
    proof {
        if special {
            let k = choose|k: int| 0 <= k < v@.len() && (v@[k] == ',' || v@[k] == '"');
            if v@[k] == ',' {
                assert(t@.contains(','));
            } else {
                assert(t@.contains('"'));
            }
        } else {
            assert(!t@.contains(','));
            assert(!t@.contains('"'));
        }
    }
    if !special {
        return t;
    }
    let mut out = String::new();
    push_char(&mut out, '"');
    let mut j: usize = 0;
    while j < v.len()
        invariant
            0 <= j <= v.len(),
            out@ == seq!['"'] + double_quotes(v@.take(j as int)),
        decreases v.len() - j,
    {
        let c = v[j];
        proof {
            assert(v@.take(j + 1).drop_last() =~= v@.take(j as int));
        }
        if c == '"' {
            push_char(&mut out, '"');
            push_char(&mut out, '"');
        } else {
            push_char(&mut out, c);
        }
        j = j + 1;
        assert(out@ =~= seq!['"'] + double_quotes(v@.take(j as int)));
    }
    push_char(&mut out, '"');
    proof {
        assert(v@.take(j as int) =~= t@);
    }
    out
}

/// A range `[l, c, l, c]` written `L:C-L:C`.
pub open spec fn range_text(r: Seq<int>) -> Seq<char> {
    signed_decimal(r[0]) + seq![':'] + signed_decimal(r[1]) + seq!['-'] + signed_decimal(r[2])
        + seq![':'] + signed_decimal(r[3])
}

/// Ranges written `L:C-L:C`, separated by spaces.
pub open spec fn ranges_text(rs: Seq<Seq<int>>) -> Seq<char>
    decreases rs.len(),
{
    if rs.len() == 0 {
        Seq::empty()
    } else if rs.len() == 1 {
        range_text(rs[0])
    } else {
        ranges_text(rs.drop_last()) + seq![' '] + range_text(rs.last())
    }
}

/// Appends a range written `L:C-L:C`.
fn push_range(out: &mut String, r: &[i64; 4])
    ensures
        final(out)@ == old(out)@ + range_text(seq4(*r)),
{
    push_i64(out, r[0]);
    push_char(out, ':');
    push_i64(out, r[1]);
    push_char(out, '-');
    push_i64(out, r[2]);
    push_char(out, ':');
    push_i64(out, r[3]);
    proof {
        assert(final(out)@ =~= old(out)@ + range_text(seq4(*r)));
    }
}

/// Writes delta-encoded ranges as absolute `L:C-L:C` ranges separated by
/// spaces.
pub fn format_ranges(ranges: &[[i64; 4]]) -> (r: String)
    requires
        all_fit(spec_decode(ranges_view(ranges@))),
    ensures
        r@ == ranges_text(spec_decode(ranges_view(ranges@))),
{
    let abs = decode_ranges(ranges);
    let ghost a = ranges_view(abs@);
    let mut out = String::new();
    let mut i: usize = 0;
    while i < abs.len()
        invariant
            0 <= i <= abs.len(),
            a == ranges_view(abs@),
            out@ == ranges_text(a.take(i as int)),
        decreases abs.len() - i,
    {
        proof {
            assert(a.take(i + 1).drop_last() =~= a.take(i as int));
            assert(a[i as int] == seq4(abs@[i as int]));
        }
        if i > 0 {
            push_char(&mut out, ' ');
        }
        push_range(&mut out, &abs[i]);
        i = i + 1;
        proof {
            if i == 1 {
                assert(out@ =~= ranges_text(a.take(i as int)));
            } else {
                assert(out@ =~= ranges_text(a.take(i as int)));
            }
        }
    }
    proof {
        assert(a.take(i as int) =~= a);
    }
    out
}

// ─── Diagnostics ───────────────────────────────────────────────────────────

/// One row of the diagnostics table.
pub open spec fn diagnostic_row(d: CompactDiagnosticV) -> Seq<char> {
    "  "@ + severity_word(d.s) + ","@ + spec_escape_csv(d.m) + ","@ + spec_escape_csv(
        match d.c {
            Some(c) => c,
            None => Seq::empty(),
        },
    ) + ","@ + ranges_text(spec_decode(d.r)) + ","@ + decimal(
        (if d.n >= 1 {
            d.n
        } else {
            1
        }) as nat,
    ) + "\n"@
}

/// The rows of the diagnostics table.
pub open spec fn diagnostic_rows(ds: Seq<CompactDiagnosticV>) -> Seq<char>
    decreases ds.len(),
{
    if ds.len() == 0 {
        Seq::empty()
    } else {
        diagnostic_rows(ds.drop_last()) + diagnostic_row(ds.last())
    }
}

/// The TOON text of compact diagnostics: the URI, a table header with the
/// number of entries, and one row per entry with its severity, message, code,
/// absolute ranges and count (at least 1).
pub open spec fn spec_diagnostics_toon(c: CompactDiagnosticsV) -> Seq<char> {
    "uri: "@ + c.uri + "\n"@ + "diagnostics["@ + decimal(c.diagnostics.len()) + "]{severity,message,code,range,count}:\n"@
        + diagnostic_rows(c.diagnostics)
}

/// Whether the absolute ranges of every entry fit in `i64`.
pub open spec fn toon_ranges_fit(c: CompactDiagnosticsV) -> bool {
    forall|i: int| 0 <= i < c.diagnostics.len() ==> all_fit(spec_decode(#[trigger] c.diagnostics[i].r))
}

/// Appends one row of the diagnostics table.
fn push_diagnostic_row(out: &mut String, d: &CompactDiagnostic)
    requires
        all_fit(spec_decode(d.view().r)),
    ensures
        final(out)@ == old(out)@ + diagnostic_row(d.view()),
{
    push_str(out, "  ");
    push_str(out, severity_to_str(d.s));
    push_str(out, ",");
    let m = escape_csv(d.m.as_str());
    push_str(out, m.as_str());
    push_str(out, ",");
    let code = match &d.c {
        Some(c) => escape_csv(c.as_str()),
        None => escape_csv(""),
    };
    proof {
        reveal_strlit("");
    }
    push_str(out, code.as_str());
    push_str(out, ",");
    let r = format_ranges(d.r.as_slice());
    push_str(out, r.as_str());
    push_str(out, ",");
    let n: u32 = if d.n >= 1 {
        d.n
    } else {
        1
    };
    push_u64(out, n as u64);
    push_str(out, "\n");
    proof {
        assert(final(out)@ =~= old(out)@ + diagnostic_row(d.view()));
    }
}

/// Writes compact diagnostics as a TOON table.
pub fn diagnostics_to_toon(diags: &CompactDiagnostics) -> (r: String)
    requires
        toon_ranges_fit(diags.view()),
    ensures
        r@ == spec_diagnostics_toon(diags.view()),
{
    let ghost c = diags.view();
    let mut out = String::new();
    push_str(&mut out, "uri: ");
    push_str(&mut out, diags.uri.as_str());
    push_str(&mut out, "\n");
    push_str(&mut out, "diagnostics[");
    push_u64(&mut out, diags.diagnostics.len() as u64);
    push_str(&mut out, "]{severity,message,code,range,count}:\n");
    let ghost head = out@;
    let mut i: usize = 0;
    while i < diags.diagnostics.len()
        invariant
            0 <= i <= diags.diagnostics.len(),
            c == diags.view(),
            toon_ranges_fit(c),
            out@ == head + diagnostic_rows(c.diagnostics.take(i as int)),
        decreases diags.diagnostics.len() - i,
    {
        proof {
            assert(c.diagnostics[i as int] == diags.diagnostics@[i as int].view());
            assert(c.diagnostics.take(i + 1).drop_last() =~= c.diagnostics.take(i as int));
        }
        push_diagnostic_row(&mut out, &diags.diagnostics[i]);
        i = i + 1;
        assert(out@ =~= head + diagnostic_rows(c.diagnostics.take(i as int)));
    }
    proof {
        assert(c.diagnostics.take(i as int) =~= c.diagnostics);
        assert(out@ =~= spec_diagnostics_toon(c));
    }
    out
}


// ─── Symbol kinds and compact ranges ───────────────────────────────────────

/// The word for a one-character symbol kind (`unknown` for anything else).
pub open spec fn symbol_kind_word(k: Seq<char>) -> Seq<char> {
    if k == "F"@ {
        "file"@
    } else if k == "M"@ {
        "module"@
    } else if k == "N"@ {
        "namespace"@
    } else if k == "P"@ {
        "package"@
    } else if k == "s"@ {
        "class"@
    } else if k == "m"@ {
        "method"@
    } else if k == "p"@ {
        "property"@
    } else if k == "f"@ {
        "field"@
    } else if k == "c"@ {
        "constructor"@
    } else if k == "E"@ {
        "enum"@
    } else if k == "I"@ {
        "interface"@
    } else if k == "u"@ {
        "function"@
    } else if k == "V"@ {
        "variable"@
    } else if k == "C"@ {
        "constant"@
    } else if k == "S"@ {
        "string"@
    } else if k == "b"@ {
        "number"@
    } else if k == "B"@ {
        "boolean"@
    } else if k == "A"@ {
        "array"@
    } else if k == "O"@ {
        "object"@
    } else if k == "K"@ {
        "key"@
    } else if k == "Z"@ {
        "null"@
    } else if k == "e"@ {
        "enum_member"@
    } else if k == "t"@ {
        "struct"@
    } else if k == "v"@ {
        "event"@
    } else if k == "r"@ {
        "operator"@
    } else if k == "T"@ {
        "type_parameter"@
    } else {
        "unknown"@
    }
}

/// The word for a one-character symbol kind.
pub fn symbol_kind_from_char(k: &str) -> (r: &'static str)
    ensures
        r@ == symbol_kind_word(k@),
{
    if str_eq(k, "F") {
        "file"
    } else if str_eq(k, "M") {
        "module"
    } else if str_eq(k, "N") {
        "namespace"
    } else if str_eq(k, "P") {
        "package"
    } else if str_eq(k, "s") {
        "class"
    } else if str_eq(k, "m") {
        "method"
    } else if str_eq(k, "p") {
        "property"
    } else if str_eq(k, "f") {
        "field"
    } else if str_eq(k, "c") {
        "constructor"
    } else if str_eq(k, "E") {
        "enum"
    } else if str_eq(k, "I") {
        "interface"
    } else if str_eq(k, "u") {
        "function"
    } else if str_eq(k, "V") {
        "variable"
    } else if str_eq(k, "C") {
        "constant"
    } else if str_eq(k, "S") {
        "string"
    } else if str_eq(k, "b") {
        "number"
    } else if str_eq(k, "B") {
        "boolean"
    } else if str_eq(k, "A") {
        "array"
    } else if str_eq(k, "O") {
        "object"
    } else if str_eq(k, "K") {
        "key"
    } else if str_eq(k, "Z") {
        "null"
    } else if str_eq(k, "e") {
        "enum_member"
    } else if str_eq(k, "t") {
        "struct"
    } else if str_eq(k, "v") {
        "event"
    } else if str_eq(k, "r") {
        "operator"
    } else if str_eq(k, "T") {
        "type_parameter"
    } else {
        "unknown"
    }
}

/// An integer field of a JSON object, 0 when absent or not an integer.
pub open spec fn int_field(v: JsonV, key: Seq<char>) -> int {
    match v.get_i64(key) {
        Some(n) => n,
        None => 0,
    }
}

/// A compact range `{s: {l, c}, e: {l, c}}` written `L:C-L:C` (missing
/// numbers as 0); empty when `s` or `e` is missing.
pub open spec fn compact_range_text(r: JsonV) -> Seq<char> {
    match (r.get("s"@), r.get("e"@)) {
        (Some(s), Some(e)) => signed_decimal(int_field(s, "l"@)) + ":"@ + signed_decimal(
            int_field(s, "c"@),
        ) + "-"@ + signed_decimal(int_field(e, "l"@)) + ":"@ + signed_decimal(int_field(e, "c"@)),
        _ => Seq::empty(),
    }
}

/// An integer field, 0 when absent.
fn int_field_exec(v: &Json, key: &str) -> (r: i64)
    ensures
        r as int == int_field(v@, key@),
{
    match v.get_i64(key) {
        Some(n) => n,
        None => 0,
    }
}

/// Writes a compact range as `L:C-L:C`.
pub fn format_compact_range(range: &Json) -> (r: String)
    ensures
        r@ == compact_range_text(range@),
{
    let s = match range.get("s") {
        Some(s) => s,
        None => return String::new(),
    };
    let e = match range.get("e") {
        Some(e) => e,
        None => return String::new(),
    };
    let mut out = String::new();
    push_i64(&mut out, int_field_exec(s, "l"));
    push_str(&mut out, ":");
    push_i64(&mut out, int_field_exec(s, "c"));
    push_str(&mut out, "-");
    push_i64(&mut out, int_field_exec(e, "l"));
    push_str(&mut out, ":");
    push_i64(&mut out, int_field_exec(e, "c"));
    proof {
        assert(out@ =~= compact_range_text(range@));
    }
    out
}


// ─── Completions ───────────────────────────────────────────────────────────

/// The word for a one-character completion kind (`unknown` for anything else).
pub open spec fn completion_kind_word(k: Seq<char>) -> Seq<char> {
    if k == "T"@ {
        "text"@
    } else if k == "M"@ {
        "method"@
    } else if k == "F"@ {
        "function"@
    } else if k == "C"@ {
        "constructor"@
    } else if k == "f"@ {
        "field"@
    } else if k == "V"@ {
        "variable"@
    } else if k == "c"@ {
        "class"@
    } else if k == "I"@ {
        "interface"@
    } else if k == "m"@ {
        "module"@
    } else if k == "P"@ {
        "property"@
    } else if k == "U"@ {
        "unit"@
    } else if k == "v"@ {
        "value"@
    } else if k == "e"@ {
        "enum"@
    } else if k == "K"@ {
        "keyword"@
    } else if k == "s"@ {
        "snippet"@
    } else if k == "o"@ {
        "color"@
    } else if k == "r"@ {
        "reference"@
    } else if k == "D"@ {
        "folder"@
    } else if k == "n"@ {
        "enum_member"@
    } else if k == "q"@ {
        "constant"@
    } else if k == "S"@ {
        "struct"@
    } else if k == "W"@ {
        "event"@
    } else if k == "O"@ {
        "operator"@
    } else if k == "t"@ {
        "type_parameter"@
    } else {
        "unknown"@
    }
}

/// The word for a one-character completion kind.
pub fn completion_kind_from_char(k: &str) -> (r: &'static str)
    ensures
        r@ == completion_kind_word(k@),
{
    if str_eq(k, "T") {
        "text"
    } else if str_eq(k, "M") {
        "method"
    } else if str_eq(k, "F") {
        "function"
    } else if str_eq(k, "C") {
        "constructor"
    } else if str_eq(k, "f") {
        "field"
    } else if str_eq(k, "V") {
        "variable"
    } else if str_eq(k, "c") {
        "class"
    } else if str_eq(k, "I") {
        "interface"
    } else if str_eq(k, "m") {
        "module"
    } else if str_eq(k, "P") {
        "property"
    } else if str_eq(k, "U") {
        "unit"
    } else if str_eq(k, "v") {
        "value"
    } else if str_eq(k, "e") {
        "enum"
    } else if str_eq(k, "K") {
        "keyword"
    } else if str_eq(k, "s") {
        "snippet"
    } else if str_eq(k, "o") {
        "color"
    } else if str_eq(k, "r") {
        "reference"
    } else if str_eq(k, "D") {
        "folder"
    } else if str_eq(k, "n") {
        "enum_member"
    } else if str_eq(k, "q") {
        "constant"
    } else if str_eq(k, "S") {
        "struct"
    } else if str_eq(k, "W") {
        "event"
    } else if str_eq(k, "O") {
        "operator"
    } else if str_eq(k, "t") {
        "type_parameter"
    } else {
        "unknown"
    }
}

/// The text of a boolean.
pub open spec fn bool_text(b: bool) -> Seq<char> {
    if b {
        "true"@
    } else {
        "false"@
    }
}

/// The strings of a JSON array, in order (other values skipped).
pub open spec fn string_items(a: Seq<JsonV>) -> Seq<Seq<char>>
    decreases a.len(),
{
    if a.len() == 0 {
        Seq::empty()
    } else {
        string_items(a.drop_last()) + match a.last().as_str() {
            Some(s) => seq![s],
            None => Seq::empty(),
        }
    }
}

/// A text field of a JSON object, empty when absent.
pub open spec fn field_text(v: JsonV, key: Seq<char>) -> Seq<char> {
    match v.get_str(key) {
        Some(s) => s,
        None => Seq::empty(),
    }
}

/// The documentation of a compact completion item: its inline `doc`, else
/// the pooled text its `doc_id` points at, else nothing.
pub open spec fn spec_resolve_doc(item: JsonV, pool: Seq<Seq<char>>) -> Seq<char> {
    match item.get_str("doc"@) {
        Some(d) => d,
        None => match item.get_u64("doc_id"@) {
            Some(i) => if i < pool.len() {
                pool[i]
            } else {
                Seq::empty()
            },
            None => Seq::empty(),
        },
    }
}

/// A field written escaped when not empty.
pub open spec fn escaped_or_empty(s: Seq<char>) -> Seq<char> {
    if s.len() == 0 {
        Seq::empty()
    } else {
        spec_escape_csv(s)
    }
}

/// One row of the completions table.
pub open spec fn completion_row(item: JsonV, pool: Seq<Seq<char>>) -> Seq<char> {
    let label = field_text(item, "l"@);
    let label_col = if label.contains(',') {
        spec_escape_csv(label)
    } else {
        label
    };
    let kind = match item.get_str("k"@) {
        Some(k) => completion_kind_word(k),
        None => Seq::empty(),
    };
    "  "@ + label_col + ","@ + kind + ","@ + escaped_or_empty(field_text(item, "d"@)) + ","@
        + escaped_or_empty(spec_resolve_doc(item, pool)) + ","@ + bool_text(
        item.get_bool("dep"@) == Some(true),
    ) + "\n"@
}

/// The rows of the completions table.
pub open spec fn completion_rows(items: Seq<JsonV>, pool: Seq<Seq<char>>) -> Seq<char>
    decreases items.len(),
{
    if items.len() == 0 {
        Seq::empty()
    } else {
        completion_rows(items.drop_last(), pool) + completion_row(items.last(), pool)
    }
}

/// The documentation pool of a compact completion list: the strings of its
/// `docs` array.
pub open spec fn docs_pool(v: JsonV) -> Seq<Seq<char>> {
    match v.get_array("docs"@) {
        Some(a) => string_items(a),
        None => Seq::empty(),
    }
}

/// The TOON text of a compact completion list.
pub open spec fn spec_completions_toon(v: JsonV, items: Seq<JsonV>) -> Seq<char> {
    let pool = docs_pool(v);
    "incomplete: "@ + bool_text(v.get_bool("incomplete"@) == Some(true)) + "\n"@ + "completions["@
        + decimal(items.len()) + "]{label,kind,detail,documentation,deprecated}:\n"@ + completion_rows(
        items,
        pool,
    )
}

/// A text field, empty when absent.
fn field_text_exec<'a>(v: &'a Json, key: &str) -> (r: &'a str)
    ensures
        r@ == field_text(v@, key@),
{
    match v.get_str(key) {
        Some(s) => s,
        None => {
            proof {
                reveal_strlit("");
            }
            ""
        },
    }
}

/// The documentation of a compact completion item.
pub fn resolve_doc(item: &Json, pool: &Vec<String>) -> (r: String)
    ensures
        r@ == spec_resolve_doc(item@, crate::json::strings_view(pool@)),
{
    match item.get_str("doc") {
        Some(d) => d.to_owned(),
        None => match item.get_u64("doc_id") {
            Some(i) => if i < pool.len() as u64 {
                pool[i as usize].clone()
            } else {
                String::new()
            },
            None => String::new(),
        },
    }
}

/// A field escaped when not empty.
fn escaped_or_empty_exec(s: &str) -> (r: String)
    ensures
        r@ == escaped_or_empty(s@),
{
    if s.is_empty() {
        String::new()
    } else {
        escape_csv(s)
    }
}

/// The label column of a completion row.
fn label_column(item: &Json) -> (r: String)
    ensures
        r@ == (if field_text(item@, "l"@).contains(',') {
            spec_escape_csv(field_text(item@, "l"@))
        } else {
            field_text(item@, "l"@)
        }),
{
    let label = field_text_exec(item, "l");
    if crate::text::contains_char(label, ',') {
        escape_csv(label)
    } else {
        label.to_owned()
    }
}

/// Appends one row of the completions table.
fn push_completion_row(out: &mut String, item: &Json, pool: &Vec<String>)
    ensures
        final(out)@ == old(out)@ + completion_row(item@, crate::json::strings_view(pool@)),
{
    let label_col = label_column(item);
    let kind: &str = match item.get_str("k") {
        Some(k) => completion_kind_from_char(k),
        None => {
            proof {
                reveal_strlit("");
            }
            ""
        },
    };
    let detail = escaped_or_empty_exec(field_text_exec(item, "d"));
    let doc = resolve_doc(item, pool);
    let doc_col = escaped_or_empty_exec(doc.as_str());
    let dep = match item.get_bool("dep") {
        Some(true) => true,
        _ => false,
    };
    push_str(out, "  ");
    push_str(out, label_col.as_str());
    push_str(out, ",");
    push_str(out, kind);
    push_str(out, ",");
    push_str(out, detail.as_str());
    push_str(out, ",");
    push_str(out, doc_col.as_str());
    push_str(out, ",");
    push_str(out, if dep { "true" } else { "false" });
    push_str(out, "\n");
    proof {
        assert(out@ =~= old(out)@ + completion_row(item@, crate::json::strings_view(pool@)));
    }
}

/// The strings of a JSON array.
fn strings_of(a: &Vec<Json>) -> (r: Vec<String>)
    ensures
        crate::json::strings_view(r@) == string_items(crate::json::seq_view(a@)),
{
    let ghost av = crate::json::seq_view(a@);
    let mut out: Vec<String> = Vec::new();
    let mut i: usize = 0;
    while i < a.len()
        invariant
            0 <= i <= a@.len(),
            av == crate::json::seq_view(a@),
            crate::json::strings_view(out@) == string_items(av.take(i as int)),
        decreases a.len() - i,
    {
        proof {
            assert(av.take(i + 1).drop_last() =~= av.take(i as int));
            assert(av[i as int] == a@[i as int]@);
        }
        let ghost before = crate::json::strings_view(out@);
        match a[i].as_str() {
            Some(s) => {
                out.push(s.to_owned());
                proof {
                    assert(crate::json::strings_view(out@) =~= before + seq![s@]);
                }
            },
            None => {
                proof {
                    assert(before + Seq::<Seq<char>>::empty() =~= before);
                }
            },
        }
        i = i + 1;
    }
    proof {
        assert(av.take(i as int) =~= av);
    }
    out
}

/// Writes a compact completion list as a TOON table; a protocol error when
/// it has no `items` array.
pub fn completions_to_toon(value: &Json) -> (r: Result<String, LspzError>)
    ensures
        match value@.get_array("items"@) {
            Some(items) => r matches Ok(s) && s@ == spec_completions_toon(value@, items),
            None => r matches Err(LspzError::Protocol(m)) && m@ == "completions missing 'items' array"@,
        },
{
    let items = match value.get_array("items") {
        Some(a) => a,
        None => return Err(protocol("completions missing 'items' array")),
    };
    let incomplete = match value.get_bool("incomplete") {
        Some(true) => true,
        _ => false,
    };
    let pool = match value.get_array("docs") {
        Some(a) => strings_of(a),
        None => Vec::new(),
    };
    let ghost pv = crate::json::strings_view(pool@);
    proof {
        match value@.get_array("docs"@) {
            Some(_) => {},
            None => {
                assert(pv =~= Seq::<Seq<char>>::empty());
            },
        }
    }
    let ghost iv = crate::json::seq_view(items@);
    let mut out = String::new();
    push_str(&mut out, "incomplete: ");
    push_str(&mut out, if incomplete { "true" } else { "false" });
    push_str(&mut out, "\n");
    push_str(&mut out, "completions[");
    push_u64(&mut out, items.len() as u64);
    push_str(&mut out, "]{label,kind,detail,documentation,deprecated}:\n");
    let ghost head = out@;
    let mut i: usize = 0;
    while i < items.len()
        invariant
            0 <= i <= items@.len(),
            iv == crate::json::seq_view(items@),
            pv == crate::json::strings_view(pool@),
            out@ == head + completion_rows(iv.take(i as int), pv),
        decreases items.len() - i,
    {
        push_completion_row(&mut out, &items[i], &pool);
        proof {
            assert(iv.take(i + 1).drop_last() =~= iv.take(i as int));
            assert(iv[i as int] == items@[i as int]@);
        }
        i = i + 1;
        assert(out@ =~= head + completion_rows(iv.take(i as int), pv));
    }
    proof {
        assert(iv.take(i as int) =~= iv);
        assert(out@ =~= spec_completions_toon(value@, iv));
    }
    Ok(out)
}

// ─── Hover ─────────────────────────────────────────────────────────────────

/// The word for a one-letter markup kind (`markdown` for anything but `p`).
pub open spec fn hover_kind_word(k: Seq<char>) -> Seq<char> {
    if k == "m"@ {
        "markdown"@
    } else if k == "p"@ {
        "plaintext"@
    } else {
        "markdown"@
    }
}

/// The word for a one-letter markup kind.
pub fn hover_kind_to_str(k: &str) -> (r: &'static str)
    ensures
        r@ == hover_kind_word(k@),
{
    if str_eq(k, "m") {
        "markdown"
    } else if str_eq(k, "p") {
        "plaintext"
    } else {
        "markdown"
    }
}

/// The TOON text of a compact hover whose contents are `c`.
pub open spec fn spec_hover_toon(v: JsonV, c: JsonV) -> Seq<char> {
    let kind = match c.get_str("k"@) {
        Some(k) => hover_kind_word(k),
        None => "markdown"@,
    };
    "kind: "@ + kind + "\n"@ + "value: "@ + escape_newlines(field_text(c, "v"@)) + "\n"@ + match v.get(
        "r"@,
    ) {
        Some(r) => if compact_range_text(r).len() > 0 {
            "range: "@ + compact_range_text(r) + "\n"@
        } else {
            Seq::empty()
        },
        None => Seq::empty(),
    }
}

/// Writes a compact hover as TOON; a protocol error when it has no contents.
pub fn hover_to_toon(value: &Json) -> (r: Result<String, LspzError>)
    ensures
        match value@.get("c"@) {
            Some(c) => r matches Ok(s) && s@ == spec_hover_toon(value@, c),
            None => r matches Err(LspzError::Protocol(m)) && m@ == "hover missing 'c' (contents)"@,
        },
{
    let contents = match value.get("c") {
        Some(c) => c,
        None => return Err(protocol("hover missing 'c' (contents)")),
    };
    let kind = match contents.get_str("k") {
        Some(k) => hover_kind_to_str(k),
        None => "markdown",
    };
    let text = escape_newlines_str(field_text_exec(contents, "v"));
    let mut out = String::new();
    push_str(&mut out, "kind: ");
    push_str(&mut out, kind);
    push_str(&mut out, "\n");
    push_str(&mut out, "value: ");
    push_str(&mut out, text.as_str());
    push_str(&mut out, "\n");
    let ghost before = out@;
    match value.get("r") {
        Some(r) => {
            let t = format_compact_range(r);
            if !t.as_str().is_empty() {
                push_str(&mut out, "range: ");
                push_str(&mut out, t.as_str());
                push_str(&mut out, "\n");
            }
        },
        None => {},
    }
    proof {
        assert(out@ =~= spec_hover_toon(value@, value@.get("c"@).unwrap()));
    }
    Ok(out)
}


// ─── Document symbols ──────────────────────────────────────────────────────

/// One symbol of the flattened table.
pub struct FlatSymbolV {
    pub name: Seq<char>,
    pub kind: Seq<char>,
    pub range: Seq<char>,
    pub detail: Seq<char>,
    pub container: Seq<char>,
}

/// One symbol of the flattened table.
pub struct FlatSymbol {
    pub name: String,
    pub kind: String,
    pub range: String,
    pub detail: String,
    pub container: String,
}

impl FlatSymbol {
    pub open spec fn view(self) -> FlatSymbolV {
        FlatSymbolV {
            name: self.name@,
            kind: self.kind@,
            range: self.range@,
            detail: self.detail@,
            container: self.container@,
        }
    }
}

/// The models of flattened symbols.
pub open spec fn flat_view(v: Seq<FlatSymbol>) -> Seq<FlatSymbolV> {
    Seq::new(v.len(), |i: int| v[i].view())
}

/// The name of a symbol under a parent: `parent.name`, or the name alone at
/// the top.
pub open spec fn full_name(prefix: Seq<char>, name: Seq<char>) -> Seq<char> {
    if prefix.len() == 0 {
        name
    } else {
        prefix + "."@ + name
    }
}

/// The table entry of one compact symbol.
pub open spec fn flat_entry(item: JsonV, prefix: Seq<char>) -> FlatSymbolV {
    FlatSymbolV {
        name: full_name(prefix, field_text(item, "n"@)),
        kind: match item.get_str("k"@) {
            Some(k) => symbol_kind_word(k),
            None => "unknown"@,
        },
        range: match item.get("r"@) {
            Some(r) => compact_range_text(r),
            None => Seq::empty(),
        },
        detail: field_text(item, "d"@),
        container: field_text(item, "cn"@),
    }
}

/// A compact symbol and, after it, its children (under `c`), flattened with
/// names prefixed by their parent's.
pub open spec fn flatten_item(item: JsonV, prefix: Seq<char>) -> Seq<FlatSymbolV>
    decreases item,
{
    seq![flat_entry(item, prefix)] + match item {
        JsonV::Object(es) => flatten_children(es, full_name(prefix, field_text(item, "n"@))),
        _ => Seq::empty(),
    }
}

/// The flattened children of a symbol whose entries are `es`.
pub open spec fn flatten_children(es: Seq<(Seq<char>, JsonV)>, full: Seq<char>) -> Seq<FlatSymbolV>
    decreases es,
{
    match find_key(es, "c"@) {
        Some(j) => if 0 <= j < es.len() {
            match es[j].1 {
                JsonV::Array(cs) => flatten_child_seq(cs, full).flatten_alt(),
                _ => Seq::empty(),
            }
        } else {
            Seq::empty()
        },
        None => Seq::empty(),
    }
}

/// Each child flattened.
pub open spec fn flatten_child_seq(cs: Seq<JsonV>, full: Seq<char>) -> Seq<Seq<FlatSymbolV>>
    decreases cs,
{
    Seq::new(
        cs.len(),
        |i: int|
            if 0 <= i < cs.len() {
                flatten_item(cs[i], full)
            } else {
                Seq::empty()
            },
    )
}

/// Compact symbols flattened in order.
pub open spec fn flatten_items(items: Seq<JsonV>, prefix: Seq<char>) -> Seq<FlatSymbolV> {
    Seq::new(items.len(), |i: int| flatten_item(items[i], prefix)).flatten_alt()
}

proof fn lemma_flatten_alt_step(f: Seq<Seq<FlatSymbolV>>, i: int)
    requires
        0 <= i < f.len(),
    ensures
        f.take(i + 1).flatten_alt() == f.take(i).flatten_alt() + f[i],
{
    assert(f.take(i + 1).drop_last() =~= f.take(i));
}

/// Flattens one compact symbol and its children.
pub fn flatten_symbol(item: &Json, prefix: &str) -> (r: Vec<FlatSymbol>)
    ensures
        flat_view(r@) == flatten_item(item@, prefix@),
    decreases item,
{
    let name = field_text_exec(item, "n");
    let mut full = prefix.to_owned();
    if !prefix.is_empty() {
        push_str(&mut full, ".");
    }
    push_str(&mut full, name);
    proof {
        if prefix@.len() == 0 {
            assert(full@ =~= name@);
        }
        assert(full@ == full_name(prefix@, field_text(item@, "n"@)));
    }
    let kind = match item.get_str("k") {
        Some(k) => symbol_kind_from_char(k).to_owned(),
        None => "unknown".to_owned(),
    };
    let range = match item.get("r") {
        Some(r) => format_compact_range(r),
        None => String::new(),
    };
    let entry = FlatSymbol {
        name: full.clone(),
        kind,
        range,
        detail: field_text_exec(item, "d").to_owned(),
        container: field_text_exec(item, "cn").to_owned(),
    };
    let mut out: Vec<FlatSymbol> = Vec::new();
    out.push(entry);
    let ghost head = flat_view(out@);
    proof {
        assert(head =~= seq![flat_entry(item@, prefix@)]);
    }
    let ghost mut rest: Seq<FlatSymbolV> = Seq::empty();
    match item {
        Json::Object(entries) => {
            let ghost es = crate::json::entries_view(entries@);
            proof {
                crate::json::lemma_object_view(*entries);
            }
            match item.key_index("c") {
                Some(j) => {
                    let ch = &entries[j].1;
                    proof {
                        assert(es[j as int].1 == ch@);
                        vstd::std_specs::vec::axiom_vec_index_decreases(*entries, j as int);
                        assert(decreases_to!(*item => item->Object_0));
                        assert(decreases_to!(*entries => entries[j as int]));
                        assert(decreases_to!(entries[j as int] => entries[j as int].1));
                    }
                    match ch {
                        Json::Array(cs) => {
                            let ghost cv = crate::json::seq_view(cs@);
                            let ghost f = flatten_child_seq(cv, full@);
                            let mut i: usize = 0;
                            proof {
                                assert(f.take(0).flatten_alt() =~= Seq::<FlatSymbolV>::empty());
                            }
                            while i < cs.len()
                                invariant
                                    0 <= i <= cs.len(),
                                    *ch == Json::Array(*cs),
                                    decreases_to!(*item => *ch),
                                    cv == crate::json::seq_view(cs@),
                                    f.len() == cv.len(),
                                    forall|k: int| 0 <= k < cv.len() ==> #[trigger] f[k] == flatten_item(cv[k], full@),
                                    flat_view(out@) == head + f.take(i as int).flatten_alt(),
                                decreases cs.len() - i,
                            {
                                proof {
                                    vstd::std_specs::vec::axiom_vec_index_decreases(*cs, i as int);
                                    assert(decreases_to!(*ch => ch->Array_0));
                                    assert(decreases_to!(*cs => cs[i as int]));
                                }
                                let mut sub = flatten_symbol(&cs[i], full.as_str());
                                let ghost before = flat_view(out@);
                                let ghost subv = flat_view(sub@);
                                out.append(&mut sub);
                                proof {
                                    assert(flat_view(out@) =~= before + subv);
                                    assert(cv[i as int] == cs@[i as int]@);
                                    lemma_flatten_alt_step(f, i as int);
                                }
                                i = i + 1;
                            }
                            proof {
                                assert(f.take(i as int) =~= f);
                                rest = f.flatten_alt();
                                crate::json::lemma_array_view(*cs);
                                assert(ch@ == JsonV::Array(cv));
                                assert(es[j as int].1 == JsonV::Array(cv));
                                assert(flatten_children(es, full@) == rest);
                            }
                        },
                        _ => {
                            proof {
                                assert(flatten_children(es, full@) =~= rest);
                            }
                        },
                    }
                },
                None => {
                    proof {
                        assert(flatten_children(es, full@) =~= rest);
                    }
                },
            }
            proof {
                assert(flatten_item(item@, prefix@) == head + flatten_children(es, full@));
            }
        },
        _ => {},
    }
    proof {
        assert(flat_view(out@) =~= head + rest);
        let fi = flatten_item(item@, prefix@);
        assert(fi =~= head + rest);
    }
    out
}


/// Flattens compact symbols in order.
pub fn flatten_symbols(items: &Vec<Json>, prefix: &str) -> (r: Vec<FlatSymbol>)
    ensures
        flat_view(r@) == flatten_items(crate::json::seq_view(items@), prefix@),
{
    let ghost iv = crate::json::seq_view(items@);
    let ghost f = Seq::new(iv.len(), |i: int| flatten_item(iv[i], prefix@));
    let mut out: Vec<FlatSymbol> = Vec::new();
    let mut i: usize = 0;
    proof {
        assert(flat_view(out@) =~= f.take(0).flatten_alt());
    }
    while i < items.len()
        invariant
            0 <= i <= items@.len(),
            iv == crate::json::seq_view(items@),
            f == Seq::new(iv.len(), |i: int| flatten_item(iv[i], prefix@)),
            flat_view(out@) == f.take(i as int).flatten_alt(),
        decreases items.len() - i,
    {
        let mut sub = flatten_symbol(&items[i], prefix);
        let ghost before = flat_view(out@);
        let ghost subv = flat_view(sub@);
        out.append(&mut sub);
        proof {
            assert(flat_view(out@) =~= before + subv);
            assert(iv[i as int] == items@[i as int]@);
            lemma_flatten_alt_step(f, i as int);
        }
        i = i + 1;
    }
    proof {
        assert(f.take(i as int) =~= f);
    }
    out
}

/// One row of the symbols table.
pub open spec fn flat_row(s: FlatSymbolV) -> Seq<char> {
    "  "@ + (if s.name.contains(',') {
        spec_escape_csv(s.name)
    } else {
        s.name
    }) + ","@ + s.kind + ","@ + s.range + ","@ + s.detail + ","@ + s.container + "\n"@
}

/// The rows of the symbols table.
pub open spec fn flat_rows(ss: Seq<FlatSymbolV>) -> Seq<char>
    decreases ss.len(),
{
    if ss.len() == 0 {
        Seq::empty()
    } else {
        flat_rows(ss.drop_last()) + flat_row(ss.last())
    }
}

/// The TOON text of compact document symbols, flattened.
pub open spec fn spec_symbols_toon(items: Seq<JsonV>) -> Seq<char> {
    let flat = flatten_items(items, Seq::empty());
    "symbols["@ + decimal(flat.len()) + "]{name,kind,range,detail,container}:\n"@ + flat_rows(flat)
}

fn push_flat_row(out: &mut String, s: &FlatSymbol)
    ensures
        final(out)@ == old(out)@ + flat_row(s.view()),
{
    let name = if crate::text::contains_char(s.name.as_str(), ',') {
        escape_csv(s.name.as_str())
    } else {
        s.name.clone()
    };
    push_str(out, "  ");
    push_str(out, name.as_str());
    push_str(out, ",");
    push_str(out, s.kind.as_str());
    push_str(out, ",");
    push_str(out, s.range.as_str());
    push_str(out, ",");
    push_str(out, s.detail.as_str());
    push_str(out, ",");
    push_str(out, s.container.as_str());
    push_str(out, "\n");
    proof {
        assert(out@ =~= old(out)@ + flat_row(s.view()));
    }
}

/// Writes compact document symbols as a TOON table, children flattened
/// under their parents' names; a protocol error when there is no `items`
/// array.
pub fn symbols_to_toon(value: &Json) -> (r: Result<String, LspzError>)
    ensures
        match value@.get_array("items"@) {
            Some(items) => r matches Ok(s) && s@ == spec_symbols_toon(items),
            None => r matches Err(LspzError::Protocol(m)) && m@ == "symbols missing 'items' array"@,
        },
{
    let items = match value.get_array("items") {
        Some(a) => a,
        None => return Err(protocol("symbols missing 'items' array")),
    };
    let flat = flatten_symbols(items, "");
    proof {
        reveal_strlit("");
        assert(""@ =~= Seq::<char>::empty());
    }
    let ghost fv = flat_view(flat@);
    let ghost iv = crate::json::seq_view(items@);
    proof {
        assert(fv == flatten_items(iv, Seq::empty()));
    }
    let mut out = String::new();
    push_str(&mut out, "symbols[");
    push_u64(&mut out, flat.len() as u64);
    push_str(&mut out, "]{name,kind,range,detail,container}:\n");
    let ghost head = out@;
    let mut i: usize = 0;
    while i < flat.len()
        invariant
            0 <= i <= flat@.len(),
            fv == flat_view(flat@),
            fv == flatten_items(iv, Seq::empty()),
            iv == crate::json::seq_view(items@),
            head == "symbols["@ + decimal(fv.len()) + "]{name,kind,range,detail,container}:\n"@,
            out@ == head + flat_rows(fv.take(i as int)),
        decreases flat.len() - i,
    {
        push_flat_row(&mut out, &flat[i]);
        proof {
            assert(fv.take(i + 1).drop_last() =~= fv.take(i as int));
            assert(fv[i as int] == flat@[i as int].view());
        }
        i = i + 1;
        assert(out@ =~= head + flat_rows(fv.take(i as int)));
    }
    proof {
        assert(fv.take(i as int) =~= fv);
        assert(out@ =~= spec_symbols_toon(crate::json::seq_view(items@)));
    }
    Ok(out)
}

/// The LSP names of the symbol kinds 1 to 26, in snake case (empty for
/// any other number).
pub open spec fn lsp_symbol_kind_name(k: int) -> Seq<char> {
    if k == 1 {
        "file"@
    } else if k == 2 {
        "module"@
    } else if k == 3 {
        "namespace"@
    } else if k == 4 {
        "package"@
    } else if k == 5 {
        "class"@
    } else if k == 6 {
        "method"@
    } else if k == 7 {
        "property"@
    } else if k == 8 {
        "field"@
    } else if k == 9 {
        "constructor"@
    } else if k == 10 {
        "enum"@
    } else if k == 11 {
        "interface"@
    } else if k == 12 {
        "function"@
    } else if k == 13 {
        "variable"@
    } else if k == 14 {
        "constant"@
    } else if k == 15 {
        "string"@
    } else if k == 16 {
        "number"@
    } else if k == 17 {
        "boolean"@
    } else if k == 18 {
        "array"@
    } else if k == 19 {
        "object"@
    } else if k == 20 {
        "key"@
    } else if k == 21 {
        "null"@
    } else if k == 22 {
        "enum_member"@
    } else if k == 23 {
        "struct"@
    } else if k == 24 {
        "event"@
    } else if k == 25 {
        "operator"@
    } else if k == 26 {
        "type_parameter"@
    } else {
        Seq::empty()
    }
}

/// The LSP names of the completion item kinds 1 to 25, in snake case (empty
/// for any other number).
pub open spec fn lsp_completion_kind_name(k: int) -> Seq<char> {
    if k == 1 {
        "text"@
    } else if k == 2 {
        "method"@
    } else if k == 3 {
        "function"@
    } else if k == 4 {
        "constructor"@
    } else if k == 5 {
        "field"@
    } else if k == 6 {
        "variable"@
    } else if k == 7 {
        "class"@
    } else if k == 8 {
        "interface"@
    } else if k == 9 {
        "module"@
    } else if k == 10 {
        "property"@
    } else if k == 11 {
        "unit"@
    } else if k == 12 {
        "value"@
    } else if k == 13 {
        "enum"@
    } else if k == 14 {
        "keyword"@
    } else if k == 15 {
        "snippet"@
    } else if k == 16 {
        "color"@
    } else if k == 17 {
        "file"@
    } else if k == 18 {
        "reference"@
    } else if k == 19 {
        "folder"@
    } else if k == 20 {
        "enum_member"@
    } else if k == 21 {
        "constant"@
    } else if k == 22 {
        "struct"@
    } else if k == 23 {
        "event"@
    } else if k == 24 {
        "operator"@
    } else if k == 25 {
        "type_parameter"@
    } else {
        Seq::empty()
    }
}

/// The one-character texts of the kind codes are those characters.
proof fn lemma_code_literals()
    ensures
        seq!['A'] == "A"@ && "A"@[0] == 'A',
        seq!['B'] == "B"@ && "B"@[0] == 'B',
        seq!['C'] == "C"@ && "C"@[0] == 'C',
        seq!['D'] == "D"@ && "D"@[0] == 'D',
        seq!['E'] == "E"@ && "E"@[0] == 'E',
        seq!['F'] == "F"@ && "F"@[0] == 'F',
        seq!['I'] == "I"@ && "I"@[0] == 'I',
        seq!['K'] == "K"@ && "K"@[0] == 'K',
        seq!['M'] == "M"@ && "M"@[0] == 'M',
        seq!['N'] == "N"@ && "N"@[0] == 'N',
        seq!['O'] == "O"@ && "O"@[0] == 'O',
        seq!['P'] == "P"@ && "P"@[0] == 'P',
        seq!['S'] == "S"@ && "S"@[0] == 'S',
        seq!['T'] == "T"@ && "T"@[0] == 'T',
        seq!['U'] == "U"@ && "U"@[0] == 'U',
        seq!['V'] == "V"@ && "V"@[0] == 'V',
        seq!['W'] == "W"@ && "W"@[0] == 'W',
        seq!['Z'] == "Z"@ && "Z"@[0] == 'Z',
        seq!['b'] == "b"@ && "b"@[0] == 'b',
        seq!['c'] == "c"@ && "c"@[0] == 'c',
        seq!['e'] == "e"@ && "e"@[0] == 'e',
        seq!['f'] == "f"@ && "f"@[0] == 'f',
        seq!['m'] == "m"@ && "m"@[0] == 'm',
        seq!['n'] == "n"@ && "n"@[0] == 'n',
        seq!['o'] == "o"@ && "o"@[0] == 'o',
        seq!['p'] == "p"@ && "p"@[0] == 'p',
        seq!['q'] == "q"@ && "q"@[0] == 'q',
        seq!['r'] == "r"@ && "r"@[0] == 'r',
        seq!['s'] == "s"@ && "s"@[0] == 's',
        seq!['t'] == "t"@ && "t"@[0] == 't',
        seq!['u'] == "u"@ && "u"@[0] == 'u',
        seq!['v'] == "v"@ && "v"@[0] == 'v',
{
    reveal_strlit("A");
    reveal_strlit("B");
    reveal_strlit("C");
    reveal_strlit("D");
    reveal_strlit("E");
    reveal_strlit("F");
    reveal_strlit("I");
    reveal_strlit("K");
    reveal_strlit("M");
    reveal_strlit("N");
    reveal_strlit("O");
    reveal_strlit("P");
    reveal_strlit("S");
    reveal_strlit("T");
    reveal_strlit("U");
    reveal_strlit("V");
    reveal_strlit("W");
    reveal_strlit("Z");
    reveal_strlit("b");
    reveal_strlit("c");
    reveal_strlit("e");
    reveal_strlit("f");
    reveal_strlit("m");
    reveal_strlit("n");
    reveal_strlit("o");
    reveal_strlit("p");
    reveal_strlit("q");
    reveal_strlit("r");
    reveal_strlit("s");
    reveal_strlit("t");
    reveal_strlit("u");
    reveal_strlit("v");
    assert(seq!['A'] =~= "A"@);
    assert(seq!['B'] =~= "B"@);
    assert(seq!['C'] =~= "C"@);
    assert(seq!['D'] =~= "D"@);
    assert(seq!['E'] =~= "E"@);
    assert(seq!['F'] =~= "F"@);
    assert(seq!['I'] =~= "I"@);
    assert(seq!['K'] =~= "K"@);
    assert(seq!['M'] =~= "M"@);
    assert(seq!['N'] =~= "N"@);
    assert(seq!['O'] =~= "O"@);
    assert(seq!['P'] =~= "P"@);
    assert(seq!['S'] =~= "S"@);
    assert(seq!['T'] =~= "T"@);
    assert(seq!['U'] =~= "U"@);
    assert(seq!['V'] =~= "V"@);
    assert(seq!['W'] =~= "W"@);
    assert(seq!['Z'] =~= "Z"@);
    assert(seq!['b'] =~= "b"@);
    assert(seq!['c'] =~= "c"@);
    assert(seq!['e'] =~= "e"@);
    assert(seq!['f'] =~= "f"@);
    assert(seq!['m'] =~= "m"@);
    assert(seq!['n'] =~= "n"@);
    assert(seq!['o'] =~= "o"@);
    assert(seq!['p'] =~= "p"@);
    assert(seq!['q'] =~= "q"@);
    assert(seq!['r'] =~= "r"@);
    assert(seq!['s'] =~= "s"@);
    assert(seq!['t'] =~= "t"@);
    assert(seq!['u'] =~= "u"@);
    assert(seq!['v'] =~= "v"@);
}

/// Writing a symbol kind as its one-character code and reading the code
/// back gives the kind's LSP name, for each of the 26 kinds; no other number
/// has a code.
pub proof fn lemma_symbol_kind_roundtrip(k: int)
    ensures
        1 <= k <= 26 ==> (symbol_kind_char(k) matches Some(c) && symbol_kind_word(seq![c])
            == lsp_symbol_kind_name(k)),
        !(1 <= k <= 26) ==> symbol_kind_char(k) is None,
{
    lemma_code_literals();
}

/// Writing a completion item kind as its one-character code and reading the
/// code back gives the kind's LSP name, for each of the 25 kinds but `File`
/// (17), which shares the code of `Function` and reads back as `function`;
/// no other number has a code.
pub proof fn lemma_completion_kind_roundtrip(k: int)
    ensures
        1 <= k <= 25 && k != 17 ==> (completion_kind_char(k) matches Some(c) && completion_kind_word(
            seq![c],
        ) == lsp_completion_kind_name(k)),
        k == 17 ==> (completion_kind_char(k) matches Some(c) && completion_kind_word(seq![c])
            == lsp_completion_kind_name(3)),
        !(1 <= k <= 25) ==> completion_kind_char(k) is None,
{
    lemma_code_literals();
}


/// The count column of a diagnostics row: the number of diagnostics the
/// entry stands for, at least 1.
pub open spec fn row_count(d: CompactDiagnosticV) -> nat {
    if d.n >= 1 {
        d.n as nat
    } else {
        1
    }
}

/// The rows of entries one after another are the rows of their parts.
proof fn lemma_diagnostic_rows_concat(a: Seq<CompactDiagnosticV>, b: Seq<CompactDiagnosticV>)
    ensures
        diagnostic_rows(a + b) == diagnostic_rows(a) + diagnostic_rows(b),
    decreases b.len(),
{
    if b.len() == 0 {
        assert(a + b =~= a);
        assert(diagnostic_rows(a) + diagnostic_rows(b) =~= diagnostic_rows(a));
    } else {
        lemma_diagnostic_rows_concat(a, b.drop_last());
        assert((a + b).drop_last() =~= a + b.drop_last());
        assert((a + b).last() == b.last());
        assert(diagnostic_rows(a) + diagnostic_rows(b.drop_last()) + diagnostic_row(b.last())
            =~= diagnostic_rows(a) + (diagnostic_rows(b.drop_last()) + diagnostic_row(b.last())));
    }
}

/// Each entry of compact diagnostics has its row in the TOON text, on a line
/// of its own, and that row ends with a comma, the number of diagnostics the
/// entry stands for (its count, 1 when unset) and a line feed.
#[verifier::spinoff_prover]
#[verifier::rlimit(40)]
pub proof fn lemma_toon_row_count(c: CompactDiagnosticsV, k: int)
    requires
        0 <= k < c.diagnostics.len(),
    ensures
        ({
            let row = diagnostic_row(c.diagnostics[k]);
            let tail = ","@ + decimal(row_count(c.diagnostics[k])) + "\n"@;
            &&& row.len() >= tail.len()
            &&& row.subrange(row.len() - tail.len(), row.len() as int) == tail
            &&& exists|at: int|
                occurs_at(spec_diagnostics_toon(c), row, at) && at > 0 && spec_diagnostics_toon(c)[at - 1]
                    == '\n'
        }),
{
    let ds = c.diagnostics;
    let d = ds[k];
    let row = diagnostic_row(d);
    let tail = ","@ + decimal(row_count(d)) + "\n"@;
    let front = "  "@ + severity_word(d.s) + ","@ + spec_escape_csv(d.m) + ","@ + spec_escape_csv(
        match d.c {
            Some(c) => c,
            None => Seq::empty(),
        },
    ) + ","@ + ranges_text(spec_decode(d.r));
    assert(row =~= front + tail);
    assert(row.subrange(front.len() as int, row.len() as int) =~= tail);
    let a = ds.take(k);
    let b = ds.skip(k + 1);
    assert(ds =~= a.push(d) + b);
    lemma_diagnostic_rows_concat(a.push(d), b);
    assert(a.push(d).drop_last() =~= a);
    let text = spec_diagnostics_toon(c);
    let head = "uri: "@ + c.uri + "\n"@ + "diagnostics["@ + decimal(ds.len())
        + "]{severity,message,code,range,count}:\n"@;
    reveal_strlit("]{severity,message,code,range,count}:\n");
    reveal_strlit("  ");
    reveal_strlit("\n");
    assert(text =~= head + diagnostic_rows(a) + row + diagnostic_rows(b));
    let at: int = head.len() as int + diagnostic_rows(a).len() as int;
    assert(text.subrange(at, at + row.len()) =~= row);
    assert(occurs_at(text, row, at));
    if k == 0 {
        assert(diagnostic_rows(a).len() == 0);
        assert(text[at - 1] == head[head.len() - 1]);
    } else {
        lemma_row_ends_lf(a.last());
        assert(diagnostic_rows(a) == diagnostic_rows(a.drop_last()) + diagnostic_row(a.last()));
        assert(text[at - 1] == diagnostic_rows(a)[diagnostic_rows(a).len() - 1]);
    }
}

proof fn lemma_row_ends_lf(d: CompactDiagnosticV)
    ensures
        diagnostic_row(d).len() > 0,
        diagnostic_row(d).last() == '\n',
{
    reveal_strlit("\n");
}

/// The sum of the count columns of the rows of some entries.
pub open spec fn count_column_sum(ds: Seq<CompactDiagnosticV>) -> int
    decreases ds.len(),
{
    if ds.len() == 0 {
        0
    } else {
        count_column_sum(ds.drop_last()) + row_count(ds.last())
    }
}

proof fn lemma_count_column_sum(ds: Seq<CompactDiagnosticV>)
    requires
        forall|k: int| 0 <= k < ds.len() ==> #[trigger] ds[k].n >= 1,
    ensures
        count_column_sum(ds) == count_sum(ds),
    decreases ds.len(),
{
    if ds.len() > 0 {
        let p = ds.drop_last();
        assert forall|k: int| 0 <= k < p.len() implies #[trigger] p[k].n >= 1 by {
            assert(p[k] == ds[k]);
        }
        lemma_count_column_sum(p);
        assert(ds.last().n >= 1) by {
            assert(ds[ds.len() - 1].n >= 1);
        }
    }
}

/// Written as TOON, the compact form of publishDiagnostics params accounts
/// for every diagnostic: the count columns of its rows add up to the number
/// of diagnostics in the params.
pub proof fn lemma_toon_counts_total(p: JsonV)
    requires
        spec_compress(p) is Some,
        compressible(p, false),
    ensures
        count_column_sum(spec_compress(p).unwrap().diagnostics) == p.get_array("diagnostics"@).unwrap().len(),
{
    lemma_compress_counts(p);
    lemma_count_column_sum(spec_compress(p).unwrap().diagnostics);
}

/// The word for an LSP severity number: 1 error, 2 warning, 3 info, 4 hint.
pub open spec fn lsp_severity_word(n: int) -> Seq<char> {
    if n == 1 {
        "error"@
    } else if n == 2 {
        "warning"@
    } else if n == 3 {
        "info"@
    } else {
        "hint"@
    }
}

/// A diagnostics row starts with the word for the entry's LSP severity.
pub proof fn lemma_toon_row_severity(d: CompactDiagnosticV)
    ensures
        ({
            let row = diagnostic_row(d);
            let head = "  "@ + lsp_severity_word(spec_to_lsp(d.s)) + ","@;
            row.len() >= head.len() && row.take(head.len() as int) == head
        }),
{
    let row = diagnostic_row(d);
    let head = "  "@ + lsp_severity_word(spec_to_lsp(d.s)) + ","@;
    assert(severity_word(d.s) == lsp_severity_word(spec_to_lsp(d.s)));
    assert(row.take(head.len() as int) =~= head);
}

/// Written as TOON, the row of each entry of compressed publishDiagnostics
/// params shows, between commas, the absolute ranges of all the diagnostics
/// merged into that entry, in the order they came.
pub proof fn lemma_toon_row_ranges(p: JsonV, k: int)
    requires
        spec_compress(p) is Some,
        compressible(p, false),
        0 <= k < spec_compress(p).unwrap().diagnostics.len(),
    ensures
        contains_sub(
            diagnostic_row(spec_compress(p).unwrap().diagnostics[k]),
            ","@ + ranges_text(spec_group(raw_entries(p.get_array("diagnostics"@).unwrap(), false))[k].ranges)
                + ","@,
        ),
{
    let xs = p.get_array("diagnostics"@).unwrap();
    let raw = raw_entries(xs, false);
    let gs = spec_group(raw);
    assert forall|i: int| 0 <= i < raw.len() implies well_counted(#[trigger] raw[i]) by {
        crate::compact::lemma_range_of_fits(xs[i]);
        let r = raw[i].ranges;
        assert(r == seq![range_of(xs[i])]);
        assert forall|a: int, q: int| 0 <= a < r.len() && 0 <= q < 4 implies fits_i64(
            #[trigger] r[a][q],
        ) by {
            assert(r[a] == range_of(xs[i]));
        }
    }
    lemma_group_shape(raw);
    let g = gs[k];
    assert(well_counted(g));
    let d = spec_compress(p).unwrap().diagnostics[k];
    assert(d == compact_of_group(g));
    if g.ranges.len() > 1 {
        lemma_decode_deltas(g.ranges);
    } else {
        assert(spec_decode(g.ranges) =~= g.ranges);
    }
    assert(spec_decode(d.r) == g.ranges);
    let row = diagnostic_row(d);
    let front = "  "@ + severity_word(d.s) + ","@ + spec_escape_csv(d.m) + ","@ + spec_escape_csv(
        match d.c {
            Some(c) => c,
            None => Seq::empty(),
        },
    );
    let mid = ","@ + ranges_text(g.ranges) + ","@;
    let rest = decimal(row_count(d)) + "\n"@;
    assert(row =~= front + mid + rest);
    assert(row.subrange(front.len() as int, front.len() as int + mid.len() as int) =~= mid);
    assert(occurs_at(row, mid, front.len() as int));
}

} // verus!
