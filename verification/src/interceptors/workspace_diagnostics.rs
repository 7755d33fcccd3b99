//! Compression of `workspace/diagnostic` responses.
//!
//! An `unchanged` report becomes a marker with its URI and version; a `full`
//! report keeps its URI and version and has its diagnostics written in the
//! compact form, one entry per diagnostic; the `{items: [...]}` shape stays.
use vstd::prelude::*;

use crate::compact::{
    all_fit, all_len4, compact_of_raw, compact_raw, diag_json, fits_i64, message_of, range_of,
    read_back, read_diag, spec_from_lsp, spec_to_lsp, CompactDiagnosticV, CompactSeverity,
};
use crate::error::{protocol, LspzError};
use crate::interceptors::Direction;
use crate::json::{
    lemma_find_key_first,
    entries_view, jarray, jobject, jstr, opt_entry, push_entry, push_opt_entry, seq_view, Json,
    JsonV,
};
use crate::text::{contains_sub, occurs_at, decimal, push_i64, push_str, push_u64, signed_decimal, str_eq};

verus! {

/// The compact form of an `unchanged` report: `{_c: "u", uri, version}`.
pub open spec fn compact_unchanged(item: JsonV) -> JsonV {
    JsonV::Object(
        seq![("_c"@, JsonV::Str("u"@))] + opt_entry("uri"@, item.get("uri"@)) + opt_entry(
            "version"@,
            item.get("version"@),
        ),
    )
}

/// The compact form of a `full` report: its diagnostics compressed one by
/// one; unchanged when it lacks a `uri` or a `diagnostics` array.
pub open spec fn compact_full(item: JsonV) -> JsonV {
    match item.get("uri"@) {
        None => item,
        Some(u) => match item.get_array("diagnostics"@) {
            None => item,
            Some(ds) => JsonV::Object(
                seq![("kind"@, JsonV::Str("full"@)), ("uri"@, u)] + opt_entry(
                    "version"@,
                    item.get("version"@),
                ) + seq![
                    ("diagnostics"@, JsonV::Array(Seq::new(ds.len(), |i: int| diag_json(compact_of_raw(ds[i]))))),
                ],
            ),
        },
    }
}

/// The compact form of one report, by its `kind`; any other value stays.
pub open spec fn compact_doc_item(item: JsonV) -> JsonV {
    match item {
        JsonV::Object(_) => match item.get_str("kind"@) {
            Some(k) => if k == "unchanged"@ {
                compact_unchanged(item)
            } else if k == "full"@ {
                compact_full(item)
            } else {
                item
            },
            None => item,
        },
        _ => item,
    }
}

/// The compact form of a workspace diagnostic response: `{items}` with each
/// report compressed; a value without an `items` array stays.
pub open spec fn spec_compress_workspace_diagnostics(p: JsonV) -> JsonV {
    match p {
        JsonV::Object(_) => match p.get_array("items"@) {
            Some(items) => JsonV::Object(
                seq![("items"@, JsonV::Array(Seq::new(items.len(), |i: int| compact_doc_item(items[i]))))],
            ),
            None => p,
        },
        _ => p,
    }
}

/// Compresses an `unchanged` report.
pub fn compress_unchanged(item: &Json) -> (r: Json)
    ensures
        r@ == compact_unchanged(item@),
{
    let mut out: Vec<(String, Json)> = Vec::new();
    push_entry(&mut out, "_c", jstr("u"));
    push_opt_entry(&mut out, "uri", item.get_cloned("uri"));
    push_opt_entry(&mut out, "version", item.get_cloned("version"));
    proof {
        reveal_strlit("u");
        assert(entries_view(out@) =~= seq![("_c"@, JsonV::Str("u"@))] + opt_entry("uri"@, item@.get("uri"@))
            + opt_entry("version"@, item@.get("version"@)));
    }
    let r = jobject(out);
    r
}

/// Compresses a `full` report.
pub fn compress_full(item: &Json) -> (r: Json)
    ensures
        r@ == compact_full(item@),
{
    let uri = match item.get("uri") {
        Some(u) => u,
        None => return item.deep_clone(),
    };
    let ds = match item.get_array("diagnostics") {
        Some(d) => d,
        None => return item.deep_clone(),
    };
    let ghost dv = seq_view(ds@);
    let mut list: Vec<Json> = Vec::new();
    let mut i: usize = 0;
    while i < ds.len()
        invariant
            0 <= i <= ds@.len(),
            dv == seq_view(ds@),
            item@.get("uri"@) == Some(uri@),
            item@.get_array("diagnostics"@) == Some(dv),
            list@.len() == i,
            forall|k: int| 0 <= k < i ==> #[trigger] list@[k]@ == diag_json(compact_of_raw(dv[k])),
        decreases ds.len() - i,
    {
        let c = compact_raw(&ds[i]);
        list.push(c.to_json());
        i = i + 1;
    }
    let mut out: Vec<(String, Json)> = Vec::new();
    push_entry(&mut out, "kind", jstr("full"));
    push_entry(&mut out, "uri", uri.deep_clone());
    push_opt_entry(&mut out, "version", item.get_cloned("version"));
    let arr = jarray(list);
    push_entry(&mut out, "diagnostics", arr);
    let r = jobject(out);
    proof {
        assert(seq_view(list@) =~= Seq::new(dv.len(), |k: int| diag_json(compact_of_raw(dv[k]))));
        reveal_strlit("full");
        assert(entries_view(out@) =~= seq![("kind"@, JsonV::Str("full"@)), ("uri"@, uri@)] + opt_entry(
            "version"@,
            item@.get("version"@),
        ) + seq![
            ("diagnostics"@, JsonV::Array(Seq::new(dv.len(), |k: int| diag_json(compact_of_raw(dv[k]))))),
        ]);
        assert(r@ =~= compact_full(item@));
    }
    r
}

/// Compresses one report by its `kind`.
pub fn compress_doc_item(item: &Json) -> (r: Json)
    ensures
        r@ == compact_doc_item(item@),
{
    match item {
        Json::Object(_) => match item.get_str("kind") {
            Some(k) => if str_eq(k, "unchanged") {
                compress_unchanged(item)
            } else if str_eq(k, "full") {
                compress_full(item)
            } else {
                item.deep_clone()
            },
            None => item.deep_clone(),
        },
        _ => item.deep_clone(),
    }
}

/// Compresses a workspace diagnostic response.
pub fn compress_workspace_diagnostics(params: &Json) -> (r: Json)
    ensures
        r@ == spec_compress_workspace_diagnostics(params@),
{
    match params {
        Json::Object(_) => match params.get_array("items") {
            Some(items) => {
                let ghost iv = seq_view(items@);
                let mut out: Vec<Json> = Vec::new();
                let mut i: usize = 0;
                while i < items.len()
                    invariant
                        0 <= i <= items@.len(),
                        iv == seq_view(items@),
                        out@.len() == i,
                        forall|k: int| 0 <= k < i ==> #[trigger] out@[k]@ == compact_doc_item(iv[k]),
                    decreases items.len() - i,
                {
                    out.push(compress_doc_item(&items[i]));
                    i = i + 1;
                }
                let mut result: Vec<(String, Json)> = Vec::new();
                let arr = jarray(out);
                push_entry(&mut result, "items", arr);
                let r = jobject(result);
                proof {
                    assert(seq_view(out@) =~= Seq::new(iv.len(), |k: int| compact_doc_item(iv[k])));
                    assert(entries_view(result@) =~= seq![
                        ("items"@, JsonV::Array(Seq::new(iv.len(), |k: int| compact_doc_item(iv[k])))),
                    ]);
                }
                r
            },
            None => params.deep_clone(),
        },
        _ => params.deep_clone(),
    }
}

/// Compresses `workspace/diagnostic` responses.
pub struct WorkspaceDiagnosticCompressor;

impl Default for WorkspaceDiagnosticCompressor {
    fn default() -> (r: WorkspaceDiagnosticCompressor) {
        WorkspaceDiagnosticCompressor
    }
}

impl WorkspaceDiagnosticCompressor {
    /// The name under which the compressor is logged.
    pub fn name(&self) -> (r: &'static str)
        ensures
            r@ == "workspace_diagnostic_compressor"@,
    {
        "workspace_diagnostic_compressor"
    }

    /// Whether the compressor rewrites a message: workspace diagnostic
    /// responses from the server.
    pub fn applies_to(&self, method: &str, direction: Direction) -> (r: bool)
        ensures
            r == (method@ == "workspace/diagnostic"@ && direction == Direction::ServerToClient),
    {
        str_eq(method, "workspace/diagnostic") && direction == Direction::ServerToClient
    }

    /// Compresses a workspace diagnostic response (see
    /// [`compress_workspace_diagnostics`]).
    pub fn intercept(&self, method: &str, params: Json, direction: Direction) -> (r: Result<
        Option<Json>,
        LspzError,
    >)
        ensures
            r matches Ok(Some(j)) && j@ == spec_compress_workspace_diagnostics(params@),
    {
        Ok(Some(compress_workspace_diagnostics(&params)))
    }
}

// ─── TOON ──────────────────────────────────────────────────────────────────

/// The word for a compact severity letter (`unknown` for anything else).
pub open spec fn severity_word_of(d: JsonV) -> Seq<char> {
    match d.get_str("s"@) {
        Some(s) => if s == "E"@ {
            "error"@
        } else if s == "W"@ {
            "warning"@
        } else if s == "I"@ {
            "info"@
        } else if s == "H"@ {
            "hint"@
        } else {
            "unknown"@
        },
        None => "unknown"@,
    }
}

/// An integer of a JSON value, 0 when it is not one.
pub open spec fn int_or_zero(v: JsonV) -> int {
    match v.as_i64() {
        Some(n) => n,
        None => 0,
    }
}

/// The first range of a compact entry, written `L:C-L:C`; empty when the
/// entry has no range of four values.
pub open spec fn first_range_text(d: JsonV) -> Seq<char> {
    match d.get_array("r"@) {
        Some(r) => if r.len() > 0 {
            match r[0].as_array() {
                Some(a) => if a.len() == 4 {
                    signed_decimal(int_or_zero(a[0])) + ":"@ + signed_decimal(int_or_zero(a[1]))
                        + "-"@ + signed_decimal(int_or_zero(a[2])) + ":"@ + signed_decimal(
                        int_or_zero(a[3]),
                    )
                } else {
                    Seq::empty()
                },
                None => Seq::empty(),
            }
        } else {
            Seq::empty()
        },
        None => Seq::empty(),
    }
}

/// A text field of a JSON object, empty when absent.
pub open spec fn str_or_empty(v: JsonV, key: Seq<char>) -> Seq<char> {
    match v.get_str(key) {
        Some(s) => s,
        None => Seq::empty(),
    }
}

/// One diagnostic line of a `full` report.
pub open spec fn ws_diag_line(d: JsonV) -> Seq<char> {
    "    "@ + severity_word_of(d) + ","@ + str_or_empty(d, "m"@) + ","@ + str_or_empty(d, "c"@)
        + ","@ + first_range_text(d) + ",1\n"@
}

/// The diagnostic lines of a `full` report.
pub open spec fn ws_diag_lines(ds: Seq<JsonV>) -> Seq<char>
    decreases ds.len(),
{
    if ds.len() == 0 {
        Seq::empty()
    } else {
        ws_diag_lines(ds.drop_last()) + ws_diag_line(ds.last())
    }
}

/// The kind of a report: its `kind`; `unchanged` for the compact marker
/// `_c: "u"` that an unchanged report is written as; `unknown` otherwise.
pub open spec fn report_kind(item: JsonV) -> Seq<char> {
    match item.get_str("kind"@) {
        Some(k) => k,
        None => if item.get_str("_c"@) == Some("u"@) {
            "unchanged"@
        } else {
            "unknown"@
        },
    }
}

/// The text of one report.
pub open spec fn ws_item_text(item: JsonV) -> Seq<char> {
    let kind = report_kind(item);
    let uri = str_or_empty(item, "uri"@);
    if kind == "full"@ {
        match item.get_array("diagnostics"@) {
            Some(ds) => "  uri: "@ + uri + "\n"@ + "  diagnostics["@ + decimal(ds.len())
                + "]{severity,message,code,range,count}:\n"@ + ws_diag_lines(ds),
            None => Seq::empty(),
        }
    } else if kind == "unchanged"@ {
        "  uri: "@ + uri + " (unchanged)\n"@
    } else {
        "  uri: "@ + uri + " ("@ + kind + ")\n"@
    }
}

/// The texts of the reports.
pub open spec fn ws_items_text(items: Seq<JsonV>) -> Seq<char>
    decreases items.len(),
{
    if items.len() == 0 {
        Seq::empty()
    } else {
        ws_items_text(items.drop_last()) + ws_item_text(items.last())
    }
}

/// How many reports are `full`.
pub open spec fn full_count(items: Seq<JsonV>) -> nat
    decreases items.len(),
{
    if items.len() == 0 {
        0
    } else {
        full_count(items.drop_last()) + if items.last().get_str("kind"@) == Some("full"@) {
            1nat
        } else {
            0nat
        }
    }
}

/// The TOON text of a compact workspace diagnostic response: a header with
/// the number of reports, each report, and how many were not `full`.
pub open spec fn spec_workspace_diagnostics_toon(items: Seq<JsonV>) -> Seq<char> {
    let skipped = items.len() - full_count(items);
    "workspace_diagnostics["@ + decimal(items.len()) + "]\n"@ + ws_items_text(items) + if skipped
        > 0 {
        "skipped (unchanged): "@ + decimal(skipped as nat) + "\n"@
    } else {
        Seq::empty()
    }
}

proof fn lemma_full_count_bound(items: Seq<JsonV>)
    ensures
        full_count(items) <= items.len(),
    decreases items.len(),
{
    if items.len() > 0 {
        lemma_full_count_bound(items.drop_last());
    }
}

/// An integer of a JSON value, 0 when it is not one.
fn i64_or_zero(v: &Json) -> (r: i64)
    ensures
        r as int == int_or_zero(v@),
{
    match v.as_i64() {
        Some(n) => n,
        None => 0,
    }
}

/// Appends the first range of a compact entry.
fn push_first_range(out: &mut String, d: &Json)
    ensures
        final(out)@ == old(out)@ + first_range_text(d@),
{
    match d.get_array("r") {
        Some(r) => {
            if r.len() > 0 {
                match r[0].as_array() {
                    Some(a) => {
                        if a.len() == 4 {
                            proof {
                                assert(seq_view(r@)[0] == r@[0]@);
                                assert(seq_view(a@)[0] == a@[0]@);
                                assert(seq_view(a@)[1] == a@[1]@);
                                assert(seq_view(a@)[2] == a@[2]@);
                                assert(seq_view(a@)[3] == a@[3]@);
                            }
                            push_i64(out, i64_or_zero(&a[0]));
                            push_str(out, ":");
                            push_i64(out, i64_or_zero(&a[1]));
                            push_str(out, "-");
                            push_i64(out, i64_or_zero(&a[2]));
                            push_str(out, ":");
                            push_i64(out, i64_or_zero(&a[3]));
                            proof {
                                assert(out@ =~= old(out)@ + first_range_text(d@));
                            }
                        } else {
                            proof {
                                assert(out@ =~= old(out)@ + first_range_text(d@));
                            }
                        }
                    },
                    None => {
                        proof {
                            assert(seq_view(r@)[0] == r@[0]@);
                            assert(out@ =~= old(out)@ + first_range_text(d@));
                        }
                    },
                }
            } else {
                proof {
                    assert(out@ =~= old(out)@ + first_range_text(d@));
                }
            }
        },
        None => {
            proof {
                assert(out@ =~= old(out)@ + first_range_text(d@));
            }
        },
    }
}

/// The word for a compact severity letter.
fn severity_word_str(d: &Json) -> (r: &'static str)
    ensures
        r@ == severity_word_of(d@),
{
    match d.get_str("s") {
        Some(s) => if str_eq(s, "E") {
            "error"
        } else if str_eq(s, "W") {
            "warning"
        } else if str_eq(s, "I") {
            "info"
        } else if str_eq(s, "H") {
            "hint"
        } else {
            "unknown"
        },
        None => "unknown",
    }
}

/// A text field, empty when absent.
fn str_field<'a>(v: &'a Json, key: &str) -> (r: &'a str)
    ensures
        r@ == str_or_empty(v@, key@),
{
    match v.get_str(key) {
        Some(s) => s,
        None => {
            proof {
                reveal_strlit("");
            }
            ""
        },
    }
}

/// Appends one diagnostic line of a `full` report.
fn push_ws_diag_line(out: &mut String, d: &Json)
    ensures
        final(out)@ == old(out)@ + ws_diag_line(d@),
{
    push_str(out, "    ");
    push_str(out, severity_word_str(d));
    push_str(out, ",");
    push_str(out, str_field(d, "m"));
    push_str(out, ",");
    push_str(out, str_field(d, "c"));
    push_str(out, ",");
    push_first_range(out, d);
    push_str(out, ",1\n");
    proof {
        assert(out@ =~= old(out)@ + ws_diag_line(d@));
    }
}

/// Appends the text of one report.
fn push_ws_item(out: &mut String, item: &Json)
    ensures
        final(out)@ == old(out)@ + ws_item_text(item@),
{
    let kind = match item.get_str("kind") {
        Some(k) => k,
        None => match item.get_str("_c") {
            Some(c) => if str_eq(c, "u") {
                "unchanged"
            } else {
                "unknown"
            },
            None => "unknown",
        },
    };
    let uri = str_field(item, "uri");
    if str_eq(kind, "full") {
        match item.get_array("diagnostics") {
            Some(ds) => {
                let ghost dv = seq_view(ds@);
                push_str(out, "  uri: ");
                push_str(out, uri);
                push_str(out, "\n");
                push_str(out, "  diagnostics[");
                push_u64(out, ds.len() as u64);
                push_str(out, "]{severity,message,code,range,count}:\n");
                let ghost head = out@;
                let mut i: usize = 0;
                while i < ds.len()
                    invariant
                        0 <= i <= ds@.len(),
                        dv == seq_view(ds@),
                        out@ == head + ws_diag_lines(dv.take(i as int)),
                    decreases ds.len() - i,
                {
                    let d = &ds[i];
                    push_ws_diag_line(out, d);
                    proof {
                        assert(dv.take(i + 1).drop_last() =~= dv.take(i as int));
                        assert(dv[i as int] == d@);
                    }
                    i = i + 1;
                    assert(out@ =~= head + ws_diag_lines(dv.take(i as int)));
                }
                proof {
                    assert(dv.take(i as int) =~= dv);
                    assert(out@ =~= old(out)@ + ws_item_text(item@));
                }
            },
            None => {
                proof {
                    assert(out@ =~= old(out)@ + ws_item_text(item@));
                }
            },
        }
    } else if str_eq(kind, "unchanged") {
        push_str(out, "  uri: ");
        push_str(out, uri);
        push_str(out, " (unchanged)\n");
        proof {
            assert(out@ =~= old(out)@ + ws_item_text(item@));
        }
    } else {
        push_str(out, "  uri: ");
        push_str(out, uri);
        push_str(out, " (");
        push_str(out, kind);
        push_str(out, ")\n");
        proof {
            assert(out@ =~= old(out)@ + ws_item_text(item@));
        }
    }
}

/// Writes a compact workspace diagnostic response as TOON; a protocol error
/// when it has no `items` array.
pub fn workspace_diagnostics_to_toon(value: &Json) -> (r: Result<String, LspzError>)
    ensures
        match value@.get_array("items"@) {
            Some(items) => r matches Ok(s) && s@ == spec_workspace_diagnostics_toon(items),
            None => r matches Err(LspzError::Protocol(m)) && m@ == "missing 'items' array"@,
        },
{
    let items = match value.get_array("items") {
        Some(a) => a,
        None => return Err(protocol("missing 'items' array")),
    };
    let ghost iv = seq_view(items@);
    let mut full: usize = 0;
    let mut k: usize = 0;
    while k < items.len()
        invariant
            0 <= k <= items@.len(),
            iv == seq_view(items@),
            full as int == full_count(iv.take(k as int)),
            full <= k,
        decreases items.len() - k,
    {
        proof {
            assert(iv.take(k + 1).drop_last() =~= iv.take(k as int));
            assert(iv[k as int] == items@[k as int]@);
        }
        let is_full = match items[k].get_str("kind") {
            Some(s) => str_eq(s, "full"),
            None => false,
        };
        if is_full {
            full = full + 1;
        }
        k = k + 1;
    }
    proof {
        assert(iv.take(k as int) =~= iv);
    }
    let unchanged = items.len() - full;
    let mut out = String::new();
    push_str(&mut out, "workspace_diagnostics[");
    push_u64(&mut out, items.len() as u64);
    push_str(&mut out, "]\n");
    let ghost head = out@;
    let mut i: usize = 0;
    while i < items.len()
        invariant
            0 <= i <= items@.len(),
            iv == seq_view(items@),
            out@ == head + ws_items_text(iv.take(i as int)),
        decreases items.len() - i,
    {
        push_ws_item(&mut out, &items[i]);
        proof {
            assert(iv.take(i + 1).drop_last() =~= iv.take(i as int));
            assert(iv[i as int] == items@[i as int]@);
        }
        i = i + 1;
        assert(out@ =~= head + ws_items_text(iv.take(i as int)));
    }
    proof {
        assert(iv.take(i as int) =~= iv);
    }
    let ghost before_tail = out@;
    if unchanged > 0 {
        push_str(&mut out, "skipped (unchanged): ");
        push_u64(&mut out, unchanged as u64);
        push_str(&mut out, "\n");
    }
    proof {
        assert(out@ =~= spec_workspace_diagnostics_toon(iv));
    }
    Ok(out)
}

/// The TOON line of an unchanged report.
pub open spec fn unchanged_line(item: JsonV) -> Seq<char> {
    "  uri: "@ + str_or_empty(item, "uri"@) + " (unchanged)\n"@
}

/// The text of reports one after the other is the texts of their parts.
proof fn lemma_ws_items_text_concat(a: Seq<JsonV>, b: Seq<JsonV>)
    ensures
        ws_items_text(a + b) == ws_items_text(a) + ws_items_text(b),
    decreases b.len(),
{
    if b.len() == 0 {
        assert(a + b =~= a);
        assert(ws_items_text(b) =~= Seq::<char>::empty());
        assert(ws_items_text(a) + Seq::<char>::empty() =~= ws_items_text(a));
    } else {
        lemma_ws_items_text_concat(a, b.drop_last());
        assert((a + b).drop_last() =~= a + b.drop_last());
        assert((a + b).last() == b.last());
        assert(ws_items_text(a) + ws_items_text(b.drop_last()) + ws_item_text(b.last()) =~= ws_items_text(a)
            + (ws_items_text(b.drop_last()) + ws_item_text(b.last())));
    }
}

/// The compact form of an unchanged report is written as its TOON line.
#[verifier::spinoff_prover]
proof fn lemma_unchanged_text(item: JsonV)
    requires
        item is Object,
        item.get_str("kind"@) == Some("unchanged"@),
    ensures
        ws_item_text(compact_doc_item(item)) == unchanged_line(item),
{
    reveal_strlit("unchanged");
    reveal_strlit("full");
    reveal_strlit("kind");
    reveal_strlit("_c");
    reveal_strlit("uri");
    reveal_strlit("version");
    reveal_strlit("u");
    assert("unchanged"@ != "full"@) by {
        assert("unchanged"@.len() != "full"@.len());
    }
    assert("kind"@ != "_c"@) by {
        assert("kind"@.len() != "_c"@.len());
    }
    assert("kind"@ != "uri"@) by {
        assert("kind"@.len() != "uri"@.len());
    }
    assert("kind"@ != "version"@) by {
        assert("kind"@.len() != "version"@.len());
    }
    assert("uri"@ != "_c"@) by {
        assert("uri"@.len() != "_c"@.len());
    }
    let c = compact_doc_item(item);
    assert(c == compact_unchanged(item));
    let es = c->Object_0;
    let ue = opt_entry("uri"@, item.get("uri"@));
    let ve = opt_entry("version"@, item.get("version"@));
    assert(es =~= seq![("_c"@, JsonV::Str("u"@))] + ue + ve);
    assert forall|i: int| 0 <= i < es.len() implies (#[trigger] es[i]).0 != "kind"@ by {
        if i == 0 {
        } else if i < 1 + ue.len() {
            assert(es[i] == ue[i - 1]);
        } else {
            assert(es[i] == ve[i - 1 - ue.len()]);
        }
    }
    lemma_find_key_first(es, "kind"@);
    lemma_find_key_first(es, "_c"@);
    lemma_find_key_first(es, "uri"@);
    assert(c.get_str("kind"@) is None);
    assert(c.get_str("_c"@) == Some("u"@));
    assert(report_kind(c) == "unchanged"@);
    match item.get("uri"@) {
        Some(u) => {
            assert(es[1] == ("uri"@, u));
            assert(c.get("uri"@) == Some(u));
        },
        None => {
            assert forall|i: int| 0 <= i < es.len() implies (#[trigger] es[i]).0 != "uri"@ by {
                if i > 0 {
                    assert(es[i] == ve[i - 1]);
                }
            }
            assert(c.get("uri"@) is None);
        },
    }
    assert(str_or_empty(c, "uri"@) == str_or_empty(item, "uri"@));
}

/// An unchanged report comes out of compressing the response and writing it
/// as TOON as the line `  uri: <uri> (unchanged)`: the compact report is
/// written as that line, and the text of the whole response holds it.
pub proof fn lemma_unchanged_report_line(p: JsonV, k: int)
    requires
        p is Object,
        p.get_array("items"@) matches Some(items) && 0 <= k < items.len() && items[k] is Object
            && items[k].get_str("kind"@) == Some("unchanged"@),
    ensures
        spec_compress_workspace_diagnostics(p).get_array("items"@) matches Some(cs) && k < cs.len()
            && ws_item_text(cs[k]) == unchanged_line(p.get_array("items"@).unwrap()[k]) && contains_sub(
            spec_workspace_diagnostics_toon(cs),
            unchanged_line(p.get_array("items"@).unwrap()[k]),
        ),
{
    let items = p.get_array("items"@).unwrap();
    let cs = Seq::new(items.len(), |i: int| compact_doc_item(items[i]));
    let q = spec_compress_workspace_diagnostics(p);
    assert(q == JsonV::Object(seq![("items"@, JsonV::Array(cs))]));
    assert(q.get_array("items"@) == Some(cs));
    lemma_unchanged_text(items[k]);
    let line = unchanged_line(items[k]);
    assert(ws_item_text(cs[k]) == line);
    let a = cs.take(k);
    let b = cs.skip(k + 1);
    assert(cs =~= a.push(cs[k]) + b);
    lemma_ws_items_text_concat(a.push(cs[k]), b);
    assert(a.push(cs[k]).drop_last() =~= a);
    assert(ws_items_text(a.push(cs[k])) == ws_items_text(a) + line);
    let full = spec_workspace_diagnostics_toon(cs);
    let skipped = cs.len() - full_count(cs);
    let head = "workspace_diagnostics["@ + decimal(cs.len()) + "]\n"@;
    let tail = if skipped > 0 {
        "skipped (unchanged): "@ + decimal(skipped as nat) + "\n"@
    } else {
        Seq::empty()
    };
    let at: int = head.len() as int + ws_items_text(a).len() as int;
    assert(full =~= head + ws_items_text(a) + line + ws_items_text(b) + tail);
    assert(full.subrange(at, at + line.len()) =~= line);
    assert(occurs_at(full, line, at));
}

/// Whether a compact diagnostic, as read back, keeps what a raw diagnostic
/// says: its message (empty when it has none), its string code, its one
/// range, and its severity: the same LSP number when that is 1 to 4, a
/// warning otherwise.
pub open spec fn keeps_diagnostic(cd: CompactDiagnosticV, raw: JsonV) -> bool {
    &&& cd.m == message_of(raw)
    &&& cd.c == raw.get_str("code"@)
    &&& cd.r == seq![range_of(raw)]
    &&& match raw.get_u64("severity"@) {
        Some(n) => if 1 <= n <= 4 {
            spec_to_lsp(cd.s) == n
        } else {
            cd.s == CompactSeverity::W
        },
        None => cd.s == CompactSeverity::W,
    }
}

/// A `full` report keeps its diagnostics through compression: the compact
/// report has as many diagnostics as the raw one, and each reads back as a
/// compact entry that keeps the message, code, range and severity of the raw
/// diagnostic at the same place.
pub proof fn lemma_full_report_kept(p: JsonV, k: int)
    requires
        p is Object,
        p.get_array("items"@) matches Some(items) && 0 <= k < items.len() && items[k] is Object
            && items[k].get_str("kind"@) == Some("full"@) && items[k].get("uri"@) is Some
            && items[k].get_array("diagnostics"@) is Some,
    ensures
        spec_compress_workspace_diagnostics(p).get_array("items"@) matches Some(cs) && k < cs.len() && (
        cs[k].get_array("diagnostics"@) matches Some(out) && out.len() == p.get_array(
            "items"@,
        ).unwrap()[k].get_array("diagnostics"@).unwrap().len() && forall|i: int|
            0 <= i < out.len() ==> (#[trigger] read_diag(out[i]) matches Some(cd) && keeps_diagnostic(
                cd,
                p.get_array("items"@).unwrap()[k].get_array("diagnostics"@).unwrap()[i],
            ))),
{
    reveal_strlit("unchanged");
    reveal_strlit("full");
    reveal_strlit("kind");
    reveal_strlit("uri");
    reveal_strlit("version");
    reveal_strlit("diagnostics");
    assert("unchanged"@ != "full"@) by {
        assert("unchanged"@.len() != "full"@.len());
    }
    assert("diagnostics"@ != "kind"@) by {
        assert("diagnostics"@[0] != "kind"@[0]);
    }
    assert("diagnostics"@ != "uri"@) by {
        assert("diagnostics"@[0] != "uri"@[0]);
    }
    assert("diagnostics"@ != "version"@) by {
        assert("diagnostics"@[0] != "version"@[0]);
    }
    let items = p.get_array("items"@).unwrap();
    let cs = Seq::new(items.len(), |i: int| compact_doc_item(items[i]));
    let q = spec_compress_workspace_diagnostics(p);
    assert(q == JsonV::Object(seq![("items"@, JsonV::Array(cs))]));
    assert(q.get_array("items"@) == Some(cs));
    let item = items[k];
    assert(cs[k] == compact_full(item));
    let u = item.get("uri"@).unwrap();
    let ds = item.get_array("diagnostics"@).unwrap();
    let out = Seq::new(ds.len(), |i: int| diag_json(compact_of_raw(ds[i])));
    let ve = opt_entry("version"@, item.get("version"@));
    let es = seq![("kind"@, JsonV::Str("full"@)), ("uri"@, u)] + ve + seq![("diagnostics"@, JsonV::Array(out))];
    assert(cs[k] == JsonV::Object(es));
    let last = es.len() - 1;
    assert(es[last] == ("diagnostics"@, JsonV::Array(out)));
    assert forall|i: int| 0 <= i < last implies (#[trigger] es[i]).0 != "diagnostics"@ by {
        if i >= 2 {
            assert(es[i] == ve[i - 2]);
        }
    }
    crate::json::lemma_find_key_first(es, "diagnostics"@);
    assert(cs[k].get_array("diagnostics"@) == Some(out));
    assert forall|i: int| 0 <= i < out.len() implies (#[trigger] read_diag(out[i]) matches Some(cd)
        && keeps_diagnostic(cd, ds[i])) by {
        let x = ds[i];
        let d = compact_of_raw(x);
        crate::compact::lemma_range_of_fits(x);
        assert(all_len4(d.r) && all_fit(d.r)) by {
            assert(d.r == seq![range_of(x)]);
            assert forall|a: int, b: int| 0 <= a < d.r.len() && 0 <= b < 4 implies fits_i64(
                #[trigger] d.r[a][b],
            ) by {
                assert(d.r[a] == range_of(x));
            }
        }
        crate::compact::lemma_read_entry(d);
        let cd = read_back(d);
        match x.get_u64("severity"@) {
            Some(n) => {
                if 1 <= n <= 4 {
                    assert(spec_from_lsp(n) is Some);
                    crate::compact::lemma_severity_roundtrip(spec_from_lsp(n).unwrap(), n);
                }
            },
            None => {},
        }
        assert(keeps_diagnostic(cd, x));
    }
}

} // verus!
