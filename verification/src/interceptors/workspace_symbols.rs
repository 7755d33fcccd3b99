//! Compression of `workspace/symbol` responses.
//!
//! Each distinct location URI is written once in a pool; each symbol keeps
//! its name (`n`), kind as one character (`k`), container name (`c`) and
//! location (`l`: the URI's pool index `u` and the compact range `r`).
use vstd::prelude::*;

use crate::error::{protocol, LspzError};
use crate::interceptors::hover::{compact_range, compress_range};
use crate::interceptors::symbols::{kind_entry, symbol_kind_char, encode_symbol_kind};
use crate::interceptors::Direction;
use crate::json::{
    entries_view, first_index, jarray, jchar, jint, jobject, jstr, juint,
    lemma_first_index_contains, opt_entry, position_of, push_entry, push_opt_entry, seq_view,
    strings_view, Json, JsonV,
};
use crate::text::{contains_char, decimal, push_str, push_u64, str_eq};
use crate::toon::{
    compact_range_text, escape_csv, format_compact_range, spec_escape_csv, symbol_kind_from_char,
    symbol_kind_word,
};

verus! {

/// The symbols of a response: the elements of an array, none otherwise.
pub open spec fn ws_items_of(p: JsonV) -> Seq<JsonV> {
    match p {
        JsonV::Array(a) => a,
        _ => Seq::empty(),
    }
}

/// The URI of a symbol's location.
pub open spec fn location_uri(item: JsonV) -> Option<Seq<char>> {
    match item.get("location"@) {
        Some(l) => l.get_str("uri"@),
        None => None,
    }
}

/// The distinct location URIs of the first `n` symbols, in the order they
/// first occur.
pub open spec fn ws_pool_upto(items: Seq<JsonV>, n: int) -> Seq<Seq<char>>
    decreases n,
{
    if n <= 0 {
        Seq::empty()
    } else {
        let p = ws_pool_upto(items, n - 1);
        match location_uri(items[n - 1]) {
            Some(u) => if p.contains(u) {
                p
            } else {
                p.push(u)
            },
            None => p,
        }
    }
}

/// The URI pool of some symbols.
pub open spec fn ws_pool(items: Seq<JsonV>) -> Seq<Seq<char>> {
    ws_pool_upto(items, items.len() as int)
}

/// The pool of the first `n` symbols holds no URI twice, and holds the
/// location URI of each of those symbols.
proof fn lemma_ws_pool_upto(items: Seq<JsonV>, n: int)
    requires
        0 <= n <= items.len(),
    ensures
        forall|i: int, j: int|
            0 <= i < j < ws_pool_upto(items, n).len() ==> ws_pool_upto(items, n)[i] != ws_pool_upto(
                items,
                n,
            )[j],
        forall|k: int|
            0 <= k < n && (#[trigger] location_uri(items[k])) is Some ==> ws_pool_upto(items, n).contains(
                location_uri(items[k]).unwrap(),
            ),
    decreases n,
{
    if n > 0 {
        lemma_ws_pool_upto(items, n - 1);
        let p = ws_pool_upto(items, n - 1);
        match location_uri(items[n - 1]) {
            Some(u) => {
                if !p.contains(u) {
                    let q = p.push(u);
                    assert forall|k: int| 0 <= k < n && (#[trigger] location_uri(items[k])) is Some implies q.contains(
                        location_uri(items[k]).unwrap(),
                    ) by {
                        if k < n - 1 {
                            let v = location_uri(items[k]).unwrap();
                            let w = choose|w: int| 0 <= w < p.len() && p[w] == v;
                            assert(q[w] == v);
                        } else {
                            assert(q[p.len() as int] == u);
                        }
                    }
                } else {
                    assert(ws_pool_upto(items, n) == p);
                }
            },
            None => {
                assert(ws_pool_upto(items, n) == p);
            },
        }
    }
}

/// The URI pool of workspace symbols holds each URI once, and the index
/// written for a symbol's location leads back to its URI.
pub proof fn lemma_ws_pool_resolves(items: Seq<JsonV>)
    ensures
        forall|i: int, j: int| 0 <= i < j < ws_pool(items).len() ==> ws_pool(items)[i] != ws_pool(items)[j],
        forall|k: int|
            0 <= k < items.len() && (#[trigger] location_uri(items[k])) is Some ==> {
                let u = location_uri(items[k]).unwrap();
                &&& first_index(ws_pool(items), u) is Some
                &&& 0 <= first_index(ws_pool(items), u).unwrap() < ws_pool(items).len()
                &&& ws_pool(items)[first_index(ws_pool(items), u).unwrap()] == u
            },
{
    lemma_ws_pool_upto(items, items.len() as int);
    let pool = ws_pool(items);
    assert forall|k: int| 0 <= k < items.len() && (#[trigger] location_uri(items[k])) is Some implies {
        let u = location_uri(items[k]).unwrap();
        &&& first_index(pool, u) is Some
        &&& 0 <= first_index(pool, u).unwrap() < pool.len()
        &&& pool[first_index(pool, u).unwrap()] == u
    } by {
        let u = location_uri(items[k]).unwrap();
        lemma_first_index_contains(pool, u);
        crate::interceptors::locations::lemma_first_index_found(pool, u);
    }
}

/// The compact location of a symbol: `{u, r}`.
pub open spec fn compact_ws_location(l: JsonV, pool: Seq<Seq<char>>) -> JsonV {
    JsonV::Object(
        opt_entry(
            "u"@,
            match l.get_str("uri"@) {
                Some(u) => Some(
                    JsonV::Int(
                        match first_index(pool, u) {
                            Some(i) => i,
                            None => 0,
                        },
                    ),
                ),
                None => None,
            },
        ) + opt_entry(
            "r"@,
            match l.get("range"@) {
                Some(r) => Some(compact_range(r)),
                None => None,
            },
        ),
    )
}

/// The compact form of one symbol: `{n, k, c, l}`; anything that is not an
/// object stays.
pub open spec fn compact_ws_symbol(item: JsonV, pool: Seq<Seq<char>>) -> JsonV {
    match item {
        JsonV::Object(_) => JsonV::Object(
            opt_entry("n"@, item.get("name"@)) + kind_entry(item) + opt_entry(
                "c"@,
                item.get("containerName"@),
            ) + match item.get("location"@) {
                Some(l) => if l is Object {
                    seq![("l"@, compact_ws_location(l, pool))]
                } else {
                    Seq::empty()
                },
                None => Seq::empty(),
            },
        ),
        _ => item,
    }
}

/// The compact form of a workspace symbol response: `{version: 1, uris, items}`.
pub open spec fn spec_compress_workspace_symbols(p: JsonV) -> JsonV {
    let items = ws_items_of(p);
    let pool = ws_pool(items);
    JsonV::Object(
        seq![
            ("version"@, JsonV::Int(1)),
            ("uris"@, JsonV::Array(Seq::new(pool.len(), |i: int| JsonV::Str(pool[i])))),
            ("items"@, JsonV::Array(Seq::new(items.len(), |i: int| compact_ws_symbol(items[i], pool)))),
        ],
    )
}

/// The URI of a symbol's location.
fn symbol_location_uri(item: &Json) -> (r: Option<&str>)
    ensures
        match r {
            Some(u) => location_uri(item@) == Some(u@),
            None => location_uri(item@) is None,
        },
{
    match item.get("location") {
        Some(l) => l.get_str("uri"),
        None => None,
    }
}

/// The distinct location URIs of the symbols.
pub fn build_ws_uri_pool(items: &[Json]) -> (r: Vec<String>)
    ensures
        strings_view(r@) == ws_pool(seq_view(items@)),
{
    let ghost sv = seq_view(items@);
    let mut pool: Vec<String> = Vec::new();
    let mut i: usize = 0;
    while i < items.len()
        invariant
            0 <= i <= items@.len(),
            sv == seq_view(items@),
            strings_view(pool@) == ws_pool_upto(sv, i as int),
        decreases items.len() - i,
    {
        match symbol_location_uri(&items[i]) {
            Some(u) => {
                let found = position_of(&pool, u);
                proof {
                    lemma_first_index_contains(strings_view(pool@), u@);
                }
                if found.is_none() {
                    let ghost before = strings_view(pool@);
                    pool.push(u.to_owned());
                    proof {
                        assert(strings_view(pool@) =~= before.push(u@));
                    }
                }
            },
            None => {},
        }
        i = i + 1;
    }
    pool
}

/// Compresses one symbol.
pub fn compress_ws_symbol(item: &Json, pool: &Vec<String>) -> (r: Json)
    ensures
        r@ == compact_ws_symbol(item@, strings_view(pool@)),
{
    match item {
        Json::Object(_) => {
            let mut out: Vec<(String, Json)> = Vec::new();
            push_opt_entry(&mut out, "n", item.get_cloned("name"));
            let k = match item.get_u64("kind") {
                Some(k) => match encode_symbol_kind(k) {
                    Some(c) => Some(jchar(c)),
                    None => None,
                },
                None => None,
            };
            push_opt_entry(&mut out, "k", k);
            push_opt_entry(&mut out, "c", item.get_cloned("containerName"));
            let ghost before_l = entries_view(out@);
            let ghost mut lpart: Seq<(Seq<char>, JsonV)> = Seq::empty();
            match item.get("location") {
                Some(l) => match l {
                    Json::Object(_) => {
                        let mut lo: Vec<(String, Json)> = Vec::new();
                        let u = match l.get_str("uri") {
                            Some(u) => match position_of(pool, u) {
                                Some(idx) => Some(juint(idx as u64)),
                                None => Some(jint(0)),
                            },
                            None => None,
                        };
                        push_opt_entry(&mut lo, "u", u);
                        let r = match l.get("range") {
                            Some(x) => Some(compress_range(x)),
                            None => None,
                        };
                        push_opt_entry(&mut lo, "r", r);
                        let lj = jobject(lo);
                        proof {
                            assert(lj@ =~= compact_ws_location(l@, strings_view(pool@)));
                        }
                        push_entry(&mut out, "l", lj);
                        proof {
                            lpart = seq![("l"@, compact_ws_location(l@, strings_view(pool@)))];
                        }
                    },
                    _ => {},
                },
                None => {},
            }
            proof {
                assert(entries_view(out@) =~= before_l + lpart);
                let pv = strings_view(pool@);
                let expected = match item@.get("location"@) {
                    Some(l) => if l is Object {
                        seq![("l"@, compact_ws_location(l, pv))]
                    } else {
                        Seq::empty()
                    },
                    None => Seq::empty(),
                };
                assert(lpart == expected);
                assert(before_l == opt_entry("n"@, item@.get("name"@)) + kind_entry(item@) + opt_entry(
                    "c"@,
                    item@.get("containerName"@),
                ));
            }
            let r = jobject(out);
            proof {
                assert(r@ =~= compact_ws_symbol(item@, strings_view(pool@)));
            }
            r
        },
        _ => item.deep_clone(),
    }
}

/// Compresses a workspace symbol response into `{version: 1, uris, items}`.
pub fn compress_workspace_symbols(params: &Json) -> (r: Json)
    ensures
        r@ == spec_compress_workspace_symbols(params@),
{
    let empty: Vec<Json> = Vec::new();
    let items: &Vec<Json> = match params {
        Json::Array(a) => a,
        _ => &empty,
    };
    let ghost iv = seq_view(items@);
    proof {
        match params {
            Json::Array(a) => {
                crate::json::lemma_array_view(*a);
            },
            _ => {
                assert(iv =~= Seq::<JsonV>::empty());
            },
        }
        assert(iv == ws_items_of(params@));
    }
    let pool = build_ws_uri_pool(items.as_slice());
    let ghost pv = strings_view(pool@);
    let mut compressed: Vec<Json> = Vec::new();
    let mut i: usize = 0;
    while i < items.len()
        invariant
            0 <= i <= items@.len(),
            iv == seq_view(items@),
            pv == strings_view(pool@),
            compressed@.len() == i,
            forall|k: int| 0 <= k < i ==> #[trigger] compressed@[k]@ == compact_ws_symbol(iv[k], pv),
        decreases items.len() - i,
    {
        compressed.push(compress_ws_symbol(&items[i], &pool));
        i = i + 1;
    }
    let mut uris: Vec<Json> = Vec::new();
    let mut k: usize = 0;
    while k < pool.len()
        invariant
            0 <= k <= pool@.len(),
            pv == strings_view(pool@),
            uris@.len() == k,
            forall|m: int| 0 <= m < k ==> #[trigger] uris@[m]@ == JsonV::Str(pv[m]),
        decreases pool.len() - k,
    {
        uris.push(jstr(pool[k].as_str()));
        k = k + 1;
    }
    let mut result: Vec<(String, Json)> = Vec::new();
    push_entry(&mut result, "version", jint(1));
    let uris_json = jarray(uris);
    push_entry(&mut result, "uris", uris_json);
    let items_json = jarray(compressed);
    push_entry(&mut result, "items", items_json);
    let r = jobject(result);
    proof {
        assert(seq_view(uris@) =~= Seq::new(pv.len(), |i: int| JsonV::Str(pv[i])));
        assert(seq_view(compressed@) =~= Seq::new(iv.len(), |i: int| compact_ws_symbol(iv[i], pv)));
        assert(entries_view(result@) =~= seq![
            ("version"@, JsonV::Int(1)),
            ("uris"@, JsonV::Array(Seq::new(pv.len(), |i: int| JsonV::Str(pv[i])))),
            ("items"@, JsonV::Array(Seq::new(iv.len(), |i: int| compact_ws_symbol(iv[i], pv)))),
        ]);
    }
    r
}

/// Compresses `workspace/symbol` responses.
pub struct WorkspaceSymbolCompressor;

impl Default for WorkspaceSymbolCompressor {
    fn default() -> (r: WorkspaceSymbolCompressor) {
        WorkspaceSymbolCompressor
    }
}

impl WorkspaceSymbolCompressor {
    /// The name under which the compressor is logged.
    pub fn name(&self) -> (r: &'static str)
        ensures
            r@ == "workspace_symbol_compressor"@,
    {
        "workspace_symbol_compressor"
    }

    /// Whether the compressor rewrites a message: workspace symbol responses
    /// from the server.
    pub fn applies_to(&self, method: &str, direction: Direction) -> (r: bool)
        ensures
            r == (method@ == "workspace/symbol"@ && direction == Direction::ServerToClient),
    {
        str_eq(method, "workspace/symbol") && direction == Direction::ServerToClient
    }

    /// Compresses a workspace symbol response (see
    /// [`compress_workspace_symbols`]).
    pub fn intercept(&self, method: &str, params: Json, direction: Direction) -> (r: Result<
        Option<Json>,
        LspzError,
    >)
        ensures
            r matches Ok(Some(j)) && j@ == spec_compress_workspace_symbols(params@),
    {
        Ok(Some(compress_workspace_symbols(&params)))
    }
}

// ─── TOON ──────────────────────────────────────────────────────────────────

/// The lines of the URI pool: each string URI indented on its own line.
pub open spec fn uri_lines(uris: Seq<JsonV>) -> Seq<char>
    decreases uris.len(),
{
    if uris.len() == 0 {
        Seq::empty()
    } else {
        uri_lines(uris.drop_last()) + match uris.last().as_str() {
            Some(u) => "  "@ + u + "\n"@,
            None => Seq::empty(),
        }
    }
}

/// The URI index of a compact symbol (0 when absent).
pub open spec fn symbol_uri_index(item: JsonV) -> int {
    match item.get("l"@) {
        Some(l) => match l.get_u64("u"@) {
            Some(n) => n,
            None => 0,
        },
        None => 0,
    }
}

/// The range text of a compact symbol (empty when absent).
pub open spec fn symbol_range_text(item: JsonV) -> Seq<char> {
    match item.get("l"@) {
        Some(l) => match l.get("r"@) {
            Some(r) => compact_range_text(r),
            None => Seq::empty(),
        },
        None => Seq::empty(),
    }
}

/// A text field, empty when absent.
pub open spec fn text_field(v: JsonV, key: Seq<char>) -> Seq<char> {
    match v.get_str(key) {
        Some(s) => s,
        None => Seq::empty(),
    }
}

/// One row of the symbols table.
pub open spec fn ws_symbol_row(item: JsonV) -> Seq<char> {
    let name = text_field(item, "n"@);
    let name_col = if name.contains(',') {
        spec_escape_csv(name)
    } else {
        name
    };
    let kind = match item.get_str("k"@) {
        Some(k) => symbol_kind_word(k),
        None => "unknown"@,
    };
    "  "@ + name_col + ","@ + kind + ","@ + decimal(symbol_uri_index(item) as nat) + ","@
        + symbol_range_text(item) + ","@ + text_field(item, "c"@) + "\n"@
}

/// The rows of the symbols table.
pub open spec fn ws_symbol_rows(items: Seq<JsonV>) -> Seq<char>
    decreases items.len(),
{
    if items.len() == 0 {
        Seq::empty()
    } else {
        ws_symbol_rows(items.drop_last()) + ws_symbol_row(items.last())
    }
}

/// The TOON text of a compact workspace symbol response: the URI pool, then
/// one row per symbol with its name, kind, URI index, range and container.
pub open spec fn spec_workspace_symbols_toon(uris: Seq<JsonV>, items: Seq<JsonV>) -> Seq<char> {
    "uris["@ + decimal(uris.len()) + "]:\n"@ + uri_lines(uris) + "symbols["@ + decimal(items.len())
        + "]{name,kind,uri,range,container}:\n"@ + ws_symbol_rows(items)
}

/// A text field, empty when absent.
fn text_field_exec<'a>(v: &'a Json, key: &str) -> (r: &'a str)
    ensures
        r@ == text_field(v@, key@),
{
    match v.get_str(key) {
        Some(s) => s,
        None => {
            proof {
                reveal_strlit("");
            }
            ""
        },
    }
}

/// The name column of a symbol row.
pub open spec fn name_column(item: JsonV) -> Seq<char> {
    let name = text_field(item, "n"@);
    if name.contains(',') {
        spec_escape_csv(name)
    } else {
        name
    }
}

/// The kind word of a symbol row.
pub open spec fn kind_column(item: JsonV) -> Seq<char> {
    match item.get_str("k"@) {
        Some(k) => symbol_kind_word(k),
        None => "unknown"@,
    }
}

fn name_column_exec(item: &Json) -> (r: String)
    ensures
        r@ == name_column(item@),
{
    let name = text_field_exec(item, "n");
    if contains_char(name, ',') {
        escape_csv(name)
    } else {
        name.to_owned()
    }
}

fn kind_column_exec(item: &Json) -> (r: &'static str)
    ensures
        r@ == kind_column(item@),
{
    match item.get_str("k") {
        Some(k) => symbol_kind_from_char(k),
        None => "unknown",
    }
}

fn uri_index_exec(item: &Json) -> (r: u64)
    ensures
        r as int == symbol_uri_index(item@),
{
    match item.get("l") {
        Some(l) => match l.get_u64("u") {
            Some(n) => n,
            None => 0,
        },
        None => 0,
    }
}

fn range_column_exec(item: &Json) -> (r: String)
    ensures
        r@ == symbol_range_text(item@),
{
    match item.get("l") {
        Some(l) => match l.get("r") {
            Some(r) => format_compact_range(r),
            None => String::new(),
        },
        None => String::new(),
    }
}

/// Appends one row of the symbols table.
fn push_ws_symbol_row(out: &mut String, item: &Json)
    ensures
        final(out)@ == old(out)@ + ws_symbol_row(item@),
{
    let name_col = name_column_exec(item);
    let kind = kind_column_exec(item);
    let idx = uri_index_exec(item);
    let range = range_column_exec(item);
    let container = text_field_exec(item, "c");
    push_str(out, "  ");
    push_str(out, name_col.as_str());
    push_str(out, ",");
    push_str(out, kind);
    push_str(out, ",");
    push_u64(out, idx);
    push_str(out, ",");
    push_str(out, range.as_str());
    push_str(out, ",");
    push_str(out, container);
    push_str(out, "\n");
    proof {
        assert(ws_symbol_row(item@) == "  "@ + name_column(item@) + ","@ + kind_column(item@) + ","@
            + decimal(symbol_uri_index(item@) as nat) + ","@ + symbol_range_text(item@) + ","@
            + text_field(item@, "c"@) + "\n"@);
        assert(out@ =~= old(out)@ + ws_symbol_row(item@));
    }
}

/// Writes a compact workspace symbol response as TOON; a protocol error when
/// it has no `uris` or no `items` array.
pub fn workspace_symbols_to_toon(value: &Json) -> (r: Result<String, LspzError>)
    ensures
        match (value@.get_array("uris"@), value@.get_array("items"@)) {
            (Some(uris), Some(items)) => r matches Ok(s) && s@ == spec_workspace_symbols_toon(uris, items),
            (None, _) => r matches Err(LspzError::Protocol(m)) && m@ == "missing 'uris' array"@,
            (Some(_), None) => r matches Err(LspzError::Protocol(m)) && m@ == "missing 'items' array"@,
        },
{
    let uris = match value.get_array("uris") {
        Some(a) => a,
        None => return Err(protocol("missing 'uris' array")),
    };
    let items = match value.get_array("items") {
        Some(a) => a,
        None => return Err(protocol("missing 'items' array")),
    };
    let ghost uv = seq_view(uris@);
    let ghost iv = seq_view(items@);
    let mut out = String::new();
    push_str(&mut out, "uris[");
    push_u64(&mut out, uris.len() as u64);
    push_str(&mut out, "]:\n");
    let ghost head = out@;
    let mut i: usize = 0;
    while i < uris.len()
        invariant
            0 <= i <= uris@.len(),
            uv == seq_view(uris@),
            out@ == head + uri_lines(uv.take(i as int)),
        decreases uris.len() - i,
    {
        proof {
            assert(uv.take(i + 1).drop_last() =~= uv.take(i as int));
            assert(uv[i as int] == uris@[i as int]@);
        }
        match uris[i].as_str() {
            Some(u) => {
                push_str(&mut out, "  ");
                push_str(&mut out, u);
                push_str(&mut out, "\n");
            },
            None => {},
        }
        i = i + 1;
        assert(out@ =~= head + uri_lines(uv.take(i as int)));
    }
    proof {
        assert(uv.take(i as int) =~= uv);
    }
    push_str(&mut out, "symbols[");
    push_u64(&mut out, items.len() as u64);
    push_str(&mut out, "]{name,kind,uri,range,container}:\n");
    let ghost head2 = out@;
    let mut j: usize = 0;
    while j < items.len()
        invariant
            0 <= j <= items@.len(),
            iv == seq_view(items@),
            out@ == head2 + ws_symbol_rows(iv.take(j as int)),
        decreases items.len() - j,
    {
        push_ws_symbol_row(&mut out, &items[j]);
        proof {
            assert(iv.take(j + 1).drop_last() =~= iv.take(j as int));
            assert(iv[j as int] == items@[j as int]@);
        }
        j = j + 1;
        assert(out@ =~= head2 + ws_symbol_rows(iv.take(j as int)));
    }
    proof {
        assert(iv.take(j as int) =~= iv);
        assert(out@ =~= spec_workspace_symbols_toon(uv, iv));
    }
    Ok(out)
}

} // verus!
