//! Compression of `textDocument/documentSymbol` responses.
//!
//! Fields get short names (`name`→`n`, `kind`→`k`, `range`→`r`,
//! `detail`→`d`, `children`→`c`, `location`→`l`, `containerName`→`cn`), the
//! symbol kind becomes one character, and `deprecated`, `tags` and
//! `selectionRange` are dropped. Hierarchical `DocumentSymbol` trees are
//! compressed recursively; flat `SymbolInformation` entries keep their
//! location.
use vstd::prelude::*;

use crate::error::{protocol, LspzError};
use crate::interceptors::hover::{compact_range, compress_range};
use crate::interceptors::Direction;
use crate::json::{
    entries_view, find_key, jarray, jchar, jint, jobject, opt_entry, push_entry, push_opt_entry, seq_view,
    Json, JsonV,
};
use crate::text::str_eq;

verus! {

/// The one-character code of an LSP `SymbolKind` (1–26).
pub open spec fn symbol_kind_char(kind: int) -> Option<char> {
    if kind == 1 {
        Some('F')
    } else if kind == 2 {
        Some('M')
    } else if kind == 3 {
        Some('N')
    } else if kind == 4 {
        Some('P')
    } else if kind == 5 {
        Some('s')
    } else if kind == 6 {
        Some('m')
    } else if kind == 7 {
        Some('p')
    } else if kind == 8 {
        Some('f')
    } else if kind == 9 {
        Some('c')
    } else if kind == 10 {
        Some('E')
    } else if kind == 11 {
        Some('I')
    } else if kind == 12 {
        Some('u')
    } else if kind == 13 {
        Some('V')
    } else if kind == 14 {
        Some('C')
    } else if kind == 15 {
        Some('S')
    } else if kind == 16 {
        Some('b')
    } else if kind == 17 {
        Some('B')
    } else if kind == 18 {
        Some('A')
    } else if kind == 19 {
        Some('O')
    } else if kind == 20 {
        Some('K')
    } else if kind == 21 {
        Some('Z')
    } else if kind == 22 {
        Some('e')
    } else if kind == 23 {
        Some('t')
    } else if kind == 24 {
        Some('v')
    } else if kind == 25 {
        Some('r')
    } else if kind == 26 {
        Some('T')
    } else {
        None
    }
}

/// The one-character code of an LSP `SymbolKind`, if it is one.
pub fn encode_symbol_kind(kind: u64) -> (r: Option<char>)
    ensures
        r == symbol_kind_char(kind as int),
{
    if kind == 1 {
        Some('F')
    } else if kind == 2 {
        Some('M')
    } else if kind == 3 {
        Some('N')
    } else if kind == 4 {
        Some('P')
    } else if kind == 5 {
        Some('s')
    } else if kind == 6 {
        Some('m')
    } else if kind == 7 {
        Some('p')
    } else if kind == 8 {
        Some('f')
    } else if kind == 9 {
        Some('c')
    } else if kind == 10 {
        Some('E')
    } else if kind == 11 {
        Some('I')
    } else if kind == 12 {
        Some('u')
    } else if kind == 13 {
        Some('V')
    } else if kind == 14 {
        Some('C')
    } else if kind == 15 {
        Some('S')
    } else if kind == 16 {
        Some('b')
    } else if kind == 17 {
        Some('B')
    } else if kind == 18 {
        Some('A')
    } else if kind == 19 {
        Some('O')
    } else if kind == 20 {
        Some('K')
    } else if kind == 21 {
        Some('Z')
    } else if kind == 22 {
        Some('e')
    } else if kind == 23 {
        Some('t')
    } else if kind == 24 {
        Some('v')
    } else if kind == 25 {
        Some('r')
    } else if kind == 26 {
        Some('T')
    } else {
        None
    }
}

/// The `k` entry of a symbol: its kind as one character.
pub open spec fn kind_entry(item: JsonV) -> Seq<(Seq<char>, JsonV)> {
    opt_entry(
        "k"@,
        match item.get_u64("kind"@) {
            Some(k) => match symbol_kind_char(k) {
                Some(c) => Some(JsonV::Str(seq![c])),
                None => None,
            },
            None => None,
        },
    )
}

/// The compact form of a `DocumentSymbol`: `{n, k, r, d, c}`, children
/// compressed the same way; anything that is not an object stays.
pub open spec fn compact_document_symbol(v: JsonV) -> JsonV
    decreases v,
{
    match v {
        JsonV::Object(entries) => JsonV::Object(
            opt_entry("n"@, v.get("name"@)) + kind_entry(v) + opt_entry(
                "r"@,
                match v.get("range"@) {
                    Some(r) => Some(compact_range(r)),
                    None => None,
                },
            ) + opt_entry("d"@, v.get("detail"@)) + children_entry_of(entries),
        ),
        _ => v,
    }
}

/// The `c` entry of a `DocumentSymbol` with entries `es`: its children,
/// compressed, when they form an array.
pub open spec fn children_entry_of(es: Seq<(Seq<char>, JsonV)>) -> Seq<(Seq<char>, JsonV)>
    decreases es,
{
    opt_entry(
        "c"@,
        match find_key(es, "children"@) {
            Some(j) => if 0 <= j < es.len() {
                match es[j].1 {
                    JsonV::Array(cs) => Some(
                        JsonV::Array(
                            Seq::new(
                                cs.len(),
                                |i: int|
                                    if 0 <= i < cs.len() {
                                        compact_document_symbol(cs[i])
                                    } else {
                                        JsonV::Null
                                    },
                            ),
                        ),
                    ),
                    _ => None,
                }
            } else {
                None
            },
            None => None,
        },
    )
}

/// The compact form of a symbol's `location`: `{uri, range}` as `{u, r}`;
/// anything else stays.
pub open spec fn compact_symbol_location(l: JsonV) -> JsonV {
    match l {
        JsonV::Object(_) => JsonV::Object(
            opt_entry("u"@, l.get("uri"@)) + opt_entry(
                "r"@,
                match l.get("range"@) {
                    Some(r) => Some(compact_range(r)),
                    None => None,
                },
            ),
        ),
        _ => l,
    }
}

/// The compact form of a `SymbolInformation`: `{n, k, l, cn}`.
pub open spec fn compact_symbol_information(v: JsonV) -> JsonV {
    JsonV::Object(
        opt_entry("n"@, v.get("name"@)) + kind_entry(v) + opt_entry(
            "l"@,
            match v.get("location"@) {
                Some(l) => Some(compact_symbol_location(l)),
                None => None,
            },
        ) + opt_entry("cn"@, v.get("containerName"@)),
    )
}

/// The compact form of one symbol: a `DocumentSymbol` when it has `range`
/// or `selectionRange`, a `SymbolInformation` when it has `location`;
/// anything else stays.
pub open spec fn compact_symbol(v: JsonV) -> JsonV {
    match v {
        JsonV::Object(_) => if v.has_key("range"@) || v.has_key("selectionRange"@) {
            compact_document_symbol(v)
        } else if v.has_key("location"@) {
            compact_symbol_information(v)
        } else {
            v
        },
        _ => v,
    }
}

/// The compact form of a document symbol response, when it is an array:
/// `{version: 1, items}`.
pub open spec fn spec_compress_symbols(p: JsonV) -> Option<JsonV> {
    match p {
        JsonV::Array(items) => Some(
            JsonV::Object(
                seq![
                    ("version"@, JsonV::Int(1)),
                    ("items"@, JsonV::Array(Seq::new(items.len(), |i: int| compact_symbol(items[i])))),
                ],
            ),
        ),
        _ => None,
    }
}

/// The `k` entry of a symbol.
fn push_kind_entry(out: &mut Vec<(String, Json)>, item: &Json)
    ensures
        entries_view(final(out)@) == entries_view(old(out)@) + kind_entry(item@),
{
    let k = match item.get_u64("kind") {
        Some(k) => match encode_symbol_kind(k) {
            Some(c) => Some(jchar(c)),
            None => None,
        },
        None => None,
    };
    push_opt_entry(out, "k", k);
}

/// Compresses a `DocumentSymbol` and its children.
pub fn compress_document_symbol(value: &Json) -> (r: Json)
    ensures
        r@ == compact_document_symbol(value@),
    decreases value,
{
    match value {
        Json::Object(entries) => {
            let ghost es = entries_view(entries@);
            proof {
                crate::json::lemma_object_view(*entries);
            }
            let mut out: Vec<(String, Json)> = Vec::new();
            push_opt_entry(&mut out, "n", value.get_cloned("name"));
            push_kind_entry(&mut out, value);
            let r = match value.get("range") {
                Some(x) => Some(compress_range(x)),
                None => None,
            };
            push_opt_entry(&mut out, "r", r);
            push_opt_entry(&mut out, "d", value.get_cloned("detail"));
            let ghost before_children = entries_view(out@);
            let ghost mut cpart: Seq<(Seq<char>, JsonV)> = Seq::empty();
            match value.key_index("children") {
                Some(j) => {
                    let ch = &entries[j].1;
                    proof {
                        assert(es[j as int].1 == ch@);
                        vstd::std_specs::vec::axiom_vec_index_decreases(*entries, j as int);
                        assert(decreases_to!(*value => value->Object_0));
                        assert(decreases_to!(*entries => entries[j as int]));
                        assert(decreases_to!(entries[j as int] => entries[j as int].1));
                    }
                    match ch {
                        Json::Array(cs) => {
                            let mut items: Vec<Json> = Vec::new();
                            let mut i: usize = 0;
                            while i < cs.len()
                                invariant
                                    0 <= i <= cs.len(),
                                    *ch == Json::Array(*cs),
                                    decreases_to!(*value => *ch),
                                    items@.len() == i,
                                    forall|k: int| 0 <= k < i ==> #[trigger] items@[k]@
                                        == compact_document_symbol(cs@[k]@),
                                decreases cs.len() - i,
                            {
                                proof {
                                    vstd::std_specs::vec::axiom_vec_index_decreases(*cs, i as int);
                                    assert(decreases_to!(*ch => ch->Array_0));
                                    assert(decreases_to!(*cs => cs[i as int]));
                                }
                                items.push(compress_document_symbol(&cs[i]));
                                i = i + 1;
                            }
                            proof {
                                crate::json::lemma_array_view(*cs);
                            }
                            let ghost cv = seq_view(cs@);
                            let ghost target = Seq::new(
                                cv.len(),
                                |k: int|
                                    if 0 <= k < cv.len() {
                                        compact_document_symbol(cv[k])
                                    } else {
                                        JsonV::Null
                                    },
                            );
                            proof {
                                assert(seq_view(items@) =~= target);
                            }
                            let arr = jarray(items);
                            push_entry(&mut out, "c", arr);
                            proof {
                                cpart = seq![("c"@, JsonV::Array(target))];
                                assert(ch@ == JsonV::Array(cv));
                                let ce = children_entry_of(es);
                                assert(ce.len() == 1);
                                assert(ce[0].1 is Array);
                                assert(ce[0].1->Array_0 =~= target);
                                assert(ce =~= cpart);
                            }
                        },
                        _ => {
                            proof {
                                assert(children_entry_of(es) =~= cpart);
                            }
                        },
                    }
                },
                None => {
                    proof {
                        assert(children_entry_of(es) =~= cpart);
                    }
                },
            }
            proof {
                assert(entries_view(out@) =~= before_children + cpart);
            }
            let r = jobject(out);
            proof {
                let cc = compact_document_symbol(value@);
                assert(value@ == JsonV::Object(es));
                let ce = children_entry_of(es);
                assert(cc->Object_0 =~= before_children + ce);
                assert(cc->Object_0 =~= entries_view(out@));
            }
            r
        },
        _ => value.deep_clone(),
    }
}

/// Compresses a symbol's location.
pub fn compress_symbol_location(location: &Json) -> (r: Json)
    ensures
        r@ == compact_symbol_location(location@),
{
    match location {
        Json::Object(_) => {
            let mut out: Vec<(String, Json)> = Vec::new();
            push_opt_entry(&mut out, "u", location.get_cloned("uri"));
            let r = match location.get("range") {
                Some(x) => Some(compress_range(x)),
                None => None,
            };
            push_opt_entry(&mut out, "r", r);
            let j = jobject(out);
            proof {
                assert(j@ =~= compact_symbol_location(location@));
            }
            j
        },
        _ => location.deep_clone(),
    }
}

/// Compresses a `SymbolInformation`.
pub fn compress_symbol_information(value: &Json) -> (r: Json)
    ensures
        r@ == compact_symbol_information(value@),
{
    let mut out: Vec<(String, Json)> = Vec::new();
    push_opt_entry(&mut out, "n", value.get_cloned("name"));
    push_kind_entry(&mut out, value);
    let l = match value.get("location") {
        Some(x) => Some(compress_symbol_location(x)),
        None => None,
    };
    push_opt_entry(&mut out, "l", l);
    push_opt_entry(&mut out, "cn", value.get_cloned("containerName"));
    let j = jobject(out);
    proof {
        assert(j@ =~= compact_symbol_information(value@));
    }
    j
}

/// Compresses one symbol of either form.
pub fn compress_symbol(value: &Json) -> (r: Json)
    ensures
        r@ == compact_symbol(value@),
{
    match value {
        Json::Object(_) => {
            if value.contains_key("range") || value.contains_key("selectionRange") {
                compress_document_symbol(value)
            } else if value.contains_key("location") {
                compress_symbol_information(value)
            } else {
                value.deep_clone()
            }
        },
        _ => value.deep_clone(),
    }
}

/// Compresses a document symbol response; a protocol error when it is not
/// an array.
pub fn compress_symbols(params: &Json) -> (r: Result<Json, LspzError>)
    ensures
        match spec_compress_symbols(params@) {
            Some(v) => r matches Ok(j) && j@ == v,
            None => r matches Err(LspzError::Protocol(m)) && m@ == "documentSymbol params not an array"@,
        },
{
    let arr = match params.as_array() {
        Some(a) => a,
        None => return Err(protocol("documentSymbol params not an array")),
    };
    let ghost av = seq_view(arr@);
    let mut items: Vec<Json> = Vec::new();
    let mut i: usize = 0;
    while i < arr.len()
        invariant
            0 <= i <= arr@.len(),
            av == seq_view(arr@),
            items@.len() == i,
            forall|k: int| 0 <= k < i ==> #[trigger] items@[k]@ == compact_symbol(av[k]),
        decreases arr.len() - i,
    {
        items.push(compress_symbol(&arr[i]));
        i = i + 1;
    }
    let mut result: Vec<(String, Json)> = Vec::new();
    push_entry(&mut result, "version", jint(1));
    let items_json = jarray(items);
    push_entry(&mut result, "items", items_json);
    let r = jobject(result);
    proof {
        assert(params@ == JsonV::Array(av));
        assert(seq_view(items@) =~= Seq::new(av.len(), |k: int| compact_symbol(av[k])));
        assert(entries_view(result@) =~= seq![
            ("version"@, JsonV::Int(1)),
            ("items"@, JsonV::Array(Seq::new(av.len(), |k: int| compact_symbol(av[k])))),
        ]);
    }
    Ok(r)
}

/// Compresses `textDocument/documentSymbol` responses.
pub struct DocumentSymbolCompressor;

impl Default for DocumentSymbolCompressor {
    fn default() -> (r: DocumentSymbolCompressor) {
        DocumentSymbolCompressor
    }
}

impl DocumentSymbolCompressor {
    /// The name under which the compressor is logged.
    pub fn name(&self) -> (r: &'static str)
        ensures
            r@ == "document_symbol_compressor"@,
    {
        "document_symbol_compressor"
    }

    /// Whether the compressor rewrites a message: document symbol responses
    /// from the server.
    pub fn applies_to(&self, method: &str, direction: Direction) -> (r: bool)
        ensures
            r == (method@ == "textDocument/documentSymbol"@ && direction == Direction::ServerToClient),
    {
        str_eq(method, "textDocument/documentSymbol") && direction == Direction::ServerToClient
    }

    /// Compresses a document symbol response (see [`compress_symbols`]).
    pub fn intercept(&self, method: &str, params: Json, direction: Direction) -> (r: Result<
        Option<Json>,
        LspzError,
    >)
        ensures
            match spec_compress_symbols(params@) {
                Some(v) => r matches Ok(Some(j)) && j@ == v,
                None => r matches Err(LspzError::Protocol(m)) && m@ == "documentSymbol params not an array"@,
            },
    {
        match compress_symbols(&params) {
            Ok(j) => Ok(Some(j)),
            Err(e) => Err(e),
        }
    }
}

} // verus!
