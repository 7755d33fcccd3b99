//! Compression of `Location` / `LocationLink` responses (references,
//! definition, implementation, type definition).
//!
//! The response becomes a list; each distinct URI is written once in a pool
//! and items refer to it by index; ranges get short names.
use vstd::prelude::*;

use crate::error::LspzError;
use crate::interceptors::hover::{compact_position, compact_range, compress_range};
use crate::interceptors::Direction;
use crate::json::{
    entries_view, first_index, jarray, jint, jobject, jstr, juint, lemma_first_index_contains,
    opt_entry, position_of, push_entry, push_opt_entry, seq_view, strings_view, Json, JsonV,
};
use crate::text::str_eq;

verus! {

/// The items of a response: none for `null`, the elements of an array, the
/// value itself for a `Location` or `LocationLink` object, none otherwise.
pub open spec fn items_of(p: JsonV) -> Seq<JsonV> {
    match p {
        JsonV::Array(a) => a,
        JsonV::Object(_) => if p.has_key("targetUri"@) || p.has_key("uri"@) {
            seq![p]
        } else {
            Seq::empty()
        },
        _ => Seq::empty(),
    }
}

/// The URI of an item: its `targetUri` when it has that key, else its `uri`,
/// when the value there is a string.
pub open spec fn uri_of(item: JsonV) -> Option<Seq<char>> {
    match item {
        JsonV::Object(_) => match item.get("targetUri"@) {
            Some(v) => v.as_str(),
            None => item.get_str("uri"@),
        },
        _ => None,
    }
}

/// The distinct URIs of the first `n` items, in the order they first occur.
pub open spec fn uri_pool_upto(items: Seq<JsonV>, n: int) -> Seq<Seq<char>>
    decreases n,
{
    if n <= 0 {
        Seq::empty()
    } else {
        let p = uri_pool_upto(items, n - 1);
        match uri_of(items[n - 1]) {
            Some(u) => if p.contains(u) {
                p
            } else {
                p.push(u)
            },
            None => p,
        }
    }
}

/// The URI pool of some items.
pub open spec fn uri_pool(items: Seq<JsonV>) -> Seq<Seq<char>> {
    uri_pool_upto(items, items.len() as int)
}

/// The pool index of a URI (0 when it is not there).
pub open spec fn pool_index(pool: Seq<Seq<char>>, u: Seq<char>) -> int {
    match first_index(pool, u) {
        Some(i) => i,
        None => 0,
    }
}

/// The `u` entry of an item whose URI is under `key`.
pub open spec fn uri_entry(item: JsonV, key: Seq<char>, pool: Seq<Seq<char>>) -> Seq<
    (Seq<char>, JsonV),
> {
    opt_entry(
        "u"@,
        match item.get_str(key) {
            Some(u) => Some(JsonV::Int(pool_index(pool, u))),
            None => None,
        },
    )
}

/// A range entry under `short` for the range under `key`.
pub open spec fn range_entry(item: JsonV, key: Seq<char>, short: Seq<char>) -> Seq<
    (Seq<char>, JsonV),
> {
    opt_entry(
        short,
        match item.get(key) {
            Some(r) => Some(compact_range(r)),
            None => None,
        },
    )
}

/// The compact form of one item: a `LocationLink` (it has `targetUri`) as
/// `{u, r, s, o}`, a `Location` (it has `uri`) as `{u, r}`; anything else stays.
pub open spec fn compact_location(item: JsonV, pool: Seq<Seq<char>>) -> JsonV {
    match item {
        JsonV::Object(_) => if item.has_key("targetUri"@) {
            JsonV::Object(
                uri_entry(item, "targetUri"@, pool) + range_entry(item, "targetRange"@, "r"@)
                    + range_entry(item, "targetSelectionRange"@, "s"@) + range_entry(
                    item,
                    "originSelectionRange"@,
                    "o"@,
                ),
            )
        } else if item.has_key("uri"@) {
            JsonV::Object(uri_entry(item, "uri"@, pool) + range_entry(item, "range"@, "r"@))
        } else {
            item
        },
        _ => item,
    }
}

/// The compact form of a location response: `{version: 1, uris, items}`.
pub open spec fn spec_compress_locations(p: JsonV) -> JsonV {
    let items = items_of(p);
    let pool = uri_pool(items);
    JsonV::Object(
        seq![
            ("version"@, JsonV::Int(1)),
            ("uris"@, JsonV::Array(Seq::new(pool.len(), |i: int| JsonV::Str(pool[i])))),
            ("items"@, JsonV::Array(Seq::new(items.len(), |i: int| compact_location(items[i], pool)))),
        ],
    )
}

/// What `first_index` finds is there.
pub(crate) proof fn lemma_first_index_found(p: Seq<Seq<char>>, d: Seq<char>)
    ensures
        first_index(p, d) matches Some(i) ==> 0 <= i < p.len() && p[i] == d,
    decreases p.len(),
{
    if p.len() > 0 {
        lemma_first_index_found(p.drop_last(), d);
    }
}

/// The pool of the first `n` items holds no URI twice, and holds the URI of
/// each of those items.
proof fn lemma_pool_upto(items: Seq<JsonV>, n: int)
    requires
        0 <= n <= items.len(),
    ensures
        forall|i: int, j: int|
            0 <= i < j < uri_pool_upto(items, n).len() ==> uri_pool_upto(items, n)[i]
                != uri_pool_upto(items, n)[j],
        forall|k: int|
            0 <= k < n && (#[trigger] uri_of(items[k])) is Some ==> uri_pool_upto(items, n).contains(
                uri_of(items[k]).unwrap(),
            ),
    decreases n,
{
    if n > 0 {
        lemma_pool_upto(items, n - 1);
        let p = uri_pool_upto(items, n - 1);
        match uri_of(items[n - 1]) {
            Some(u) => {
                if !p.contains(u) {
                    let q = p.push(u);
                    assert forall|k: int| 0 <= k < n && (#[trigger] uri_of(items[k])) is Some implies q.contains(
                        uri_of(items[k]).unwrap(),
                    ) by {
                        if k < n - 1 {
                            let v = uri_of(items[k]).unwrap();
                            let w = choose|w: int| 0 <= w < p.len() && p[w] == v;
                            assert(q[w] == v);
                        } else {
                            assert(q[p.len() as int] == u);
                        }
                    }
                } else {
                    assert(uri_pool_upto(items, n) == p);
                }
            },
            None => {
                assert(uri_pool_upto(items, n) == p);
            },
        }
    }
}

/// The URI pool holds each URI once, and the index written for an item
/// leads back to its URI.
pub proof fn lemma_uri_pool_resolves(items: Seq<JsonV>)
    ensures
        forall|i: int, j: int|
            0 <= i < j < uri_pool(items).len() ==> uri_pool(items)[i] != uri_pool(items)[j],
        forall|k: int|
            0 <= k < items.len() && (#[trigger] uri_of(items[k])) is Some ==> {
                let u = uri_of(items[k]).unwrap();
                &&& 0 <= pool_index(uri_pool(items), u) < uri_pool(items).len()
                &&& uri_pool(items)[pool_index(uri_pool(items), u)] == u
            },
{
    lemma_pool_upto(items, items.len() as int);
    let pool = uri_pool(items);
    assert forall|k: int| 0 <= k < items.len() && (#[trigger] uri_of(items[k])) is Some implies {
        let u = uri_of(items[k]).unwrap();
        &&& 0 <= pool_index(pool, u) < pool.len()
        &&& pool[pool_index(pool, u)] == u
    } by {
        let u = uri_of(items[k]).unwrap();
        lemma_first_index_contains(pool, u);
        lemma_first_index_found(pool, u);
    }
}

/// The items of a response, copied.
pub fn normalize_to_array(params: &Json) -> (r: Vec<Json>)
    ensures
        seq_view(r@) == items_of(params@),
{
    match params {
        Json::Array(a) => {
            let mut out: Vec<Json> = Vec::new();
            let mut i: usize = 0;
            while i < a.len()
                invariant
                    0 <= i <= a.len(),
                    out@.len() == i,
                    forall|k: int| 0 <= k < i ==> #[trigger] out@[k]@ == a@[k]@,
                decreases a.len() - i,
            {
                out.push(a[i].deep_clone());
                i = i + 1;
            }
            proof {
                crate::json::lemma_array_view(*a);
                assert(seq_view(out@) =~= seq_view(a@));
            }
            out
        },
        Json::Object(_) => {
            let mut out: Vec<Json> = Vec::new();
            if params.contains_key("targetUri") || params.contains_key("uri") {
                out.push(params.deep_clone());
                assert(seq_view(out@) =~= seq![params@]);
            } else {
                assert(seq_view(out@) =~= Seq::<JsonV>::empty());
            }
            out
        },
        _ => {
            let out: Vec<Json> = Vec::new();
            assert(seq_view(out@) =~= Seq::<JsonV>::empty());
            out
        },
    }
}

/// The URI of an item.
fn item_uri(item: &Json) -> (r: Option<&str>)
    ensures
        match r {
            Some(u) => uri_of(item@) == Some(u@),
            None => uri_of(item@) is None,
        },
{
    match item {
        Json::Object(_) => match item.get("targetUri") {
            Some(v) => v.as_str(),
            None => item.get_str("uri"),
        },
        _ => None,
    }
}

/// The distinct URIs of the items, in the order they first occur.
pub fn build_uri_pool(items: &[Json]) -> (r: Vec<String>)
    ensures
        strings_view(r@) == uri_pool(seq_view(items@)),
{
    let ghost sv = seq_view(items@);
    let mut pool: Vec<String> = Vec::new();
    let mut i: usize = 0;
    while i < items.len()
        invariant
            0 <= i <= items@.len(),
            sv == seq_view(items@),
            strings_view(pool@) == uri_pool_upto(sv, i as int),
        decreases items.len() - i,
    {
        match item_uri(&items[i]) {
            Some(u) => {
                let found = position_of(&pool, u);
                proof {
                    lemma_first_index_contains(strings_view(pool@), u@);
                }
                if found.is_none() {
                    let ghost before = strings_view(pool@);
                    pool.push(u.to_owned());
                    proof {
                        assert(strings_view(pool@) =~= before.push(u@));
                    }
                }
            },
            None => {},
        }
        i = i + 1;
    }
    pool
}

/// The `u` entry for the URI under `key`.
fn push_uri_entry(out: &mut Vec<(String, Json)>, item: &Json, key: &str, pool: &Vec<String>)
    ensures
        entries_view(final(out)@) == entries_view(old(out)@) + uri_entry(
            item@,
            key@,
            strings_view(pool@),
        ),
{
    let v = match item.get_str(key) {
        Some(u) => match position_of(pool, u) {
            Some(idx) => Some(juint(idx as u64)),
            None => Some(jint(0)),
        },
        None => None,
    };
    push_opt_entry(out, "u", v);
}

/// The range entry under `short` for the range under `key`.
fn push_range_entry(out: &mut Vec<(String, Json)>, item: &Json, key: &str, short: &str)
    ensures
        entries_view(final(out)@) == entries_view(old(out)@) + range_entry(item@, key@, short@),
{
    let v = match item.get(key) {
        Some(r) => Some(compress_range(r)),
        None => None,
    };
    push_opt_entry(out, short, v);
}

/// The compact form of one item.
pub fn compress_location_item(item: &Json, pool: &Vec<String>) -> (r: Json)
    ensures
        r@ == compact_location(item@, strings_view(pool@)),
{
    match item {
        Json::Object(_) => {
            if item.contains_key("targetUri") {
                let mut out: Vec<(String, Json)> = Vec::new();
                push_uri_entry(&mut out, item, "targetUri", pool);
                push_range_entry(&mut out, item, "targetRange", "r");
                push_range_entry(&mut out, item, "targetSelectionRange", "s");
                push_range_entry(&mut out, item, "originSelectionRange", "o");
                let r = jobject(out);
                proof {
                    assert(r@ =~= compact_location(item@, strings_view(pool@)));
                }
                r
            } else if item.contains_key("uri") {
                let mut out: Vec<(String, Json)> = Vec::new();
                push_uri_entry(&mut out, item, "uri", pool);
                push_range_entry(&mut out, item, "range", "r");
                let r = jobject(out);
                proof {
                    assert(r@ =~= compact_location(item@, strings_view(pool@)));
                }
                r
            } else {
                item.deep_clone()
            }
        },
        _ => item.deep_clone(),
    }
}

/// Compresses a location response into `{version: 1, uris, items}`.
pub fn compress_locations(params: &Json) -> (r: Json)
    ensures
        r@ == spec_compress_locations(params@),
{
    let items = normalize_to_array(params);
    let ghost iv = seq_view(items@);
    let pool = build_uri_pool(items.as_slice());
    let ghost pv = strings_view(pool@);
    let mut compressed: Vec<Json> = Vec::new();
    let mut i: usize = 0;
    while i < items.len()
        invariant
            0 <= i <= items@.len(),
            iv == seq_view(items@),
            iv == items_of(params@),
            pv == uri_pool(iv),
            pv == strings_view(pool@),
            compressed@.len() == i,
            forall|k: int| 0 <= k < i ==> #[trigger] compressed@[k]@ == compact_location(iv[k], pv),
        decreases items.len() - i,
    {
        compressed.push(compress_location_item(&items[i], &pool));
        i = i + 1;
    }
    let mut uris: Vec<Json> = Vec::new();
    let mut k: usize = 0;
    while k < pool.len()
        invariant
            0 <= k <= pool@.len(),
            pv == strings_view(pool@),
            iv == items_of(params@),
            pv == uri_pool(iv),
            uris@.len() == k,
            forall|m: int| 0 <= m < k ==> #[trigger] uris@[m]@ == JsonV::Str(pv[m]),
        decreases pool.len() - k,
    {
        uris.push(jstr(pool[k].as_str()));
        k = k + 1;
    }
    let mut result: Vec<(String, Json)> = Vec::new();
    push_entry(&mut result, "version", jint(1));
    let uris_json = jarray(uris);
    push_entry(&mut result, "uris", uris_json);
    let items_json = jarray(compressed);
    push_entry(&mut result, "items", items_json);
    let r = jobject(result);
    proof {
        assert(seq_view(uris@) =~= Seq::new(pv.len(), |i: int| JsonV::Str(pv[i])));
        assert(seq_view(compressed@) =~= Seq::new(iv.len(), |i: int| compact_location(iv[i], pv)));
        let ev = entries_view(result@);
        assert(ev.len() == 3);
        assert(ev[0] == ("version"@, JsonV::Int(1)));
        assert(ev[1] == ("uris"@, JsonV::Array(Seq::new(pv.len(), |i: int| JsonV::Str(pv[i])))));
        assert(ev[2] == ("items"@, JsonV::Array(Seq::new(iv.len(), |i: int| compact_location(iv[i], pv)))));
        assert(ev =~= seq![
            ("version"@, JsonV::Int(1)),
            ("uris"@, JsonV::Array(Seq::new(pv.len(), |i: int| JsonV::Str(pv[i])))),
            ("items"@, JsonV::Array(Seq::new(iv.len(), |i: int| compact_location(iv[i], pv)))),
        ]);
        assert(r@ == spec_compress_locations(params@));
    }
    r
}

/// Compresses `Location` / `LocationLink` responses.
pub struct LocationCompressor;

impl Default for LocationCompressor {
    fn default() -> (r: LocationCompressor) {
        LocationCompressor
    }
}

/// Whether a method returns locations: references, definition,
/// implementation or type definition.
pub open spec fn is_location_method(m: Seq<char>) -> bool {
    ||| m == "textDocument/references"@
    ||| m == "textDocument/definition"@
    ||| m == "textDocument/implementation"@
    ||| m == "textDocument/typeDefinition"@
}

impl LocationCompressor {
    /// The name under which the compressor is logged.
    pub fn name(&self) -> (r: &'static str)
        ensures
            r@ == "location_compressor"@,
    {
        "location_compressor"
    }

    /// Whether the compressor rewrites a message: location responses from
    /// the server.
    pub fn applies_to(&self, method: &str, direction: Direction) -> (r: bool)
        ensures
            r == (direction == Direction::ServerToClient && is_location_method(method@)),
    {
        direction == Direction::ServerToClient && (str_eq(method, "textDocument/references")
            || str_eq(method, "textDocument/definition") || str_eq(
            method,
            "textDocument/implementation",
        ) || str_eq(method, "textDocument/typeDefinition"))
    }

    /// Compresses a location response (see [`compress_locations`]).
    pub fn intercept(&self, method: &str, params: Json, direction: Direction) -> (r: Result<
        Option<Json>,
        LspzError,
    >)
        ensures
            r matches Ok(Some(j)) && j@ == spec_compress_locations(params@),
    {
        Ok(Some(compress_locations(&params)))
    }
}

/// Whether the compact form `c` of a position keeps its line and character.
pub open spec fn keeps_position(c: JsonV, pos: JsonV) -> bool {
    c.get("l"@) == pos.get("line"@) && c.get("c"@) == pos.get("character"@)
}

/// The keys of the compact location forms are distinct.
proof fn lemma_location_keys()
    ensures
        "u"@ != "r"@,
        "s"@ != "e"@,
        "l"@ != "c"@,
{
    reveal_strlit("u");
    reveal_strlit("r");
    reveal_strlit("s");
    reveal_strlit("e");
    reveal_strlit("l");
    reveal_strlit("c");
    assert("u"@[0] != "r"@[0]);
    assert("s"@[0] != "e"@[0]);
    assert("l"@[0] != "c"@[0]);
}

/// The compact form of a position object keeps its line and character.
proof fn lemma_compact_position_keeps(pos: JsonV)
    requires
        pos is Object,
    ensures
        keeps_position(compact_position(pos), pos),
{
    lemma_location_keys();
    let es = compact_position(pos)->Object_0;
    let le = opt_entry("l"@, pos.get("line"@));
    let ce = opt_entry("c"@, pos.get("character"@));
    assert(es =~= le + ce);
    crate::json::lemma_find_key_first(es, "l"@);
    crate::json::lemma_find_key_first(es, "c"@);
    if pos.get("line"@) is None {
        assert forall|i: int| 0 <= i < es.len() implies (#[trigger] es[i]).0 != "l"@ by {
            assert(es[i] == ce[i]);
        }
    }
    if pos.get("character"@) is None {
        assert forall|i: int| 0 <= i < es.len() implies (#[trigger] es[i]).0 != "c"@ by {
            assert(es[i] == le[i]);
        }
    } else {
        assert(es[le.len() as int].0 == "c"@);
    }
}

/// A compressed location response keeps each `Location` whole: for an item
/// that has a `uri` string and no `targetUri`, and whose `range` has `start`
/// and `end` objects, the compact item points at its URI in the URI pool and
/// has an `r` whose `s` and `e` keep the line and character of the range's
/// start and end, so the location can be rebuilt from the output.
pub proof fn lemma_location_kept(p: JsonV, k: int)
    requires
        0 <= k < items_of(p).len(),
        items_of(p)[k] is Object,
        !items_of(p)[k].has_key("targetUri"@),
        items_of(p)[k].get_str("uri"@) is Some,
        items_of(p)[k].get("range"@) matches Some(rg) && rg is Object && (rg.get("start"@) matches Some(
            st,
        ) && st is Object) && (rg.get("end"@) matches Some(en) && en is Object),
    ensures
        ({
            let out = spec_compress_locations(p);
            let item = items_of(p)[k];
            let rg = item.get("range"@).unwrap();
            &&& out.get_array("items"@) matches Some(cs)
            &&& out.get_array("uris"@) matches Some(us)
            &&& k < cs.len()
            &&& (cs[k].get("u"@) matches Some(JsonV::Int(i)) && 0 <= i < us.len() && us[i] == JsonV::Str(
                item.get_str("uri"@).unwrap(),
            ))
            &&& (cs[k].get("r"@) matches Some(r) && (r.get("s"@) matches Some(s) && keeps_position(
                s,
                rg.get("start"@).unwrap(),
            )) && (r.get("e"@) matches Some(e) && keeps_position(e, rg.get("end"@).unwrap())))
        }),
{
    lemma_location_keys();
    reveal_strlit("version");
    reveal_strlit("uris");
    reveal_strlit("items");
    assert("uris"@ != "version"@) by {
        assert("uris"@[0] != "version"@[0]);
    }
    assert("items"@ != "version"@) by {
        assert("items"@[0] != "version"@[0]);
    }
    assert("items"@ != "uris"@) by {
        assert("items"@[1] != "uris"@[1]);
    }
    let items = items_of(p);
    let pool = uri_pool(items);
    let out = spec_compress_locations(p);
    let oes = out->Object_0;
    crate::json::lemma_find_key_first(oes, "items"@);
    crate::json::lemma_find_key_first(oes, "uris"@);
    let cs = Seq::new(items.len(), |i: int| compact_location(items[i], pool));
    let us = Seq::new(pool.len(), |i: int| JsonV::Str(pool[i]));
    assert(out.get_array("items"@) == Some(cs));
    assert(out.get_array("uris"@) == Some(us));
    let item = items[k];
    let u = item.get_str("uri"@).unwrap();
    assert(uri_of(item) == Some(u));
    lemma_uri_pool_resolves(items);
    let idx = pool_index(pool, u);
    let c = cs[k];
    let rg = item.get("range"@).unwrap();
    let ue = uri_entry(item, "uri"@, pool);
    let re = range_entry(item, "range"@, "r"@);
    assert(c == JsonV::Object(ue + re));
    let ces = c->Object_0;
    assert(ue == seq![("u"@, JsonV::Int(idx))]);
    assert(re == seq![("r"@, compact_range(rg))]);
    assert(ces =~= seq![("u"@, JsonV::Int(idx)), ("r"@, compact_range(rg))]);
    crate::json::lemma_find_key_first(ces, "u"@);
    crate::json::lemma_find_key_first(ces, "r"@);
    assert(c.get("u"@) == Some(JsonV::Int(idx)));
    assert(c.get("r"@) == Some(compact_range(rg)));
    let st = rg.get("start"@).unwrap();
    let en = rg.get("end"@).unwrap();
    let cr = compact_range(rg);
    let res = cr->Object_0;
    assert(res =~= seq![("s"@, compact_position(st)), ("e"@, compact_position(en))]);
    crate::json::lemma_find_key_first(res, "s"@);
    crate::json::lemma_find_key_first(res, "e"@);
    assert(cr.get("s"@) == Some(compact_position(st)));
    assert(cr.get("e"@) == Some(compact_position(en)));
    lemma_compact_position_keeps(st);
    lemma_compact_position_keeps(en);
}

/// A compressed location response keeps each `LocationLink`'s target: for
/// an item with a `targetUri` string whose `targetRange` has `start` and
/// `end` objects, the compact item points at the target URI in the URI pool
/// and has an `r` whose `s` and `e` keep the line and character of the
/// target range's start and end.
pub proof fn lemma_location_link_kept(p: JsonV, k: int)
    requires
        0 <= k < items_of(p).len(),
        items_of(p)[k] is Object,
        items_of(p)[k].get_str("targetUri"@) is Some,
        items_of(p)[k].get("targetRange"@) matches Some(rg) && rg is Object && (rg.get("start"@) matches Some(
            st,
        ) && st is Object) && (rg.get("end"@) matches Some(en) && en is Object),
    ensures
        ({
            let out = spec_compress_locations(p);
            let item = items_of(p)[k];
            let rg = item.get("targetRange"@).unwrap();
            &&& out.get_array("items"@) matches Some(cs)
            &&& out.get_array("uris"@) matches Some(us)
            &&& k < cs.len()
            &&& (cs[k].get("u"@) matches Some(JsonV::Int(i)) && 0 <= i < us.len() && us[i] == JsonV::Str(
                item.get_str("targetUri"@).unwrap(),
            ))
            &&& (cs[k].get("r"@) matches Some(r) && (r.get("s"@) matches Some(s) && keeps_position(
                s,
                rg.get("start"@).unwrap(),
            )) && (r.get("e"@) matches Some(e) && keeps_position(e, rg.get("end"@).unwrap())))
        }),
{
    lemma_location_keys();
    reveal_strlit("version");
    reveal_strlit("uris");
    reveal_strlit("items");
    assert("uris"@ != "version"@) by {
        assert("uris"@[0] != "version"@[0]);
    }
    assert("items"@ != "version"@) by {
        assert("items"@[0] != "version"@[0]);
    }
    assert("items"@ != "uris"@) by {
        assert("items"@[1] != "uris"@[1]);
    }
    let items = items_of(p);
    let pool = uri_pool(items);
    let out = spec_compress_locations(p);
    let oes = out->Object_0;
    crate::json::lemma_find_key_first(oes, "items"@);
    crate::json::lemma_find_key_first(oes, "uris"@);
    let cs = Seq::new(items.len(), |i: int| compact_location(items[i], pool));
    assert(out.get_array("items"@) == Some(cs));
    let item = items[k];
    let u = item.get_str("targetUri"@).unwrap();
    assert(item.has_key("targetUri"@));
    assert(uri_of(item) == Some(u));
    lemma_uri_pool_resolves(items);
    let idx = pool_index(pool, u);
    let c = cs[k];
    let rg = item.get("targetRange"@).unwrap();
    let ue = uri_entry(item, "targetUri"@, pool);
    let re = range_entry(item, "targetRange"@, "r"@);
    let se = range_entry(item, "targetSelectionRange"@, "s"@);
    let oe = range_entry(item, "originSelectionRange"@, "o"@);
    assert(c == JsonV::Object(ue + re + se + oe));
    assert(ue == seq![("u"@, JsonV::Int(idx))]);
    assert(re == seq![("r"@, compact_range(rg))]);
    let ces = c->Object_0;
    assert(ces[0] == ("u"@, JsonV::Int(idx)));
    assert(ces[1] == ("r"@, compact_range(rg)));
    crate::json::lemma_find_key_first(ces, "u"@);
    crate::json::lemma_find_key_first(ces, "r"@);
    assert(c.get("u"@) == Some(JsonV::Int(idx)));
    assert(c.get("r"@) == Some(compact_range(rg)));
    let st = rg.get("start"@).unwrap();
    let en = rg.get("end"@).unwrap();
    let cr = compact_range(rg);
    let res = cr->Object_0;
    assert(res =~= seq![("s"@, compact_position(st)), ("e"@, compact_position(en))]);
    crate::json::lemma_find_key_first(res, "s"@);
    crate::json::lemma_find_key_first(res, "e"@);
    lemma_compact_position_keeps(st);
    lemma_compact_position_keeps(en);
}

} // verus!
