//! Compression of `textDocument/completion` responses.
//!
//! The list is cut to `max_items`; each item keeps its label, kind (as one
//! character), detail, documentation, insert text, sort text, deprecation and
//! text edit under short names; a documentation text shared by several items
//! is written once in a pool and referred to by its index.
use vstd::prelude::*;

use crate::error::{protocol, LspzError};
use crate::interceptors::Direction;
use crate::json::{
    entries_view, jarray, jbool, jchar, jint, jobject, jstr, juint, opt_entry, opt_view, push_entry,
    push_opt_entry, seq_view, str_value, strings_view, first_index, lemma_first_index,
    lemma_first_index_contains, lemma_find_key_first, position_of, Json, JsonV,
};
use crate::text::str_eq;
use crate::toon::{
    completion_kind_word, docs_pool, lemma_completion_kind_roundtrip, lsp_completion_kind_name,
    spec_resolve_doc, string_items,
};

verus! {

/// The one-character code of an LSP `CompletionItemKind` (1–25).
pub open spec fn completion_kind_char(kind: int) -> Option<char> {
    if kind == 1 {
        Some('T')
    } else if kind == 2 {
        Some('M')
    } else if kind == 3 {
        Some('F')
    } else if kind == 4 {
        Some('C')
    } else if kind == 5 {
        Some('f')
    } else if kind == 6 {
        Some('V')
    } else if kind == 7 {
        Some('c')
    } else if kind == 8 {
        Some('I')
    } else if kind == 9 {
        Some('m')
    } else if kind == 10 {
        Some('P')
    } else if kind == 11 {
        Some('U')
    } else if kind == 12 {
        Some('v')
    } else if kind == 13 {
        Some('e')
    } else if kind == 14 {
        Some('K')
    } else if kind == 15 {
        Some('s')
    } else if kind == 16 {
        Some('o')
    } else if kind == 17 {
        Some('F')
    } else if kind == 18 {
        Some('r')
    } else if kind == 19 {
        Some('D')
    } else if kind == 20 {
        Some('n')
    } else if kind == 21 {
        Some('q')
    } else if kind == 22 {
        Some('S')
    } else if kind == 23 {
        Some('W')
    } else if kind == 24 {
        Some('O')
    } else if kind == 25 {
        Some('t')
    } else {
        None
    }
}

/// The one-character code of an LSP `CompletionItemKind`, if it is one.
pub fn encode_completion_kind(kind: u64) -> (r: Option<char>)
    ensures
        r == completion_kind_char(kind as int),
{
    if kind == 1 {
        Some('T')
    } else if kind == 2 {
        Some('M')
    } else if kind == 3 {
        Some('F')
    } else if kind == 4 {
        Some('C')
    } else if kind == 5 {
        Some('f')
    } else if kind == 6 {
        Some('V')
    } else if kind == 7 {
        Some('c')
    } else if kind == 8 {
        Some('I')
    } else if kind == 9 {
        Some('m')
    } else if kind == 10 {
        Some('P')
    } else if kind == 11 {
        Some('U')
    } else if kind == 12 {
        Some('v')
    } else if kind == 13 {
        Some('e')
    } else if kind == 14 {
        Some('K')
    } else if kind == 15 {
        Some('s')
    } else if kind == 16 {
        Some('o')
    } else if kind == 17 {
        Some('F')
    } else if kind == 18 {
        Some('r')
    } else if kind == 19 {
        Some('D')
    } else if kind == 20 {
        Some('n')
    } else if kind == 21 {
        Some('q')
    } else if kind == 22 {
        Some('S')
    } else if kind == 23 {
        Some('W')
    } else if kind == 24 {
        Some('O')
    } else if kind == 25 {
        Some('t')
    } else {
        None
    }
}

// ─── The documentation pool ────────────────────────────────────────────────

/// The documentation text of an item, when it is a string.
pub open spec fn doc_of(item: JsonV) -> Option<Seq<char>> {
    item.get_str("documentation"@)
}

/// How many of the first `n` items have documentation `d`.
pub open spec fn doc_count_upto(items: Seq<JsonV>, d: Seq<char>, n: int) -> nat
    decreases n,
{
    if n <= 0 {
        0
    } else {
        doc_count_upto(items, d, n - 1) + if doc_of(items[n - 1]) == Some(d) {
            1nat
        } else {
            0nat
        }
    }
}

/// The documentation texts that occur more than once among `items`, in the
/// order in which they first occur, looking at the first `n` items.
pub open spec fn pool_upto(items: Seq<JsonV>, n: int) -> Seq<Seq<char>>
    decreases n,
{
    if n <= 0 {
        Seq::empty()
    } else {
        let p = pool_upto(items, n - 1);
        match doc_of(items[n - 1]) {
            Some(d) => if doc_count_upto(items, d, items.len() as int) > 1 && !p.contains(d) {
                p.push(d)
            } else {
                p
            },
            None => p,
        }
    }
}

/// The documentation pool of a list of items.
pub open spec fn doc_pool(items: Seq<JsonV>) -> Seq<Seq<char>> {
    pool_upto(items, items.len() as int)
}

/// The pool of the first `n` items holds no text twice, holds only texts that
/// occur more than once among all the items, and holds each such text of
/// those `n` items.
proof fn lemma_pool_upto(items: Seq<JsonV>, n: int)
    requires
        0 <= n <= items.len(),
    ensures
        forall|i: int, j: int|
            0 <= i < j < pool_upto(items, n).len() ==> pool_upto(items, n)[i] != pool_upto(items, n)[j],
        forall|i: int|
            0 <= i < pool_upto(items, n).len() ==> doc_count_upto(
                items,
                #[trigger] pool_upto(items, n)[i],
                items.len() as int,
            ) > 1,
        forall|k: int|
            0 <= k < n && (#[trigger] doc_of(items[k])) is Some && doc_count_upto(
                items,
                doc_of(items[k]).unwrap(),
                items.len() as int,
            ) > 1 ==> pool_upto(items, n).contains(doc_of(items[k]).unwrap()),
    decreases n,
{
    if n > 0 {
        lemma_pool_upto(items, n - 1);
        let p = pool_upto(items, n - 1);
        let total = items.len() as int;
        match doc_of(items[n - 1]) {
            Some(d) => {
                if doc_count_upto(items, d, total) > 1 && !p.contains(d) {
                    let q = p.push(d);
                    assert(pool_upto(items, n) == q);
                    assert forall|i: int| 0 <= i < q.len() implies doc_count_upto(
                        items,
                        #[trigger] q[i],
                        total,
                    ) > 1 by {
                        if i < p.len() {
                            assert(q[i] == p[i]);
                        }
                    }
                    assert forall|k: int|
                        0 <= k < n && (#[trigger] doc_of(items[k])) is Some && doc_count_upto(
                            items,
                            doc_of(items[k]).unwrap(),
                            total,
                        ) > 1 implies q.contains(doc_of(items[k]).unwrap()) by {
                        if k < n - 1 {
                            let v = doc_of(items[k]).unwrap();
                            let w = choose|w: int| 0 <= w < p.len() && p[w] == v;
                            assert(q[w] == v);
                        } else {
                            assert(q[p.len() as int] == d);
                        }
                    }
                } else {
                    assert(pool_upto(items, n) == p);
                }
            },
            None => {
                assert(pool_upto(items, n) == p);
            },
        }
    }
}

/// The documentation pool holds each repeated text once and nothing else,
/// and the `doc_id` written for an item leads back to its text.
pub proof fn lemma_doc_pool(items: Seq<JsonV>)
    ensures
        forall|i: int, j: int|
            0 <= i < j < doc_pool(items).len() ==> doc_pool(items)[i] != doc_pool(items)[j],
        forall|i: int|
            0 <= i < doc_pool(items).len() ==> doc_count_upto(
                items,
                #[trigger] doc_pool(items)[i],
                items.len() as int,
            ) > 1,
        forall|k: int|
            0 <= k < items.len() && (#[trigger] doc_of(items[k])) is Some && doc_count_upto(
                items,
                doc_of(items[k]).unwrap(),
                items.len() as int,
            ) > 1 ==> {
                let d = doc_of(items[k]).unwrap();
                &&& first_index(doc_pool(items), d) is Some
                &&& 0 <= first_index(doc_pool(items), d).unwrap() < doc_pool(items).len()
                &&& doc_pool(items)[first_index(doc_pool(items), d).unwrap()] == d
            },
{
    lemma_pool_upto(items, items.len() as int);
    let pool = doc_pool(items);
    assert forall|k: int|
        0 <= k < items.len() && (#[trigger] doc_of(items[k])) is Some && doc_count_upto(
            items,
            doc_of(items[k]).unwrap(),
            items.len() as int,
        ) > 1 implies {
        let d = doc_of(items[k]).unwrap();
        &&& first_index(pool, d) is Some
        &&& 0 <= first_index(pool, d).unwrap() < pool.len()
        &&& pool[first_index(pool, d).unwrap()] == d
    } by {
        let d = doc_of(items[k]).unwrap();
        crate::json::lemma_first_index_contains(pool, d);
        crate::interceptors::locations::lemma_first_index_found(pool, d);
    }
}

/// The documentation entry of a compact item: a reference into the pool
/// when the text is pooled, the text itself otherwise.
pub open spec fn doc_entry(doc: Option<Seq<char>>, pool: Seq<Seq<char>>, dedup: bool) -> Seq<
    (Seq<char>, JsonV),
> {
    match doc {
        Some(d) => if dedup {
            match first_index(pool, d) {
                Some(i) => seq![("doc_id"@, JsonV::Int(i))],
                None => seq![("doc"@, JsonV::Str(d))],
            }
        } else {
            seq![("doc"@, JsonV::Str(d))]
        },
        None => Seq::empty(),
    }
}

/// The compact form of one completion item.
pub open spec fn compact_item(item: JsonV, pool: Seq<Seq<char>>, dedup: bool) -> JsonV {
    JsonV::Object(
        opt_entry("l"@, str_value(item.get_str("label"@))) + opt_entry(
            "k"@,
            match item.get_u64("kind"@) {
                Some(k) => match completion_kind_char(k) {
                    Some(c) => Some(JsonV::Str(seq![c])),
                    None => None,
                },
                None => None,
            },
        ) + opt_entry(
            "d"@,
            match item.get_str("detail"@) {
                Some(d) => if d.len() > 0 {
                    Some(JsonV::Str(d))
                } else {
                    None
                },
                None => None,
            },
        ) + doc_entry(doc_of(item), pool, dedup) + opt_entry(
            "i"@,
            str_value(item.get_str("insertText"@)),
        ) + opt_entry("st"@, str_value(item.get_str("sortText"@))) + opt_entry(
            "dep"@,
            if item.get_bool("deprecated"@) == Some(true) {
                Some(JsonV::Bool(true))
            } else {
                None
            },
        ) + opt_entry("te"@, item.get("textEdit"@)),
    )
}

/// The compact completion list of some items.
pub open spec fn compact_list(items: Seq<JsonV>, incomplete: bool, dedup: bool) -> JsonV {
    let pool = if dedup {
        doc_pool(items)
    } else {
        Seq::empty()
    };
    JsonV::Object(
        seq![
            ("version"@, JsonV::Int(1)),
            ("items"@, JsonV::Array(Seq::new(items.len(), |i: int| compact_item(items[i], pool, dedup)))),
            ("incomplete"@, JsonV::Bool(incomplete)),
        ] + if dedup && pool.len() > 0 {
            seq![("docs"@, JsonV::Array(Seq::new(pool.len(), |i: int| JsonV::Str(pool[i]))))]
        } else {
            Seq::empty()
        },
    )
}

/// At most the first `n` items.
pub open spec fn first_items(items: Seq<JsonV>, n: int) -> Seq<JsonV> {
    if n < items.len() {
        items.take(n)
    } else {
        items
    }
}

/// The compact form of a completion response: a bare item array, or a
/// `CompletionList` object with an `items` array (`None` when the object has
/// none); any other value stays as it is.
pub open spec fn spec_compress_completions(p: JsonV, max_items: int, dedup: bool) -> Option<JsonV> {
    match p {
        JsonV::Array(items) => Some(compact_list(first_items(items, max_items), false, dedup)),
        JsonV::Object(_) => match p.get_array("items"@) {
            Some(items) => Some(
                compact_list(
                    first_items(items, max_items),
                    p.get_bool("isIncomplete"@) == Some(true),
                    dedup,
                ),
            ),
            None => None,
        },
        _ => Some(p),
    }
}

/// The pool of the first `n` items has at most `n` texts.
proof fn lemma_pool_len(items: Seq<JsonV>, n: int)
    requires
        0 <= n <= items.len(),
    ensures
        pool_upto(items, n).len() <= n,
    decreases n,
{
    if n > 0 {
        lemma_pool_len(items, n - 1);
    }
}

/// The strings of an array of strings are those strings.
proof fn lemma_string_items_all(p: Seq<Seq<char>>)
    ensures
        string_items(Seq::new(p.len(), |i: int| JsonV::Str(p[i]))) == p,
    decreases p.len(),
{
    let a = Seq::new(p.len(), |i: int| JsonV::Str(p[i]));
    if p.len() > 0 {
        let q = p.drop_last();
        assert(a.drop_last() =~= Seq::new(q.len(), |i: int| JsonV::Str(q[i])));
        lemma_string_items_all(q);
        assert(q.push(p.last()) =~= p);
    } else {
        assert(p =~= Seq::<Seq<char>>::empty());
    }
}

/// The keys of the compact completion forms are distinct where it matters.
proof fn lemma_completion_keys()
    ensures
        "doc"@ != "l"@ && "doc"@ != "k"@ && "doc"@ != "d"@ && "doc"@ != "doc_id"@ && "doc"@ != "i"@
            && "doc"@ != "st"@ && "doc"@ != "dep"@ && "doc"@ != "te"@,
        "doc_id"@ != "l"@ && "doc_id"@ != "k"@ && "doc_id"@ != "d"@ && "doc_id"@ != "i"@ && "doc_id"@
            != "st"@ && "doc_id"@ != "dep"@ && "doc_id"@ != "te"@,
        "items"@ != "version"@ && "docs"@ != "version"@ && "docs"@ != "items"@ && "docs"@
            != "incomplete"@,
{
    reveal_strlit("doc");
    reveal_strlit("doc_id");
    reveal_strlit("l");
    reveal_strlit("k");
    reveal_strlit("d");
    reveal_strlit("i");
    reveal_strlit("st");
    reveal_strlit("dep");
    reveal_strlit("te");
    reveal_strlit("items");
    reveal_strlit("version");
    reveal_strlit("docs");
    reveal_strlit("incomplete");
    assert("doc"@.len() != "d"@.len());
    assert("doc"@.len() != "doc_id"@.len());
    assert("doc_id"@.len() != "d"@.len());
    assert("doc"@[0] != "l"@[0]);
    assert("doc"@[0] != "k"@[0]);
    assert("doc"@[0] != "i"@[0]);
    assert("doc"@[0] != "st"@[0]);
    assert("doc"@[1] != "dep"@[1]);
    assert("doc"@[0] != "te"@[0]);
    assert("doc_id"@[0] != "l"@[0]);
    assert("doc_id"@[0] != "k"@[0]);
    assert("doc_id"@[0] != "i"@[0]);
    assert("doc_id"@[0] != "st"@[0]);
    assert("doc_id"@[1] != "dep"@[1]);
    assert("doc_id"@[0] != "te"@[0]);
    assert("items"@[0] != "version"@[0]);
    assert("docs"@[0] != "version"@[0]);
    assert("docs"@[0] != "items"@[0]);
    assert("docs"@[0] != "incomplete"@[0]);
}

/// The documentation resolved for the compact form of one item, against the
/// pool it was compacted with (any pool when documentation is not pooled), is
/// the item's own.
#[verifier::spinoff_prover]
#[verifier::rlimit(40)]
proof fn lemma_item_doc(item: JsonV, pool: Seq<Seq<char>>, dedup: bool, p: Seq<Seq<char>>)
    requires
        pool.len() <= u64::MAX,
        dedup ==> p == pool,
    ensures
        spec_resolve_doc(compact_item(item, pool, dedup), p) == match doc_of(item) {
            Some(d) => d,
            None => Seq::empty(),
        },
{
    lemma_completion_keys();
    let c = compact_item(item, pool, dedup);
    let es = c->Object_0;
    let a = opt_entry("l"@, str_value(item.get_str("label"@))) + opt_entry(
        "k"@,
        match item.get_u64("kind"@) {
            Some(kk) => match completion_kind_char(kk) {
                Some(ch) => Some(JsonV::Str(seq![ch])),
                None => None,
            },
            None => None,
        },
    ) + opt_entry(
        "d"@,
        match item.get_str("detail"@) {
            Some(d) => if d.len() > 0 {
                Some(JsonV::Str(d))
            } else {
                None
            },
            None => None,
        },
    );
    let de = doc_entry(doc_of(item), pool, dedup);
    let b = opt_entry("i"@, str_value(item.get_str("insertText"@))) + opt_entry(
        "st"@,
        str_value(item.get_str("sortText"@)),
    ) + opt_entry(
        "dep"@,
        if item.get_bool("deprecated"@) == Some(true) {
            Some(JsonV::Bool(true))
        } else {
            None
        },
    ) + opt_entry("te"@, item.get("textEdit"@));
    assert(es =~= a + de + b);
    assert forall|i: int| 0 <= i < a.len() implies (#[trigger] a[i]).0 == "l"@ || a[i].0 == "k"@ || a[i].0
        == "d"@ by {}
    assert forall|i: int| 0 <= i < b.len() implies (#[trigger] b[i]).0 == "i"@ || b[i].0 == "st"@ || b[i].0
        == "dep"@ || b[i].0 == "te"@ by {}
    let n = a.len() as int;
    assert forall|i: int| 0 <= i < n implies #[trigger] es[i] == a[i] by {}
    assert forall|i: int| n + de.len() <= i < es.len() implies #[trigger] es[i] == b[i - n - de.len()] by {}
    lemma_find_key_first(es, "doc"@);
    lemma_find_key_first(es, "doc_id"@);
    match doc_of(item) {
        Some(d) => {
            if !dedup || first_index(pool, d) is None {
                assert(de == seq![("doc"@, JsonV::Str(d))]);
                assert(es[n] == ("doc"@, JsonV::Str(d)));
                assert(c.get_str("doc"@) == Some(d));
            } else {
                let i = first_index(pool, d).unwrap();
                crate::interceptors::locations::lemma_first_index_found(pool, d);
                assert(de == seq![("doc_id"@, JsonV::Int(i))]);
                assert(es[n] == ("doc_id"@, JsonV::Int(i)));
                assert(c.get_str("doc"@) is None);
                assert(c.get("doc_id"@) == Some(JsonV::Int(i)));
                assert(c.get_u64("doc_id"@) == Some(i));
            }
        },
        None => {
            assert(de.len() == 0);
            assert(c.get_str("doc"@) is None);
            assert(c.get_u64("doc_id"@) is None);
        },
    }
}

/// The compact form of a completion item keeps its label, and its kind as a
/// code that reads back (in the TOON writer) as the kind's LSP name
/// (`function` for `File`, which shares the code of `Function`).
#[verifier::spinoff_prover]
pub proof fn lemma_item_label_kind(item: JsonV, pool: Seq<Seq<char>>, dedup: bool)
    ensures
        item.get_str("label"@) is Some ==> compact_item(item, pool, dedup).get("l"@) == Some(
            JsonV::Str(item.get_str("label"@).unwrap()),
        ),
        item.get_u64("kind"@) is Some && 1 <= item.get_u64("kind"@).unwrap() <= 25 ==> (compact_item(
            item,
            pool,
            dedup,
        ).get_str("k"@) matches Some(code) && completion_kind_word(code) == lsp_completion_kind_name(
            if item.get_u64("kind"@).unwrap() == 17 {
                3
            } else {
                item.get_u64("kind"@).unwrap()
            },
        )),
{
    reveal_strlit("l");
    reveal_strlit("k");
    assert("l"@ != "k"@) by {
        assert("l"@[0] != "k"@[0]);
    }
    let c = compact_item(item, pool, dedup);
    let es = c->Object_0;
    let le = opt_entry("l"@, str_value(item.get_str("label"@)));
    let kv = match item.get_u64("kind"@) {
        Some(kk) => match completion_kind_char(kk) {
            Some(ch) => Some(JsonV::Str(seq![ch])),
            None => None,
        },
        None => None,
    };
    let ke = opt_entry("k"@, kv);
    let n2: int = le.len() as int + ke.len() as int;
    assert(es.take(n2) =~= le + ke);
    lemma_find_key_first(es, "l"@);
    lemma_find_key_first(es, "k"@);
    if let Some(l) = item.get_str("label"@) {
        assert(es[0] == ("l"@, JsonV::Str(l)));
    }
    if let Some(n) = item.get_u64("kind"@) {
        if 1 <= n <= 25 {
            lemma_completion_kind_roundtrip(n);
            let ch = completion_kind_char(n).unwrap();
            assert(es[le.len() as int] == ("k"@, JsonV::Str(seq![ch])));
            assert forall|i: int| 0 <= i < le.len() implies (#[trigger] es[i]).0 != "k"@ by {
                assert(es[i] == le[i]);
            }
            assert(c.get_str("k"@) == Some(seq![ch]));
        }
    }
}

/// What the TOON writer shows of a compressed completion list gives back
/// each item's documentation: the documentation it resolves for an item of
/// the compact list is the item's own, whether it stayed inline or was put in
/// the pool (and nothing for an item without documentation).
pub proof fn lemma_docs_come_back(items: Seq<JsonV>, incomplete: bool, dedup: bool, k: int)
    requires
        0 <= k < items.len(),
        items.len() <= u64::MAX,
    ensures
        compact_list(items, incomplete, dedup).get_array("items"@) matches Some(cs) && k < cs.len()
            && spec_resolve_doc(cs[k], docs_pool(compact_list(items, incomplete, dedup))) == match doc_of(
            items[k],
        ) {
            Some(d) => d,
            None => Seq::empty(),
        },
{
    lemma_completion_keys();
    let pool = if dedup {
        doc_pool(items)
    } else {
        Seq::empty()
    };
    lemma_pool_len(items, items.len() as int);
    let v = compact_list(items, incomplete, dedup);
    let ves = v->Object_0;
    let cs = Seq::new(items.len(), |i: int| compact_item(items[i], pool, dedup));
    assert(ves[0].0 == "version"@);
    assert(ves[1].0 == "items"@);
    lemma_find_key_first(ves, "items"@);
    assert(v.get_array("items"@) == Some(cs));
    lemma_find_key_first(ves, "docs"@);
    if dedup && pool.len() > 0 {
        assert(ves[3].0 == "docs"@);
        lemma_string_items_all(pool);
        assert(docs_pool(v) == pool);
    } else {
        assert(ves.len() == 3);
        assert(docs_pool(v) == Seq::<Seq<char>>::empty());
        if dedup {
            assert(pool =~= Seq::<Seq<char>>::empty());
        }
    }
    lemma_item_doc(items[k], pool, dedup, docs_pool(v));
}

/// A compressed completion response says whether the list is incomplete as
/// the response does: for a `CompletionList` object with an `items` array,
/// `incomplete` is true exactly when its `isIncomplete` is true, and a bare
/// array of items is complete. The compact list holds one item for each of
/// the first `max_items` items of the response.
pub proof fn lemma_completions_incomplete(p: JsonV, max_items: int, dedup: bool)
    requires
        max_items >= 0,
    ensures
        (p is Object && p.get_array("items"@) is Some) ==> (spec_compress_completions(p, max_items, dedup) matches Some(v)
            && v.get_bool("incomplete"@) == Some(p.get_bool("isIncomplete"@) == Some(true))
            && (v.get_array("items"@) matches Some(cs) && cs.len() == (if p.get_array("items"@).unwrap().len()
            <= max_items {
            p.get_array("items"@).unwrap().len() as int
        } else {
            max_items
        }))),
        p is Array ==> (spec_compress_completions(p, max_items, dedup) matches Some(v) && v.get_bool(
            "incomplete"@,
        ) == Some(false) && (v.get_array("items"@) matches Some(cs) && cs.len() == (if p->Array_0.len()
            <= max_items {
            p->Array_0.len() as int
        } else {
            max_items
        }))),
{
    reveal_strlit("incomplete");
    reveal_strlit("version");
    reveal_strlit("items");
    assert("incomplete"@ != "version"@) by {
        assert("incomplete"@[0] != "version"@[0]);
    }
    assert("incomplete"@ != "items"@) by {
        assert("incomplete"@.len() != "items"@.len());
    }
    assert("items"@ != "version"@) by {
        assert("items"@[0] != "version"@[0]);
    }
    let items = match p {
        JsonV::Array(a) => a,
        _ => match p.get_array("items"@) {
            Some(a) => a,
            None => Seq::empty(),
        },
    };
    let incomplete = match p {
        JsonV::Array(_) => false,
        _ => p.get_bool("isIncomplete"@) == Some(true),
    };
    if p is Array || (p is Object && p.get_array("items"@) is Some) {
        let ks = first_items(items, max_items);
        let v = compact_list(ks, incomplete, dedup);
        assert(spec_compress_completions(p, max_items, dedup) == Some(v));
        let es = v->Object_0;
        lemma_find_key_first(es, "incomplete"@);
        lemma_find_key_first(es, "items"@);
        assert(es[0].0 == "version"@);
        assert(es[1].0 == "items"@);
        assert(es[2] == ("incomplete"@, JsonV::Bool(incomplete)));
        assert(v.get_bool("incomplete"@) == Some(incomplete));
        assert(v.get_array("items"@) matches Some(cs) && cs.len() == ks.len());
    }
}

/// How many items have documentation `d`.
fn count_doc(items: &[Json], d: &str) -> (r: usize)
    ensures
        r == doc_count_upto(seq_view(items@), d@, items@.len() as int),
{
    let ghost sv = seq_view(items@);
    let mut n: usize = 0;
    let mut j: usize = 0;
    while j < items.len()
        invariant
            0 <= j <= items@.len(),
            sv == seq_view(items@),
            n == doc_count_upto(sv, d@, j as int),
            n <= j,
        decreases items.len() - j,
    {
        let same = match items[j].get_str("documentation") {
            Some(x) => str_eq(x, d),
            None => false,
        };
        if same {
            n = n + 1;
        }
        j = j + 1;
    }
    n
}

/// The documentation pool of some items.
fn build_pool(items: &[Json]) -> (r: Vec<String>)
    ensures
        strings_view(r@) == doc_pool(seq_view(items@)),
{
    let ghost sv = seq_view(items@);
    let mut pool: Vec<String> = Vec::new();
    let mut i: usize = 0;
    while i < items.len()
        invariant
            0 <= i <= items@.len(),
            sv == seq_view(items@),
            strings_view(pool@) == pool_upto(sv, i as int),
        decreases items.len() - i,
    {
        match items[i].get_str("documentation") {
            Some(d) => {
                let c = count_doc(items, d);
                if c > 1 {
                    match position_of(&pool, d) {
                        Some(_) => {
                            proof {
                                lemma_first_index_contains(strings_view(pool@), d@);
                            }
                        },
                        None => {
                            proof {
                                lemma_first_index_contains(strings_view(pool@), d@);
                            }
                            let ghost before = strings_view(pool@);
                            pool.push(d.to_owned());
                            proof {
                                assert(strings_view(pool@) =~= before.push(d@));
                            }
                        },
                    }
                }
            },
            None => {},
        }
        i = i + 1;
    }
    pool
}

/// The compact form of one completion item.
fn compress_item(item: &Json, pool: &Vec<String>, dedup: bool) -> (r: Json)
    ensures
        r@ == compact_item(item@, strings_view(pool@), dedup),
{
    let mut c: Vec<(String, Json)> = Vec::new();
    push_opt_entry(&mut c, "l", item.get_str_value("label"));
    let kind = match item.get_u64("kind") {
        Some(k) => match encode_completion_kind(k) {
            Some(ch) => Some(jchar(ch)),
            None => None,
        },
        None => None,
    };
    push_opt_entry(&mut c, "k", kind);
    let detail = match item.get_str("detail") {
        Some(d) => if d.is_empty() {
            None
        } else {
            Some(jstr(d))
        },
        None => None,
    };
    push_opt_entry(&mut c, "d", detail);
    let ghost before_doc = entries_view(c@);
    match item.get_str("documentation") {
        Some(d) => {
            if dedup {
                match position_of(pool, d) {
                    Some(idx) => push_entry(&mut c, "doc_id", juint(idx as u64)),
                    None => push_entry(&mut c, "doc", jstr(d)),
                }
            } else {
                push_entry(&mut c, "doc", jstr(d));
            }
        },
        None => {},
    }
    proof {
        assert(entries_view(c@) =~= before_doc + doc_entry(doc_of(item@), strings_view(pool@), dedup));
    }
    push_opt_entry(&mut c, "i", item.get_str_value("insertText"));
    push_opt_entry(&mut c, "st", item.get_str_value("sortText"));
    let dep = match item.get_bool("deprecated") {
        Some(true) => Some(jbool(true)),
        _ => None,
    };
    push_opt_entry(&mut c, "dep", dep);
    push_opt_entry(&mut c, "te", item.get_cloned("textEdit"));
    let r = jobject(c);
    proof {
        assert(r@ == compact_item(item@, strings_view(pool@), dedup));
    }
    r
}

/// The compact completion list of the first `max_items` items.
fn compress_list(items: &Vec<Json>, max_items: usize, incomplete: bool, dedup: bool) -> (r: Json)
    ensures
        r@ == compact_list(first_items(seq_view(items@), max_items as int), incomplete, dedup),
{
    let n = if max_items < items.len() {
        max_items
    } else {
        items.len()
    };
    let mut kept: Vec<Json> = Vec::new();
    let mut i: usize = 0;
    while i < n
        invariant
            0 <= i <= n <= items@.len(),
            kept@.len() == i,
            forall|k: int| 0 <= k < i ==> #[trigger] kept@[k]@ == items@[k]@,
        decreases n - i,
    {
        kept.push(items[i].deep_clone());
        i = i + 1;
    }
    let ghost ks = seq_view(kept@);
    proof {
        assert(ks =~= first_items(seq_view(items@), max_items as int));
    }
    let pool = if dedup {
        build_pool(kept.as_slice())
    } else {
        Vec::new()
    };
    proof {
        if !dedup {
            assert(strings_view(pool@) =~= Seq::<Seq<char>>::empty());
        }
    }
    let mut out_items: Vec<Json> = Vec::new();
    let mut j: usize = 0;
    while j < kept.len()
        invariant
            0 <= j <= kept@.len(),
            ks == seq_view(kept@),
            out_items@.len() == j,
            forall|k: int| 0 <= k < j ==> #[trigger] out_items@[k]@ == compact_item(
                ks[k],
                strings_view(pool@),
                dedup,
            ),
        decreases kept.len() - j,
    {
        out_items.push(compress_item(&kept[j], &pool, dedup));
        j = j + 1;
    }
    let pool_len = pool.len();
    let mut result: Vec<(String, Json)> = Vec::new();
    push_entry(&mut result, "version", jint(1));
    let items_json = jarray(out_items);
    push_entry(&mut result, "items", items_json);
    push_entry(&mut result, "incomplete", jbool(incomplete));
    let ghost before_docs = entries_view(result@);
    let ghost pv = strings_view(pool@);
    if dedup && pool_len > 0 {
        let mut docs: Vec<Json> = Vec::new();
        let mut k: usize = 0;
        while k < pool.len()
            invariant
                0 <= k <= pool@.len(),
                pv == strings_view(pool@),
                docs@.len() == k,
                forall|m: int| 0 <= m < k ==> #[trigger] docs@[m]@ == JsonV::Str(pv[m]),
            decreases pool.len() - k,
        {
            docs.push(jstr(pool[k].as_str()));
            k = k + 1;
        }
        let docs_json = jarray(docs);
        proof {
            assert(seq_view(docs@) =~= Seq::new(pv.len(), |i: int| JsonV::Str(pv[i])));
        }
        push_entry(&mut result, "docs", docs_json);
        proof {
            assert(entries_view(result@) =~= before_docs + seq![
                ("docs"@, JsonV::Array(Seq::new(pv.len(), |i: int| JsonV::Str(pv[i])))),
            ]);
        }
    } else {
        proof {
            assert(entries_view(result@) =~= before_docs + Seq::empty());
        }
    }
    let r = jobject(result);
    proof {
        let pool_s = if dedup {
            doc_pool(ks)
        } else {
            Seq::empty()
        };
        assert(pv == pool_s);
        assert(seq_view(out_items@) =~= Seq::new(ks.len(), |i: int| compact_item(ks[i], pool_s, dedup)));
        assert(before_docs =~= seq![
            ("version"@, JsonV::Int(1)),
            ("items"@, JsonV::Array(Seq::new(ks.len(), |i: int| compact_item(ks[i], pool_s, dedup)))),
            ("incomplete"@, JsonV::Bool(incomplete)),
        ]);
        assert(r@ =~= compact_list(ks, incomplete, dedup));
    }
    r
}

/// Compresses a completion response: a bare item array, or a
/// `CompletionList` object (a protocol error when it has no `items` array);
/// any other value is returned as it is.
pub fn compress_completions(params: &Json, max_items: usize, doc_dedup: bool) -> (r: Result<
    Json,
    LspzError,
>)
    ensures
        match spec_compress_completions(params@, max_items as int, doc_dedup) {
            Some(v) => r matches Ok(j) && j@ == v,
            None => r matches Err(LspzError::Protocol(m)) && m@ == "missing completion items"@,
        },
{
    match params {
        Json::Array(items) => {
            proof {
                crate::json::lemma_array_view(*items);
            }
            Ok(compress_list(items, max_items, false, doc_dedup))
        },
        Json::Object(_) => {
            let incomplete = match params.get_bool("isIncomplete") {
                Some(b) => b,
                None => false,
            };
            match params.get_array("items") {
                Some(items) => Ok(compress_list(items, max_items, incomplete, doc_dedup)),
                None => Err(protocol("missing completion items")),
            }
        },
        _ => Ok(params.deep_clone()),
    }
}

/// Compresses `textDocument/completion` responses.
pub struct CompletionCompressor {
    /// How many items are kept (50 by default).
    pub max_items: usize,
    /// Whether shared documentation texts are pooled (on by default).
    pub enable_doc_dedup: bool,
}

impl Default for CompletionCompressor {
    fn default() -> (r: CompletionCompressor)
        ensures
            r.max_items == 50,
            r.enable_doc_dedup,
    {
        CompletionCompressor { max_items: 50, enable_doc_dedup: true }
    }
}

impl CompletionCompressor {
    /// The name under which the compressor is logged.
    pub fn name(&self) -> (r: &'static str)
        ensures
            r@ == "completion_compressor"@,
    {
        "completion_compressor"
    }

    /// Whether the compressor rewrites a message: completion responses from
    /// the server.
    pub fn applies_to(&self, method: &str, direction: Direction) -> (r: bool)
        ensures
            r == (method@ == "textDocument/completion"@ && direction == Direction::ServerToClient),
    {
        str_eq(method, "textDocument/completion") && direction == Direction::ServerToClient
    }

    /// Compresses a completion response (see [`compress_completions`]).
    pub fn intercept(&self, method: &str, params: Json, direction: Direction) -> (r: Result<
        Option<Json>,
        LspzError,
    >)
        ensures
            match spec_compress_completions(params@, self.max_items as int, self.enable_doc_dedup) {
                Some(v) => r matches Ok(Some(j)) && j@ == v,
                None => r matches Err(LspzError::Protocol(m)) && m@ == "missing completion items"@,
            },
    {
        match compress_completions(&params, self.max_items, self.enable_doc_dedup) {
            Ok(j) => Ok(Some(j)),
            Err(e) => Err(e),
        }
    }
}

} // verus!
