//! A JSON value as the interceptors and codecs read and build it.
//!
//! [`Json`] is the executable value; [`JsonV`] is its mathematical model,
//! obtained with `@`. Objects are lists of `(key, value)` entries; a lookup
//! finds the first entry with the key.
use vstd::prelude::*;

use crate::text::str_eq;

verus! {

/// The mathematical model of a JSON value.
pub enum JsonV {
    Null,
    Bool(bool),
    Int(int),
    /// A number that is not an integer, by its decimal text.
    Float(Seq<char>),
    Str(Seq<char>),
    Array(Seq<JsonV>),
    Object(Seq<(Seq<char>, JsonV)>),
}

/// A JSON value.
///
/// Integers in the range of `i64` are held by `Int`; `UInt` holds those above
/// it. Any other number is held by `Float`, as its decimal text.
#[derive(Debug, PartialEq)]
pub enum Json {
    Null,
    Bool(bool),
    Int(i64),
    UInt(u64),
    Float(String),
    Str(String),
    Array(Vec<Json>),
    Object(Vec<(String, Json)>),
}

/// The model of a sequence of JSON values.
pub open spec fn seq_view(v: Seq<Json>) -> Seq<JsonV> {
    Seq::new(v.len(), |i: int| v[i]@)
}

/// The model of a sequence of object entries.
pub open spec fn entries_view(v: Seq<(String, Json)>) -> Seq<(Seq<char>, JsonV)> {
    Seq::new(v.len(), |i: int| (v[i].0@, v[i].1@))
}

impl Json {
    pub open spec fn view(self) -> JsonV
        decreases self,
    {
        match self {
            Json::Null => JsonV::Null,
            Json::Bool(b) => JsonV::Bool(b),
            Json::Int(n) => JsonV::Int(n as int),
            Json::UInt(n) => JsonV::Int(n as int),
            Json::Float(s) => JsonV::Float(s@),
            Json::Str(s) => JsonV::Str(s@),
            Json::Array(v) => JsonV::Array(
                Seq::new(
                    v@.len(),
                    |i: int|
                        if 0 <= i < v@.len() {
                            v@[i].view()
                        } else {
                            JsonV::Null
                        },
                ),
            ),
            Json::Object(v) => JsonV::Object(
                Seq::new(
                    v@.len(),
                    |i: int|
                        if 0 <= i < v@.len() {
                            (v@[i].0@, v@[i].1.view())
                        } else {
                            (Seq::empty(), JsonV::Null)
                        },
                ),
            ),
        }
    }
}

/// The index of the first entry with the given key, if any.
pub open spec fn find_key(entries: Seq<(Seq<char>, JsonV)>, key: Seq<char>) -> Option<int>
    decreases entries.len(),
{
    if entries.len() == 0 {
        None
    } else if entries[0].0 == key {
        Some(0)
    } else {
        match find_key(entries.drop_first(), key) {
            Some(i) => Some(i + 1),
            None => None,
        }
    }
}

/// The value of the first entry with the given key, if any.
pub open spec fn entries_get(entries: Seq<(Seq<char>, JsonV)>, key: Seq<char>) -> Option<JsonV> {
    match find_key(entries, key) {
        Some(i) => Some(entries[i].1),
        None => None,
    }
}

impl JsonV {
    /// The value under `key`, when this is an object that has it.
    pub open spec fn get(self, key: Seq<char>) -> Option<JsonV> {
        match self {
            JsonV::Object(e) => entries_get(e, key),
            _ => None,
        }
    }

    /// Whether this is an object with an entry for `key`.
    pub open spec fn has_key(self, key: Seq<char>) -> bool {
        self.get(key) is Some
    }

    pub open spec fn as_str(self) -> Option<Seq<char>> {
        match self {
            JsonV::Str(s) => Some(s),
            _ => None,
        }
    }

    pub open spec fn as_bool(self) -> Option<bool> {
        match self {
            JsonV::Bool(b) => Some(b),
            _ => None,
        }
    }

    /// The integer, when it is one that fits in `i64`.
    pub open spec fn as_i64(self) -> Option<int> {
        match self {
            JsonV::Int(n) => if i64::MIN <= n <= i64::MAX {
                Some(n)
            } else {
                None
            },
            _ => None,
        }
    }

    /// The integer, when it is one that fits in `u64`.
    pub open spec fn as_u64(self) -> Option<int> {
        match self {
            JsonV::Int(n) => if 0 <= n <= u64::MAX {
                Some(n)
            } else {
                None
            },
            _ => None,
        }
    }

    pub open spec fn as_array(self) -> Option<Seq<JsonV>> {
        match self {
            JsonV::Array(a) => Some(a),
            _ => None,
        }
    }

    pub open spec fn is_object(self) -> bool {
        self is Object
    }

    /// `self.get(key)` read as a string.
    pub open spec fn get_str(self, key: Seq<char>) -> Option<Seq<char>> {
        match self.get(key) {
            Some(v) => v.as_str(),
            None => None,
        }
    }

    /// `self.get(key)` read as an array.
    pub open spec fn get_array(self, key: Seq<char>) -> Option<Seq<JsonV>> {
        match self.get(key) {
            Some(v) => v.as_array(),
            None => None,
        }
    }

    /// `self.get(key)` read as a boolean.
    pub open spec fn get_bool(self, key: Seq<char>) -> Option<bool> {
        match self.get(key) {
            Some(v) => v.as_bool(),
            None => None,
        }
    }

    /// `self.get(key)` read as an `i64`.
    pub open spec fn get_i64(self, key: Seq<char>) -> Option<int> {
        match self.get(key) {
            Some(v) => v.as_i64(),
            None => None,
        }
    }

    /// `self.get(key)` read as a `u64`.
    pub open spec fn get_u64(self, key: Seq<char>) -> Option<int> {
        match self.get(key) {
            Some(v) => v.as_u64(),
            None => None,
        }
    }
}

/// The model of an array of the views of the given values, element by element.
pub proof fn lemma_array_view(v: Vec<Json>)
    ensures
        Json::Array(v)@ == JsonV::Array(seq_view(v@)),
{
    assert(Json::Array(v)@->Array_0 =~= seq_view(v@));
}

/// The model of an object is the views of its entries.
pub proof fn lemma_object_view(v: Vec<(String, Json)>)
    ensures
        Json::Object(v)@ == JsonV::Object(entries_view(v@)),
{
    assert(Json::Object(v)@->Object_0 =~= entries_view(v@));
}

impl Json {
    /// The value under `key`, when this is an object that has it.
    pub fn get(&self, key: &str) -> (r: Option<&Json>)
        ensures
            match r {
                Some(j) => self@.get(key@) == Some(j@),
                None => self@.get(key@) is None,
            },
    {
        match self {
            Json::Object(entries) => {
                proof {
                    lemma_object_view(*entries);
                }
                let ghost ev = entries_view(entries@);
                assert(ev.skip(0) =~= ev);
                let mut i: usize = 0;
                while i < entries.len()
                    invariant
                        0 <= i <= entries.len(),
                        ev == entries_view(entries@),
                        self@ == JsonV::Object(ev),
                        find_key(ev, key@) == (match find_key(ev.skip(i as int), key@) {
                            Some(j) => Some(j + i),
                            None => None::<int>,
                        }),
                    decreases entries.len() - i,
                {
                    proof {
                        assert(ev.skip(i as int).drop_first() =~= ev.skip(i + 1));
                    }
                    if str_eq(entries[i].0.as_str(), key) {
                        assert(ev[i as int] == (entries@[i as int].0@, entries@[i as int].1@));
                        assert(ev.skip(i as int)[0] == ev[i as int]);
                        assert(find_key(ev.skip(i as int), key@) == Some(0int));
                        assert(find_key(ev, key@) == Some(i as int));
                        assert(self@ == JsonV::Object(ev));
                        return Some(&entries[i].1);
                    }
                    i = i + 1;
                }
                proof {
                    assert(ev.skip(i as int).len() == 0);
                }
                None
            },
            _ => None,
        }
    }

    /// Whether this is an object with an entry for `key`.
    pub fn contains_key(&self, key: &str) -> (r: bool)
        ensures
            r == self@.has_key(key@),
    {
        self.get(key).is_some()
    }

    pub fn as_str(&self) -> (r: Option<&str>)
        ensures
            match r {
                Some(s) => self@.as_str() == Some(s@),
                None => self@.as_str() is None,
            },
    {
        match self {
            Json::Str(s) => Some(s.as_str()),
            _ => None,
        }
    }

    pub fn as_bool(&self) -> (r: Option<bool>)
        ensures
            r == self@.as_bool(),
    {
        match self {
            Json::Bool(b) => Some(*b),
            _ => None,
        }
    }

    pub fn as_i64(&self) -> (r: Option<i64>)
        ensures
            match r {
                Some(n) => self@.as_i64() == Some(n as int),
                None => self@.as_i64() is None,
            },
    {
        match self {
            Json::Int(n) => Some(*n),
            Json::UInt(n) => if *n <= 9223372036854775807u64 {
                Some(*n as i64)
            } else {
                None
            },
            _ => None,
        }
    }

    pub fn as_u64(&self) -> (r: Option<u64>)
        ensures
            match r {
                Some(n) => self@.as_u64() == Some(n as int),
                None => self@.as_u64() is None,
            },
    {
        match self {
            Json::Int(n) => if *n >= 0 {
                Some(*n as u64)
            } else {
                None
            },
            Json::UInt(n) => Some(*n),
            _ => None,
        }
    }

    pub fn as_array(&self) -> (r: Option<&Vec<Json>>)
        ensures
            match r {
                Some(v) => self@.as_array() == Some(seq_view(v@)),
                None => self@.as_array() is None,
            },
    {
        match self {
            Json::Array(v) => {
                proof {
                    lemma_array_view(*v);
                }
                Some(v)
            },
            _ => None,
        }
    }

    pub fn is_object(&self) -> (r: bool)
        ensures
            r == self@.is_object(),
    {
        match self {
            Json::Object(_) => true,
            _ => false,
        }
    }

    pub fn is_null(&self) -> (r: bool)
        ensures
            r == (self@ is Null),
    {
        match self {
            Json::Null => true,
            _ => false,
        }
    }

    /// A copy of this value.
    pub fn deep_clone(&self) -> (r: Json)
        ensures
            r@ == self@,
        decreases self,
    {
        match self {
            Json::Null => Json::Null,
            Json::Bool(b) => Json::Bool(*b),
            Json::Int(n) => Json::Int(*n),
            Json::UInt(n) => Json::UInt(*n),
            Json::Float(s) => Json::Float(s.clone()),
            Json::Str(s) => Json::Str(s.clone()),
            Json::Array(v) => {
                let mut out: Vec<Json> = Vec::new();
                let mut i: usize = 0;
                while i < v.len()
                    invariant
                        0 <= i <= v.len(),
                        out@.len() == i,
                        *self == Json::Array(*v),
                        forall|k: int| 0 <= k < i ==> out@[k]@ == v@[k]@,
                    decreases v.len() - i,
                {
                    proof {
                        vstd::std_specs::vec::axiom_vec_index_decreases(*v, i as int);
                        assert(*v == self->Array_0);
                        assert(decreases_to!(*self => self->Array_0));
                        assert(decreases_to!(*v => v[i as int]));
                    }
                    let c = v[i].deep_clone();
                    out.push(c);
                    i = i + 1;
                }
                proof {
                    lemma_array_view(*v);
                    lemma_array_view(out);
                    assert(seq_view(out@) =~= seq_view(v@));
                }
                Json::Array(out)
            },
            Json::Object(v) => {
                let mut out: Vec<(String, Json)> = Vec::new();
                let mut i: usize = 0;
                while i < v.len()
                    invariant
                        0 <= i <= v.len(),
                        out@.len() == i,
                        *self == Json::Object(*v),
                        forall|k: int| 0 <= k < i ==> out@[k].0@ == v@[k].0@ && out@[k].1@ == v@[k].1@,
                    decreases v.len() - i,
                {
                    let k = v[i].0.clone();
                    proof {
                        vstd::std_specs::vec::axiom_vec_index_decreases(*v, i as int);
                        assert(*v == self->Object_0);
                        assert(decreases_to!(*self => self->Object_0));
                        assert(decreases_to!(v[i as int] => v[i as int].1));
                        assert(decreases_to!(*v => v[i as int]));
                    }
                    let c = v[i].1.deep_clone();
                    out.push((k, c));
                    i = i + 1;
                }
                proof {
                    lemma_object_view(*v);
                    lemma_object_view(out);
                    assert(entries_view(out@) =~= entries_view(v@));
                }
                Json::Object(out)
            },
        }
    }
}

/// One entry under `key` when there is a value, none otherwise.
pub open spec fn opt_entry(key: Seq<char>, v: Option<JsonV>) -> Seq<(Seq<char>, JsonV)> {
    match v {
        Some(x) => seq![(key, x)],
        None => Seq::empty(),
    }
}

/// Appends the entry `(key, value)` to an object's entries.
pub fn push_entry(out: &mut Vec<(String, Json)>, key: &str, value: Json)
    ensures
        entries_view(final(out)@) == entries_view(old(out)@).push((key@, value@)),
{
    let ghost before = entries_view(out@);
    out.push((key.to_owned(), value));
    assert(entries_view(out@) =~= before.push((key@, value@)));
}

/// Appends `(key, value)` when there is a value.
pub fn push_opt_entry(out: &mut Vec<(String, Json)>, key: &str, value: Option<Json>)
    ensures
        entries_view(final(out)@) == entries_view(old(out)@) + opt_entry(
            key@,
            match value {
                Some(x) => Some(x@),
                None => None,
            },
        ),
{
    match value {
        Some(v) => {
            let ghost before = entries_view(out@);
            push_entry(out, key, v);
            assert(before.push((key@, v@)) =~= before + seq![(key@, v@)]);
        },
        None => {
            assert(entries_view(out@) =~= entries_view(out@) + Seq::empty());
        },
    }
}

/// An object with the given entries.
pub fn jobject(entries: Vec<(String, Json)>) -> (r: Json)
    ensures
        r@ == JsonV::Object(entries_view(entries@)),
{
    proof {
        lemma_object_view(entries);
    }
    Json::Object(entries)
}

/// An array with the given elements.
pub fn jarray(items: Vec<Json>) -> (r: Json)
    ensures
        r@ == JsonV::Array(seq_view(items@)),
{
    proof {
        lemma_array_view(items);
    }
    Json::Array(items)
}

/// A JSON string holding the characters of `s`.
pub fn jstr(s: &str) -> (r: Json)
    ensures
        r@ == JsonV::Str(s@),
{
    Json::Str(s.to_owned())
}

/// A JSON integer.
pub fn jint(n: i64) -> (r: Json)
    ensures
        r@ == JsonV::Int(n as int),
{
    Json::Int(n)
}

/// A JSON integer from an unsigned value.
pub fn juint(n: u64) -> (r: Json)
    ensures
        r@ == JsonV::Int(n as int),
{
    if n <= 9223372036854775807u64 {
        Json::Int(n as i64)
    } else {
        Json::UInt(n)
    }
}


/// The model of an optional value.
pub open spec fn opt_view(o: Option<Json>) -> Option<JsonV> {
    match o {
        Some(x) => Some(x@),
        None => None,
    }
}

/// A string value, when there is a text.
pub open spec fn str_value(o: Option<Seq<char>>) -> Option<JsonV> {
    match o {
        Some(s) => Some(JsonV::Str(s)),
        None => None,
    }
}

/// The models of a sequence of strings.
pub open spec fn strings_view(v: Seq<String>) -> Seq<Seq<char>> {
    Seq::new(v.len(), |i: int| v[i]@)
}

impl Json {
    /// A copy of the string under `key`, as a JSON string.
    pub fn get_str_value(&self, key: &str) -> (r: Option<Json>)
        ensures
            opt_view(r) == str_value(self@.get_str(key@)),
    {
        match self.get(key) {
            Some(v) => match v.as_str() {
                Some(s) => Some(jstr(s)),
                None => None,
            },
            None => None,
        }
    }

    /// A copy of the value under `key`.
    pub fn get_cloned(&self, key: &str) -> (r: Option<Json>)
        ensures
            opt_view(r) == self@.get(key@),
    {
        match self.get(key) {
            Some(v) => Some(v.deep_clone()),
            None => None,
        }
    }

    /// The string under `key`.
    pub fn get_str(&self, key: &str) -> (r: Option<&str>)
        ensures
            match r {
                Some(s) => self@.get_str(key@) == Some(s@),
                None => self@.get_str(key@) is None,
            },
    {
        match self.get(key) {
            Some(v) => v.as_str(),
            None => None,
        }
    }

    /// The array under `key`.
    pub fn get_array(&self, key: &str) -> (r: Option<&Vec<Json>>)
        ensures
            match r {
                Some(a) => self@.get_array(key@) == Some(seq_view(a@)),
                None => self@.get_array(key@) is None,
            },
    {
        match self.get(key) {
            Some(v) => v.as_array(),
            None => None,
        }
    }

    /// The integer under `key`, when it fits in `i64`.
    pub fn get_i64(&self, key: &str) -> (r: Option<i64>)
        ensures
            match r {
                Some(n) => self@.get_i64(key@) == Some(n as int),
                None => self@.get_i64(key@) is None,
            },
    {
        match self.get(key) {
            Some(v) => v.as_i64(),
            None => None,
        }
    }

    /// The integer under `key`, when it fits in `u64`.
    pub fn get_u64(&self, key: &str) -> (r: Option<u64>)
        ensures
            match r {
                Some(n) => self@.get_u64(key@) == Some(n as int),
                None => self@.get_u64(key@) is None,
            },
    {
        match self.get(key) {
            Some(v) => v.as_u64(),
            None => None,
        }
    }

    /// The boolean under `key`.
    pub fn get_bool(&self, key: &str) -> (r: Option<bool>)
        ensures
            r == self@.get_bool(key@),
    {
        match self.get(key) {
            Some(v) => v.as_bool(),
            None => None,
        }
    }
}

/// A JSON boolean.
pub fn jbool(b: bool) -> (r: Json)
    ensures
        r@ == JsonV::Bool(b),
{
    Json::Bool(b)
}

/// A JSON string holding one character.
pub fn jchar(c: char) -> (r: Json)
    ensures
        r@ == JsonV::Str(seq![c]),
{
    let mut s = String::new();
    crate::text::push_char(&mut s, c);
    assert(s@ =~= seq![c]);
    Json::Str(s)
}


/// The index of the first occurrence of `d` in `p`.
pub open spec fn first_index(p: Seq<Seq<char>>, d: Seq<char>) -> Option<int>
    decreases p.len(),
{
    if p.len() == 0 {
        None
    } else {
        match first_index(p.drop_last(), d) {
            Some(i) => Some(i),
            None => if p.last() == d {
                Some(p.len() - 1)
            } else {
                None
            },
        }
    }
}

pub proof fn lemma_first_index(p: Seq<Seq<char>>, d: Seq<char>, j: int)
    requires
        0 <= j <= p.len(),
        forall|k: int| 0 <= k < j ==> p[k] != d,
    ensures
        j < p.len() && p[j] == d ==> first_index(p, d) == Some(j),
        j == p.len() ==> first_index(p, d) is None,
    decreases p.len(),
{
    if p.len() > 0 {
        let q = p.drop_last();
        if j < p.len() {
            if j < q.len() {
                lemma_first_index(q, d, j);
            } else {
                lemma_first_index(q, d, j);
            }
        } else {
            lemma_first_index(q, d, q.len() as int);
        }
    }
}

/// The position of `d` in the list, if it is there.
pub fn position_of(pool: &Vec<String>, d: &str) -> (r: Option<usize>)
    ensures
        match r {
            Some(i) => first_index(strings_view(pool@), d@) == Some(i as int),
            None => first_index(strings_view(pool@), d@) is None,
        },
{
    let ghost p = strings_view(pool@);
    let mut j: usize = 0;
    while j < pool.len()
        invariant
            0 <= j <= pool@.len(),
            p == strings_view(pool@),
            forall|k: int| 0 <= k < j ==> p[k] != d@,
        decreases pool.len() - j,
    {
        if str_eq(pool[j].as_str(), d) {
            proof {
                lemma_first_index(p, d@, j as int);
            }
            return Some(j);
        }
        j = j + 1;
    }
    proof {
        lemma_first_index(p, d@, j as int);
    }
    None
}


pub proof fn lemma_first_index_contains(p: Seq<Seq<char>>, d: Seq<char>)
    ensures
        (first_index(p, d) is Some) == p.contains(d),
    decreases p.len(),
{
    if p.len() > 0 {
        let q = p.drop_last();
        lemma_first_index_contains(q, d);
        if q.contains(d) {
            let k = choose|k: int| 0 <= k < q.len() && q[k] == d;
            assert(p[k] == d);
        }
        if p.contains(d) && !q.contains(d) {
            let k = choose|k: int| 0 <= k < p.len() && p[k] == d;
            if k < q.len() {
                assert(q[k] == d);
            }
        }
    }
}


impl Json {
    /// The index of the first entry with the key, when this is an object.
    pub fn key_index(&self, key: &str) -> (r: Option<usize>)
        ensures
            match self {
                Json::Object(es) => match r {
                    Some(j) => j < es@.len() && find_key(entries_view(es@), key@) == Some(j as int),
                    None => find_key(entries_view(es@), key@) is None,
                },
                _ => r is None,
            },
    {
        match self {
            Json::Object(entries) => {
                let ghost ev = entries_view(entries@);
                assert(ev.skip(0) =~= ev);
                let mut i: usize = 0;
                while i < entries.len()
                    invariant
                        0 <= i <= entries.len(),
                        *self == Json::Object(*entries),
                        ev == entries_view(entries@),
                        find_key(ev, key@) == (match find_key(ev.skip(i as int), key@) {
                            Some(j) => Some(j + i),
                            None => None::<int>,
                        }),
                    decreases entries.len() - i,
                {
                    proof {
                        assert(ev.skip(i as int).drop_first() =~= ev.skip(i + 1));
                    }
                    if str_eq(entries[i].0.as_str(), key) {
                        assert(ev[i as int] == (entries@[i as int].0@, entries@[i as int].1@));
                        assert(ev.skip(i as int)[0] == ev[i as int]);
                        assert(find_key(ev.skip(i as int), key@) == Some(0int));
                        return Some(i);
                    }
                    i = i + 1;
                }
                proof {
                    assert(ev.skip(i as int).len() == 0);
                }
                None
            },
            _ => None,
        }
    }
}

/// Entries with `key` set to `v`: the first entry with the key replaced, or
/// a new entry at the end.
pub open spec fn set_key(es: Seq<(Seq<char>, JsonV)>, key: Seq<char>, v: JsonV) -> Seq<(Seq<char>, JsonV)> {
    match find_key(es, key) {
        Some(j) => es.update(j, (key, v)),
        None => es.push((key, v)),
    }
}

/// The index of the first entry with the key.
pub fn find_entry(entries: &Vec<(String, Json)>, key: &str) -> (r: Option<usize>)
    ensures
        match r {
            Some(j) => j < entries@.len() && find_key(entries_view(entries@), key@) == Some(j as int),
            None => find_key(entries_view(entries@), key@) is None,
        },
{
    let ghost ev = entries_view(entries@);
    let mut j: usize = 0;
    proof {
        assert(ev.skip(0) =~= ev);
    }
    while j < entries.len()
        invariant
            0 <= j <= entries@.len(),
            ev == entries_view(entries@),
            find_key(ev, key@) == (match find_key(ev.skip(j as int), key@) {
                Some(i) => Some(i + j),
                None => None::<int>,
            }),
        decreases entries.len() - j,
    {
        proof {
            assert(ev.skip(j as int).drop_first() =~= ev.skip(j + 1));
        }
        if str_eq(entries[j].0.as_str(), key) {
            proof {
                assert(ev[j as int] == (entries@[j as int].0@, entries@[j as int].1@));
                assert(ev.skip(j as int)[0] == ev[j as int]);
                assert(find_key(ev.skip(j as int), key@) == Some(0int));
            }
            return Some(j);
        }
        j = j + 1;
    }
    proof {
        assert(ev.skip(j as int).len() == 0);
    }
    None
}

/// Sets `key` in object entries.
pub fn set_entry(entries: &mut Vec<(String, Json)>, key: &str, v: Json)
    ensures
        entries_view(final(entries)@) == set_key(entries_view(old(entries)@), key@, v@),
{
    let ghost ev = entries_view(entries@);
    match find_entry(entries, key) {
        Some(j) => {
            let _ = entries.remove(j);
            entries.insert(j, (key.to_owned(), v));
            proof {
                assert(entries_view(entries@) =~= ev.update(j as int, (key@, v@)));
            }
        },
        None => {
            push_entry(entries, key, v);
        },
    }
}

/// Where `find_key` finds a key no earlier entry has it; when it finds none,
/// no entry has it.
pub proof fn lemma_find_key_first(es: Seq<(Seq<char>, JsonV)>, k: Seq<char>)
    ensures
        match find_key(es, k) {
            Some(j) => 0 <= j < es.len() && es[j].0 == k && forall|i: int| 0 <= i < j ==> (#[trigger] es[i]).0 != k,
            None => forall|i: int| 0 <= i < es.len() ==> (#[trigger] es[i]).0 != k,
        },
    decreases es.len(),
{
    if es.len() > 0 {
        let r = es.drop_first();
        lemma_find_key_first(r, k);
        assert forall|i: int| 0 < i < es.len() implies #[trigger] es[i] == r[i - 1] by {}
        match find_key(r, k) {
            Some(j) => {
                if es[0].0 != k {
                    assert forall|i: int| 0 <= i < j + 1 implies (#[trigger] es[i]).0 != k by {
                        if i > 0 {
                            assert(es[i] == r[i - 1]);
                        }
                    }
                }
            },
            None => {
                if es[0].0 != k {
                    assert forall|i: int| 0 <= i < es.len() implies (#[trigger] es[i]).0 != k by {
                        if i > 0 {
                            assert(es[i] == r[i - 1]);
                        }
                    }
                }
            },
        }
    }
}

/// Looking up a key that was just set gives the value it was set to.
pub proof fn lemma_set_key_get(es: Seq<(Seq<char>, JsonV)>, k: Seq<char>, v: JsonV)
    ensures
        entries_get(set_key(es, k, v), k) == Some(v),
{
    lemma_find_key_first(es, k);
    let s = set_key(es, k, v);
    lemma_find_key_first(s, k);
    match find_key(es, k) {
        Some(j) => {
            assert(s == es.update(j, (k, v)));
            assert(s[j].0 == k);
            match find_key(s, k) {
                Some(j2) => {
                    if j2 < j {
                        assert(s[j2] == es[j2]);
                    }
                    assert(j2 == j);
                },
                None => {
                    assert(s[j].0 != k);
                },
            }
        },
        None => {
            assert(s == es.push((k, v)));
            let n = es.len() as int;
            assert(s[n].0 == k);
            match find_key(s, k) {
                Some(j2) => {
                    if j2 < n {
                        assert(s[j2] == es[j2]);
                    }
                    assert(j2 == n);
                },
                None => {
                    assert(s[n].0 != k);
                },
            }
        },
    }
}

} // verus!
