//! Compression of `textDocument/hover` responses.
//!
//! Markdown is compacted (trailing spaces dropped, runs of blank lines
//! collapsed, code fences shortened), the markup kind becomes one letter, and
//! fields get short names: `contents`→`c`, `kind`→`k`, `value`→`v`,
//! `range`→`r`.
use vstd::prelude::*;

use crate::error::{protocol, LspzError};
use crate::interceptors::Direction;
use crate::json::{
    entries_view, jobject, jstr, opt_entry, opt_view, push_opt_entry, seq_view, str_value, Json,
    JsonV,
};
use crate::text::{
    chars_of, line_end, lemma_split_lines_nonempty, occurs_at, push_char, push_str, split_lines, str_eq,
    string_of_range, strip_cr, trim, trim_end, trim_end_range, trim_range,
};

verus! {

// ─── Markdown ──────────────────────────────────────────────────────────────

/// The state of the markdown pass: the text so far and whether the last
/// line was blank.
pub struct Markdown {
    pub out: Seq<char>,
    pub prev_blank: bool,
}

/// The opening of a code fence.
pub open spec fn fence_prefix() -> Seq<char> {
    seq!['`', '`', '`']
}

/// A line feed when another line follows.
pub open spec fn line_sep(has_next: bool) -> Seq<char> {
    if has_next {
        seq!['\n']
    } else {
        Seq::empty()
    }
}

/// One line of the markdown pass. The line loses its trailing whitespace; a
/// blank line after a blank line is dropped; a code fence "```lang" becomes
/// a backtick followed by the first two characters of the language.
pub open spec fn md_line(st: Markdown, line: Seq<char>, has_next: bool) -> Markdown {
    let t = trim_end(line);
    if t.len() == 0 {
        if st.prev_blank {
            st
        } else {
            Markdown { out: st.out.push('\n'), prev_blank: true }
        }
    } else if t.len() >= 3 && t.take(3) == fence_prefix() {
        let lang = trim(t.skip(3));
        let short = if lang.len() > 2 {
            lang.take(2)
        } else {
            lang
        };
        Markdown { out: st.out.push('`') + short + line_sep(has_next), prev_blank: false }
    } else {
        Markdown { out: st.out + t + line_sep(has_next), prev_blank: false }
    }
}

/// The markdown pass over the first `n` lines.
pub open spec fn md_fold(ls: Seq<Seq<char>>, n: int) -> Markdown
    decreases n,
{
    if n <= 0 {
        Markdown { out: Seq::empty(), prev_blank: false }
    } else {
        md_line(md_fold(ls, n - 1), ls[n - 1], n < ls.len())
    }
}

/// Compacted markdown.
pub open spec fn spec_compact_markdown(text: Seq<char>) -> Seq<char> {
    let ls = split_lines(text);
    md_fold(ls, ls.len() as int).out
}

/// Compacts markdown: trailing whitespace is dropped, runs of blank lines
/// become one, and a code fence "```lang" becomes a backtick and the first
/// two characters of the language.
pub fn compact_markdown(text: &str) -> (r: String)
    ensures
        r@ == spec_compact_markdown(text@),
{
    let v = chars_of(text);
    let ghost ls = split_lines(v@);
    let mut out = String::new();
    let mut prev_blank = false;
    let mut p: usize = 0;
    let ghost mut n: int = 0;
    proof {
        assert(v@.skip(0) =~= v@);
        assert(ls =~= ls.take(0) + split_lines(v@.skip(0)));
    }
    while p < v.len()
        invariant
            0 <= p <= v.len(),
            v@ == text@,
            ls == split_lines(v@),
            0 <= n <= ls.len(),
            ls == ls.take(n) + split_lines(v@.skip(p as int)),
            md_fold(ls, n) == (Markdown { out: out@, prev_blank }),
        decreases v.len() - p,
    {
        let e = line_end(&v, p);
        let ghost s = v@.skip(p as int);
        let mut le = e;
        if e < v.len() && e > p && v[e - 1] == '\r' {
            le = e - 1;
        }
        let ghost rest = if e < v.len() {
            split_lines(v@.skip(e + 1))
        } else {
            Seq::empty()
        };
        proof {
            let line = v@.subrange(p as int, le as int);
            if e < v.len() {
                assert(s.take(e - p) =~= v@.subrange(p as int, e as int));
                if e > p && v@[e - 1] == '\r' {
                    assert(strip_cr(s.take(e - p)) =~= line);
                } else {
                    assert(strip_cr(s.take(e - p)) =~= line);
                }
                assert(s.skip(e - p + 1) =~= v@.skip(e + 1));
                assert(split_lines(s) == seq![line] + rest);
                lemma_split_lines_nonempty(v@.skip(e + 1));
            } else {
                assert(s.len() > 0);
                assert(s =~= line);
                assert(split_lines(s) == seq![line] + rest);
            }
            assert(ls[n] == line);
            assert(ls =~= ls.take(n + 1) + rest);
        }
        let has_next = e < v.len() && e + 1 < v.len();
        proof {
            if e < v.len() {
                assert(v@.skip(e + 1).len() == v.len() - e - 1);
            }
            assert(has_next == (n + 1 < ls.len()));
        }
        let te = trim_end_range(&v, p, le);
        if te == p {
            if !prev_blank {
                push_char(&mut out, '\n');
                prev_blank = true;
            }
        } else {
            prev_blank = false;
            if te - p >= 3 && v[p] == '`' && v[p + 1] == '`' && v[p + 2] == '`' {
                let ghost t = v@.subrange(p as int, te as int);
                proof {
                    assert(t.take(3) =~= fence_prefix());
                    assert(t.skip(3) =~= v@.subrange(p + 3, te as int));
                }
                let (a, b) = trim_range(&v, p + 3, te);
                push_char(&mut out, '`');
                let stop = if b - a > 2 {
                    a + 2
                } else {
                    b
                };
                let short = string_of_range(&v, a, stop);
                proof {
                    let lang = v@.subrange(a as int, b as int);
                    if b - a > 2 {
                        assert(lang.take(2) =~= short@);
                    } else {
                        assert(lang =~= short@);
                    }
                }
                push_str(&mut out, short.as_str());
            } else {
                proof {
                    let t = v@.subrange(p as int, te as int);
                    if t.len() >= 3 {
                        assert(t.take(3) != fence_prefix()) by {
                            if t.take(3) == fence_prefix() {
                                assert(t.take(3)[0] == v@[p as int]);
                                assert(t.take(3)[1] == v@[p + 1]);
                                assert(t.take(3)[2] == v@[p + 2]);
                            }
                        }
                    }
                }
                let line_text = string_of_range(&v, p, te);
                push_str(&mut out, line_text.as_str());
            }
            if has_next {
                push_char(&mut out, '\n');
            }
        }
        proof {
            let line = v@.subrange(p as int, le as int);
            assert(md_fold(ls, n + 1) == md_line(md_fold(ls, n), ls[n], n + 1 < ls.len()));
            assert(md_fold(ls, n + 1).out =~= out@);
            n = n + 1;
        }
        p = if e < v.len() {
            e + 1
        } else {
            v.len()
        };
    }
    proof {
        assert(v@.skip(p as int) =~= Seq::<char>::empty());
        assert(split_lines(Seq::<char>::empty()) =~= Seq::<Seq<char>>::empty());
        assert(ls.take(n) =~= ls);
    }
    out
}

/// A step of the markdown pass only appends to the text.
proof fn lemma_md_line_extends(st: Markdown, line: Seq<char>, has_next: bool)
    ensures
        md_line(st, line, has_next).out.len() >= st.out.len(),
        md_line(st, line, has_next).out.take(st.out.len() as int) == st.out,
{
    let r = md_line(st, line, has_next);
    assert(r.out.take(st.out.len() as int) =~= st.out);
}

/// The text after the first `a` lines is the start of the text after `b`.
proof fn lemma_md_prefix(ls: Seq<Seq<char>>, a: int, b: int)
    requires
        0 <= a <= b <= ls.len(),
    ensures
        md_fold(ls, b).out.len() >= md_fold(ls, a).out.len(),
        md_fold(ls, b).out.take(md_fold(ls, a).out.len() as int) == md_fold(ls, a).out,
    decreases b - a,
{
    if a < b {
        lemma_md_prefix(ls, a, b - 1);
        lemma_md_line_extends(md_fold(ls, b - 1), ls[b - 1], b < ls.len());
        let x = md_fold(ls, a).out;
        let y = md_fold(ls, b - 1).out;
        let z = md_fold(ls, b).out;
        assert(z.take(x.len() as int) =~= y.take(x.len() as int)) by {
            assert forall|i: int| 0 <= i < x.len() implies z[i] == y[i] by {
                assert(z.take(y.len() as int)[i] == y[i]);
            }
        }
    }
}

/// Before the last line, the text so far is empty or ends a line.
proof fn lemma_md_line_start(ls: Seq<Seq<char>>, n: int)
    requires
        0 <= n < ls.len(),
    ensures
        md_fold(ls, n).out.len() == 0 || md_fold(ls, n).out.last() == '\n',
    decreases n,
{
    if n > 0 {
        lemma_md_line_start(ls, n - 1);
    }
}

/// Compacting markdown keeps every line that is neither blank nor a code
/// fence, with only its trailing whitespace removed (its indentation kept),
/// as a whole line of the output.
pub proof fn lemma_markdown_keeps_lines(text: Seq<char>, j: int)
    requires
        0 <= j < split_lines(text).len(),
        trim_end(split_lines(text)[j]).len() > 0,
        !(trim_end(split_lines(text)[j]).len() >= 3 && trim_end(split_lines(text)[j]).take(3) == seq![
            '`',
            '`',
            '`',
        ]),
    ensures
        exists|at: int|
            occurs_at(spec_compact_markdown(text), trim_end(split_lines(text)[j]), at) && (at == 0
                || spec_compact_markdown(text)[at - 1] == '\n') && (at + trim_end(split_lines(text)[j]).len()
                == spec_compact_markdown(text).len() || spec_compact_markdown(text)[at + trim_end(
                split_lines(text)[j],
            ).len()] == '\n'),
{
    let ls = split_lines(text);
    let n = ls.len() as int;
    let line = ls[j];
    let t = trim_end(line);
    let st = md_fold(ls, j);
    let st2 = md_fold(ls, j + 1);
    assert(fence_prefix() == seq!['`', '`', '`']);
    assert(st2.out == st.out + t + line_sep(j + 1 < n));
    let out = spec_compact_markdown(text);
    assert(out == md_fold(ls, n).out);
    lemma_md_prefix(ls, j + 1, n);
    lemma_md_line_start(ls, j);
    let at = st.out.len() as int;
    assert forall|i: int| 0 <= i < st2.out.len() implies out[i] == st2.out[i] by {
        assert(out.take(st2.out.len() as int)[i] == st2.out[i]);
    }
    assert(out.subrange(at, at + t.len()) =~= t) by {
        assert forall|i: int| 0 <= i < t.len() implies out.subrange(at, at + t.len())[i] == t[i] by {
            assert(st2.out[at + i] == t[i]);
        }
    }
    assert(occurs_at(out, t, at));
    if at > 0 {
        assert(out[at - 1] == st2.out[at - 1]);
        assert(st2.out[at - 1] == st.out[at - 1]);
    }
    if j + 1 < n {
        assert(st2.out[at + t.len()] == '\n');
    } else {
        assert(out == st2.out);
    }
}

// ─── Hover values ──────────────────────────────────────────────────────────

/// The one-letter markup kind: `markdown`→`m`, `plaintext`→`p`; any other
/// kind stays.
pub open spec fn markup_kind_code(k: Seq<char>) -> Seq<char> {
    if k == "markdown"@ {
        "m"@
    } else if k == "plaintext"@ {
        "p"@
    } else {
        k
    }
}

/// The one-letter markup kind.
pub fn encode_markup_kind(kind: &str) -> (r: &str)
    ensures
        r@ == markup_kind_code(kind@),
{
    if str_eq(kind, "markdown") {
        "m"
    } else if str_eq(kind, "plaintext") {
        "p"
    } else {
        kind
    }
}

/// A position `{line, character}` as `{l, c}`; anything else stays.
pub open spec fn compact_position(p: JsonV) -> JsonV {
    match p {
        JsonV::Object(_) => JsonV::Object(
            opt_entry("l"@, p.get("line"@)) + opt_entry("c"@, p.get("character"@)),
        ),
        _ => p,
    }
}

/// A range `{start, end}` as `{s, e}`; anything else stays.
pub open spec fn compact_range(r: JsonV) -> JsonV {
    match r {
        JsonV::Object(_) => JsonV::Object(
            opt_entry(
                "s"@,
                match r.get("start"@) {
                    Some(x) => Some(compact_position(x)),
                    None => None,
                },
            ) + opt_entry(
                "e"@,
                match r.get("end"@) {
                    Some(x) => Some(compact_position(x)),
                    None => None,
                },
            ),
        ),
        _ => r,
    }
}

/// Compacts a position.
pub fn compress_position(pos: &Json) -> (r: Json)
    ensures
        r@ == compact_position(pos@),
{
    match pos {
        Json::Object(_) => {
            let mut c: Vec<(String, Json)> = Vec::new();
            push_opt_entry(&mut c, "l", pos.get_cloned("line"));
            push_opt_entry(&mut c, "c", pos.get_cloned("character"));
            proof {
                assert(entries_view(c@) =~= opt_entry("l"@, pos@.get("line"@)) + opt_entry(
                    "c"@,
                    pos@.get("character"@),
                ));
            }
            jobject(c)
        },
        _ => pos.deep_clone(),
    }
}

/// Compacts a range.
pub fn compress_range(range: &Json) -> (r: Json)
    ensures
        r@ == compact_range(range@),
{
    match range {
        Json::Object(_) => {
            let mut c: Vec<(String, Json)> = Vec::new();
            let s = match range.get("start") {
                Some(x) => Some(compress_position(x)),
                None => None,
            };
            push_opt_entry(&mut c, "s", s);
            let e = match range.get("end") {
                Some(x) => Some(compress_position(x)),
                None => None,
            };
            push_opt_entry(&mut c, "e", e);
            let r = jobject(c);
            proof {
                assert(r@ =~= compact_range(range@));
            }
            r
        },
        _ => range.deep_clone(),
    }
}

/// The compact `contents` of a hover: markup content `{kind, value}` as
/// `{k, v}` (the value compacted when asked), a marked string
/// `{language, value}` as `{l, v}`, arrays item by item; anything else
/// stays.
pub open spec fn compact_contents(c: JsonV, md: bool) -> JsonV
    decreases c,
{
    match c {
        JsonV::Object(_) => if c.has_key("kind"@) {
            JsonV::Object(
                opt_entry(
                    "k"@,
                    match c.get_str("kind"@) {
                        Some(k) => Some(JsonV::Str(markup_kind_code(k))),
                        None => None,
                    },
                ) + opt_entry(
                    "v"@,
                    match c.get_str("value"@) {
                        Some(v) => Some(
                            JsonV::Str(
                                if md {
                                    spec_compact_markdown(v)
                                } else {
                                    v
                                },
                            ),
                        ),
                        None => None,
                    },
                ),
            )
        } else if c.has_key("language"@) {
            JsonV::Object(
                opt_entry("l"@, str_value(c.get_str("language"@))) + opt_entry(
                    "v"@,
                    str_value(c.get_str("value"@)),
                ),
            )
        } else {
            c
        },
        JsonV::Array(items) => JsonV::Array(
            Seq::new(
                items.len(),
                |i: int|
                    if 0 <= i < items.len() {
                        compact_contents(items[i], md)
                    } else {
                        JsonV::Null
                    },
            ),
        ),
        _ => c,
    }
}

/// Compacts the `contents` of a hover.
pub fn compress_contents(contents: &Json, markdown_compact: bool) -> (r: Json)
    ensures
        r@ == compact_contents(contents@, markdown_compact),
    decreases contents,
{
    match contents {
        Json::Object(_) => {
            if contents.contains_key("kind") {
                let mut c: Vec<(String, Json)> = Vec::new();
                let k = match contents.get_str("kind") {
                    Some(k) => Some(jstr(encode_markup_kind(k))),
                    None => None,
                };
                push_opt_entry(&mut c, "k", k);
                let v = match contents.get_str("value") {
                    Some(v) => if markdown_compact {
                        let m = compact_markdown(v);
                        Some(jstr(m.as_str()))
                    } else {
                        Some(jstr(v))
                    },
                    None => None,
                };
                push_opt_entry(&mut c, "v", v);
                let r = jobject(c);
                proof {
                    assert(r@ =~= compact_contents(contents@, markdown_compact));
                }
                r
            } else if contents.contains_key("language") {
                let mut c: Vec<(String, Json)> = Vec::new();
                push_opt_entry(&mut c, "l", contents.get_str_value("language"));
                push_opt_entry(&mut c, "v", contents.get_str_value("value"));
                let r = jobject(c);
                proof {
                    assert(r@ =~= compact_contents(contents@, markdown_compact));
                }
                r
            } else {
                contents.deep_clone()
            }
        },
        Json::Array(items) => {
            let mut out: Vec<Json> = Vec::new();
            let mut i: usize = 0;
            while i < items.len()
                invariant
                    0 <= i <= items.len(),
                    *contents == Json::Array(*items),
                    out@.len() == i,
                    forall|k: int| 0 <= k < i ==> #[trigger] out@[k]@ == compact_contents(
                        items@[k]@,
                        markdown_compact,
                    ),
                decreases items.len() - i,
            {
                proof {
                    vstd::std_specs::vec::axiom_vec_index_decreases(*items, i as int);
                    assert(decreases_to!(*contents => contents->Array_0));
                    assert(decreases_to!(*items => items[i as int]));
                }
                out.push(compress_contents(&items[i], markdown_compact));
                i = i + 1;
            }
            proof {
                crate::json::lemma_array_view(*items);
            }
            let r = crate::json::jarray(out);
            proof {
                let iv = seq_view(items@);
                assert(contents@ == JsonV::Array(iv));
                let target = Seq::new(
                    iv.len(),
                    |i: int|
                        if 0 <= i < iv.len() {
                            compact_contents(iv[i], markdown_compact)
                        } else {
                            JsonV::Null
                        },
                );
                let cc = compact_contents(JsonV::Array(iv), markdown_compact);
                assert(cc is Array);
                assert(cc->Array_0.len() == iv.len());
                assert forall|i: int| 0 <= i < iv.len() implies #[trigger] cc->Array_0[i]
                    == seq_view(out@)[i] by {
                    assert(cc->Array_0[i] == compact_contents(iv[i], markdown_compact));
                }
                assert(cc->Array_0 =~= seq_view(out@));
            }
            r
        },
        _ => contents.deep_clone(),
    }
}

/// The compact form of a hover object: its compacted contents under `c` and
/// its compacted range under `r`. `None` when the value is not an object.
pub open spec fn spec_compress_hover(p: JsonV, md: bool) -> Option<JsonV> {
    match p {
        JsonV::Object(_) => Some(
            JsonV::Object(
                opt_entry(
                    "c"@,
                    match p.get("contents"@) {
                        Some(c) => Some(compact_contents(c, md)),
                        None => None,
                    },
                ) + opt_entry(
                    "r"@,
                    match p.get("range"@) {
                        Some(r) => Some(compact_range(r)),
                        None => None,
                    },
                ),
            ),
        ),
        _ => None,
    }
}

/// Compresses a hover response; a protocol error when it is not an object.
pub fn compress_hover(params: &Json, markdown_compact: bool) -> (r: Result<Json, LspzError>)
    ensures
        match spec_compress_hover(params@, markdown_compact) {
            Some(v) => r matches Ok(j) && j@ == v,
            None => r matches Err(LspzError::Protocol(m)) && m@ == "hover params not an object"@,
        },
{
    match params {
        Json::Object(_) => {
            let mut c: Vec<(String, Json)> = Vec::new();
            let contents = match params.get("contents") {
                Some(x) => Some(compress_contents(x, markdown_compact)),
                None => None,
            };
            push_opt_entry(&mut c, "c", contents);
            let range = match params.get("range") {
                Some(x) => Some(compress_range(x)),
                None => None,
            };
            push_opt_entry(&mut c, "r", range);
            let r = jobject(c);
            proof {
                assert(r@ =~= spec_compress_hover(params@, markdown_compact).unwrap());
            }
            Ok(r)
        },
        _ => Err(protocol("hover params not an object")),
    }
}

/// Compresses `textDocument/hover` responses.
pub struct HoverCompressor {
    /// Whether markdown is compacted (on by default).
    pub enable_markdown_compact: bool,
}

impl Default for HoverCompressor {
    fn default() -> (r: HoverCompressor)
        ensures
            r.enable_markdown_compact,
    {
        HoverCompressor { enable_markdown_compact: true }
    }
}

impl HoverCompressor {
    /// The name under which the compressor is logged.
    pub fn name(&self) -> (r: &'static str)
        ensures
            r@ == "hover_compressor"@,
    {
        "hover_compressor"
    }

    /// Whether the compressor rewrites a message: hover responses from the
    /// server.
    pub fn applies_to(&self, method: &str, direction: Direction) -> (r: bool)
        ensures
            r == (method@ == "textDocument/hover"@ && direction == Direction::ServerToClient),
    {
        str_eq(method, "textDocument/hover") && direction == Direction::ServerToClient
    }

    /// Compresses a hover response (see [`compress_hover`]).
    pub fn intercept(&self, method: &str, params: Json, direction: Direction) -> (r: Result<
        Option<Json>,
        LspzError,
    >)
        ensures
            match spec_compress_hover(params@, self.enable_markdown_compact) {
                Some(v) => r matches Ok(Some(j)) && j@ == v,
                None => r matches Err(LspzError::Protocol(m)) && m@ == "hover params not an object"@,
            },
    {
        match compress_hover(&params, self.enable_markdown_compact) {
            Ok(j) => Ok(Some(j)),
            Err(e) => Err(e),
        }
    }
}

} // verus!
