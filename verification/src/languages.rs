//! The built-in mappings from languages to language servers.
use vstd::prelude::*;

use crate::text::{push_str, str_eq};

verus! {

/// A language and the server that handles it.
pub struct LanguageMapping {
    /// The language identifier.
    pub language: &'static str,
    /// The file extensions of the language.
    pub extensions: Vec<&'static str>,
    /// The server binary.
    pub backend: &'static str,
    /// The arguments the server needs to talk over stdio.
    pub spawn_args: Vec<&'static str>,
    /// Extra arguments users may override.
    pub default_args: Vec<&'static str>,
}

/// The model of a mapping.
#[verifier::ext_equal]
pub struct MappingV {
    pub language: Seq<char>,
    pub extensions: Seq<Seq<char>>,
    pub backend: Seq<char>,
    pub spawn_args: Seq<Seq<char>>,
    pub default_args: Seq<Seq<char>>,
}

/// The texts of a list of string slices.
pub open spec fn strs_view(v: Seq<&'static str>) -> Seq<Seq<char>> {
    Seq::new(v.len(), |i: int| v[i]@)
}

impl LanguageMapping {
    pub open spec fn view(self) -> MappingV {
        MappingV {
            language: self.language@,
            extensions: strs_view(self.extensions@),
            backend: self.backend@,
            spawn_args: strs_view(self.spawn_args@),
            default_args: strs_view(self.default_args@),
        }
    }
}

/// The models of some mappings.
pub open spec fn mappings_view(v: Seq<LanguageMapping>) -> Seq<MappingV> {
    Seq::new(v.len(), |i: int| v[i].view())
}

/// The built-in mappings, in order.
pub open spec fn default_table() -> Seq<MappingV> {
    seq![
        MappingV {
            language: "rust"@,
            extensions: seq!["rs"@],
            backend: "rust-analyzer"@,
            spawn_args: Seq::empty(),
            default_args: Seq::empty(),
        },
        MappingV {
            language: "go"@,
            extensions: seq!["go"@],
            backend: "gopls"@,
            spawn_args: Seq::empty(),
            default_args: Seq::empty(),
        },
        MappingV {
            language: "typescript"@,
            extensions: seq!["ts"@, "tsx"@],
            backend: "typescript-language-server"@,
            spawn_args: seq!["--stdio"@],
            default_args: Seq::empty(),
        },
        MappingV {
            language: "javascript"@,
            extensions: seq!["js"@, "jsx"@],
            backend: "typescript-language-server"@,
            spawn_args: seq!["--stdio"@],
            default_args: Seq::empty(),
        },
        MappingV {
            language: "python"@,
            extensions: seq!["py"@],
            backend: "basedpyright-langserver"@,
            spawn_args: seq!["--stdio"@],
            default_args: Seq::empty(),
        },
        MappingV {
            language: "c"@,
            extensions: seq!["c"@, "h"@],
            backend: "clangd"@,
            spawn_args: Seq::empty(),
            default_args: Seq::empty(),
        },
        MappingV {
            language: "cpp"@,
            extensions: seq!["cpp"@, "cc"@, "cxx"@, "hpp"@, "hxx"@],
            backend: "clangd"@,
            spawn_args: Seq::empty(),
            default_args: Seq::empty(),
        },
    ]
}

/// A list of string slices.
fn strs(items: &[&'static str]) -> (r: Vec<&'static str>)
    ensures
        r@ == items@,
{
    let mut v: Vec<&'static str> = Vec::new();
    let mut i: usize = 0;
    while i < items.len()
        invariant
            0 <= i <= items@.len(),
            v@ == items@.take(i as int),
        decreases items.len() - i,
    {
        v.push(items[i]);
        i = i + 1;
        assert(v@ =~= items@.take(i as int));
    }
    assert(items@.take(i as int) =~= items@);
    v
}

/// The built-in mappings: Rust, Go, TypeScript, JavaScript, Python, C, C++.
pub fn default_languages() -> (r: Vec<LanguageMapping>)
    ensures
        mappings_view(r@) == default_table(),
{
    let mut v: Vec<LanguageMapping> = Vec::new();
    v.push(LanguageMapping {
        language: "rust",
        extensions: strs(&["rs"]),
        backend: "rust-analyzer",
        spawn_args: Vec::new(),
        default_args: strs(&[]),
    });
    v.push(LanguageMapping {
        language: "go",
        extensions: strs(&["go"]),
        backend: "gopls",
        spawn_args: Vec::new(),
        default_args: strs(&[]),
    });
    v.push(LanguageMapping {
        language: "typescript",
        extensions: strs(&["ts", "tsx"]),
        backend: "typescript-language-server",
        spawn_args: strs(&["--stdio"]),
        default_args: strs(&[]),
    });
    v.push(LanguageMapping {
        language: "javascript",
        extensions: strs(&["js", "jsx"]),
        backend: "typescript-language-server",
        spawn_args: strs(&["--stdio"]),
        default_args: strs(&[]),
    });
    v.push(LanguageMapping {
        language: "python",
        extensions: strs(&["py"]),
        backend: "basedpyright-langserver",
        spawn_args: strs(&["--stdio"]),
        default_args: strs(&[]),
    });
    v.push(LanguageMapping {
        language: "c",
        extensions: strs(&["c", "h"]),
        backend: "clangd",
        spawn_args: Vec::new(),
        default_args: strs(&[]),
    });
    v.push(LanguageMapping {
        language: "cpp",
        extensions: strs(&["cpp", "cc", "cxx", "hpp", "hxx"]),
        backend: "clangd",
        spawn_args: Vec::new(),
        default_args: strs(&[]),
    });
    proof {
        let t = default_table();
        let mv = mappings_view(v@);
        assert forall|i: int| 0 <= i < 7 implies #[trigger] mv[i] =~= t[i] by {
            assert(mv[i] == v@[i].view());
            assert(strs_view(v@[i].extensions@) =~= t[i].extensions);
            assert(strs_view(v@[i].spawn_args@) =~= t[i].spawn_args);
            assert(strs_view(v@[i].default_args@) =~= t[i].default_args);
        }
        assert(mv =~= t);
    }
    v
}

/// The index of the first mapping with the extension.
pub open spec fn mapping_for(table: Seq<MappingV>, ext: Seq<char>) -> Option<int>
    decreases table.len(),
{
    if table.len() == 0 {
        None
    } else {
        match mapping_for(table.drop_last(), ext) {
            Some(i) => Some(i),
            None => if table.last().extensions.contains(ext) {
                Some(table.len() - 1)
            } else {
                None
            },
        }
    }
}

/// Texts joined with a separator.
pub open spec fn join(parts: Seq<Seq<char>>, sep: Seq<char>) -> Seq<char>
    decreases parts.len(),
{
    if parts.len() == 0 {
        Seq::empty()
    } else if parts.len() == 1 {
        parts[0]
    } else {
        join(parts.drop_last(), sep) + sep + parts.last()
    }
}

/// The command that starts a mapping's server: the binary, then its stdio
/// arguments separated by spaces.
pub open spec fn spec_spawn_cmd(m: MappingV) -> Seq<char> {
    if m.spawn_args.len() == 0 {
        m.backend
    } else {
        m.backend + " "@ + join(m.spawn_args, " "@)
    }
}

/// Joins string slices with a separator.
pub fn join_strs(parts: &Vec<&'static str>, sep: &str) -> (r: String)
    ensures
        r@ == join(strs_view(parts@), sep@),
{
    let ghost pv = strs_view(parts@);
    let mut out = String::new();
    let mut i: usize = 0;
    while i < parts.len()
        invariant
            0 <= i <= parts@.len(),
            pv == strs_view(parts@),
            out@ == join(pv.take(i as int), sep@),
        decreases parts.len() - i,
    {
        proof {
            assert(pv.take(i + 1).drop_last() =~= pv.take(i as int));
            assert(pv[i as int] == parts@[i as int]@);
        }
        if i > 0 {
            push_str(&mut out, sep);
        }
        push_str(&mut out, parts[i]);
        i = i + 1;
        proof {
            if i == 1 {
                assert(out@ =~= join(pv.take(i as int), sep@));
            } else {
                assert(out@ =~= join(pv.take(i as int), sep@));
            }
        }
    }
    proof {
        assert(pv.take(i as int) =~= pv);
    }
    out
}

/// The command that starts a mapping's server.
pub fn spawn_cmd(mapping: &LanguageMapping) -> (r: String)
    ensures
        r@ == spec_spawn_cmd(mapping.view()),
{
    if mapping.spawn_args.len() == 0 {
        mapping.backend.to_owned()
    } else {
        let mut out = mapping.backend.to_owned();
        push_str(&mut out, " ");
        let args = join_strs(&mapping.spawn_args, " ");
        push_str(&mut out, args.as_str());
        out
    }
}

/// Whether a list of string slices holds `ext`.
fn has_ext(exts: &Vec<&'static str>, ext: &str) -> (r: bool)
    ensures
        r == strs_view(exts@).contains(ext@),
{
    let ghost ev = strs_view(exts@);
    let mut i: usize = 0;
    while i < exts.len()
        invariant
            0 <= i <= exts@.len(),
            ev == strs_view(exts@),
            forall|k: int| 0 <= k < i ==> ev[k] != ext@,
        decreases exts.len() - i,
    {
        if str_eq(exts[i], ext) {
            proof {
                assert(ev[i as int] == ext@);
            }
            return true;
        }
        i = i + 1;
    }
    false
}

proof fn lemma_mapping_for(t: Seq<MappingV>, ext: Seq<char>, j: int)
    requires
        0 <= j <= t.len(),
        forall|k: int| 0 <= k < j ==> !(#[trigger] t[k]).extensions.contains(ext),
    ensures
        j < t.len() && t[j].extensions.contains(ext) ==> mapping_for(t, ext) == Some(j),
        j == t.len() ==> mapping_for(t, ext) is None,
    decreases t.len(),
{
    if t.len() > 0 {
        let q = t.drop_last();
        if j < t.len() {
            lemma_mapping_for(q, ext, if j < q.len() { j } else { q.len() as int });
            if j < q.len() {
                assert(q[j] == t[j]);
            }
        } else {
            lemma_mapping_for(q, ext, q.len() as int);
        }
    }
}

/// The position of the first built-in mapping with the extension.
fn find_mapping(table: &Vec<LanguageMapping>, ext: &str) -> (r: Option<usize>)
    ensures
        match r {
            Some(i) => i < table@.len() && mapping_for(mappings_view(table@), ext@) == Some(i as int),
            None => mapping_for(mappings_view(table@), ext@) is None,
        },
{
    let ghost tv = mappings_view(table@);
    let mut i: usize = 0;
    while i < table.len()
        invariant
            0 <= i <= table@.len(),
            tv == mappings_view(table@),
            forall|k: int| 0 <= k < i ==> !(#[trigger] tv[k]).extensions.contains(ext@),
        decreases table.len() - i,
    {
        if has_ext(&table[i].extensions, ext) {
            proof {
                assert(tv[i as int] == table@[i as int].view());
                lemma_mapping_for(tv, ext@, i as int);
            }
            return Some(i);
        }
        proof {
            assert(tv[i as int] == table@[i as int].view());
        }
        i = i + 1;
    }
    proof {
        lemma_mapping_for(tv, ext@, i as int);
    }
    None
}

/// The language of a file extension and the command that starts its server.
pub fn lookup_by_extension(ext: &str) -> (r: Option<(&'static str, String)>)
    ensures
        match mapping_for(default_table(), ext@) {
            Some(i) => r matches Some((l, c)) && l@ == default_table()[i].language && c@ == spec_spawn_cmd(
                default_table()[i],
            ),
            None => r is None,
        },
{
    let table = default_languages();
    match find_mapping(&table, ext) {
        Some(i) => {
            let m = &table[i];
            proof {
                assert(mappings_view(table@)[i as int] == m.view());
            }
            Some((m.language, spawn_cmd(m)))
        },
        None => None,
    }
}

/// The default extra arguments for a file extension (none when it is not
/// known).
pub fn default_args_by_extension(ext: &str) -> (r: Vec<&'static str>)
    ensures
        strs_view(r@) == match mapping_for(default_table(), ext@) {
            Some(i) => default_table()[i].default_args,
            None => Seq::empty(),
        },
{
    let table = default_languages();
    match find_mapping(&table, ext) {
        Some(i) => {
            let mut out: Vec<&'static str> = Vec::new();
            let mut k: usize = 0;
            while k < table[i].default_args.len()
                invariant
                    i < table@.len(),
                    0 <= k <= table@[i as int].default_args@.len(),
                    out@ == table@[i as int].default_args@.take(k as int),
                decreases table@[i as int].default_args@.len() - k,
            {
                out.push(table[i].default_args[k]);
                k = k + 1;
                assert(out@ =~= table@[i as int].default_args@.take(k as int));
            }
            proof {
                assert(out@ =~= table@[i as int].default_args@);
                assert(mappings_view(table@)[i as int] == table@[i as int].view());
            }
            out
        },
        None => {
            let out: Vec<&'static str> = Vec::new();
            proof {
                assert(strs_view(out@) =~= Seq::<Seq<char>>::empty());
            }
            out
        },
    }
}

/// The extensions of a mapping written `.ext`, separated by commas.
pub open spec fn dotted(exts: Seq<Seq<char>>) -> Seq<Seq<char>> {
    Seq::new(exts.len(), |i: int| "."@ + exts[i])
}

/// One row of the language table.
pub open spec fn table_row(m: MappingV, available: bool) -> Seq<char> {
    "| "@ + join(dotted(m.extensions), ", "@) + " | `"@ + m.language + "` | `"@ + m.backend + "` | "@
        + (if available {
        "ok"@
    } else {
        "not installed"@
    }) + " |"@
}

/// The rows of the language table.
pub open spec fn table_rows(t: Seq<MappingV>, available: Seq<bool>) -> Seq<char>
    decreases t.len(),
{
    if t.len() == 0 {
        Seq::empty()
    } else {
        table_rows(t.drop_last(), available) + "\n"@ + table_row(t.last(), available[t.len() - 1])
    }
}

/// The markdown table of the built-in mappings, with whether each server is
/// installed (`available[i]` for the `i`-th mapping).
pub open spec fn spec_language_table(available: Seq<bool>) -> Seq<char> {
    "| Extensions | Language | Backend | Status |"@ + "\n"@ + "|---|---|---|---|"@ + table_rows(
        default_table(),
        available,
    )
}

/// The `.ext` list of a mapping.
fn dotted_exts(exts: &Vec<&'static str>) -> (r: String)
    ensures
        r@ == join(dotted(strs_view(exts@)), ", "@),
{
    let ghost ev = dotted(strs_view(exts@));
    let mut out = String::new();
    let mut i: usize = 0;
    while i < exts.len()
        invariant
            0 <= i <= exts@.len(),
            ev == dotted(strs_view(exts@)),
            out@ == join(ev.take(i as int), ", "@),
        decreases exts.len() - i,
    {
        proof {
            assert(ev.take(i + 1).drop_last() =~= ev.take(i as int));
            assert(ev[i as int] == "."@ + exts@[i as int]@);
        }
        if i > 0 {
            push_str(&mut out, ", ");
        }
        push_str(&mut out, ".");
        push_str(&mut out, exts[i]);
        i = i + 1;
        proof {
            assert(out@ =~= join(ev.take(i as int), ", "@));
        }
    }
    proof {
        assert(ev.take(i as int) =~= ev);
    }
    out
}

/// Appends a line feed and one row of the language table.
fn push_table_row(out: &mut String, m: &LanguageMapping, available: bool)
    ensures
        final(out)@ == old(out)@ + "\n"@ + table_row(m.view(), available),
{
    let exts = dotted_exts(&m.extensions);
    push_str(out, "\n");
    push_str(out, "| ");
    push_str(out, exts.as_str());
    push_str(out, " | `");
    push_str(out, m.language);
    push_str(out, "` | `");
    push_str(out, m.backend);
    push_str(out, "` | ");
    push_str(out, if available { "ok" } else { "not installed" });
    push_str(out, " |");
    proof {
        assert(out@ =~= old(out)@ + "\n"@ + table_row(m.view(), available));
    }
}

/// The markdown table of the built-in mappings; `available[i]` tells whether
/// the server of the `i`-th mapping is installed.
pub fn generate_language_table(available: &[bool]) -> (r: String)
    requires
        available@.len() == default_table().len(),
    ensures
        r@ == spec_language_table(available@),
{
    let table = default_languages();
    let ghost tv = mappings_view(table@);
    let mut out = "| Extensions | Language | Backend | Status |".to_owned();
    push_str(&mut out, "\n");
    push_str(&mut out, "|---|---|---|---|");
    let ghost head = out@;
    let mut i: usize = 0;
    while i < table.len()
        invariant
            0 <= i <= table@.len(),
            tv == mappings_view(table@),
            tv == default_table(),
            available@.len() == tv.len(),
            out@ == head + table_rows(tv.take(i as int), available@),
        decreases table.len() - i,
    {
        let m = &table[i];
        push_table_row(&mut out, m, available[i]);
        proof {
            assert(tv[i as int] == m.view());
            assert(tv.take(i + 1).drop_last() =~= tv.take(i as int));
        }
        i = i + 1;
        assert(out@ =~= head + table_rows(tv.take(i as int), available@));
    }
    proof {
        assert(tv.take(i as int) =~= tv);
    }
    out
}

} // verus!
