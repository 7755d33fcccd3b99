//! The pure parts of `lspz init`: the content of the awareness file, the
//! `@LSPZ.md` reference in the assistant's instruction file, and the MCP
//! server entry in the settings JSON.
use vstd::prelude::*;
use vstd::utf8::encode_utf8;

use crate::error::{config_error, LspzError};
use crate::json::{
    entries_view, find_entry, find_key, jarray, jobject, jstr, lemma_set_key_get,
    push_entry, set_entry, set_key, Json,
    JsonV,
};
use crate::json_text::{json_from_slice, json_parse_of, json_pretty_text, json_pretty_text_of};
use crate::languages::{default_table, generate_language_table, spec_language_table};
use crate::text::{
    lemma_join_split, lemma_split_lines_concat, lemma_split_lines_nonempty, occurs_at,
    chars_of, contains_str, contains_sub, line_end, push_char, push_str, split_lines, str_eq,
    string_of_range, strip_cr, trim, trim_range,
};

verus! {

/// The project-level settings file name.
pub const SETTINGS_JSON: &'static str = "settings.json";

/// The awareness file name.
pub const LSPZ_MD: &'static str = "LSPZ.md";

/// The reference line added to the instruction file.
pub const LSPZ_MD_REF: &'static str = "@LSPZ.md";

/// The key of the lspz MCP server entry.
pub const MCP_SERVER_KEY: &'static str = "lspz";

/// The fixed part of the awareness file.
pub const LSPZ_SLIM: &'static str = "# lspz — LSP via MCP\n\nPrefer lspz MCP tools over direct CLI (`cargo check`, `gopls check`, `pyright`, etc.) for file diagnostics, symbols, and completions. Same results, fewer tokens.\n\n## Tools\n\n| Tool | Required params | Optional params |\n|------|----------------|-----------------|\n| `get_diagnostics` | — | `uri`, `backend`, `language`, `backend_args` |\n| `get_completions` | `uri`, `line`, `character` | `backend`, `language`, `backend_args` |\n| `get_symbols` | — | `uri`, `backend`, `language`, `backend_args` |\n\n- `uri`: `file://` absolute path (e.g. `file:///home/user/src/main.rs`). **Optional** for diagnostics/symbols: omit to scan the MCP workspace (roots → cwd) and get a dense TOON overview.\n- `line`/`character`: 0-based\n- `language`/`backend`: auto-detected from file extension when omitted\n- `backend_args`: extra CLI args passed to the LSP server process (appended to defaults)\n";

/// The outcome of registering the MCP server.
#[derive(Debug, Clone, Copy, PartialEq, Eq, Structural)]
pub enum PatchResult {
    /// The entry was added.
    Patched,
    /// The entry was already there with the same command.
    AlreadyPresent,
    /// Dry run: the entry would be added.
    WouldPatch,
}

/// The awareness file: the fixed text, then a `Mappings` section with the
/// language table.
pub open spec fn spec_lspz_md(available: Seq<bool>) -> Seq<char> {
    LSPZ_SLIM@ + "\n## Mappings\n\n"@ + spec_language_table(available) + "\n"@
}

/// The content of the awareness file; `available[i]` tells whether the
/// server of the `i`-th built-in mapping is installed.
pub fn build_lspz_md_content(available: &[bool]) -> (r: String)
    requires
        available@.len() == default_table().len(),
    ensures
        r@ == spec_lspz_md(available@),
{
    let mut out = LSPZ_SLIM.to_owned();
    push_str(&mut out, "\n## Mappings\n\n");
    let table = generate_language_table(available);
    push_str(&mut out, table.as_str());
    push_str(&mut out, "\n");
    out
}

/// The marker of an entry's state: `[ok]` or `[missing]`.
pub fn status_icon(ok: bool) -> (r: &'static str)
    ensures
        r@ == (if ok {
            "[ok]"@
        } else {
            "[missing]"@
        }),
{
    if ok {
        "[ok]"
    } else {
        "[missing]"
    }
}

/// The settings snippet that registers the server by hand.
pub fn format_mcp_entry(binary_path: &str) -> (r: String)
    ensures
        r@ == "{\"mcpServers\": {\"lspz\": {\"command\": \""@ + binary_path@ + "\", \"args\": [\"mcp\"]}}}"@,
{
    let mut out = "{\"mcpServers\": {\"lspz\": {\"command\": \"".to_owned();
    push_str(&mut out, binary_path);
    push_str(&mut out, "\", \"args\": [\"mcp\"]}}}");
    out
}

// ─── The instruction file ─────────────────────────────────────────────────────────────

/// The instruction file with the reference added: `None` when it already holds the
/// reference; a new file holding only the reference when there is none.
pub open spec fn spec_with_ref(existing: Option<Seq<char>>) -> Option<Seq<char>> {
    match existing {
        Some(c) => if contains_sub(c, LSPZ_MD_REF@) {
            None
        } else {
            Some(c + "\n"@ + LSPZ_MD_REF@ + "\n"@)
        },
        None => Some(LSPZ_MD_REF@ + "\n"@),
    }
}

/// The new instruction file after adding the reference, when it changes.
pub fn instructions_with_ref(existing: Option<&str>) -> (r: Option<String>)
    ensures
        match r {
            Some(s) => spec_with_ref(match existing {
                Some(c) => Some(c@),
                None => None,
            }) == Some(s@),
            None => spec_with_ref(match existing {
                Some(c) => Some(c@),
                None => None,
            }) is None,
        },
{
    match existing {
        Some(c) => {
            if contains_str(c, LSPZ_MD_REF) {
                None
            } else {
                let mut out = c.to_owned();
                push_str(&mut out, "\n");
                push_str(&mut out, LSPZ_MD_REF);
                push_str(&mut out, "\n");
                Some(out)
            }
        },
        None => {
            let mut out = LSPZ_MD_REF.to_owned();
            push_str(&mut out, "\n");
            Some(out)
        },
    }
}

/// The lines that are not the reference (compared trimmed).
pub open spec fn kept_lines(ls: Seq<Seq<char>>) -> Seq<Seq<char>>
    decreases ls.len(),
{
    if ls.len() == 0 {
        Seq::empty()
    } else {
        kept_lines(ls.drop_last()) + if trim(ls.last()) == LSPZ_MD_REF@ {
            Seq::empty()
        } else {
            seq![ls.last()]
        }
    }
}

/// Lines joined with line feeds.
pub open spec fn join_lines(ls: Seq<Seq<char>>) -> Seq<char>
    decreases ls.len(),
{
    if ls.len() == 0 {
        Seq::empty()
    } else if ls.len() == 1 {
        ls[0]
    } else {
        join_lines(ls.drop_last()) + "\n"@ + ls.last()
    }
}

/// A text without its trailing line feeds.
pub open spec fn trim_trailing_lf(s: Seq<char>) -> Seq<char>
    decreases s.len(),
{
    if s.len() > 0 && s.last() == '\n' {
        trim_trailing_lf(s.drop_last())
    } else {
        s
    }
}

/// The instruction file with the reference removed: its other lines, without trailing
/// line feeds, and one final line feed; `None` when it holds no reference.
pub open spec fn spec_without_ref(c: Seq<char>) -> Option<Seq<char>> {
    if !contains_sub(c, LSPZ_MD_REF@) {
        None
    } else {
        Some(trim_trailing_lf(join_lines(kept_lines(split_lines(c)))) + "\n"@)
    }
}

/// Lines none of which trims to the reference are all kept.
proof fn lemma_kept_all(ls: Seq<Seq<char>>)
    requires
        forall|k: int| 0 <= k < ls.len() ==> trim(#[trigger] ls[k]) != LSPZ_MD_REF@,
    ensures
        kept_lines(ls) == ls,
    decreases ls.len(),
{
    if ls.len() > 0 {
        let p = ls.drop_last();
        assert forall|k: int| 0 <= k < p.len() implies trim(#[trigger] p[k]) != LSPZ_MD_REF@ by {
            assert(p[k] == ls[k]);
        }
        lemma_kept_all(p);
        assert(trim(ls[ls.len() - 1]) != LSPZ_MD_REF@);
        assert(p.push(ls.last()) =~= ls);
    } else {
        assert(ls =~= Seq::<Seq<char>>::empty());
    }
}

/// The lines of a file with the reference added after a line feed: its own
/// lines, an empty line and the reference.
#[verifier::spinoff_prover]
proof fn lemma_added_lines(c: Seq<char>)
    requires
        c.len() > 0,
        c.last() == '\n',
    ensures
        split_lines(c + "\n"@ + LSPZ_MD_REF@ + "\n"@) == split_lines(c) + seq![Seq::<char>::empty(), LSPZ_MD_REF@],
{
    let r = LSPZ_MD_REF@;
    let nl = "\n"@;
    reveal_strlit("@LSPZ.md");
    reveal_strlit("\n");
    assert(r.len() == 8);
    let rl = r + nl;
    let tail = nl + rl;
    assert(c + nl + r + nl =~= c + tail);
    lemma_split_lines_concat(c, tail);
    lemma_split_lines_concat(nl, rl);
    crate::text::lemma_index_of_lf(nl, 0);
    assert(nl.take(0) =~= Seq::<char>::empty());
    assert(nl.skip(1) =~= Seq::<char>::empty());
    assert(split_lines(Seq::<char>::empty()) =~= Seq::<Seq<char>>::empty());
    assert(split_lines(nl) =~= seq![Seq::<char>::empty()]);
    assert forall|k: int| 0 <= k < 8 implies rl[k] != '\n' by {
        assert(rl[k] == r[k]);
    }
    crate::text::lemma_index_of_lf(rl, 8);
    assert(rl.take(8) =~= r);
    assert(rl.skip(9) =~= Seq::<char>::empty());
    assert(strip_cr(r) == r);
    assert(split_lines(rl) =~= seq![r]);
    assert(split_lines(tail) =~= seq![Seq::<char>::empty(), r]);
}

/// No line of a file that does not hold the reference trims to it.
#[verifier::spinoff_prover]
proof fn lemma_no_ref_line(c: Seq<char>)
    requires
        !contains_sub(c, LSPZ_MD_REF@),
    ensures
        forall|k: int| 0 <= k < split_lines(c).len() ==> trim(#[trigger] split_lines(c)[k]) != LSPZ_MD_REF@,
{
    let r = LSPZ_MD_REF@;
    let ls = split_lines(c);
    assert forall|k: int| 0 <= k < ls.len() implies trim(#[trigger] ls[k]) != r by {
        if trim(ls[k]) == r {
            crate::text::lemma_line_occurs(c, k);
            let p = choose|p: int| occurs_at(c, ls[k], p);
            crate::text::lemma_trim_occurs(ls[k]);
            let q = crate::text::lead_ws(ls[k]) as int;
            assert(c.subrange(p + q, p + q + r.len()) =~= ls[k].subrange(q, q + r.len()));
            assert(occurs_at(c, r, p + q));
        }
    }
}

/// Of lines that do not trim to the reference, followed by an empty line and
/// the reference, all but the reference are kept.
#[verifier::spinoff_prover]
proof fn lemma_kept_added(ls: Seq<Seq<char>>)
    requires
        forall|k: int| 0 <= k < ls.len() ==> trim(#[trigger] ls[k]) != LSPZ_MD_REF@,
    ensures
        kept_lines(ls + seq![Seq::<char>::empty(), LSPZ_MD_REF@]) == ls + seq![Seq::<char>::empty()],
{
    let r = LSPZ_MD_REF@;
    let e = Seq::<char>::empty();
    reveal_strlit("@LSPZ.md");
    lemma_kept_all(ls);
    assert(crate::text::lead_ws(r) == 0);
    assert(crate::text::trail_ws(r) == 0);
    assert(trim(r) =~= r);
    assert(trim(e) =~= e);
    assert(e != r);
    let all = ls + seq![e, r];
    assert(all.drop_last() =~= ls + seq![e]);
    assert((ls + seq![e]).drop_last() =~= ls);
    assert(kept_lines(ls + seq![e]) =~= ls + seq![e]);
    assert(kept_lines(all) =~= ls + seq![e]);
}

/// Adding the reference to an instruction file and then removing it gives
/// the file back, character for character, when the file does not hold the
/// reference, has no carriage return and ends with exactly one line feed.
pub proof fn lemma_add_then_remove(c: Seq<char>)
    requires
        !contains_sub(c, LSPZ_MD_REF@),
        forall|k: int| 0 <= k < c.len() ==> c[k] != '\r',
        c.len() > 0,
        c.last() == '\n',
        c.len() == 1 || c[c.len() - 2] != '\n',
    ensures
        spec_with_ref(Some(c)) matches Some(s) && spec_without_ref(s) == Some(c),
{
    let r = LSPZ_MD_REF@;
    let nl = "\n"@;
    reveal_strlit("@LSPZ.md");
    reveal_strlit("\n");
    assert(r.len() == 8);
    let s = c + nl + r + nl;
    assert(spec_with_ref(Some(c)) == Some(s));
    let at: int = c.len() as int + 1;
    assert(s.subrange(at, at + 8) =~= r);
    assert(occurs_at(s, r, at));
    lemma_added_lines(c);
    let ls = split_lines(c);
    let e = Seq::<char>::empty();
    lemma_no_ref_line(c);
    lemma_kept_added(ls);
    lemma_join_split(c);
    lemma_split_lines_nonempty(c);
    let le = ls + seq![e];
    assert(le.len() > 1);
    assert(le.drop_last() =~= ls);
    assert(le.last() == e);
    assert(join_lines(le) == c.drop_last() + nl + e);
    assert(c.drop_last() + nl + e =~= c);
    assert(trim_trailing_lf(c) == trim_trailing_lf(c.drop_last()));
    assert(trim_trailing_lf(c.drop_last()) == c.drop_last());
    assert(c.drop_last() + nl =~= c);
}

/// The new instruction file after removing the reference, when it holds one.
pub fn instructions_without_ref(content: &str) -> (r: Option<String>)
    ensures
        match r {
            Some(s) => spec_without_ref(content@) == Some(s@),
            None => spec_without_ref(content@) is None,
        },
{
    if !contains_str(content, LSPZ_MD_REF) {
        return None;
    }
    let v = chars_of(content);
    let ghost ls = split_lines(v@);
    let mut out = String::new();
    let mut count: usize = 0;
    let mut p: usize = 0;
    let ghost mut n: int = 0;
    proof {
        assert(v@.skip(0) =~= v@);
        assert(ls =~= ls.take(0) + split_lines(v@.skip(0)));
    }
    while p < v.len()
        invariant
            0 <= p <= v.len(),
            v@ == content@,
            ls == split_lines(v@),
            0 <= n <= ls.len(),
            ls == ls.take(n) + split_lines(v@.skip(p as int)),
            count as int == kept_lines(ls.take(n)).len(),
            out@ == join_lines(kept_lines(ls.take(n))),
            count <= p,
        decreases v.len() - p,
    {
        let e = line_end(&v, p);
        let ghost s = v@.skip(p as int);
        let mut le = e;
        if e < v.len() && e > p && v[e - 1] == '\r' {
            le = e - 1;
        }
        proof {
            let line = v@.subrange(p as int, le as int);
            if e < v.len() {
                assert(s.take(e - p) =~= v@.subrange(p as int, e as int));
                assert(strip_cr(s.take(e - p)) =~= line);
                assert(s.skip(e - p + 1) =~= v@.skip(e + 1));
                assert(split_lines(s) == seq![line] + split_lines(v@.skip(e + 1)));
                assert(ls =~= ls.take(n + 1) + split_lines(v@.skip(e + 1)));
            } else {
                assert(s =~= line);
                assert(split_lines(s) == seq![line]);
                assert(ls =~= ls.take(n + 1) + Seq::<Seq<char>>::empty());
            }
            assert(ls[n] == line);
            assert(ls.take(n + 1).drop_last() =~= ls.take(n));
        }
        let (a, b) = trim_range(&v, p, le);
        let t = string_of_range(&v, a, b);
        if !str_eq(t.as_str(), LSPZ_MD_REF) {
            if count > 0 {
                push_str(&mut out, "\n");
            }
            let line = string_of_range(&v, p, le);
            push_str(&mut out, line.as_str());
            count = count + 1;
        }
        proof {
            let tn = ls.take(n);
            let tn1 = ls.take(n + 1);
            assert(tn1.drop_last() =~= tn);
            assert(tn1.last() == ls[n]);
            let k = kept_lines(tn1);
            let kn = kept_lines(tn);
            if trim(ls[n]) == LSPZ_MD_REF@ {
                assert(k =~= kn);
            } else {
                assert(k =~= kn + seq![ls[n]]);
                assert(k.drop_last() =~= kn);
            }
            assert(out@ =~= join_lines(k));
            n = n + 1;
        }
        p = if e < v.len() {
            e + 1
        } else {
            v.len()
        };
    }
    proof {
        assert(v@.skip(p as int) =~= Seq::<char>::empty());
        assert(split_lines(Seq::<char>::empty()) =~= Seq::<Seq<char>>::empty());
        assert(ls.take(n) =~= ls);
    }
    let ov = chars_of(out.as_str());
    let mut end = ov.len();
    proof {
        assert(ov@.take(end as int) =~= ov@);
    }
    while end > 0 && ov[end - 1] == '\n'
        invariant
            0 <= end <= ov.len(),
            trim_trailing_lf(ov@) == trim_trailing_lf(ov@.take(end as int)),
        decreases end,
    {
        proof {
            assert(ov@.take(end as int).drop_last() =~= ov@.take(end - 1));
        }
        end = end - 1;
    }
    let mut result = string_of_range(&ov, 0, end);
    push_str(&mut result, "\n");
    proof {
        assert(ov@.subrange(0, end as int) =~= ov@.take(end as int));
    }
    Some(result)
}

// ─── The settings JSON ─────────────────────────────────────────────────────

/// Whether the settings register the lspz server with this command.
pub open spec fn spec_already_present(settings: JsonV, binary_path: Seq<char>) -> bool {
    match settings.get("mcpServers"@) {
        Some(m) => match m.get(MCP_SERVER_KEY@) {
            Some(e) => e.get_str("command"@) == Some(binary_path),
            None => false,
        },
        None => false,
    }
}

/// Whether the settings register the lspz server with this command.
pub fn mcp_server_already_present(settings: &Json, binary_path: &str) -> (r: bool)
    ensures
        r == spec_already_present(settings@, binary_path@),
{
    match settings.get("mcpServers") {
        Some(m) => match m.get(MCP_SERVER_KEY) {
            Some(e) => match e.get_str("command") {
                Some(c) => str_eq(c, binary_path),
                None => false,
            },
            None => false,
        },
        None => false,
    }
}

/// Whether settings (when they could be read) register the lspz server with
/// this command.
pub fn is_mcp_registered(settings: Option<&Json>, binary_path: &str) -> (r: bool)
    ensures
        r == match settings {
            Some(s) => spec_already_present(s@, binary_path@),
            None => false,
        },
{
    match settings {
        Some(s) => mcp_server_already_present(s, binary_path),
        None => false,
    }
}

/// The lspz server entry: `{"command": <binary>, "args": ["mcp"]}`.
pub open spec fn mcp_entry(binary_path: Seq<char>) -> JsonV {
    JsonV::Object(
        seq![("command"@, JsonV::Str(binary_path)), ("args"@, JsonV::Array(seq![JsonV::Str("mcp"@)]))],
    )
}

/// What registering the server does to the settings: the outcome and, when
/// they change, the new settings; or the message of a configuration error.
pub open spec fn spec_patch_settings(root: JsonV, binary_path: Seq<char>, dry_run: bool) -> Result<
    (PatchResult, Option<JsonV>),
    Seq<char>,
> {
    if spec_already_present(root, binary_path) {
        Ok((PatchResult::AlreadyPresent, None))
    } else if dry_run {
        Ok((PatchResult::WouldPatch, None))
    } else {
        match root {
            JsonV::Object(es) => {
                let servers = match root.get("mcpServers"@) {
                    Some(s) => s,
                    None => JsonV::Object(Seq::empty()),
                };
                match servers {
                    JsonV::Object(ses) => Ok(
                        (
                            PatchResult::Patched,
                            Some(
                                JsonV::Object(
                                    set_key(
                                        es,
                                        "mcpServers"@,
                                        JsonV::Object(set_key(ses, MCP_SERVER_KEY@, mcp_entry(binary_path))),
                                    ),
                                ),
                            ),
                        ),
                    ),
                    _ => Err("mcpServers is not an object"@),
                }
            },
            _ => Err("settings.json is not an object"@),
        }
    }
}

/// The lspz server entry.
fn mcp_entry_json(binary_path: &str) -> (r: Json)
    ensures
        r@ == mcp_entry(binary_path@),
{
    let mut args: Vec<Json> = Vec::new();
    args.push(jstr("mcp"));
    let a = jarray(args);
    let mut out: Vec<(String, Json)> = Vec::new();
    push_entry(&mut out, "command", jstr(binary_path));
    push_entry(&mut out, "args", a);
    proof {
        assert(crate::json::seq_view(args@) =~= seq![JsonV::Str("mcp"@)]);
        assert(entries_view(out@) =~= mcp_entry(binary_path@)->Object_0);
    }
    jobject(out)
}

/// Registers the lspz server in the settings: the outcome, and the new
/// settings when they change; a configuration error when the settings or
/// their `mcpServers` are not objects.
pub fn patch_settings(root: Json, binary_path: &str, dry_run: bool) -> (r: Result<
    (PatchResult, Option<Json>),
    LspzError,
>)
    ensures
        match spec_patch_settings(root@, binary_path@, dry_run) {
            Ok((p, Some(v))) => r matches Ok((q, Some(j))) && q == p && j@ == v,
            Ok((p, None)) => r matches Ok((q, None)) && q == p,
            Err(m) => r matches Err(LspzError::Config(x)) && x@ == m,
        },
{
    if mcp_server_already_present(&root, binary_path) {
        return Ok((PatchResult::AlreadyPresent, None));
    }
    if dry_run {
        return Ok((PatchResult::WouldPatch, None));
    }
    let ghost rv = root@;
    match root {
        Json::Object(mut entries) => {
            proof {
                crate::json::lemma_object_view(entries);
            }
            let ghost es = entries_view(entries@);
            let servers: Json = match find_entry(&entries, "mcpServers") {
                Some(j) => {
                    proof {
                        assert(es[j as int].1 == entries@[j as int].1@);
                    }
                    entries[j].1.deep_clone()
                },
                None => {
                    let e: Vec<(String, Json)> = Vec::new();
                    proof {
                        crate::json::lemma_object_view(e);
                        assert(entries_view(e@) =~= Seq::empty());
                    }
                    Json::Object(e)
                },
            };
            proof {
                assert(servers@ == match rv.get("mcpServers"@) {
                    Some(s) => s,
                    None => JsonV::Object(Seq::empty()),
                });
            }
            match servers {
                Json::Object(mut ses) => {
                    proof {
                        crate::json::lemma_object_view(ses);
                    }
                    set_entry(&mut ses, MCP_SERVER_KEY, mcp_entry_json(binary_path));
                    proof {
                        crate::json::lemma_object_view(ses);
                    }
                    set_entry(&mut entries, "mcpServers", Json::Object(ses));
                    proof {
                        crate::json::lemma_object_view(entries);
                    }
                    Ok((PatchResult::Patched, Some(Json::Object(entries))))
                },
                _ => Err(config_error("mcpServers is not an object")),
            }
        },
        _ => Err(config_error("settings.json is not an object")),
    }
}

/// The settings that a settings file's text holds: `{}` when there is no
/// file, else what `serde_json` reads from its text.
pub open spec fn settings_of_text(content: Option<Seq<char>>) -> Result<JsonV, Seq<char>> {
    match content {
        None => Ok(JsonV::Object(Seq::empty())),
        Some(t) => json_parse_of(encode_utf8(t)),
    }
}

/// Registers the lspz server in a settings file, given its text (`None` when
/// there is no file) and the name by which errors call it: the outcome, and
/// the new text (indented JSON) when the file changes. A configuration error
/// when the text is not JSON, or when the settings or their `mcpServers` are
/// not objects.
pub fn patch_settings_text(content: Option<&str>, settings_name: &str, binary_path: &str, dry_run: bool) -> (r: Result<
    (PatchResult, Option<String>),
    LspzError,
>)
    ensures
        match settings_of_text(opt_text(content)) {
            Err(m) => r matches Err(LspzError::Config(x)) && x@ == "Invalid JSON in "@ + settings_name@ + ": "@ + m,
            Ok(v) => match spec_patch_settings(v, binary_path@, dry_run) {
                Ok((p, Some(nv))) => r matches Ok((q, Some(s))) && q == p && s@ == json_pretty_text_of(nv),
                Ok((p, None)) => r matches Ok((q, None)) && q == p,
                Err(m) => r matches Err(LspzError::Config(x)) && x@ == m,
            },
        },
{
    let root = match content {
        None => {
            let e: Vec<(String, Json)> = Vec::new();
            proof {
                crate::json::lemma_object_view(e);
                assert(entries_view(e@) =~= Seq::empty());
            }
            Json::Object(e)
        },
        Some(t) => match json_from_slice(t.as_bytes()) {
            Ok(v) => v,
            Err(e) => {
                let m = match e {
                    LspzError::JsonParse(m) => m,
                    _ => String::new(),
                };
                let mut msg = "Invalid JSON in ".to_owned();
                push_str(&mut msg, settings_name);
                push_str(&mut msg, ": ");
                push_str(&mut msg, m.as_str());
                return Err(LspzError::Config(msg));
            },
        },
    };
    match patch_settings(root, binary_path, dry_run) {
        Ok((p, Some(v))) => Ok((p, Some(json_pretty_text(&v)))),
        Ok((p, None)) => Ok((p, None)),
        Err(e) => Err(e),
    }
}

/// Whether a settings file, given its text (`None` when there is no file),
/// registers the lspz server with this command; text that is not JSON
/// registers nothing.
pub fn mcp_registered_in_text(content: Option<&str>, binary_path: &str) -> (r: bool)
    ensures
        r == match settings_of_text(opt_text(content)) {
            Ok(v) => spec_already_present(v, binary_path@),
            Err(_) => false,
        },
{
    match content {
        None => {
            let e: Vec<(String, Json)> = Vec::new();
            let root = Json::Object(e);
            proof {
                crate::json::lemma_object_view(e);
                assert(entries_view(e@) =~= Seq::empty());
            }
            mcp_server_already_present(&root, binary_path)
        },
        Some(t) => match json_from_slice(t.as_bytes()) {
            Ok(v) => mcp_server_already_present(&v, binary_path),
            Err(_) => false,
        },
    }
}

/// Removes the lspz server entry from a settings file, given its text and
/// the name by which errors call it: whether an entry was there, and the new
/// text (indented JSON) when one was. A configuration error when the text is
/// not JSON.
pub fn remove_settings_text(content: &str, settings_name: &str) -> (r: Result<(bool, Option<String>), LspzError>)
    ensures
        match json_parse_of(encode_utf8(content@)) {
            Err(m) => r matches Err(LspzError::Config(x)) && x@ == "Invalid JSON in "@ + settings_name@ + ": "@ + m,
            Ok(v) => if spec_remove_server(v).0 {
                r matches Ok((true, Some(s))) && s@ == json_pretty_text_of(spec_remove_server(v).1)
            } else {
                r matches Ok((false, None))
            },
        },
{
    let root = match json_from_slice(content.as_bytes()) {
        Ok(v) => v,
        Err(e) => {
            let m = match e {
                LspzError::JsonParse(m) => m,
                _ => String::new(),
            };
            let mut msg = "Invalid JSON in ".to_owned();
            push_str(&mut msg, settings_name);
            push_str(&mut msg, ": ");
            push_str(&mut msg, m.as_str());
            return Err(LspzError::Config(msg));
        },
    };
    let (removed, after) = remove_mcp_entry(root);
    if removed {
        Ok((true, Some(json_pretty_text(&after))))
    } else {
        Ok((false, None))
    }
}

/// The characters of an optional text.
pub open spec fn opt_text(o: Option<&str>) -> Option<Seq<char>> {
    match o {
        Some(t) => Some(t@),
        None => None,
    }
}

/// Registering the server twice: once it has been registered in the
/// settings, registering it again with the same command finds it already
/// present and changes nothing.
pub proof fn lemma_patch_twice(root: JsonV, binary_path: Seq<char>, dry_run: bool)
    ensures
        spec_patch_settings(root, binary_path, false) matches Ok((_, Some(nv))) ==> spec_patch_settings(
            nv,
            binary_path,
            dry_run,
        ) == Ok::<(PatchResult, Option<JsonV>), Seq<char>>((PatchResult::AlreadyPresent, None)),
{
    if let Ok((_, Some(nv))) = spec_patch_settings(root, binary_path, false) {
        if !spec_already_present(root, binary_path) {
            if let JsonV::Object(es) = root {
                let servers = match root.get("mcpServers"@) {
                    Some(s) => s,
                    None => JsonV::Object(Seq::empty()),
                };
                if let JsonV::Object(ses) = servers {
                    let inner = JsonV::Object(set_key(ses, MCP_SERVER_KEY@, mcp_entry(binary_path)));
                    lemma_set_key_get(es, "mcpServers"@, inner);
                    lemma_set_key_get(ses, MCP_SERVER_KEY@, mcp_entry(binary_path));
                    assert(nv == JsonV::Object(set_key(es, "mcpServers"@, inner)));
                    assert(nv.get("mcpServers"@) == Some(inner));
                    assert(inner.get(MCP_SERVER_KEY@) == Some(mcp_entry(binary_path)));
                    assert(mcp_entry(binary_path).get_str("command"@) == Some(binary_path));
                    assert(spec_already_present(nv, binary_path));
                }
            }
        }
    }
}

/// What removing the server does to the settings: whether an entry was
/// removed, and the settings after it.
pub open spec fn spec_remove_server(root: JsonV) -> (bool, JsonV) {
    match root {
        JsonV::Object(es) => match find_key(es, "mcpServers"@) {
            Some(j) => if 0 <= j < es.len() {
                match es[j].1 {
                    JsonV::Object(ses) => match find_key(ses, MCP_SERVER_KEY@) {
                        Some(t) => if 0 <= t < ses.len() {
                            (true, JsonV::Object(es.update(j, (es[j].0, JsonV::Object(ses.remove(t))))))
                        } else {
                            (false, root)
                        },
                        None => (false, root),
                    },
                    _ => (false, root),
                }
            } else {
                (false, root)
            },
            None => (false, root),
        },
        _ => (false, root),
    }
}

/// Removes the lspz server entry from the settings: whether one was there,
/// and the settings after it.
pub fn remove_mcp_entry(root: Json) -> (r: (bool, Json))
    ensures
        (r.0, r.1@) == spec_remove_server(root@),
{
    let ghost rv = root@;
    match root {
        Json::Object(mut entries) => {
            proof {
                crate::json::lemma_object_view(entries);
            }
            let ghost es = entries_view(entries@);
            match find_entry(&entries, "mcpServers") {
                Some(j) => {
                    let ghost old_entries = entries@;
                    let (k, v) = entries.remove(j);
                    proof {
                        assert((k, v) == old_entries[j as int]);
                        assert(es[j as int] == (k@, v@));
                    }
                    match v {
                        Json::Object(mut ses) => {
                            proof {
                                crate::json::lemma_object_view(ses);
                            }
                            let ghost sv = entries_view(ses@);
                            match find_entry(&ses, MCP_SERVER_KEY) {
                                Some(t) => {
                                    let _ = ses.remove(t);
                                    proof {
                                        crate::json::lemma_object_view(ses);
                                        assert(entries_view(ses@) =~= sv.remove(t as int));
                                    }
                                    entries.insert(j, (k, Json::Object(ses)));
                                    proof {
                                        crate::json::lemma_object_view(entries);
                                        assert(entries_view(entries@) =~= es.update(
                                            j as int,
                                            (es[j as int].0, JsonV::Object(sv.remove(t as int))),
                                        ));
                                    }
                                    (true, Json::Object(entries))
                                },
                                None => {
                                    entries.insert(j, (k, Json::Object(ses)));
                                    proof {
                                        crate::json::lemma_object_view(entries);
                                        assert(entries@ =~= old_entries);
                                    }
                                    (false, Json::Object(entries))
                                },
                            }
                        },
                        other => {
                            entries.insert(j, (k, other));
                            proof {
                                assert(entries@ =~= old_entries);
                            }
                            (false, Json::Object(entries))
                        },
                    }
                },
                None => (false, Json::Object(entries)),
            }
        },
        other => (false, other),
    }
}

} // verus!
