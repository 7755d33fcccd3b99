//! The parts of the agent SDK that decide rather than talk to a server: the
//! builders of a handle and of a pool, the table of backends a pool starts
//! from and its lookup by language, the check on file URIs, and how a
//! handle runs results through its interceptor chain.
use vstd::prelude::*;

use vstd::utf8::encode_utf8;

use crate::compact::{
    can_decompress, compress, decompress, decompressible, diagnostics_json, read_compact,
    spec_compress, spec_decompress, CompactDiagnostics,
};
use crate::error::{config_error, protocol, LspzError};
use crate::interceptors::diagnostics::{compressible, DiagnosticsCompressor};
use crate::json_text::{json_from_slice, json_parse_of, json_pretty_text, json_pretty_text_of};
use crate::interceptors::{
    default_interceptors, spec_chain, spec_default_interceptors, Direction, InterceptorChain,
};
use crate::json::{Json, JsonV};
use crate::text::{push_str, str_eq};

verus! {

/// Builder of an agent handle: the backend command, the language and whether
/// results are compressed.
#[derive(Debug)]
pub struct AgentBuilder {
    pub backend: Option<String>,
    pub language: Option<String>,
    pub compression: bool,
}

impl Default for AgentBuilder {
    fn default() -> (r: AgentBuilder)
        ensures
            r.backend is None,
            r.language is None,
            !r.compression,
    {
        AgentBuilder { backend: None, language: None, compression: false }
    }
}

/// What a handle is started with.
#[derive(Debug)]
pub struct AgentSettings {
    pub backend: String,
    pub language: String,
    pub compression: bool,
}

impl AgentBuilder {
    /// Sets the backend LSP server command (e.g. "rust-analyzer", "gopls").
    pub fn backend(self, cmd: &str) -> (r: AgentBuilder)
        ensures
            r.backend matches Some(b) && b@ == cmd@,
            r.language == self.language,
            r.compression == self.compression,
    {
        AgentBuilder { backend: Some(cmd.to_owned()), ..self }
    }

    /// Sets the language identifier (e.g. "rust", "go").
    pub fn language(self, lang: &str) -> (r: AgentBuilder)
        ensures
            r.language matches Some(l) && l@ == lang@,
            r.backend == self.backend,
            r.compression == self.compression,
    {
        AgentBuilder { language: Some(lang.to_owned()), ..self }
    }

    /// Enables or disables compression (disabled by default).
    pub fn enable_compression(self, enabled: bool) -> (r: AgentBuilder)
        ensures
            r.compression == enabled,
            r.backend == self.backend,
            r.language == self.language,
    {
        AgentBuilder { compression: enabled, ..self }
    }

    /// What starting the handle needs: the backend and the language are
    /// required, the backend checked first.
    pub fn settings(self) -> (r: Result<AgentSettings, LspzError>)
        ensures
            match (self.backend, self.language) {
                (Some(b), Some(l)) => r matches Ok(s) && s.backend == b && s.language == l
                    && s.compression == self.compression,
                (None, _) => r matches Err(LspzError::Config(m)) && m@ == "backend is required"@,
                (Some(_), None) => r matches Err(LspzError::Config(m)) && m@
                    == "language is required"@,
            },
    {
        let backend = match self.backend {
            Some(b) => b,
            None => {
                return Err(config_error("backend is required"));
            },
        };
        let language = match self.language {
            Some(l) => l,
            None => {
                return Err(config_error("language is required"));
            },
        };
        Ok(AgentSettings { backend, language, compression: self.compression })
    }
}

/// The path of a `file://` URI; a configuration error for any other URI.
pub fn file_uri_path(uri: &str) -> (r: Result<String, LspzError>)
    ensures
        match r {
            Ok(p) => uri@.len() >= 7 && uri@.take(7) == "file://"@ && p@ == uri@.skip(7),
            Err(e) => {
                &&& !(uri@.len() >= 7 && uri@.take(7) == "file://"@)
                &&& e matches LspzError::Config(m) && m@ == "URI must start with file://"@
            },
        },
{
    let v = crate::text::chars_of(uri);
    let prefix = crate::text::chars_of("file://");
    proof {
        reveal_strlit("file://");
    }
    if v.len() < 7 {
        return Err(config_error("URI must start with file://"));
    }
    let mut i: usize = 0;
    while i < 7
        invariant
            0 <= i <= 7,
            v@ == uri@,
            v.len() >= 7,
            prefix@ == "file://"@,
            prefix@.len() == 7,
            forall|j: int| 0 <= j < i ==> v@[j] == prefix@[j],
        decreases 7 - i,
    {
        if v[i] != prefix[i] {
            proof {
                assert(v@.take(7)[i as int] != "file://"@[i as int]);
            }
            return Err(config_error("URI must start with file://"));
        }
        i = i + 1;
    }
    proof {
        assert(v@.take(7) =~= "file://"@);
    }
    let p = crate::text::string_of_range(&v, 7, v.len());
    proof {
        assert(v@.subrange(7, v@.len() as int) =~= uri@.skip(7));
    }
    Ok(p)
}

/// The chain of a handle or pool with compression on: every compressor with
/// its defaults, in the default order, and no capping.
pub fn agent_interceptor_chain() -> (r: InterceptorChain)
    ensures
        r.interceptors@ == spec_default_interceptors(),
{
    InterceptorChain::new(default_interceptors())
}

/// What a handle returns for a result: with compression, the params the
/// chain (from server to client) gives, null where it drops them, the result
/// as it is where the chain cannot run; without, the result as it is.
pub open spec fn spec_through_chain(chain: Option<Seq<crate::interceptors::Interceptor>>, method: Seq<char>, params: JsonV) -> JsonV {
    match chain {
        None => params,
        Some(is) => match spec_chain(is, method, Direction::ServerToClient, params) {
            Some(Some(p)) => p,
            Some(None) => JsonV::Null,
            None => params,
        },
    }
}

/// Runs a result through the handle's interceptor chain, when it has one.
pub fn process_through_chain(chain: Option<&InterceptorChain>, method: &str, params: Json) -> (r: Json)
    ensures
        r@ == spec_through_chain(
            match chain {
                Some(c) => Some(c.interceptors@),
                None => None,
            },
            method@,
            params@,
        ),
{
    match chain {
        None => params,
        Some(c) => {
            let original = params.deep_clone();
            match c.try_process(method, params, Direction::ServerToClient) {
                Some(Ok(Some(p))) => p,
                Some(Ok(None)) => Json::Null,
                _ => original,
            }
        },
    }
}

/// How a pool starts a backend.
#[derive(Debug)]
pub struct BackendConfig {
    pub backend: String,
    pub workspace_root: Option<String>,
}

/// Builder of an agent pool: the backends registered by language, a shared
/// workspace root and whether results are compressed.
#[derive(Debug)]
pub struct AgentPoolBuilder {
    pub backends: Vec<(String, String)>,
    pub workspace_root: Option<String>,
    pub compression: bool,
}

impl Default for AgentPoolBuilder {
    fn default() -> (r: AgentPoolBuilder)
        ensures
            r.backends@.len() == 0,
            r.workspace_root is None,
            !r.compression,
    {
        AgentPoolBuilder { backends: Vec::new(), workspace_root: None, compression: false }
    }
}

/// The model of registrations: (language, backend) pairs.
pub open spec fn pairs_view(v: Seq<(String, String)>) -> Seq<(Seq<char>, Seq<char>)> {
    Seq::new(v.len(), |i: int| (v[i].0@, v[i].1@))
}

/// The position of the first pair with the given key.
pub open spec fn key_pos(t: Seq<(Seq<char>, Seq<char>)>, k: Seq<char>) -> Option<int>
    decreases t.len(),
{
    if t.len() == 0 {
        None
    } else if t[0].0 == k {
        Some(0)
    } else {
        match key_pos(t.drop_first(), k) {
            Some(i) => Some(i + 1),
            None => None,
        }
    }
}

/// The value of the first pair with the given key.
pub open spec fn lookup(t: Seq<(Seq<char>, Seq<char>)>, k: Seq<char>) -> Option<Seq<char>> {
    match key_pos(t, k) {
        Some(i) => Some(t[i].1),
        None => None,
    }
}

/// The pairs with `k` set to `v`: the first pair with the key updated, or a
/// new pair at the end.
pub open spec fn upsert(t: Seq<(Seq<char>, Seq<char>)>, k: Seq<char>, v: Seq<char>) -> Seq<(Seq<char>, Seq<char>)> {
    match key_pos(t, k) {
        Some(i) => t.update(i, (k, v)),
        None => t.push((k, v)),
    }
}

/// The table of backends by language: the registrations in order, a later
/// one for a language replacing an earlier one.
pub open spec fn spec_backend_table(regs: Seq<(Seq<char>, Seq<char>)>) -> Seq<(Seq<char>, Seq<char>)>
    decreases regs.len(),
{
    if regs.len() == 0 {
        Seq::empty()
    } else {
        upsert(spec_backend_table(regs.drop_last()), regs.last().0, regs.last().1)
    }
}

/// The backend last registered for a language.
pub open spec fn last_registered(regs: Seq<(Seq<char>, Seq<char>)>, k: Seq<char>) -> Option<Seq<char>>
    decreases regs.len(),
{
    if regs.len() == 0 {
        None
    } else if regs.last().0 == k {
        Some(regs.last().1)
    } else {
        last_registered(regs.drop_last(), k)
    }
}

/// The model of a backend table: language and backend command.
pub open spec fn table_view(t: Seq<(String, BackendConfig)>) -> Seq<(Seq<char>, Seq<char>)> {
    Seq::new(t.len(), |i: int| (t[i].0@, t[i].1.backend@))
}

/// The position of the first pair with the key in a table.
fn table_pos(t: &Vec<(String, BackendConfig)>, k: &str) -> (r: Option<usize>)
    ensures
        match r {
            Some(j) => j < t@.len() && key_pos(table_view(t@), k@) == Some(j as int),
            None => key_pos(table_view(t@), k@) is None,
        },
{
    let ghost tv = table_view(t@);
    let mut j: usize = 0;
    proof {
        assert(tv.skip(0) =~= tv);
    }
    while j < t.len()
        invariant
            0 <= j <= t@.len(),
            tv == table_view(t@),
            key_pos(tv, k@) == (match key_pos(tv.skip(j as int), k@) {
                Some(i) => Some(i + j),
                None => None::<int>,
            }),
        decreases t.len() - j,
    {
        proof {
            assert(tv.skip(j as int).drop_first() =~= tv.skip(j + 1));
            assert(tv.skip(j as int)[0] == tv[j as int]);
        }
        if str_eq(t[j].0.as_str(), k) {
            return Some(j);
        }
        j = j + 1;
    }
    proof {
        assert(tv.skip(j as int).len() == 0);
    }
    None
}

impl AgentPoolBuilder {
    /// Registers an LSP backend for a language identifier.
    pub fn register(self, language: &str, backend: &str) -> (r: AgentPoolBuilder)
        ensures
            pairs_view(r.backends@) == pairs_view(self.backends@).push((language@, backend@)),
            r.workspace_root == self.workspace_root,
            r.compression == self.compression,
    {
        let mut backends = self.backends;
        let ghost before = backends@;
        backends.push((language.to_owned(), backend.to_owned()));
        proof {
            assert(pairs_view(backends@) =~= pairs_view(before).push((language@, backend@)));
        }
        AgentPoolBuilder { backends, ..self }
    }

    /// Sets a workspace root shared by all registered backends.
    pub fn workspace_root(self, path: &str) -> (r: AgentPoolBuilder)
        ensures
            r.workspace_root matches Some(p) && p@ == path@,
            r.backends == self.backends,
            r.compression == self.compression,
    {
        AgentPoolBuilder { workspace_root: Some(path.to_owned()), ..self }
    }

    /// Enables or disables compression (disabled by default).
    pub fn enable_compression(self, enabled: bool) -> (r: AgentPoolBuilder)
        ensures
            r.compression == enabled,
            r.backends == self.backends,
            r.workspace_root == self.workspace_root,
    {
        AgentPoolBuilder { compression: enabled, ..self }
    }

    /// The backends the pool starts with, by language: a later registration
    /// for a language replaces an earlier one; each carries the shared
    /// workspace root.
    pub fn backend_table(&self) -> (r: Vec<(String, BackendConfig)>)
        ensures
            table_view(r@) == spec_backend_table(pairs_view(self.backends@)),
            forall|i: int|
                0 <= i < r@.len() ==> (#[trigger] r@[i]).1.workspace_root
                    == self.workspace_root,
    {
        let ghost regs = pairs_view(self.backends@);
        let mut t: Vec<(String, BackendConfig)> = Vec::new();
        let mut i: usize = 0;
        while i < self.backends.len()
            invariant
                0 <= i <= self.backends@.len(),
                regs == pairs_view(self.backends@),
                table_view(t@) == spec_backend_table(regs.take(i as int)),
                forall|j: int|
                    0 <= j < t@.len() ==> (#[trigger] t@[j]).1.workspace_root
                        == self.workspace_root,
            decreases self.backends.len() - i,
        {
            let lang = &self.backends[i].0;
            let cfg = BackendConfig {
                backend: self.backends[i].1.clone(),
                workspace_root: self.workspace_root.clone(),
            };
            let ghost tv = table_view(t@);
            proof {
                assert(regs.take(i + 1).drop_last() =~= regs.take(i as int));
                assert(regs.take(i + 1).last() == regs[i as int]);
            }
            match table_pos(&t, lang.as_str()) {
                Some(j) => {
                    let _ = t.remove(j);
                    t.insert(j, (lang.clone(), cfg));
                    proof {
                        assert(table_view(t@) =~= tv.update(j as int, (regs[i as int].0, regs[i as int].1)));
                    }
                },
                None => {
                    t.push((lang.clone(), cfg));
                    proof {
                        assert(table_view(t@) =~= tv.push((regs[i as int].0, regs[i as int].1)));
                    }
                },
            }
            i = i + 1;
        }
        proof {
            assert(regs.take(i as int) =~= regs);
        }
        t
    }
}

/// The message of a lookup for a language without a backend.
pub open spec fn no_backend_message(language: Seq<char>) -> Seq<char> {
    "no backend registered for language '"@ + language + "'"@
}

/// The backend registered for a language; a configuration error when there
/// is none.
pub fn backend_for<'a>(table: &'a Vec<(String, BackendConfig)>, language: &str) -> (r: Result<
    &'a BackendConfig,
    LspzError,
>)
    ensures
        match lookup(table_view(table@), language@) {
            Some(b) => r matches Ok(c) && c.backend@ == b && exists|j: int|
                0 <= j < table@.len() && table@[j].1 == *c,
            None => r matches Err(LspzError::Config(m)) && m@ == no_backend_message(language@),
        },
{
    match table_pos(table, language) {
        Some(j) => Ok(&table[j].1),
        None => {
            let mut m = String::new();
            push_str(&mut m, "no backend registered for language '");
            push_str(&mut m, language);
            push_str(&mut m, "'");
            proof {
                assert(m@ =~= no_backend_message(language@));
            }
            Err(LspzError::Config(m))
        },
    }
}

/// Looking up a key that the first pair does not have looks in the rest.
proof fn lemma_lookup_tail(s: Seq<(Seq<char>, Seq<char>)>, q: Seq<char>)
    requires
        s.len() > 0,
        s[0].0 != q,
    ensures
        lookup(s, q) == lookup(s.drop_first(), q),
{
    lemma_key_pos_none(s.drop_first(), q);
    match key_pos(s.drop_first(), q) {
        Some(i) => {
            assert(s[i + 1] == s.drop_first()[i]);
        },
        None => {},
    }
}

/// Looking up the key just set gives the new value; any other key is
/// looked up as before.
proof fn lemma_upsert_lookup(t: Seq<(Seq<char>, Seq<char>)>, k: Seq<char>, v: Seq<char>, q: Seq<char>)
    ensures
        lookup(upsert(t, k, v), q) == if q == k {
            Some(v)
        } else {
            lookup(t, q)
        },
    decreases t.len(),
{
    lemma_key_pos_none(t, k);
    let u = upsert(t, k, v);
    if t.len() == 0 {
        assert(u =~= seq![(k, v)]);
        assert(u.drop_first().len() == 0);
        assert(lookup(u, q) == if q == k { Some(v) } else { lookup(t, q) });
    } else if t[0].0 == k {
        assert(key_pos(t, k) == Some(0int));
        assert(u == t.update(0, (k, v)));
        assert(u[0] == (k, v));
        if q != k {
            lemma_lookup_tail(u, q);
            lemma_lookup_tail(t, q);
            assert(u.drop_first() =~= t.drop_first());
        }
    } else {
        lemma_key_pos_none(t.drop_first(), k);
        assert(u.drop_first() =~= upsert(t.drop_first(), k, v));
        assert(u[0] == t[0]);
        if q != t[0].0 {
            lemma_upsert_lookup(t.drop_first(), k, v, q);
            lemma_lookup_tail(u, q);
            lemma_lookup_tail(t, q);
        }
        assert(lookup(u, q) == if q == k { Some(v) } else { lookup(t, q) });
    }
}

/// A later registration for a language wins: the pool's table gives each
/// language the backend registered last for it, and none for a language
/// never registered.
pub proof fn lemma_last_registration_wins(regs: Seq<(Seq<char>, Seq<char>)>, language: Seq<char>)
    ensures
        lookup(spec_backend_table(regs), language) == last_registered(regs, language),
    decreases regs.len(),
{
    if regs.len() > 0 {
        lemma_last_registration_wins(regs.drop_last(), language);
        lemma_upsert_lookup(
            spec_backend_table(regs.drop_last()),
            regs.last().0,
            regs.last().1,
            language,
        );
    }
}

/// No language appears twice in the pool's table.
pub proof fn lemma_table_languages_distinct(regs: Seq<(Seq<char>, Seq<char>)>)
    ensures
        forall|i: int, j: int|
            0 <= i < j < spec_backend_table(regs).len() ==> #[trigger] spec_backend_table(regs)[i].0
                != #[trigger] spec_backend_table(regs)[j].0,
    decreases regs.len(),
{
    if regs.len() > 0 {
        let t = spec_backend_table(regs.drop_last());
        lemma_table_languages_distinct(regs.drop_last());
        lemma_key_pos_none(t, regs.last().0);
    }
}

/// Without a position for the key, no pair has it.
proof fn lemma_key_pos_none(t: Seq<(Seq<char>, Seq<char>)>, k: Seq<char>)
    ensures
        key_pos(t, k) is None ==> forall|i: int| 0 <= i < t.len() ==> #[trigger] t[i].0 != k,
        key_pos(t, k) matches Some(p) ==> 0 <= p < t.len() && t[p].0 == k,
    decreases t.len(),
{
    if t.len() > 0 {
        lemma_key_pos_none(t.drop_first(), k);
        assert forall|i: int| 0 < i < t.len() implies #[trigger] t[i] == t.drop_first()[i - 1] by {}
    }
}

// ─── Compression helpers on JSON text ──────────────────────────────────────

/// Compresses standard `publishDiagnostics` params, given as JSON text, into
/// the compact format, written as indented JSON text. A JSON parse error when
/// the text is not JSON; a protocol error when the params lack a string `uri`
/// or a `diagnostics` array, or when merged ranges differ by more than `i64`
/// holds.
pub fn compress_text(raw_json: &str) -> (r: Result<String, LspzError>)
    ensures
        match json_parse_of(encode_utf8(raw_json@)) {
            Err(m) => r matches Err(LspzError::JsonParse(x)) && x@ == m,
            Ok(v) => match spec_compress(v) {
                Some(c) => if compressible(v, false) {
                    r matches Ok(s) && s@ == json_pretty_text_of(diagnostics_json(c))
                } else {
                    r matches Err(e) && e is Protocol
                },
                None => r matches Err(e) && e is Protocol,
            },
        },
{
    let raw = match json_from_slice(raw_json.as_bytes()) {
        Ok(v) => v,
        Err(e) => return Err(e),
    };
    let checker = DiagnosticsCompressor { enable_normalisation: false };
    if !checker.accepts(&raw) {
        return Err(protocol("diagnostic ranges out of range"));
    }
    match compress(&raw) {
        Ok(c) => Ok(json_pretty_text(&c)),
        Err(e) => Err(e),
    }
}

/// Expands a compact diagnostics message, given as JSON text, back to
/// standard `publishDiagnostics` params, written as indented JSON text. A
/// JSON parse error when the text is not JSON or not a compact message; a
/// protocol error when an entry has no range or its ranges decode beyond
/// `i64`.
pub fn inflate_text(compressed_json: &str) -> (r: Result<String, LspzError>)
    ensures
        match json_parse_of(encode_utf8(compressed_json@)) {
            Err(m) => r matches Err(LspzError::JsonParse(x)) && x@ == m,
            Ok(v) => match read_compact(v) {
                Some(c) => if decompressible(c) {
                    r matches Ok(s) && s@ == json_pretty_text_of(spec_decompress(c))
                } else {
                    r matches Err(e) && e is Protocol
                },
                None => r matches Err(e) && e is JsonParse,
            },
        },
{
    let value = match json_from_slice(compressed_json.as_bytes()) {
        Ok(v) => v,
        Err(e) => return Err(e),
    };
    match CompactDiagnostics::from_json(&value) {
        Some(c) => {
            if !can_decompress(&c) {
                return Err(protocol("compact ranges out of range"));
            }
        },
        None => {},
    }
    match decompress(&value) {
        Ok(j) => Ok(json_pretty_text(&j)),
        Err(e) => Err(e),
    }
}

} // verus!
