//! The interceptors that rewrite server-to-client messages, and the chain
//! that runs them.
use vstd::prelude::*;

pub mod capping;
pub mod completions;
pub mod diagnostics;
pub mod hover;
pub mod locations;
pub mod symbols;
pub mod workspace_diagnostics;
pub mod workspace_symbols;

use crate::compact::diagnostics_json;
use crate::config::Config;
use crate::error::LspzError;
use crate::json::{Json, JsonV};
use crate::interceptors::capping::{is_capped_method, spec_cap, CappingInterceptor};
use crate::interceptors::completions::{spec_compress_completions, CompletionCompressor};
use crate::interceptors::diagnostics::{compressible, spec_compressed, DiagnosticsCompressor};
use crate::interceptors::hover::{spec_compress_hover, HoverCompressor};
use crate::interceptors::locations::{is_location_method, spec_compress_locations, LocationCompressor};
use crate::interceptors::symbols::{spec_compress_symbols, DocumentSymbolCompressor};
use crate::interceptors::workspace_diagnostics::{
    spec_compress_workspace_diagnostics, WorkspaceDiagnosticCompressor,
};
use crate::interceptors::workspace_symbols::{
    spec_compress_workspace_symbols, WorkspaceSymbolCompressor,
};

verus! {

/// The direction of an LSP message.
#[derive(Debug, Clone, Copy, PartialEq, Eq, Structural)]
pub enum Direction {
    /// Client → server.
    ClientToServer,
    /// Server → client.
    ServerToClient,
}

/// One interceptor of the chain.
pub enum Interceptor {
    Capping(CappingInterceptor),
    Diagnostics(DiagnosticsCompressor),
    Completions(CompletionCompressor),
    Hover(HoverCompressor),
    DocumentSymbols(DocumentSymbolCompressor),
    Locations(LocationCompressor),
    WorkspaceSymbols(WorkspaceSymbolCompressor),
    WorkspaceDiagnostics(WorkspaceDiagnosticCompressor),
}

/// Whether an interceptor rewrites messages of this method and direction.
pub open spec fn spec_applies(i: Interceptor, method: Seq<char>, direction: Direction) -> bool {
    direction == Direction::ServerToClient && match i {
        Interceptor::Capping(_) => is_capped_method(method),
        Interceptor::Diagnostics(_) => method == "textDocument/publishDiagnostics"@,
        Interceptor::Completions(_) => method == "textDocument/completion"@,
        Interceptor::Hover(_) => method == "textDocument/hover"@,
        Interceptor::DocumentSymbols(_) => method == "textDocument/documentSymbol"@,
        Interceptor::Locations(_) => is_location_method(method),
        Interceptor::WorkspaceSymbols(_) => method == "workspace/symbol"@,
        Interceptor::WorkspaceDiagnostics(_) => method == "workspace/diagnostic"@,
    }
}

/// What an interceptor makes of params: new params, or a failure (`Err`);
/// `None` where it cannot run (see [`compressible`]).
#[verifier::opaque]
pub open spec fn spec_step(i: Interceptor, method: Seq<char>, p: JsonV) -> Option<Result<JsonV, ()>> {
    match i {
        Interceptor::Capping(c) => match spec_cap(method, p, c.limits) {
            Ok(v) => Some(Ok(v)),
            Err(_) => Some(Err(())),
        },
        Interceptor::Diagnostics(d) => if compressible(p, d.enable_normalisation) {
            match spec_compressed(p, d.enable_normalisation) {
                Some(c) => Some(Ok(diagnostics_json(c))),
                None => Some(Err(())),
            }
        } else {
            None
        },
        Interceptor::Completions(c) => match spec_compress_completions(
            p,
            c.max_items as int,
            c.enable_doc_dedup,
        ) {
            Some(v) => Some(Ok(v)),
            None => Some(Err(())),
        },
        Interceptor::Hover(h) => match spec_compress_hover(p, h.enable_markdown_compact) {
            Some(v) => Some(Ok(v)),
            None => Some(Err(())),
        },
        Interceptor::DocumentSymbols(_) => match spec_compress_symbols(p) {
            Some(v) => Some(Ok(v)),
            None => Some(Err(())),
        },
        Interceptor::Locations(_) => Some(Ok(spec_compress_locations(p))),
        Interceptor::WorkspaceSymbols(_) => Some(Ok(spec_compress_workspace_symbols(p))),
        Interceptor::WorkspaceDiagnostics(_) => Some(Ok(spec_compress_workspace_diagnostics(p))),
    }
}

/// The name under which an interceptor is logged.
pub open spec fn interceptor_name(i: Interceptor) -> Seq<char> {
    match i {
        Interceptor::Capping(_) => "capping"@,
        Interceptor::Diagnostics(_) => "diagnostics_compressor"@,
        Interceptor::Completions(_) => "completion_compressor"@,
        Interceptor::Hover(_) => "hover_compressor"@,
        Interceptor::DocumentSymbols(_) => "document_symbol_compressor"@,
        Interceptor::Locations(_) => "location_compressor"@,
        Interceptor::WorkspaceSymbols(_) => "workspace_symbol_compressor"@,
        Interceptor::WorkspaceDiagnostics(_) => "workspace_diagnostic_compressor"@,
    }
}

impl Interceptor {
    /// The name under which the interceptor is logged.
    pub fn name(&self) -> (r: &'static str)
        ensures
            r@ == interceptor_name(*self),
    {
        match self {
            Interceptor::Capping(c) => c.name(),
            Interceptor::Diagnostics(c) => c.name(),
            Interceptor::Completions(c) => c.name(),
            Interceptor::Hover(c) => c.name(),
            Interceptor::DocumentSymbols(c) => c.name(),
            Interceptor::Locations(c) => c.name(),
            Interceptor::WorkspaceSymbols(c) => c.name(),
            Interceptor::WorkspaceDiagnostics(c) => c.name(),
        }
    }

    /// Whether the interceptor rewrites messages of this method and direction.
    pub fn applies_to(&self, method: &str, direction: Direction) -> (r: bool)
        ensures
            r == spec_applies(*self, method@, direction),
    {
        match self {
            Interceptor::Capping(c) => c.applies_to(method, direction),
            Interceptor::Diagnostics(c) => c.applies_to(method, direction),
            Interceptor::Completions(c) => c.applies_to(method, direction),
            Interceptor::Hover(c) => c.applies_to(method, direction),
            Interceptor::DocumentSymbols(c) => c.applies_to(method, direction),
            Interceptor::Locations(c) => c.applies_to(method, direction),
            Interceptor::WorkspaceSymbols(c) => c.applies_to(method, direction),
            Interceptor::WorkspaceDiagnostics(c) => c.applies_to(method, direction),
        }
    }

    /// Runs the interceptor; `None` where it cannot run.
    pub fn try_intercept(&self, method: &str, params: Json, direction: Direction) -> (r: Option<
        Result<Option<Json>, LspzError>,
    >)
        ensures
            match spec_step(*self, method@, params@) {
                None => r is None,
                Some(Ok(v)) => r matches Some(Ok(Some(j))) && j@ == v,
                Some(Err(_)) => r matches Some(Err(_)),
            },
    {
        proof {
            reveal(spec_step);
        }
        match self {
            Interceptor::Capping(c) => Some(c.intercept(method, params, direction)),
            Interceptor::Diagnostics(c) => {
                if c.accepts(&params) {
                    Some(c.intercept(method, params, direction))
                } else {
                    None
                }
            },
            Interceptor::Completions(c) => Some(c.intercept(method, params, direction)),
            Interceptor::Hover(c) => Some(c.intercept(method, params, direction)),
            Interceptor::DocumentSymbols(c) => Some(c.intercept(method, params, direction)),
            Interceptor::Locations(c) => Some(c.intercept(method, params, direction)),
            Interceptor::WorkspaceSymbols(c) => Some(c.intercept(method, params, direction)),
            Interceptor::WorkspaceDiagnostics(c) => Some(c.intercept(method, params, direction)),
        }
    }
}

/// What the chain makes of params: each interceptor that applies runs in
/// turn on the params the one before it gave; when one fails, the params it
/// was given are forwarded as they are (fail-open). `None` where an
/// interceptor cannot run.
pub open spec fn spec_chain(is: Seq<Interceptor>, method: Seq<char>, direction: Direction, p: JsonV) -> Option<
    Option<JsonV>,
>
    decreases is.len(),
{
    if is.len() == 0 {
        Some(Some(p))
    } else if !spec_applies(is[0], method, direction) {
        spec_chain(is.drop_first(), method, direction, p)
    } else {
        match spec_step(is[0], method, p) {
            None => None,
            Some(Err(_)) => Some(Some(p)),
            Some(Ok(v)) => spec_chain(is.drop_first(), method, direction, v),
        }
    }
}

/// The interceptors, run in order.
pub struct InterceptorChain {
    pub interceptors: Vec<Interceptor>,
}

impl InterceptorChain {
    /// A chain of the given interceptors.
    pub fn new(interceptors: Vec<Interceptor>) -> (r: InterceptorChain)
        ensures
            r.interceptors@ == interceptors@,
    {
        InterceptorChain { interceptors }
    }

    /// Runs the chain; `None` where an interceptor cannot run.
    pub fn try_process(&self, method: &str, params: Json, direction: Direction) -> (r: Option<
        Result<Option<Json>, LspzError>,
    >)
        ensures
            match spec_chain(self.interceptors@, method@, direction, params@) {
                None => r is None,
                Some(Some(v)) => r matches Some(Ok(Some(j))) && j@ == v,
                Some(None) => r matches Some(Ok(None)),
            },
    {
        let ghost is = self.interceptors@;
        let ghost p0 = params@;
        let mut current = params;
        let mut k: usize = 0;
        proof {
            assert(is.skip(0) =~= is);
        }
        while k < self.interceptors.len()
            invariant
                0 <= k <= is.len(),
                is == self.interceptors@,
                p0 == params@,
                spec_chain(is, method@, direction, p0) == spec_chain(
                    is.skip(k as int),
                    method@,
                    direction,
                    current@,
                ),
            decreases self.interceptors.len() - k,
        {
            let i = &self.interceptors[k];
            proof {
                assert(is.skip(k as int).drop_first() =~= is.skip(k + 1));
                assert(is.skip(k as int)[0] == *i);
            }
            if i.applies_to(method, direction) {
                let original = current.deep_clone();
                let ghost cur = current@;
                proof {
                    let s = is.skip(k as int);
                    assert(s.len() > 0 && s[0] == *i);
                    assert(spec_applies(s[0], method@, direction));
                    assert(spec_chain(s, method@, direction, cur) == match spec_step(*i, method@, cur) {
                        None => None,
                        Some(Err(_)) => Some(Some(cur)),
                        Some(Ok(v)) => spec_chain(s.drop_first(), method@, direction, v),
                    });
                }
                match i.try_intercept(method, current, direction) {
                    None => return None,
                    Some(Err(_)) => return Some(Ok(Some(original))),
                    Some(Ok(None)) => return Some(Ok(None)),
                    Some(Ok(Some(next))) => {
                        current = next;
                    },
                }
            }
            k = k + 1;
        }
        proof {
            assert(is.skip(k as int).len() == 0);
        }
        Some(Ok(Some(current)))
    }

    /// Whether every interceptor can run on the message.
    pub fn accepts(&self, method: &str, params: &Json, direction: Direction) -> (r: bool)
        ensures
            r == (spec_chain(self.interceptors@, method@, direction, params@) is Some),
    {
        self.try_process(method, params.deep_clone(), direction).is_some()
    }

    /// Runs the chain on a message: each interceptor that applies rewrites
    /// the params in turn; when one fails, the params it was given are
    /// forwarded (fail-open).
    pub fn process(&self, method: &str, params: Json, direction: Direction) -> (r: Result<
        Option<Json>,
        LspzError,
    >)
        requires
            spec_chain(self.interceptors@, method@, direction, params@) is Some,
        ensures
            match spec_chain(self.interceptors@, method@, direction, params@) {
                Some(Some(v)) => r matches Ok(Some(j)) && j@ == v,
                _ => r matches Ok(None),
            },
    {
        match self.try_process(method, params, direction) {
            Some(r) => r,
            None => Ok(None),
        }
    }
}

/// The compressors with their defaults, in the order they run: diagnostics,
/// completions, hover, document symbols, locations, workspace symbols,
/// workspace diagnostics.
pub open spec fn spec_default_interceptors() -> Seq<Interceptor> {
    seq![
        Interceptor::Diagnostics(DiagnosticsCompressor { enable_normalisation: true }),
        Interceptor::Completions(CompletionCompressor { max_items: 50, enable_doc_dedup: true }),
        Interceptor::Hover(HoverCompressor { enable_markdown_compact: true }),
        Interceptor::DocumentSymbols(DocumentSymbolCompressor),
        Interceptor::Locations(LocationCompressor),
        Interceptor::WorkspaceSymbols(WorkspaceSymbolCompressor),
        Interceptor::WorkspaceDiagnostics(WorkspaceDiagnosticCompressor),
    ]
}

/// The compressors with their defaults.
pub fn default_interceptors() -> (r: Vec<Interceptor>)
    ensures
        r@ == spec_default_interceptors(),
{
    let mut v: Vec<Interceptor> = Vec::new();
    v.push(Interceptor::Diagnostics(DiagnosticsCompressor::default()));
    v.push(Interceptor::Completions(CompletionCompressor::default()));
    v.push(Interceptor::Hover(HoverCompressor::default()));
    v.push(Interceptor::DocumentSymbols(DocumentSymbolCompressor));
    v.push(Interceptor::Locations(LocationCompressor));
    v.push(Interceptor::WorkspaceSymbols(WorkspaceSymbolCompressor));
    v.push(Interceptor::WorkspaceDiagnostics(WorkspaceDiagnosticCompressor));
    proof {
        assert(v@ =~= spec_default_interceptors());
    }
    v
}

/// One interceptor when `on` holds, none otherwise.
pub open spec fn when(on: bool, i: Interceptor) -> Seq<Interceptor> {
    if on {
        seq![i]
    } else {
        Seq::empty()
    }
}

/// The chain a configuration asks for: capping with its limits, then each
/// compressor that is enabled, with its defaults, in the default order; the
/// workspace compressors are always there.
pub open spec fn configured_interceptors(config: Config) -> Seq<Interceptor> {
    seq![Interceptor::Capping(CappingInterceptor { limits: config.capping })] + when(
        config.enable_diag_compress,
        Interceptor::Diagnostics(DiagnosticsCompressor { enable_normalisation: true }),
    ) + when(
        config.enable_completion_compress,
        Interceptor::Completions(CompletionCompressor { max_items: 50, enable_doc_dedup: true }),
    ) + when(
        config.enable_hover_compress,
        Interceptor::Hover(HoverCompressor { enable_markdown_compact: true }),
    ) + when(
        config.enable_document_symbol_compress,
        Interceptor::DocumentSymbols(DocumentSymbolCompressor),
    ) + when(config.enable_location_compress, Interceptor::Locations(LocationCompressor)) + seq![
        Interceptor::WorkspaceSymbols(WorkspaceSymbolCompressor),
        Interceptor::WorkspaceDiagnostics(WorkspaceDiagnosticCompressor),
    ]
}

/// The chain for a configuration: capping with its limits first, then each
/// compressor that the configuration turns on.
#[verifier::spinoff_prover]
#[verifier::rlimit(40)]
pub fn build_interceptor_chain(config: &Config) -> (r: InterceptorChain)
    ensures
        r.interceptors@ == configured_interceptors(*config),
{
    let mut v: Vec<Interceptor> = Vec::new();
    v.push(Interceptor::Capping(CappingInterceptor::new(config.capping.copy())));
    let ghost s0 = v@;
    if config.enable_diag_compress {
        v.push(Interceptor::Diagnostics(DiagnosticsCompressor::default()));
    }
    let ghost s1 = v@;
    proof {
        assert(s1 =~= s0 + when(
            config.enable_diag_compress,
            Interceptor::Diagnostics(DiagnosticsCompressor { enable_normalisation: true }),
        ));
    }
    if config.enable_completion_compress {
        v.push(Interceptor::Completions(CompletionCompressor::default()));
    }
    let ghost s2 = v@;
    proof {
        assert(s2 =~= s1 + when(
            config.enable_completion_compress,
            Interceptor::Completions(CompletionCompressor { max_items: 50, enable_doc_dedup: true }),
        ));
    }
    if config.enable_hover_compress {
        v.push(Interceptor::Hover(HoverCompressor::default()));
    }
    let ghost s3 = v@;
    proof {
        assert(s3 =~= s2 + when(
            config.enable_hover_compress,
            Interceptor::Hover(HoverCompressor { enable_markdown_compact: true }),
        ));
    }
    if config.enable_document_symbol_compress {
        v.push(Interceptor::DocumentSymbols(DocumentSymbolCompressor));
    }
    let ghost s4 = v@;
    proof {
        assert(s4 =~= s3 + when(
            config.enable_document_symbol_compress,
            Interceptor::DocumentSymbols(DocumentSymbolCompressor),
        ));
    }
    if config.enable_location_compress {
        v.push(Interceptor::Locations(LocationCompressor));
    }
    let ghost s5 = v@;
    proof {
        assert(s5 =~= s4 + when(config.enable_location_compress, Interceptor::Locations(LocationCompressor)));
    }
    v.push(Interceptor::WorkspaceSymbols(WorkspaceSymbolCompressor));
    v.push(Interceptor::WorkspaceDiagnostics(WorkspaceDiagnosticCompressor));
    proof {
        assert(v@ =~= configured_interceptors(*config));
    }
    InterceptorChain::new(v)
}

// ─── Laws of the chain ─────────────────────────────────────────────────────

/// The chain never drops a message: when it runs, it forwards params.
pub proof fn lemma_chain_never_drops(is: Seq<Interceptor>, method: Seq<char>, direction: Direction, p: JsonV)
    ensures
        spec_chain(is, method, direction, p) matches Some(r) ==> r is Some,
    decreases is.len(),
{
    if is.len() > 0 {
        if !spec_applies(is[0], method, direction) {
            lemma_chain_never_drops(is.drop_first(), method, direction, p);
        } else {
            match spec_step(is[0], method, p) {
                Some(Ok(v)) => lemma_chain_never_drops(is.drop_first(), method, direction, v),
                _ => {},
            }
        }
    }
}

/// Fail-open: when the first interceptor that applies fails, the chain
/// forwards the params unchanged.
pub proof fn lemma_fail_open(is: Seq<Interceptor>, method: Seq<char>, direction: Direction, p: JsonV, k: int)
    requires
        0 <= k < is.len(),
        forall|j: int| 0 <= j < k ==> !spec_applies(#[trigger] is[j], method, direction),
        spec_applies(is[k], method, direction),
        spec_step(is[k], method, p) matches Some(Err(_)),
    ensures
        spec_chain(is, method, direction, p) == Some(Some(p)),
    decreases k,
{
    if k > 0 {
        assert forall|j: int| 0 <= j < k - 1 implies !spec_applies(
            #[trigger] is.drop_first()[j],
            method,
            direction,
        ) by {
            assert(is.drop_first()[j] == is[j + 1]);
        }
        assert(!spec_applies(is[0], method, direction));
        assert(is.drop_first()[k - 1] == is[k]);
        lemma_fail_open(is.drop_first(), method, direction, p, k - 1);
    }
}

/// Messages from the client pass through the chain unchanged.
pub proof fn lemma_client_messages_unchanged(is: Seq<Interceptor>, method: Seq<char>, p: JsonV)
    ensures
        spec_chain(is, method, Direction::ClientToServer, p) == Some(Some(p)),
    decreases is.len(),
{
    if is.len() > 0 {
        lemma_client_messages_unchanged(is.drop_first(), method, p);
    }
}

} // verus!
