//! Capping of responses: only the first items of a list are kept.
//!
//! It runs before the compressors. Diagnostics (`diagnostics` of
//! `publishDiagnostics`), completion items (a bare array or the `items` of a
//! list) and document symbols are capped; a limit of 0 keeps everything.
use vstd::prelude::*;

use crate::config::CappingConfig;
use crate::error::{protocol, LspzError};
use crate::interceptors::completions::first_items;
use crate::interceptors::Direction;
use crate::json::{entries_view, find_key, seq_view, Json, JsonV};
use crate::text::{push_str, str_eq};

verus! {

/// A value whose entry `field` is an array, with that array cut to `limit`
/// items; `None` when the value has no such array. A limit of 0 keeps all.
pub open spec fn spec_cap_field(p: JsonV, field: Seq<char>, limit: int) -> Option<JsonV> {
    if limit == 0 {
        Some(p)
    } else {
        match p {
            JsonV::Object(es) => match find_key(es, field) {
                Some(j) => if 0 <= j < es.len() {
                    match es[j].1 {
                        JsonV::Array(a) => Some(
                            JsonV::Object(es.update(j, (es[j].0, JsonV::Array(first_items(a, limit))))),
                        ),
                        _ => None,
                    }
                } else {
                    None
                },
                None => None,
            },
            _ => None,
        }
    }
}

/// A completion response cut to `limit` items: a bare array, or the `items`
/// of a list.
pub open spec fn spec_cap_completions(p: JsonV, limit: int) -> Option<JsonV> {
    if limit == 0 {
        Some(p)
    } else {
        match p {
            JsonV::Array(a) => Some(JsonV::Array(first_items(a, limit))),
            _ => spec_cap_field(p, "items"@, limit),
        }
    }
}

/// A symbol array cut to `limit` items; `None` when it is not an array.
pub open spec fn spec_cap_symbols(p: JsonV, limit: int) -> Option<JsonV> {
    match p {
        JsonV::Array(a) => Some(
            if limit > 0 {
                JsonV::Array(first_items(a, limit))
            } else {
                p
            },
        ),
        _ => None,
    }
}

/// The models of an array's elements after cutting it to `limit`.
proof fn lemma_truncated_view(a: Seq<Json>, limit: int)
    requires
        0 < limit,
    ensures
        seq_view(if limit <= a.len() {
            a.subrange(0, limit)
        } else {
            a
        }) == first_items(seq_view(a), limit),
{
    if limit < a.len() {
        assert(seq_view(a.subrange(0, limit)) =~= seq_view(a).take(limit));
    } else if limit == a.len() {
        assert(seq_view(a.subrange(0, limit)) =~= seq_view(a));
    }
}

/// Cuts the array under `field` to `limit` items; a protocol error
/// (`missing field '<field>'`) when there is no array there.
pub fn cap_array_field(params: Json, field: &str, limit: usize) -> (r: Result<Json, LspzError>)
    ensures
        match spec_cap_field(params@, field@, limit as int) {
            Some(v) => r matches Ok(j) && j@ == v,
            None => r matches Err(LspzError::Protocol(m)) && m@ == "missing field '"@ + field@ + "'"@,
        },
{
    if limit == 0 {
        return Ok(params);
    }
    let ghost pv = params@;
    let mut msg = "missing field '".to_owned();
    push_str(&mut msg, field);
    push_str(&mut msg, "'");
    let idx = params.key_index(field);
    match params {
        Json::Object(mut entries) => {
            proof {
                crate::json::lemma_object_view(entries);
            }
            match idx {
                Some(j) => {
                    let ghost es = entries_view(entries@);
                    let ghost old_entries = entries@;
                    let (k, v) = entries.remove(j);
                    proof {
                        assert((k, v) == old_entries[j as int]);
                        assert(es[j as int] == (k@, v@));
                    }
                    match v {
                        Json::Array(mut a) => {
                            let ghost av = a@;
                            proof {
                                crate::json::lemma_array_view(a);
                            }
                            a.truncate(limit);
                            proof {
                                crate::json::lemma_array_view(a);
                                assert(es[j as int].1 == JsonV::Array(seq_view(av)));
                                lemma_truncated_view(av, limit as int);
                            }
                            entries.insert(j, (k, Json::Array(a)));
                            proof {
                                crate::json::lemma_object_view(entries);
                                assert(entries_view(entries@) =~= es.update(
                                    j as int,
                                    (es[j as int].0, JsonV::Array(first_items(seq_view(av), limit as int))),
                                ));
                            }
                            Ok(Json::Object(entries))
                        },
                        _ => {
                            proof {
                                assert(es[j as int].1 == v@);
                            }
                            Err(LspzError::Protocol(msg))
                        },
                    }
                },
                None => Err(LspzError::Protocol(msg)),
            }
        },
        _ => Err(LspzError::Protocol(msg)),
    }
}

/// Cuts a completion response to `limit` items.
pub fn cap_completions(params: Json, limit: usize) -> (r: Result<Json, LspzError>)
    ensures
        match spec_cap_completions(params@, limit as int) {
            Some(v) => r matches Ok(j) && j@ == v,
            None => r matches Err(LspzError::Protocol(m)) && m@ == "missing field 'items'"@,
        },
{
    if limit == 0 {
        return Ok(params);
    }
    match params {
        Json::Array(mut a) => {
            let ghost av = a@;
            proof {
                crate::json::lemma_array_view(a);
            }
            a.truncate(limit);
            proof {
                crate::json::lemma_array_view(a);
                lemma_truncated_view(av, limit as int);
            }
            Ok(Json::Array(a))
        },
        other => {
            let r = cap_array_field(other, "items", limit);
            proof {
                reveal_strlit("items");
                reveal_strlit("missing field '");
                reveal_strlit("'");
                reveal_strlit("missing field 'items'");
            }
            r
        },
    }
}

/// Cuts a symbol array to `limit` items; a protocol error when it is not an
/// array.
pub fn cap_array(params: Json, limit: usize) -> (r: Result<Json, LspzError>)
    ensures
        match spec_cap_symbols(params@, limit as int) {
            Some(v) => r matches Ok(j) && j@ == v,
            None => r matches Err(LspzError::Protocol(m)) && m@ == "expected array for symbols"@,
        },
{
    match params {
        Json::Array(mut a) => {
            if limit > 0 {
                let ghost av = a@;
                proof {
                    crate::json::lemma_array_view(a);
                }
                a.truncate(limit);
                proof {
                    crate::json::lemma_array_view(a);
                    lemma_truncated_view(av, limit as int);
                }
            }
            Ok(Json::Array(a))
        },
        _ => Err(protocol("expected array for symbols")),
    }
}

/// Which responses are capped: diagnostics, completions and document symbols.
pub open spec fn is_capped_method(m: Seq<char>) -> bool {
    ||| m == "textDocument/publishDiagnostics"@
    ||| m == "textDocument/completion"@
    ||| m == "textDocument/documentSymbol"@
}

/// What capping does to a message.
pub open spec fn spec_cap(method: Seq<char>, p: JsonV, limits: CappingConfig) -> Result<
    JsonV,
    Seq<char>,
> {
    if method == "textDocument/publishDiagnostics"@ {
        match spec_cap_field(p, "diagnostics"@, limits.max_diags as int) {
            Some(v) => Ok(v),
            None => Err("missing field 'diagnostics'"@),
        }
    } else if method == "textDocument/completion"@ {
        match spec_cap_completions(p, limits.max_completions as int) {
            Some(v) => Ok(v),
            None => Err("missing field 'items'"@),
        }
    } else if method == "textDocument/documentSymbol"@ {
        match spec_cap_symbols(p, limits.max_symbols as int) {
            Some(v) => Ok(v),
            None => Err("expected array for symbols"@),
        }
    } else {
        Ok(p)
    }
}

/// Caps responses to the configured limits.
pub struct CappingInterceptor {
    /// The limits in force.
    pub limits: CappingConfig,
}

impl CappingInterceptor {
    /// An interceptor with the given limits.
    pub fn new(limits: CappingConfig) -> (r: CappingInterceptor)
        ensures
            r.limits == limits,
    {
        CappingInterceptor { limits }
    }

    /// An interceptor with the given limits on diagnostics, completions and
    /// symbols.
    pub fn with_limits(max_diags: usize, max_completions: usize, max_symbols: usize) -> (r:
        CappingInterceptor)
        ensures
            r.limits.max_diags == max_diags,
            r.limits.max_completions == max_completions,
            r.limits.max_symbols == max_symbols,
    {
        CappingInterceptor { limits: CappingConfig { max_diags, max_completions, max_symbols } }
    }

    /// The name under which the interceptor is logged.
    pub fn name(&self) -> (r: &'static str)
        ensures
            r@ == "capping"@,
    {
        "capping"
    }

    /// Whether the interceptor rewrites a message: capped responses from the
    /// server.
    pub fn applies_to(&self, method: &str, direction: Direction) -> (r: bool)
        ensures
            r == (direction == Direction::ServerToClient && is_capped_method(method@)),
    {
        direction == Direction::ServerToClient && (str_eq(method, "textDocument/publishDiagnostics")
            || str_eq(method, "textDocument/completion") || str_eq(
            method,
            "textDocument/documentSymbol",
        ))
    }

    /// Caps a response to the configured limits.
    pub fn intercept(&self, method: &str, params: Json, direction: Direction) -> (r: Result<
        Option<Json>,
        LspzError,
    >)
        ensures
            match spec_cap(method@, params@, self.limits) {
                Ok(v) => r matches Ok(Some(j)) && j@ == v,
                Err(m) => r matches Err(LspzError::Protocol(x)) && x@ == m,
            },
    {
        let out = if str_eq(method, "textDocument/publishDiagnostics") {
            let r = cap_array_field(params, "diagnostics", self.limits.max_diags);
            proof {
                reveal_strlit("diagnostics");
                reveal_strlit("missing field '");
                reveal_strlit("'");
                reveal_strlit("missing field 'diagnostics'");
            }
            r
        } else if str_eq(method, "textDocument/completion") {
            cap_completions(params, self.limits.max_completions)
        } else if str_eq(method, "textDocument/documentSymbol") {
            cap_array(params, self.limits.max_symbols)
        } else {
            Ok(params)
        };
        match out {
            Ok(j) => Ok(Some(j)),
            Err(e) => Err(e),
        }
    }
}

/// Capping never makes a list longer: whatever the limit, a capped response
/// keeps the first items of the list, in order.
pub proof fn lemma_cap_keeps_prefix(a: Seq<JsonV>, limit: int)
    requires
        limit > 0,
    ensures
        first_items(a, limit).len() <= a.len(),
        first_items(a, limit).len() <= limit,
        first_items(a, limit).len() == if a.len() < limit {
            a.len() as int
        } else {
            limit
        },
        forall|i: int| 0 <= i < first_items(a, limit).len() ==> #[trigger] first_items(a, limit)[i] == a[i],
{
}

} // verus!
