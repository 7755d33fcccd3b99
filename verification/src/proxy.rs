//! The proxy's decisions, apart from its I/O: the handshake and message loop
//! as a state machine from event to action, the method checks of the
//! handshake, and what becomes of a message from the server.
use vstd::prelude::*;

use vstd::slice::slice_to_vec;
use vstd::string::StrSliceExecFns;
use vstd::utf8::encode_utf8;

use crate::error::{protocol, LspzError};
use crate::framing::{frame_header, parse_frame, serialize_frame, spec_parse_frame, FrameParse};
use crate::json_text::{json_from_slice, json_parse_of, json_text, json_text_of};
use crate::interceptors::{spec_chain, Direction, Interceptor, InterceptorChain};
use crate::json::{entries_view, lemma_object_view, set_entry, set_key, Json, JsonV};
use crate::text::{push_str, str_eq};

verus! {

/// Where the proxy is in its life cycle.
#[derive(Debug, Clone, Copy, PartialEq, Eq, Structural)]
pub enum State {
    /// Before the proxy is started.
    Created,
    /// Performing the LSP initialize / initialized handshake.
    Initializing,
    /// Handshake complete, message loop running.
    Ready,
    /// Shutdown requested, waiting for the server's answer.
    ShuttingDown,
    /// Fully exited.
    Exited,
}

/// Where the handshake stands.
#[derive(Debug, Clone, Copy, PartialEq, Eq, Structural)]
pub enum Handshake {
    /// Waiting for the client's `initialize` request.
    AwaitInitialize,
    /// Waiting for the server's answer to `initialize`.
    AwaitInitializeResponse,
    /// Waiting for the client's `initialized` notification.
    AwaitInitialized,
    /// The handshake is over.
    Done,
}

/// Which side the proxy reads from next.
#[derive(Debug, Clone, Copy, PartialEq, Eq, Structural)]
pub enum Source {
    Client,
    Server,
    /// Whichever side has a frame first.
    Either,
    /// Nothing more is read.
    Nothing,
}

/// What happened on one of the two streams.
#[derive(Debug)]
pub enum ProxyEvent {
    /// The proxy was started.
    Start,
    /// The client sent a frame: its body as JSON, or why it could not be read
    /// as a JSON-RPC frame.
    FromClient(Result<Json, LspzError>),
    /// The server sent a frame.
    FromServer,
    /// Reading from the client failed; `ServerExited` when its stream closed.
    ClientFailed(LspzError),
    /// Reading from the server failed; `ServerExited` when it exited.
    ServerFailed(LspzError),
}

/// What the proxy does with the frame of the event.
#[derive(Debug)]
pub enum ProxyAction {
    /// Nothing: the event is not one the proxy waits for.
    Wait,
    /// Forward the client's frame to the server.
    SendToServer,
    /// Write the server's frame to the client as it is.
    WriteToClient,
    /// Write the server's frame to the client through the interceptor chain.
    InterceptToClient,
    /// Stop with this result.
    Finish(Result<(), LspzError>),
}

/// The `method` string of a message.
pub open spec fn method_of(v: JsonV) -> Option<Seq<char>> {
    v.get_str("method"@)
}

/// The error message of a message without a method.
pub open spec fn no_method_message() -> Seq<char> {
    "no 'method' field in message"@
}

/// The error message of a handshake message with the wrong method.
pub open spec fn mismatch_message(expected: Seq<char>, got: Seq<char>) -> Seq<char> {
    "expected '"@ + expected + "', got '"@ + got + "'"@
}

/// Whether `r` is what checking the method of `msg` against `expected`
/// gives: the read error as it is; a protocol error when the message has no
/// method or another one; success when it has the expected one.
pub open spec fn ensure_result(msg: Result<Json, LspzError>, expected: Seq<char>, r: Result<(), LspzError>) -> bool {
    match msg {
        Err(e) => r == Err::<(), LspzError>(e),
        Ok(v) => match method_of(v@) {
            None => r matches Err(LspzError::Protocol(m)) && m@ == no_method_message(),
            Some(s) => if s == expected {
                r is Ok
            } else {
                r matches Err(LspzError::Protocol(m)) && m@ == mismatch_message(expected, s)
            },
        },
    }
}

/// The method name of a client frame: the read error as it is, or a protocol
/// error when the message has no `method` string.
pub fn extract_method(msg: Result<Json, LspzError>) -> (r: Result<String, LspzError>)
    ensures
        match msg {
            Err(e) => r matches Err(x) && x == e,
            Ok(v) => match method_of(v@) {
                Some(s) => r matches Ok(t) && t@ == s,
                None => r matches Err(LspzError::Protocol(m)) && m@ == no_method_message(),
            },
        },
{
    match msg {
        Err(e) => Err(e),
        Ok(v) => match v.get_str("method") {
            Some(s) => Ok(s.to_owned()),
            None => Err(protocol("no 'method' field in message")),
        },
    }
}

/// Checks that a client frame has the expected method.
pub fn ensure_method(msg: Result<Json, LspzError>, expected: &str) -> (r: Result<(), LspzError>)
    ensures
        ensure_result(msg, expected@, r),
{
    let ghost m0 = msg;
    let method = extract_method(msg)?;
    if !str_eq(method.as_str(), expected) {
        let mut text = String::new();
        push_str(&mut text, "expected '");
        push_str(&mut text, expected);
        push_str(&mut text, "', got '");
        push_str(&mut text, method.as_str());
        push_str(&mut text, "'");
        proof {
            assert(text@ =~= mismatch_message(expected@, method@));
        }
        return Err(LspzError::Protocol(text));
    }
    Ok(())
}

/// Whether the client's frame is a `shutdown` request.
pub open spec fn is_shutdown(msg: Result<Json, LspzError>) -> bool {
    match msg {
        Ok(v) => method_of(v@) == Some("shutdown"@),
        Err(_) => false,
    }
}

/// The proxy's state machine.
#[derive(Debug, Clone, Copy, PartialEq, Eq, Structural)]
pub struct ProxyMachine {
    pub state: State,
    pub handshake: Handshake,
}

/// Whether going from `m` on `ev` to `n` with action `a` is a step of the
/// proxy.
///
/// Started, it waits for `initialize` from the client and forwards it, then
/// forwards the server's answer, then waits for `initialized` and forwards
/// it, and is ready; a read failure or a wrong method during the handshake
/// ends it with that error. Ready, it forwards the client's frames to the
/// server and the server's frames through the interceptor chain to the
/// client; a `shutdown` request is forwarded and the server's answer to it
/// is written as it is, after which it has exited. A closed client stream
/// ends it with success, an exited server with `ServerExited`, any other read
/// failure with that error. An event it does not wait for changes nothing.
pub open spec fn spec_transition(m: ProxyMachine, ev: ProxyEvent, n: ProxyMachine, a: ProxyAction) -> bool {
    let unchanged = n == m && a is Wait;
    match m.state {
        State::Created => match ev {
            ProxyEvent::Start => n == (ProxyMachine {
                state: State::Initializing,
                handshake: Handshake::AwaitInitialize,
            }) && a is Wait,
            _ => unchanged,
        },
        State::Initializing => match ev {
            ProxyEvent::ClientFailed(e) => n == m && a == ProxyAction::Finish(Err(e)),
            ProxyEvent::ServerFailed(e) => n == m && a == ProxyAction::Finish(Err(e)),
            ProxyEvent::FromClient(msg) => match m.handshake {
                Handshake::AwaitInitialize => exists|r: Result<(), LspzError>|
                    #![trigger ensure_result(msg, "initialize"@, r)]
                    ensure_result(msg, "initialize"@, r) && if r is Ok {
                        n == (ProxyMachine {
                            state: State::Initializing,
                            handshake: Handshake::AwaitInitializeResponse,
                        }) && a is SendToServer
                    } else {
                        n == m && a == ProxyAction::Finish(r)
                    },
                Handshake::AwaitInitialized => exists|r: Result<(), LspzError>|
                    #![trigger ensure_result(msg, "initialized"@, r)]
                    ensure_result(msg, "initialized"@, r) && if r is Ok {
                        n == (ProxyMachine { state: State::Ready, handshake: Handshake::Done })
                            && a is SendToServer
                    } else {
                        n == m && a == ProxyAction::Finish(r)
                    },
                _ => unchanged,
            },
            ProxyEvent::FromServer => if m.handshake == Handshake::AwaitInitializeResponse {
                n == (ProxyMachine {
                    state: State::Initializing,
                    handshake: Handshake::AwaitInitialized,
                }) && a is WriteToClient
            } else {
                unchanged
            },
            ProxyEvent::Start => unchanged,
        },
        State::Ready => match ev {
            ProxyEvent::FromClient(msg) => a is SendToServer && if is_shutdown(msg) {
                n == ProxyMachine { state: State::ShuttingDown, ..m }
            } else {
                n == m
            },
            ProxyEvent::FromServer => n == m && a is InterceptToClient,
            ProxyEvent::ClientFailed(e) => if e is ServerExited {
                n == ProxyMachine { state: State::Exited, ..m } && a == ProxyAction::Finish(Ok(()))
            } else {
                n == m && a == ProxyAction::Finish(Err(e))
            },
            ProxyEvent::ServerFailed(e) => if e is ServerExited {
                n == ProxyMachine { state: State::Exited, ..m } && a == ProxyAction::Finish(
                    Err(LspzError::ServerExited),
                )
            } else {
                n == m && a == ProxyAction::Finish(Err(e))
            },
            ProxyEvent::Start => unchanged,
        },
        State::ShuttingDown => match ev {
            ProxyEvent::FromServer => n == ProxyMachine { state: State::Exited, ..m }
                && a is WriteToClient,
            ProxyEvent::ServerFailed(e) => n == m && a == ProxyAction::Finish(Err(e)),
            _ => unchanged,
        },
        State::Exited => unchanged,
    }
}

/// Which side the machine reads from in each state.
pub open spec fn spec_next_read(m: ProxyMachine) -> Source {
    match m.state {
        State::Initializing => match m.handshake {
            Handshake::AwaitInitialize => Source::Client,
            Handshake::AwaitInitializeResponse => Source::Server,
            Handshake::AwaitInitialized => Source::Client,
            Handshake::Done => Source::Nothing,
        },
        State::Ready => Source::Either,
        State::ShuttingDown => Source::Server,
        _ => Source::Nothing,
    }
}

impl ProxyMachine {
    /// A proxy that has not started.
    pub fn new() -> (r: ProxyMachine)
        ensures
            r.state == State::Created,
            r.handshake == Handshake::AwaitInitialize,
    {
        ProxyMachine { state: State::Created, handshake: Handshake::AwaitInitialize }
    }

    /// The current state.
    pub fn state(&self) -> (r: State)
        ensures
            r == self.state,
    {
        self.state
    }

    /// Which side to read from next.
    pub fn next_read(&self) -> (r: Source)
        ensures
            r == spec_next_read(*self),
    {
        match self.state {
            State::Initializing => match self.handshake {
                Handshake::AwaitInitialize => Source::Client,
                Handshake::AwaitInitializeResponse => Source::Server,
                Handshake::AwaitInitialized => Source::Client,
                Handshake::Done => Source::Nothing,
            },
            State::Ready => Source::Either,
            State::ShuttingDown => Source::Server,
            _ => Source::Nothing,
        }
    }

    /// Takes one event: moves to the next state and says what to do.
    pub fn on_event(&mut self, ev: ProxyEvent) -> (a: ProxyAction)
        ensures
            spec_transition(*old(self), ev, *final(self), a),
    {
        let ghost ev0 = ev;
        match self.state {
            State::Created => match ev {
                ProxyEvent::Start => {
                    self.state = State::Initializing;
                    self.handshake = Handshake::AwaitInitialize;
                    ProxyAction::Wait
                },
                _ => ProxyAction::Wait,
            },
            State::Initializing => match ev {
                ProxyEvent::ClientFailed(e) => ProxyAction::Finish(Err(e)),
                ProxyEvent::ServerFailed(e) => ProxyAction::Finish(Err(e)),
                ProxyEvent::FromClient(msg) => match self.handshake {
                    Handshake::AwaitInitialize => {
                        let ghost g = msg;
                        let r = ensure_method(msg, "initialize");
                        proof {
                            assert(ensure_result(g, "initialize"@, r));
                        }
                        match r {
                            Ok(()) => {
                                self.handshake = Handshake::AwaitInitializeResponse;
                                ProxyAction::SendToServer
                            },
                            Err(e) => ProxyAction::Finish(Err(e)),
                        }
                    },
                    Handshake::AwaitInitialized => {
                        let ghost g = msg;
                        let r = ensure_method(msg, "initialized");
                        proof {
                            assert(ensure_result(g, "initialized"@, r));
                        }
                        match r {
                            Ok(()) => {
                                self.state = State::Ready;
                                self.handshake = Handshake::Done;
                                ProxyAction::SendToServer
                            },
                            Err(e) => ProxyAction::Finish(Err(e)),
                        }
                    },
                    _ => ProxyAction::Wait,
                },
                ProxyEvent::FromServer => {
                    if self.handshake == Handshake::AwaitInitializeResponse {
                        self.handshake = Handshake::AwaitInitialized;
                        ProxyAction::WriteToClient
                    } else {
                        ProxyAction::Wait
                    }
                },
                ProxyEvent::Start => ProxyAction::Wait,
            },
            State::Ready => match ev {
                ProxyEvent::FromClient(msg) => {
                    let shutdown = match &msg {
                        Ok(v) => match v.get_str("method") {
                            Some(s) => str_eq(s, "shutdown"),
                            None => false,
                        },
                        Err(_) => false,
                    };
                    if shutdown {
                        self.state = State::ShuttingDown;
                    }
                    ProxyAction::SendToServer
                },
                ProxyEvent::FromServer => ProxyAction::InterceptToClient,
                ProxyEvent::ClientFailed(e) => match e {
                    LspzError::ServerExited => {
                        self.state = State::Exited;
                        ProxyAction::Finish(Ok(()))
                    },
                    other => ProxyAction::Finish(Err(other)),
                },
                ProxyEvent::ServerFailed(e) => match e {
                    LspzError::ServerExited => {
                        self.state = State::Exited;
                        ProxyAction::Finish(Err(LspzError::ServerExited))
                    },
                    other => ProxyAction::Finish(Err(other)),
                },
                ProxyEvent::Start => ProxyAction::Wait,
            },
            State::ShuttingDown => match ev {
                ProxyEvent::FromServer => {
                    self.state = State::Exited;
                    ProxyAction::WriteToClient
                },
                ProxyEvent::ServerFailed(e) => ProxyAction::Finish(Err(e)),
                _ => ProxyAction::Wait,
            },
            State::Exited => ProxyAction::Wait,
        }
    }
}

/// What becomes of a message from the server.
#[derive(Debug)]
pub enum ServerOutcome {
    /// Write the frame as it came.
    Unchanged,
    /// Write nothing.
    Dropped,
    /// Write this message in place of the frame.
    Rewritten(Json),
}

/// The model of [`ServerOutcome`].
pub enum OutcomeV {
    Unchanged,
    Dropped,
    Rewritten(JsonV),
}

impl ServerOutcome {
    pub open spec fn view(self) -> OutcomeV {
        match self {
            ServerOutcome::Unchanged => OutcomeV::Unchanged,
            ServerOutcome::Dropped => OutcomeV::Dropped,
            ServerOutcome::Rewritten(j) => OutcomeV::Rewritten(j@),
        }
    }
}

/// What becomes of a server message, given its body as JSON (`None` when it
/// could not be read as a frame of JSON): a message without a `method`
/// string (a response) is written as it came; a notification or request has
/// its `params` (null when missing) run through the chain from server to
/// client, and is written with the params the chain gives, or as it came
/// where the chain cannot run on it.
pub open spec fn spec_server_outcome(is: Seq<Interceptor>, msg: Option<JsonV>) -> OutcomeV {
    match msg {
        None => OutcomeV::Unchanged,
        Some(v) => match method_of(v) {
            None => OutcomeV::Unchanged,
            Some(m) => {
                let params = match v.get("params"@) {
                    Some(p) => p,
                    None => JsonV::Null,
                };
                match spec_chain(is, m, Direction::ServerToClient, params) {
                    None => OutcomeV::Unchanged,
                    Some(None) => OutcomeV::Dropped,
                    Some(Some(p)) => match v {
                        JsonV::Object(es) => OutcomeV::Rewritten(
                            JsonV::Object(set_key(es, "params"@, p)),
                        ),
                        _ => OutcomeV::Unchanged,
                    },
                }
            },
        },
    }
}

/// Decides what becomes of a message from the server.
pub fn server_message_outcome(chain: &InterceptorChain, msg: Option<Json>) -> (r: ServerOutcome)
    ensures
        r@ == spec_server_outcome(chain.interceptors@, match msg {
            Some(v) => Some(v@),
            None => None,
        }),
{
    match msg {
        None => ServerOutcome::Unchanged,
        Some(v) => {
            let method: String = match v.get_str("method") {
                Some(m) => m.to_owned(),
                None => {
                    return ServerOutcome::Unchanged;
                },
            };
            let params = match v.get("params") {
                Some(p) => p.deep_clone(),
                None => Json::Null,
            };
            match chain.try_process(method.as_str(), params, Direction::ServerToClient) {
                None => ServerOutcome::Unchanged,
                Some(Err(_)) => ServerOutcome::Unchanged,
                Some(Ok(None)) => ServerOutcome::Dropped,
                Some(Ok(Some(p))) => match v {
                    Json::Object(mut es) => {
                        proof {
                            lemma_object_view(es);
                        }
                        set_entry(&mut es, "params", p);
                        proof {
                            lemma_object_view(es);
                        }
                        ServerOutcome::Rewritten(Json::Object(es))
                    },
                    _ => ServerOutcome::Unchanged,
                },
            }
        },
    }
}

/// The bytes that the frame a server sent becomes: the frame is read and its
/// body read as JSON; a frame that cannot be read so, and a message that
/// stays, are written as they came; a dropped message is written as
/// nothing; a rewritten message is written as a new frame of its compact
/// JSON text.
pub open spec fn spec_server_frame(is: Seq<Interceptor>, raw: Seq<u8>) -> Seq<u8> {
    match spec_parse_frame(raw) {
        FrameParse::Complete(body, _) => match json_parse_of(body) {
            Ok(v) => match spec_server_outcome(is, Some(v)) {
                OutcomeV::Unchanged => raw,
                OutcomeV::Dropped => Seq::empty(),
                OutcomeV::Rewritten(j) => {
                    let text = encode_utf8(json_text_of(j));
                    encode_utf8(frame_header(text.len())) + text
                },
            },
            Err(_) => raw,
        },
        _ => raw,
    }
}

/// Processes a frame from the server (see [`spec_server_frame`]).
pub fn process_server_frame(chain: &InterceptorChain, raw: &[u8]) -> (r: Vec<u8>)
    ensures
        r@ == spec_server_frame(chain.interceptors@, raw@),
{
    let frame = match parse_frame(raw) {
        Ok(Some((f, _))) => f,
        _ => return slice_to_vec(raw),
    };
    let value = match json_from_slice(frame.body.as_slice()) {
        Ok(v) => v,
        Err(_) => return slice_to_vec(raw),
    };
    match server_message_outcome(chain, Some(value)) {
        ServerOutcome::Unchanged => slice_to_vec(raw),
        ServerOutcome::Dropped => Vec::new(),
        ServerOutcome::Rewritten(j) => {
            let text = json_text(&j);
            let bytes = text.as_str().as_bytes_vec();
            serialize_frame(bytes.as_slice())
        },
    }
}

/// A server message is never dropped: it is written as it came or with the
/// params the chain gives.
pub proof fn lemma_server_messages_never_dropped(is: Seq<Interceptor>, msg: Option<JsonV>)
    ensures
        !(spec_server_outcome(is, msg) is Dropped),
{
    match msg {
        None => {},
        Some(v) => match method_of(v) {
            None => {},
            Some(m) => {
                let params = match v.get("params"@) {
                    Some(p) => p,
                    None => JsonV::Null,
                };
                crate::interceptors::lemma_chain_never_drops(is, m, Direction::ServerToClient, params);
            },
        },
    }
}

/// Once exited, the proxy stays exited and does nothing.
pub proof fn lemma_exited_is_final(m: ProxyMachine, ev: ProxyEvent, n: ProxyMachine, a: ProxyAction)
    requires
        m.state == State::Exited,
        spec_transition(m, ev, n, a),
    ensures
        n.state == State::Exited,
        a is Wait,
{
}

/// The proxy is ready only after the handshake: a step that makes it ready
/// starts from the wait for `initialized`, on a client frame whose method is
/// `initialized`.
pub proof fn lemma_ready_after_handshake(m: ProxyMachine, ev: ProxyEvent, n: ProxyMachine, a: ProxyAction)
    requires
        m.state != State::Ready,
        n.state == State::Ready,
        spec_transition(m, ev, n, a),
    ensures
        m.state == State::Initializing,
        m.handshake == Handshake::AwaitInitialized,
        ev matches ProxyEvent::FromClient(Ok(v)) && method_of(v@) == Some("initialized"@),
        a is SendToServer,
{
    match ev {
        ProxyEvent::FromClient(msg) => {
            if m.state == State::Initializing && m.handshake == Handshake::AwaitInitialized {
                let r = choose|r: Result<(), LspzError>| #![trigger ensure_result(msg, "initialized"@, r)]
                    ensure_result(msg, "initialized"@, r) && if r is Ok {
                        n == (ProxyMachine { state: State::Ready, handshake: Handshake::Done })
                            && a is SendToServer
                    } else {
                        n == m && a == ProxyAction::Finish(r)
                    };
                assert(r is Ok);
            }
        },
        _ => {},
    }
}

} // verus!
