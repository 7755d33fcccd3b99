//! The error type of the library.
use vstd::prelude::*;

verus! {

/// What can go wrong while reading, compressing or configuring.
#[derive(Debug)]
pub enum LspzError {
    /// An I/O failure, by its description.
    Io(String),
    /// Text that is not valid JSON, or JSON that does not have the expected shape.
    JsonParse(String),
    /// A message that breaks the LSP / JSON-RPC protocol.
    Protocol(String),
    /// The other side closed the stream.
    ServerExited,
    /// A wait that ran out of time.
    Timeout(String),
    /// A configuration that cannot be used.
    Config(String),
}

impl LspzError {
    /// A human-readable description of the error.
    pub fn describe(&self) -> (r: String)
        ensures
            match self {
                LspzError::Protocol(m) => r@ == "protocol error: "@ + m@,
                LspzError::Config(m) => r@ == "config error: "@ + m@,
                LspzError::Io(m) => r@ == "IO error: "@ + m@,
                LspzError::JsonParse(m) => r@ == "JSON parse error: "@ + m@,
                LspzError::Timeout(m) => r@ == "timeout: "@ + m@,
                LspzError::ServerExited => r@ == "server exited unexpectedly"@,
            },
    {
        let (prefix, msg): (&str, &str) = match self {
            LspzError::Protocol(m) => ("protocol error: ", m.as_str()),
            LspzError::Config(m) => ("config error: ", m.as_str()),
            LspzError::Io(m) => ("IO error: ", m.as_str()),
            LspzError::JsonParse(m) => ("JSON parse error: ", m.as_str()),
            LspzError::Timeout(m) => ("timeout: ", m.as_str()),
            LspzError::ServerExited => ("server exited unexpectedly", ""),
        };
        let mut r = prefix.to_owned();
        r.append(msg);
        proof {
            assert(""@ =~= Seq::<char>::empty()) by {
                reveal_strlit("");
            }
            assert(r@ =~= prefix@ + msg@);
        }
        r
    }

    /// Whether this is a protocol error.
    pub fn is_protocol(&self) -> (r: bool)
        ensures
            r == (self is Protocol),
    {
        match self {
            LspzError::Protocol(_) => true,
            _ => false,
        }
    }
}

/// A protocol error with the given message.
pub fn protocol(msg: &str) -> (r: LspzError)
    ensures
        r matches LspzError::Protocol(m) && m@ == msg@,
{
    LspzError::Protocol(msg.to_owned())
}

/// A configuration error with the given message.
pub fn config_error(msg: &str) -> (r: LspzError)
    ensures
        r matches LspzError::Config(m) && m@ == msg@,
{
    LspzError::Config(msg.to_owned())
}

} // verus!
