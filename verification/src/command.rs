//! Backend commands: splitting a command line into a program and its
//! arguments, as the server process is spawned with, and the command that
//! shows the backend's own help.
use vstd::prelude::*;

use crate::error::LspzError;
use crate::json::strings_view;
use crate::text::{push_str, str_eq};

verus! {

/// The words `shell_words::split` makes of a command line, `None` when a
/// quote is not closed.
pub uninterp spec fn shell_split(s: Seq<char>) -> Option<Seq<Seq<char>>>;

/// `shell_words::split`: the words of a command line, split as a POSIX
/// shell does, or `None` (its `ParseError`, "missing closing quote") when a
/// quote is left open. The words are the named result of the text.
#[verifier::external_body]
fn split_words(cmd: &str) -> (r: Option<Vec<String>>)
    ensures
        match r {
            Some(v) => shell_split(cmd@) == Some(strings_view(v@)),
            None => shell_split(cmd@) is None,
        },
{
    shell_words::split(cmd).ok()
}

/// The message of a command whose quotes are not closed.
pub open spec fn unparsable_message(cmd: Seq<char>) -> Seq<char> {
    "failed to parse command '"@ + cmd + "': missing closing quote"@
}

/// What spawning a command starts from, given the words of the command
/// line: the first word is the program, the others its arguments; a
/// configuration error when the words could not be made (a quote left open)
/// or there are none.
pub open spec fn spec_program_and_args(cmd: Seq<char>, words: Option<Seq<Seq<char>>>) -> Result<
    (Seq<char>, Seq<Seq<char>>),
    Seq<char>,
> {
    match words {
        None => Err(unparsable_message(cmd)),
        Some(w) => if w.len() == 0 {
            Err("empty backend command"@)
        } else {
            Ok((w[0], w.drop_first()))
        },
    }
}

/// Whether `r` is the executable form of a program-and-arguments result.
pub open spec fn parts_match(
    r: Result<(String, Vec<String>), LspzError>,
    s: Result<(Seq<char>, Seq<Seq<char>>), Seq<char>>,
) -> bool {
    match s {
        Ok((p, a)) => r matches Ok((q, b)) && q@ == p && strings_view(b@) == a,
        Err(m) => r matches Err(LspzError::Config(x)) && x@ == m,
    }
}

/// The program and arguments of a command, given the words of its command
/// line.
pub fn program_and_args(cmd: &str, words: Option<Vec<String>>) -> (r: Result<
    (String, Vec<String>),
    LspzError,
>)
    ensures
        parts_match(
            r,
            spec_program_and_args(
                cmd@,
                match words {
                    Some(v) => Some(strings_view(v@)),
                    None => None,
                },
            ),
        ),
{
    match words {
        None => {
            let mut m = String::new();
            push_str(&mut m, "failed to parse command '");
            push_str(&mut m, cmd);
            push_str(&mut m, "': missing closing quote");
            proof {
                assert(m@ =~= unparsable_message(cmd@));
            }
            Err(LspzError::Config(m))
        },
        Some(mut w) => {
            if w.len() == 0 {
                return Err(crate::error::config_error("empty backend command"));
            }
            let ghost wv = strings_view(w@);
            let program = w.remove(0);
            proof {
                assert(strings_view(w@) =~= wv.drop_first());
            }
            Ok((program, w))
        },
    }
}

/// The program and arguments a backend command is spawned with.
pub fn spawn_parts(cmd: &str) -> (r: Result<(String, Vec<String>), LspzError>)
    ensures
        parts_match(r, spec_program_and_args(cmd@, shell_split(cmd@))),
{
    let words = split_words(cmd);
    program_and_args(cmd, words)
}

/// Whether the extra backend arguments ask for help (`--help` or `-h`).
pub open spec fn asks_for_help(args: Seq<Seq<char>>) -> bool {
    exists|i: int| 0 <= i < args.len() && (args[i] == "--help"@ || args[i] == "-h"@)
}

/// Whether the extra backend arguments ask for help.
pub fn wants_backend_help(args: &Vec<String>) -> (r: bool)
    ensures
        r == asks_for_help(strings_view(args@)),
{
    let ghost av = strings_view(args@);
    let mut i: usize = 0;
    while i < args.len()
        invariant
            0 <= i <= args@.len(),
            av == strings_view(args@),
            forall|j: int| 0 <= j < i ==> !(av[j] == "--help"@ || av[j] == "-h"@),
        decreases args.len() - i,
    {
        if str_eq(args[i].as_str(), "--help") || str_eq(args[i].as_str(), "-h") {
            proof {
                assert(av[i as int] == args@[i as int]@);
            }
            return true;
        }
        i = i + 1;
    }
    false
}

/// The message for a backend command line whose quotes are not closed, when
/// its help is asked for.
pub open spec fn help_unparsable_message(backend: Seq<char>) -> Seq<char> {
    "Failed to parse backend command '"@ + backend + "': missing closing quote"@
}

/// The command that shows the backend's own help, given the backend command
/// line and its words: none unless the extra arguments ask for help; else
/// its program, with its arguments followed by the extra ones; an error when
/// a quote is left open or the command has no words.
pub open spec fn spec_help_command(
    backend: Seq<char>,
    words: Option<Seq<Seq<char>>>,
    extra: Seq<Seq<char>>,
) -> Option<Result<(Seq<char>, Seq<Seq<char>>), Seq<char>>> {
    if !asks_for_help(extra) {
        None
    } else {
        match words {
            Some(w) => if w.len() > 0 {
                Some(Ok((w[0], w.drop_first() + extra)))
            } else {
                Some(Err("Empty backend command"@))
            },
            None => Some(Err(help_unparsable_message(backend))),
        }
    }
}

/// Whether a help result matches its model: the same program and arguments,
/// or a configuration error with the same message.
pub open spec fn help_result_matches(
    r: Option<Result<(String, Vec<String>), LspzError>>,
    m: Option<Result<(Seq<char>, Seq<Seq<char>>), Seq<char>>>,
) -> bool {
    match m {
        None => r is None,
        Some(Ok((p, a))) => r matches Some(Ok((q, b))) && q@ == p && strings_view(b@) == a,
        Some(Err(msg)) => r matches Some(Err(LspzError::Config(x))) && x@ == msg,
    }
}

/// The help command, given the backend command line and its words.
pub fn help_command_from_words(backend: &str, words: Option<Vec<String>>, extra: &Vec<String>) -> (r: Option<
    Result<(String, Vec<String>), LspzError>,
>)
    ensures
        help_result_matches(
            r,
            spec_help_command(
                backend@,
                match words {
                    Some(v) => Some(strings_view(v@)),
                    None => None,
                },
                strings_view(extra@),
            ),
        ),
{
    if !wants_backend_help(extra) {
        return None;
    }
    match words {
        Some(mut w) => {
            if w.len() == 0 {
                return Some(Err(LspzError::Config("Empty backend command".to_owned())));
            }
            let ghost wv = strings_view(w@);
            let program = w.remove(0);
            let mut i: usize = 0;
            let ghost base = strings_view(w@);
            proof {
                assert(base =~= wv.drop_first());
            }
            while i < extra.len()
                invariant
                    0 <= i <= extra@.len(),
                    strings_view(w@) == base + strings_view(extra@).take(i as int),
                decreases extra.len() - i,
            {
                let ghost before = w@;
                let item = extra[i].clone();
                proof {
                    assert(item@ == extra@[i as int]@);
                }
                w.push(item);
                proof {
                    assert(strings_view(w@) =~= strings_view(before).push(item@));
                    assert(strings_view(extra@).take(i + 1) =~= strings_view(extra@).take(
                        i as int,
                    ).push(extra@[i as int]@));
                    assert(strings_view(w@) =~= base + strings_view(extra@).take(i + 1));
                }
                i = i + 1;
            }
            proof {
                assert(strings_view(extra@).take(i as int) =~= strings_view(extra@));
            }
            Some(Ok((program, w)))
        },
        None => {
            let mut msg = "Failed to parse backend command '".to_owned();
            push_str(&mut msg, backend);
            push_str(&mut msg, "': missing closing quote");
            Some(Err(LspzError::Config(msg)))
        },
    }
}

/// The command that shows the backend's own help, when the extra arguments
/// ask for it; an error when the backend command cannot be split into words
/// or has none.
pub fn backend_help_command(backend: &str, extra: &Vec<String>) -> (r: Option<
    Result<(String, Vec<String>), LspzError>,
>)
    ensures
        help_result_matches(r, spec_help_command(backend@, shell_split(backend@), strings_view(extra@))),
{
    if !wants_backend_help(extra) {
        return None;
    }
    let words = split_words(backend);
    help_command_from_words(backend, words, extra)
}

} // verus!
