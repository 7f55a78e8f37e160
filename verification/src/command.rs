//! User commands and the tokens-to-command translation. The surrounding
//! prompt loop tokenizes each input line on white space and hands the tokens
//! here; an unrecognized or incomplete command yields nothing and the loop
//! re-prompts.

use vstd::prelude::*;
use vstd::string::StringExecFns;

use crate::strutil::str_eq;

verus! {

pub enum DebuggerCommand {
    Quit,
    Run(Vec<String>),
    Continue,
    Backtrace,
    Break(String),
    NaturalBreak(String),
    Next,
    Print(String),
}

/// The character sequences of a sequence of string slices.
pub open spec fn views_of(ts: Seq<&str>) -> Seq<Seq<char>> {
    ts.map_values(|t: &str| t@)
}

/// All the pieces, concatenated with nothing between them.
pub open spec fn concat_all(ts: Seq<Seq<char>>) -> Seq<char>
    decreases ts.len(),
{
    if ts.len() == 0 {
        Seq::empty()
    } else {
        concat_all(ts.drop_last()) + ts.last()
    }
}

/// All the pieces, joined by single spaces.
pub open spec fn join_spaced(ts: Seq<Seq<char>>) -> Seq<char>
    decreases ts.len(),
{
    if ts.len() == 0 {
        Seq::empty()
    } else if ts.len() == 1 {
        ts[0]
    } else {
        join_spaced(ts.drop_last()) + seq![' '] + ts.last()
    }
}

/// A command at the specification level: each argument is a character
/// sequence rather than an owned string.
pub enum CommandSpec {
    Quit,
    Run(Seq<Seq<char>>),
    Continue,
    Backtrace,
    Break(Seq<char>),
    NaturalBreak(Seq<char>),
    Next,
    Print(Seq<char>),
}

/// What one tokenized input line means, on the token character sequences:
/// the command word (or an alias) decides the variant; `break` concatenates
/// its arguments, `nb` joins them with spaces, `print` takes one word;
/// `break`, `print` and `nb` without an argument, and unknown words, mean
/// nothing.
pub open spec fn spec_from_tokens(ts: Seq<Seq<char>>) -> Option<CommandSpec> {
    let first = ts[0];
    let ntok = ts.len() as int;
    if first == "q"@ || first == "quit"@ {
        Some(CommandSpec::Quit)
    } else if first == "r"@ || first == "run"@ {
        Some(CommandSpec::Run(ts.subrange(1, ntok)))
    } else if first == "c"@ || first == "cont"@ || first == "continue"@ {
        Some(CommandSpec::Continue)
    } else if first == "bt"@ || first == "back"@ || first == "backtrace"@ {
        Some(CommandSpec::Backtrace)
    } else if first == "b"@ || first == "break"@ {
        if ntok < 2 {
            None
        } else {
            Some(CommandSpec::Break(concat_all(ts.subrange(1, ntok))))
        }
    } else if first == "n"@ || first == "next"@ {
        Some(CommandSpec::Next)
    } else if first == "p"@ || first == "print"@ {
        if ntok < 2 {
            None
        } else {
            Some(CommandSpec::Print(ts[1]))
        }
    } else if first == "nb"@ {
        if ntok < 2 {
            None
        } else {
            Some(CommandSpec::NaturalBreak(join_spaced(ts.subrange(1, ntok))))
        }
    } else {
        None
    }
}

/// The parsed command carries exactly the text the specification-level
/// command describes.
pub open spec fn command_matches(r: Option<DebuggerCommand>, s: Option<CommandSpec>) -> bool {
    match (r, s) {
        (None, None) => true,
        (Some(DebuggerCommand::Quit), Some(CommandSpec::Quit)) => true,
        (Some(DebuggerCommand::Run(args)), Some(CommandSpec::Run(ts))) => args@.map_values(
            |a: String| a@,
        ) == ts,
        (Some(DebuggerCommand::Continue), Some(CommandSpec::Continue)) => true,
        (Some(DebuggerCommand::Backtrace), Some(CommandSpec::Backtrace)) => true,
        (Some(DebuggerCommand::Break(x)), Some(CommandSpec::Break(t))) => x@ == t,
        (Some(DebuggerCommand::NaturalBreak(x)), Some(CommandSpec::NaturalBreak(t))) => x@ == t,
        (Some(DebuggerCommand::Next), Some(CommandSpec::Next)) => true,
        (Some(DebuggerCommand::Print(x)), Some(CommandSpec::Print(t))) => x@ == t,
        _ => false,
    }
}

/// Concatenate the tokens after the command word into one argument.
fn concat_tail(tokens: &Vec<&str>) -> (r: String)
    requires
        tokens@.len() >= 1,
    ensures
        r@ == concat_all(views_of(tokens@.subrange(1, tokens@.len() as int))),
{
    let ghost tail = views_of(tokens@.subrange(1, tokens@.len() as int));
    let mut s = String::new();
    let n = tokens.len();
    let mut i: usize = 1;
    while i < n
        invariant
            1 <= i <= n,
            n == tokens@.len(),
            tail == views_of(tokens@.subrange(1, tokens@.len() as int)),
            s@ == concat_all(tail.subrange(0, i - 1)),
        decreases n - i,
    {
        s.append(tokens[i]);
        i += 1;
        proof {
            let pre = tail.subrange(0, i - 1);
            assert(pre.drop_last() =~= tail.subrange(0, i - 2));
            assert(pre.last() == tokens@.subrange(1, tokens@.len() as int)[i - 2]@);
        }
    }
    proof {
        assert(tail.subrange(0, n - 1) =~= tail);
    }
    s
}

/// Join the tokens after the command word with single spaces.
fn join_tail(tokens: &Vec<&str>) -> (r: String)
    requires
        tokens@.len() >= 2,
    ensures
        r@ == join_spaced(views_of(tokens@.subrange(1, tokens@.len() as int))),
{
    let ghost tail = views_of(tokens@.subrange(1, tokens@.len() as int));
    let mut s = String::new();
    let n = tokens.len();
    let mut i: usize = 1;
    while i < n
        invariant
            1 <= i <= n,
            2 <= n == tokens@.len(),
            tail == views_of(tokens@.subrange(1, tokens@.len() as int)),
            s@ == join_spaced(tail.subrange(0, i - 1)),
        decreases n - i,
    {
        if i > 1 {
            s.push(' ');
        }
        s.append(tokens[i]);
        i += 1;
        proof {
            let pre = tail.subrange(0, i - 1);
            assert(pre.drop_last() =~= tail.subrange(0, i - 2));
            assert(pre.last() == tokens@.subrange(1, tokens@.len() as int)[i - 2]@);
            if i - 1 == 1 {
                assert(s@ =~= join_spaced(pre));
            } else {
                assert(s@ =~= join_spaced(pre.drop_last()) + seq![' '] + pre.last());
            }
        }
    }
    proof {
        assert(tail.subrange(0, n - 1) =~= tail);
    }
    s
}

impl DebuggerCommand {
    /// Translate one tokenized input line into a command. Aliased command
    /// words are accepted; `break`, `print` and `nb` demand an argument;
    /// anything else is no command.
    pub fn from_tokens(tokens: &Vec<&str>) -> (r: Option<DebuggerCommand>)
        requires
            tokens@.len() >= 1,
        ensures
            command_matches(r, spec_from_tokens(views_of(tokens@))),
    {
        let ghost ts = views_of(tokens@);
        proof {
            assert(ts[0] == tokens@[0]@);
            assert forall|i: int| 1 <= i < ts.len() implies ts.subrange(1, ts.len() as int)[i - 1]
                == tokens@[i]@ by {}
            assert(ts.subrange(1, ts.len() as int) =~= views_of(
                tokens@.subrange(1, tokens@.len() as int),
            ));
        }
        let first = tokens[0];
        if str_eq(first, "q") || str_eq(first, "quit") {
            Some(DebuggerCommand::Quit)
        } else if str_eq(first, "r") || str_eq(first, "run") {
            let mut args: Vec<String> = Vec::new();
            let n = tokens.len();
            let mut i: usize = 1;
            while i < n
                invariant
                    1 <= i <= n,
                    n == tokens@.len(),
                    args@.len() == i - 1,
                    forall|j: int| 0 <= j < i - 1 ==> args@[j]@ == tokens@[j + 1]@,
                decreases n - i,
            {
                args.push(String::from_str(tokens[i]));
                i += 1;
            }
            proof {
                assert(args@.map_values(|a: String| a@) =~= ts.subrange(1, ts.len() as int));
            }
            Some(DebuggerCommand::Run(args))
        } else if str_eq(first, "c") || str_eq(first, "cont") || str_eq(first, "continue") {
            Some(DebuggerCommand::Continue)
        } else if str_eq(first, "bt") || str_eq(first, "back") || str_eq(first, "backtrace") {
            Some(DebuggerCommand::Backtrace)
        } else if str_eq(first, "b") || str_eq(first, "break") {
            if tokens.len() < 2 {
                None
            } else {
                Some(DebuggerCommand::Break(concat_tail(tokens)))
            }
        } else if str_eq(first, "n") || str_eq(first, "next") {
            Some(DebuggerCommand::Next)
        } else if str_eq(first, "p") || str_eq(first, "print") {
            if tokens.len() < 2 {
                None
            } else {
                Some(DebuggerCommand::Print(String::from_str(tokens[1])))
            }
        } else if str_eq(first, "nb") {
            if tokens.len() < 2 {
                None
            } else {
                Some(DebuggerCommand::NaturalBreak(join_tail(tokens)))
            }
        } else {
            None
        }
    }
}

} // verus!
