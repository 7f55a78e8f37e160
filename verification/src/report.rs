//! Wording of everything the debugger reports: stop positions, exit and
//! signal notices, backtrace frames, printed variables and echoed source
//! lines. Each builder states the exact character sequence it produces.

use vstd::prelude::*;
use vstd::string::StringExecFns;

use crate::dwarf::{last_func_le, last_line_le, DebugInfo, FunctionSym, LineRow};
use crate::numbers::{dec_chars, dec_chars64, dec_str, hex_chars, hex_str};
use crate::session::Status;
use crate::strutil::{string_from_chars, str_eq_string};

verus! {

/// `n` space characters.
pub open spec fn spaces(n: nat) -> Seq<char>
    decreases n,
{
    if n == 0 {
        Seq::empty()
    } else {
        spaces((n - 1) as nat).push(' ')
    }
}

/// The decimal rendering of a signed value.
pub open spec fn int_str(v: int) -> Seq<char> {
    if v < 0 {
        seq!['-'] + dec_str((-v) as nat)
    } else {
        dec_str(v as nat)
    }
}

fn signed_dec(v: i32) -> (r: String)
    ensures
        r@ == int_str(v as int),
{
    if v < 0 {
        let mut s = String::from_str("-");
        let m: u64 = (-(v as i64)) as u64;
        let num = string_from_chars(&dec_chars64(m));
        s.append(num.as_str());
        proof {
            reveal_strlit("-");
            assert(s@ =~= int_str(v as int));
        }
        s
    } else {
        string_from_chars(&dec_chars64(v as u64))
    }
}

/// The name of a signal, as the kernel's numbering on x86-64 Linux has it;
/// an unknown number is rendered in decimal.
pub open spec fn signal_name_spec(sig: int) -> Seq<char> {
    if sig == 1 {
        "SIGHUP"@
    } else if sig == 2 {
        "SIGINT"@
    } else if sig == 3 {
        "SIGQUIT"@
    } else if sig == 4 {
        "SIGILL"@
    } else if sig == 5 {
        "SIGTRAP"@
    } else if sig == 6 {
        "SIGABRT"@
    } else if sig == 7 {
        "SIGBUS"@
    } else if sig == 8 {
        "SIGFPE"@
    } else if sig == 9 {
        "SIGKILL"@
    } else if sig == 10 {
        "SIGUSR1"@
    } else if sig == 11 {
        "SIGSEGV"@
    } else if sig == 12 {
        "SIGUSR2"@
    } else if sig == 13 {
        "SIGPIPE"@
    } else if sig == 14 {
        "SIGALRM"@
    } else if sig == 15 {
        "SIGTERM"@
    } else if sig == 16 {
        "SIGSTKFLT"@
    } else if sig == 17 {
        "SIGCHLD"@
    } else if sig == 18 {
        "SIGCONT"@
    } else if sig == 19 {
        "SIGSTOP"@
    } else if sig == 20 {
        "SIGTSTP"@
    } else if sig == 21 {
        "SIGTTIN"@
    } else if sig == 22 {
        "SIGTTOU"@
    } else if sig == 23 {
        "SIGURG"@
    } else if sig == 24 {
        "SIGXCPU"@
    } else if sig == 25 {
        "SIGXFSZ"@
    } else if sig == 26 {
        "SIGVTALRM"@
    } else if sig == 27 {
        "SIGPROF"@
    } else if sig == 28 {
        "SIGWINCH"@
    } else if sig == 29 {
        "SIGIO"@
    } else if sig == 30 {
        "SIGPWR"@
    } else if sig == 31 {
        "SIGSYS"@
    } else {
        int_str(sig)
    }
}

/// Render a signal number as its conventional name.
pub fn signal_name(sig: i32) -> (r: String)
    ensures
        r@ == signal_name_spec(sig as int),
{
    if sig == 1 {
        String::from_str("SIGHUP")
    } else if sig == 2 {
        String::from_str("SIGINT")
    } else if sig == 3 {
        String::from_str("SIGQUIT")
    } else if sig == 4 {
        String::from_str("SIGILL")
    } else if sig == 5 {
        String::from_str("SIGTRAP")
    } else if sig == 6 {
        String::from_str("SIGABRT")
    } else if sig == 7 {
        String::from_str("SIGBUS")
    } else if sig == 8 {
        String::from_str("SIGFPE")
    } else if sig == 9 {
        String::from_str("SIGKILL")
    } else if sig == 10 {
        String::from_str("SIGUSR1")
    } else if sig == 11 {
        String::from_str("SIGSEGV")
    } else if sig == 12 {
        String::from_str("SIGUSR2")
    } else if sig == 13 {
        String::from_str("SIGPIPE")
    } else if sig == 14 {
        String::from_str("SIGALRM")
    } else if sig == 15 {
        String::from_str("SIGTERM")
    } else if sig == 16 {
        String::from_str("SIGSTKFLT")
    } else if sig == 17 {
        String::from_str("SIGCHLD")
    } else if sig == 18 {
        String::from_str("SIGCONT")
    } else if sig == 19 {
        String::from_str("SIGSTOP")
    } else if sig == 20 {
        String::from_str("SIGTSTP")
    } else if sig == 21 {
        String::from_str("SIGTTIN")
    } else if sig == 22 {
        String::from_str("SIGTTOU")
    } else if sig == 23 {
        String::from_str("SIGURG")
    } else if sig == 24 {
        String::from_str("SIGXCPU")
    } else if sig == 25 {
        String::from_str("SIGXFSZ")
    } else if sig == 26 {
        String::from_str("SIGVTALRM")
    } else if sig == 27 {
        String::from_str("SIGPROF")
    } else if sig == 28 {
        String::from_str("SIGWINCH")
    } else if sig == 29 {
        String::from_str("SIGIO")
    } else if sig == 30 {
        String::from_str("SIGPWR")
    } else if sig == 31 {
        String::from_str("SIGSYS")
    } else {
        signed_dec(sig)
    }
}

/// The notice reported for a wait outcome: an exit with its status code, a
/// termination with its signal, or a stop with its signal.
pub open spec fn status_message_spec(status: Status) -> Seq<char> {
    match status {
        Status::Exited(code) => "Child exited (status "@ + int_str(code as int) + ")"@,
        Status::Signaled(sig) => "Child exited (signal "@ + signal_name_spec(sig as int) + ")"@,
        Status::Stopped(sig, _) => "Child stopped (signal "@ + signal_name_spec(sig as int)
            + ")"@,
    }
}

/// Word one wait outcome for the user.
pub fn status_message(status: &Status) -> (r: String)
    ensures
        r@ == status_message_spec(*status),
{
    match status {
        Status::Exited(code) => {
            let mut s = String::from_str("Child exited (status ");
            let num = signed_dec(*code);
            s.append(num.as_str());
            s.append(")");
            s
        },
        Status::Signaled(sig) => {
            let mut s = String::from_str("Child exited (signal ");
            let num = signal_name(*sig);
            s.append(num.as_str());
            s.append(")");
            s
        },
        Status::Stopped(sig, _) => {
            let mut s = String::from_str("Child stopped (signal ");
            let num = signal_name(*sig);
            s.append(num.as_str());
            s.append(")");
            s
        },
    }
}

/// The stop position report: function and source position when both are
/// known, else the raw address in hexadecimal.
pub open spec fn stop_report_spec(
    lines: Seq<LineRow>,
    funcs: Seq<FunctionSym>,
    rip: usize,
) -> Seq<char> {
    let li = last_line_le(lines, rip, lines.len() as int);
    let fi = last_func_le(funcs, rip, funcs.len() as int);
    if li is Some && fi is Some {
        "Stopped at "@ + funcs[fi->0].name@ + " "@ + lines[li->0].file@ + ":"@ + dec_str(
            lines[li->0].number as nat,
        )
    } else {
        "Stopped at 0x"@ + hex_str(rip as nat)
    }
}

/// Word a stop position for the user.
pub fn stop_report(debug_data: &DebugInfo, rip: usize) -> (r: String)
    ensures
        r@ == stop_report_spec(debug_data.lines@, debug_data.functions@, rip),
{
    let line = debug_data.line_from_addr(rip);
    let func = debug_data.function_from_addr(rip);
    match (line, func) {
        (Some(row), Some(f)) => {
            let mut s = String::from_str("Stopped at ");
            s.append(f.name.as_str());
            s.append(" ");
            s.append(row.file.as_str());
            s.append(":");
            let num = string_from_chars(&dec_chars(row.number));
            s.append(num.as_str());
            s
        },
        _ => {
            let mut s = String::from_str("Stopped at 0x");
            let num = string_from_chars(&hex_chars(rip));
            s.append(num.as_str());
            s
        },
    }
}

/// One backtrace frame: function and source position when both are known,
/// else the raw address in hexadecimal.
pub open spec fn frame_report_spec(
    lines: Seq<LineRow>,
    funcs: Seq<FunctionSym>,
    rip: usize,
) -> Seq<char> {
    let li = last_line_le(lines, rip, lines.len() as int);
    let fi = last_func_le(funcs, rip, funcs.len() as int);
    if li is Some && fi is Some {
        funcs[fi->0].name@ + ": "@ + lines[li->0].file@ + ":"@ + dec_str(
            lines[li->0].number as nat,
        )
    } else {
        "0x"@ + hex_str(rip as nat)
    }
}

/// Word one backtrace frame for the user.
pub fn frame_report(debug_data: &DebugInfo, rip: usize) -> (r: String)
    ensures
        r@ == frame_report_spec(debug_data.lines@, debug_data.functions@, rip),
{
    let line = debug_data.line_from_addr(rip);
    let func = debug_data.function_from_addr(rip);
    match (line, func) {
        (Some(row), Some(f)) => {
            let mut s = String::from_str("");
            s.append(f.name.as_str());
            s.append(": ");
            s.append(row.file.as_str());
            s.append(":");
            let num = string_from_chars(&dec_chars(row.number));
            s.append(num.as_str());
            proof {
                reveal_strlit("");
                assert(s@ =~= frame_report_spec(debug_data.lines@, debug_data.functions@, rip));
            }
            s
        },
        _ => {
            let mut s = String::from_str("0x");
            let num = string_from_chars(&hex_chars(rip));
            s.append(num.as_str());
            s
        },
    }
}

/// The frame-pointer walk stops at the outermost frame: the one whose
/// covering function is named `main`.
pub open spec fn is_main_frame_spec(funcs: Seq<FunctionSym>, rip: usize) -> bool {
    match last_func_le(funcs, rip, funcs.len() as int) {
        Some(i) => funcs[i].name@ == "main"@,
        None => false,
    }
}

/// Whether the frame at `rip` belongs to `main`, ending the walk.
pub fn is_main_frame(debug_data: &DebugInfo, rip: usize) -> (r: bool)
    ensures
        r == is_main_frame_spec(debug_data.functions@, rip),
{
    match debug_data.function_from_addr(rip) {
        Some(f) => str_eq_string("main", &f.name),
        None => false,
    }
}

/// A printed variable: its name, its value masked to its declared size, and
/// its type.
pub open spec fn var_report_spec(name: Seq<char>, value: u64, ty: Seq<char>) -> Seq<char> {
    name + " = "@ + dec_str(value as nat) + " ("@ + ty + ")"@
}

/// Word a printed variable for the user.
pub fn var_report(name: &str, value: u64, ty: &str) -> (r: String)
    ensures
        r@ == var_report_spec(name@, value, ty@),
{
    let mut s = String::from_str(name);
    s.append(" = ");
    let num = string_from_chars(&dec_chars64(value));
    s.append(num.as_str());
    s.append(" (");
    s.append(ty);
    s.append(")");
    s
}

/// An echoed source line: its number left-aligned to four columns, then the
/// line's text.
pub open spec fn source_line_spec(number: usize, text: Seq<char>) -> Seq<char> {
    let num = dec_str(number as nat);
    let pad = if num.len() < 4 {
        spaces((4 - num.len()) as nat)
    } else {
        Seq::empty()
    };
    num + pad + " "@ + text
}

/// Word an echoed source line for the user.
pub fn source_line_report(number: usize, text: &str) -> (r: String)
    ensures
        r@ == source_line_spec(number, text@),
{
    let num = dec_chars(number);
    let mut s = string_from_chars(&num);
    if num.len() < 4 {
        let mut k: usize = num.len();
        while k < 4
            invariant
                num@.len() <= k <= 4,
                num@ == dec_str(number as nat),
                s@ == num@ + spaces((k - num@.len()) as nat),
            decreases 4 - k,
        {
            s.push(' ');
            k += 1;
        }
    }
    s.append(" ");
    s.append(text);
    proof {
        assert(s@ =~= source_line_spec(number, text@));
    }
    s
}

} // verus!
