//! What the server takes from its environment, and what it gives to its child.

use vstd::prelude::*;
use vstd::string::*;

use crate::args::{pair_views, Args, ArgsView};
use crate::opts::str_view;
use crate::text::{chars_of, decimal, push_decimal};
use crate::views::{group_views, views};
use crate::words::{
    after_last, copy_words, digits_in, read_unsigned, tail_after, trim, trimmed, unsigned_in,
};

verus! {

broadcast use group_views;

/// The longest time without word from the client, as an operator sets it.
#[derive(Debug, Clone, Copy, PartialEq, Eq, Structural)]
pub enum NetworkTimeout {
    Unset,
    /// In milliseconds.
    Limit(u64),
    Negative,
    NotANumber,
}

/// A number of seconds in milliseconds, or the largest there is.
pub open spec fn in_milliseconds(seconds: nat) -> u64 {
    if seconds * 1000 > u64::MAX {
        u64::MAX
    } else {
        (seconds * 1000) as u64
    }
}

/// The time limit that a text sets, in seconds.
pub open spec fn timeout_in(raw: Option<Seq<char>>) -> NetworkTimeout {
    match raw {
        None => NetworkTimeout::Unset,
        Some(s) => {
            let t = trimmed(s);
            if t.len() > 0 && t[0] == '-' {
                match digits_in(t.skip(1), 0x8000_0000_0000_0000) {
                    Some(n) => if n == 0 {
                        NetworkTimeout::Limit(0)
                    } else {
                        NetworkTimeout::Negative
                    },
                    None => NetworkTimeout::NotANumber,
                }
            } else {
                match unsigned_in(t, 0x7fff_ffff_ffff_ffff) {
                    Some(n) => NetworkTimeout::Limit(in_milliseconds(n)),
                    None => NetworkTimeout::NotANumber,
                }
            }
        },
    }
}

/// The time limit that the value of `MOSH_SERVER_NETWORK_TMOUT` sets.
pub fn network_timeout(raw: Option<&str>) -> (t: NetworkTimeout)
    ensures
        t == timeout_in(str_view(raw)),
{
    let s = match raw {
        Some(s) => trim(s),
        None => {
            return NetworkTimeout::Unset;
        },
    };
    let chars = chars_of(s.as_str());
    if chars.len() > 0 && chars[0] == '-' {
        let rest = vstd::slice::slice_subrange(chars.as_slice(), 1, chars.len());
        assert(rest@ =~= s@.skip(1));
        return match crate::words::read_digits(rest, 0x8000_0000_0000_0000) {
            Some(n) => {
                if n == 0 {
                    NetworkTimeout::Limit(0)
                } else {
                    NetworkTimeout::Negative
                }
            },
            None => NetworkTimeout::NotANumber,
        };
    }
    match read_unsigned(s.as_str(), 0x7fff_ffff_ffff_ffff) {
        Some(n) => {
            if n > u64::MAX / 1000 {
                NetworkTimeout::Limit(u64::MAX)
            } else {
                NetworkTimeout::Limit(n * 1000)
            }
        },
        None => NetworkTimeout::NotANumber,
    }
}

/// The program to run in the pty, and its arguments: the requested command, or the user's
/// shell. A leading dash asks the shell to behave as a login shell.
pub open spec fn command_to_run(a: ArgsView, shell: Option<Seq<char>>) -> (
    Seq<char>,
    Seq<Seq<char>>,
) {
    if a.command.len() > 0 {
        (a.command[0], a.command)
    } else {
        let program = match shell {
            Some(s) => s,
            None => "/bin/sh"@,
        };
        (program, seq!["-"@ + after_last(program, '/')])
    }
}

/// What to run in the pty, given the value of `SHELL`.
pub fn child_command(args: &Args, shell: Option<&str>) -> (r: (String, Vec<String>))
    ensures
        (r.0@, views(r.1@)) == command_to_run(args@, str_view(shell)),
{
    if args.command.len() > 0 {
        assert(args@.command[0] == args.command@[0]@);
        return (args.command[0].clone(), copy_words(args.command.as_slice()));
    }
    let program = match shell {
        Some(s) => s.to_owned(),
        None => "/bin/sh".to_owned(),
    };
    let mut name = "-".to_owned();
    name.append(tail_after(program.as_str(), '/').as_str());
    let mut argv: Vec<String> = Vec::new();
    argv.push(name);
    assert(views(argv@) =~= seq!["-"@ + after_last(program@, '/')]);
    (program, argv)
}

/// The type of terminal that the child sees.
pub open spec fn child_term(a: ArgsView, term: Option<Seq<char>>) -> Seq<char> {
    if a.colors >= 256 {
        "xterm-256color"@
    } else {
        match term {
            Some(t) => t,
            None => "xterm"@,
        }
    }
}

/// The type of terminal that the child sees, given the value of `TERM`.
pub fn pick_term(args: &Args, term: Option<&str>) -> (s: String)
    ensures
        s@ == child_term(args@, str_view(term)),
{
    if args.colors >= 256 {
        return "xterm-256color".to_owned();
    }
    match term {
        Some(t) => t.to_owned(),
        None => "xterm".to_owned(),
    }
}

/// The variables that the child finds in its environment.
pub open spec fn child_variables(a: ArgsView, term: Option<Seq<char>>) -> Seq<
    (Seq<char>, Seq<char>),
> {
    seq![("TERM"@, child_term(a, term)), ("NCURSES_NO_UTF8_ACS"@, "1"@)] + a.locale_vars
}

/// The variables that the child finds in its environment, given the value of `TERM`.
pub fn child_env(args: &Args, term: Option<&str>) -> (env: Vec<(String, String)>)
    ensures
        pair_views(env@) == child_variables(args@, str_view(term)),
{
    let mut env: Vec<(String, String)> = Vec::new();
    env.push(("TERM".to_owned(), pick_term(args, term)));
    env.push(("NCURSES_NO_UTF8_ACS".to_owned(), "1".to_owned()));
    let ghost first = seq![
        ("TERM"@, child_term(args@, str_view(term))),
        ("NCURSES_NO_UTF8_ACS"@, "1"@),
    ];
    let ghost vars = args@.locale_vars;
    let mut i: usize = 0;
    assert(pair_views(env@) =~= first + vars.subrange(0, 0));
    while i < args.locale_vars.len()
        invariant
            vars == pair_views(args.locale_vars@),
            i <= vars.len(),
            pair_views(env@) == first + vars.subrange(0, i as int),
        decreases vars.len() - i,
    {
        let ghost before = pair_views(env@);
        let name = args.locale_vars[i].0.clone();
        let value = args.locale_vars[i].1.clone();
        env.push((name, value));
        assert(vars[i as int] == (name@, value@));
        assert(pair_views(env@) =~= before.push((name@, value@)));
        i = i + 1;
        assert(pair_views(env@) =~= first + vars.subrange(0, i as int));
    }
    assert(vars.subrange(0, i as int) =~= vars);
    env
}

/// The line that tells the launcher where the server is.
pub fn connect_line(port: u16, key: &str) -> (s: String)
    ensures
        s@ == "MOSH CONNECT "@ + decimal(port as nat) + " "@ + key@,
{
    let mut s = "MOSH CONNECT ".to_owned();
    push_decimal(&mut s, port as u64);
    s.append(" ");
    s.append(key);
    s
}

} // verus!
