//! The server's command line.

use vstd::prelude::*;
use vstd::slice::*;
use vstd::string::*;

use crate::opts::{is_option, str_view, text_view};
use crate::text::{chars_of, string_of, text_eq};
use crate::views::{group_views, views};
use crate::words::{
    copy_words, read_signed, read_unsigned, signed_in, split_at_first, split_once, split_words,
    unsigned_in, words_in,
};

verus! {

broadcast use group_views;

/// What the server was asked for.
#[verifier::ext_equal]
pub struct ArgsView {
    pub desired_ip: Option<Seq<char>>,
    pub desired_port: Option<Seq<char>>,
    pub command: Seq<Seq<char>>,
    pub colors: int,
    pub verbose: u32,
    pub locale_vars: Seq<(Seq<char>, Seq<char>)>,
    pub help: bool,
    pub version: bool,
}

/// The views of names with their values.
pub open spec fn pair_views(s: Seq<(String, String)>) -> Seq<(Seq<char>, Seq<char>)> {
    s.map_values(|p: (String, String)| (p.0@, p.1@))
}

#[derive(Debug, Clone, PartialEq, Eq)]
pub struct Args {
    pub desired_ip: Option<String>,
    pub desired_port: Option<String>,
    /// Everything after `--`, run instead of the user's shell.
    pub command: Vec<String>,
    pub colors: i32,
    pub verbose: u32,
    /// `-l NAME=VALUE`, passed through to the child.
    pub locale_vars: Vec<(String, String)>,
    pub help: bool,
    pub version: bool,
}

impl View for Args {
    type V = ArgsView;

    open spec fn view(&self) -> ArgsView {
        ArgsView {
            desired_ip: text_view(self.desired_ip),
            desired_port: text_view(self.desired_port),
            command: views(self.command@),
            colors: self.colors as int,
            verbose: self.verbose,
            locale_vars: pair_views(self.locale_vars@),
            help: self.help,
            version: self.version,
        }
    }
}

impl ArgsView {
    /// What holds without any argument.
    pub open spec fn initial() -> ArgsView {
        ArgsView {
            desired_ip: None,
            desired_port: None,
            command: Seq::empty(),
            colors: 0,
            verbose: 0,
            locale_vars: Seq::empty(),
            help: false,
            version: false,
        }
    }
}

impl Default for Args {
    fn default() -> (a: Self)
        ensures
            a@ == ArgsView::initial(),
    {
        let a = Args {
            desired_ip: None,
            desired_port: None,
            command: Vec::new(),
            colors: 0,
            verbose: 0,
            locale_vars: Vec::new(),
            help: false,
            version: false,
        };
        assert(views(a.command@) =~= Seq::empty());
        assert(pair_views(a.locale_vars@) =~= Seq::empty());
        a
    }
}

#[derive(Debug, Clone, PartialEq, Eq)]
pub enum ArgError {
    BadColors(String),
    BadUsage,
}

/// Why arguments are refused.
pub enum ArgErrorView {
    BadColors(Seq<char>),
    BadUsage,
}

impl View for ArgError {
    type V = ArgErrorView;

    open spec fn view(&self) -> ArgErrorView {
        match *self {
            ArgError::BadColors(v) => ArgErrorView::BadColors(v@),
            ArgError::BadUsage => ArgErrorView::BadUsage,
        }
    }
}

/// The port, or the first and the last of a range of ports.
pub open spec fn portrange_in(s: Seq<char>) -> Option<(nat, nat)> {
    match split_at_first(s, ':') {
        None => match unsigned_in(s, 65535) {
            Some(p) => if p != 0 {
                Some((p, p))
            } else {
                None
            },
            None => None,
        },
        Some((lo, hi)) => match (unsigned_in(lo, 65535), unsigned_in(hi, 65535)) {
            (Some(lo), Some(hi)) => if lo != 0 && hi >= lo {
                Some((lo, hi))
            } else {
                None
            },
            _ => None,
        },
    }
}

/// Parse a port or port range, as `-p` accepts.
pub fn parse_portrange(s: &str) -> (r: Option<(u16, u16)>)
    ensures
        match r {
            Some((lo, hi)) => portrange_in(s@) == Some((lo as nat, hi as nat)),
            None => portrange_in(s@) is None,
        },
{
    match split_once(s, ':') {
        None => match read_unsigned(s, 65535) {
            Some(p) => {
                if p != 0 {
                    Some((p as u16, p as u16))
                } else {
                    None
                }
            },
            None => None,
        },
        Some((lo, hi)) => match (
            read_unsigned(lo.as_str(), 65535),
            read_unsigned(hi.as_str(), 65535),
        ) {
            (Some(lo), Some(hi)) => {
                if lo != 0 && hi >= lo {
                    Some((lo as u16, hi as u16))
                } else {
                    None
                }
            },
            _ => None,
        },
    }
}

/// The local address of an ssh connection: the third word of "client_ip client_port
/// server_ip server_port".
pub open spec fn server_address(ssh_connection: Option<Seq<char>>) -> Option<Seq<char>> {
    match ssh_connection {
        Some(s) => if words_in(s).len() > 2 {
            Some(words_in(s)[2])
        } else {
            None
        },
        None => None,
    }
}

/// The local address of the ssh connection that started the server, from the value of
/// `SSH_CONNECTION`.
pub fn ssh_ip(ssh_connection: Option<&str>) -> (r: Option<String>)
    ensures
        text_view(r) == server_address(str_view(ssh_connection)),
{
    match ssh_connection {
        Some(s) => {
            let words = split_words(s);
            if words.len() > 2 {
                assert(views(words@)[2] == words@[2]@);
                Some(words[2].clone())
            } else {
                None
            }
        },
        None => None,
    }
}

/// The option letters that take a value.
pub open spec fn letter_takes_value(c: char) -> bool {
    c == '@' || c == 'i' || c == 'p' || c == 'c' || c == 'l'
}

impl ArgsView {
    /// With the value of an option letter. One of them eats its argument, so that a script
    /// can prepend to an argument list without the result being misparsed.
    pub open spec fn with_value(self, c: char, value: Option<Seq<char>>) -> Result<
        ArgsView,
        ArgErrorView,
    > {
        if c == 'i' {
            Ok(ArgsView { desired_ip: value, ..self })
        } else if c == 'p' {
            Ok(ArgsView { desired_port: value, ..self })
        } else if c == 'c' {
            let v = match value {
                Some(v) => v,
                None => Seq::empty(),
            };
            match signed_in(v) {
                Some(n) => Ok(ArgsView { colors: n, ..self }),
                None => Err(ArgErrorView::BadColors(v)),
            }
        } else if c == 'l' {
            match value {
                Some(v) => match split_at_first(v, '=') {
                    Some(pair) => Ok(
                        ArgsView { locale_vars: self.locale_vars.push(pair), ..self },
                    ),
                    None => Ok(self),
                },
                None => Ok(self),
            }
        } else {
            Ok(self)
        }
    }

    /// With an option letter that takes no value. An unknown one changes nothing, so that a
    /// newer client's flag cannot break an older server.
    pub open spec fn with_flag(self, c: char, ssh_connection: Option<Seq<char>>) -> ArgsView {
        if c == 'v' {
            ArgsView {
                verbose: if self.verbose == u32::MAX {
                    self.verbose
                } else {
                    (self.verbose + 1) as u32
                },
                ..self
            }
        } else if c == 's' {
            ArgsView { desired_ip: server_address(ssh_connection), ..self }
        } else {
            self
        }
    }

    /// After the options from the letter at `k` of the argument at `i` on. Letters may be
    /// bundled, and a value may be attached to its letter or be the next argument.
    pub open spec fn run(
        self,
        opts: Seq<Seq<char>>,
        i: int,
        k: int,
        ssh_connection: Option<Seq<char>>,
    ) -> Result<ArgsView, ArgErrorView>
        decreases opts.len() + 2 - i, opts[i].len() - k,
    {
        if i < 0 || i >= opts.len() {
            Ok(self)
        } else if k <= 0 {
            if is_option(opts[i]) && k == 0 {
                self.run(opts, i, 1, ssh_connection)
            } else {
                self.run(opts, i + 1, 0, ssh_connection)
            }
        } else if k >= opts[i].len() {
            self.run(opts, i + 1, 0, ssh_connection)
        } else {
            let c = opts[i][k];
            if !letter_takes_value(c) {
                self.with_flag(c, ssh_connection).run(opts, i, k + 1, ssh_connection)
            } else if k + 1 < opts[i].len() {
                match self.with_value(c, Some(opts[i].skip(k + 1))) {
                    Ok(a) => a.run(opts, i + 1, 0, ssh_connection),
                    Err(e) => Err(e),
                }
            } else {
                let value = if i + 1 < opts.len() {
                    Some(opts[i + 1])
                } else {
                    None
                };
                match self.with_value(c, value) {
                    Ok(a) => a.run(opts, i + 2, 0, ssh_connection),
                    Err(e) => Err(e),
                }
            }
        }
    }

    /// With the options in front of the command.
    pub open spec fn with_options(
        self,
        opts: Seq<Seq<char>>,
        ssh_connection: Option<Seq<char>>,
    ) -> Result<ArgsView, ArgErrorView> {
        if opts.len() >= 2 && opts[1] == "new"@ {
            self.run(opts, 2, 0, ssh_connection)
        } else if opts.len() == 2 {
            Ok(ArgsView { desired_ip: Some(opts[1]), ..self })
        } else if opts.len() == 3 {
            Ok(
                ArgsView {
                    desired_ip: Some(opts[1]),
                    desired_port: Some(opts[2]),
                    ..self
                },
            )
        } else if opts.len() > 3 {
            Err(ArgErrorView::BadUsage)
        } else {
            Ok(self)
        }
    }
}

/// An argument that decides how the others are read.
pub open spec fn is_marker(arg: Seq<char>) -> bool {
    arg == "--help"@ || arg == "-h"@ || arg == "--version"@ || arg == "--"@
}

/// The first such argument from `i` on, or the end.
pub open spec fn first_marker(argv: Seq<Seq<char>>, i: int) -> int
    decreases argv.len() - i,
{
    if 0 <= i < argv.len() && !is_marker(argv[i]) {
        first_marker(argv, i + 1)
    } else {
        i
    }
}

/// What the server was asked for. A command has to follow `--`, and everything before it
/// is options.
pub open spec fn args_in(argv: Seq<Seq<char>>, ssh_connection: Option<Seq<char>>) -> Result<
    ArgsView,
    ArgErrorView,
> {
    let i = first_marker(argv, 1);
    if i < argv.len() && (argv[i] == "--help"@ || argv[i] == "-h"@) {
        Ok(ArgsView { help: true, ..ArgsView::initial() })
    } else if i < argv.len() && argv[i] == "--version"@ {
        Ok(ArgsView { version: true, ..ArgsView::initial() })
    } else if i < argv.len() {
        ArgsView { command: argv.skip(i + 1), ..ArgsView::initial() }.with_options(
            argv.take(i),
            ssh_connection,
        )
    } else {
        ArgsView::initial().with_options(argv, ssh_connection)
    }
}

impl Args {
    fn set_value(&mut self, c: char, value: Option<String>) -> (r: Result<(), ArgError>)
        ensures
            match old(self)@.with_value(c, text_view(value)) {
                Ok(a) => r is Ok && final(self)@ == a,
                Err(e) => r matches Err(f) && f@ == e,
            },
    {
        if c == 'i' {
            self.desired_ip = value;
            return Ok(());
        }
        if c == 'p' {
            self.desired_port = value;
            return Ok(());
        }
        if c == 'c' {
            let v = match value {
                Some(v) => v,
                None => String::new(),
            };
            return match read_signed(v.as_str()) {
                Some(n) => {
                    self.colors = n;
                    Ok(())
                },
                None => {
                    assert(v@ =~= match text_view(value) {
                        Some(v) => v,
                        None => Seq::empty(),
                    });
                    Err(ArgError::BadColors(v))
                },
            };
        }
        if c == 'l' {
            if let Some(v) = value {
                if let Some((name, val)) = split_once(v.as_str(), '=') {
                    let ghost before = self.locale_vars@;
                    self.locale_vars.push((name, val));
                    assert(pair_views(self.locale_vars@) =~= pair_views(before).push(
                        (name@, val@),
                    ));
                }
            }
        }
        Ok(())
    }

    fn set_flag(&mut self, c: char, ssh_connection: Option<&str>)
        ensures
            final(self)@ == old(self)@.with_flag(c, str_view(ssh_connection)),
    {
        if c == 'v' {
            if self.verbose < u32::MAX {
                self.verbose = self.verbose + 1;
            }
            return ;
        }
        if c == 's' {
            self.desired_ip = ssh_ip(ssh_connection);
        }
    }

    fn run_options(&mut self, opts: &[String], ssh_connection: Option<&str>) -> (r: Result<
        (),
        ArgError,
    >)
        ensures
            match old(self)@.run(views(opts@), 2, 0, str_view(ssh_connection)) {
                Ok(a) => r is Ok && final(self)@ == a,
                Err(e) => r matches Err(f) && f@ == e,
            },
    {
        let ghost args = views(opts@);
        let ghost env = str_view(ssh_connection);
        let ghost whole = self@.run(args, 2, 0, env);
        let mut i: usize = 2;
        while i < opts.len()
            invariant
                args == views(opts@),
                env == str_view(ssh_connection),
                whole == old(self)@.run(args, 2, 0, env),
                whole == self@.run(args, i as int, 0, env),
            decreases opts@.len() + 2 - i,
        {
            let chars = chars_of(opts[i].as_str());
            assert(args[i as int] == chars@);
            if !is_dashed(opts[i].as_str()) {
                i = i + 1;
                continue ;
            }
            let mut k: usize = 1;
            let mut found: Option<char> = None;
            while k < chars.len()
                invariant_except_break
                    found is None,
                invariant
                    args == views(opts@),
                    env == str_view(ssh_connection),
                    whole == old(self)@.run(args, 2, 0, env),
                    i < opts@.len(),
                    args[i as int] == chars@,
                    1 <= k,
                    whole == self@.run(args, i as int, k as int, env),
                ensures
                    1 <= k,
                    whole == self@.run(args, i as int, k as int, env),
                    match found {
                        Some(c) => k < chars@.len() && c == chars@[k as int] && letter_takes_value(
                            c,
                        ),
                        None => k >= chars@.len(),
                    },
                decreases chars@.len() - k,
            {
                let c = chars[k];
                if c == '@' || c == 'i' || c == 'p' || c == 'c' || c == 'l' {
                    found = Some(c);
                    break ;
                }
                self.set_flag(c, ssh_connection);
                k = k + 1;
            }
            match found {
                None => {
                    i = i + 1;
                },
                Some(c) => {
                    let ghost at = i as int;
                    let value = if k + 1 < chars.len() {
                        let rest = slice_subrange(chars.as_slice(), k + 1, chars.len());
                        assert(rest@ =~= chars@.skip(k + 1));
                        i = i + 1;
                        Some(string_of(rest))
                    } else if i + 1 < opts.len() {
                        assert(args[i + 1] == opts@[i + 1]@);
                        i = i + 2;
                        Some(opts[i - 1].clone())
                    } else {
                        i = opts.len();
                        None
                    };
                    match self.set_value(c, value) {
                        Ok(()) => {
                            proof {
                                if at + 1 >= opts@.len() {
                                assert(self@.run(args, at + 2, 0, env) == self@.run(
                                    args,
                                    opts@.len() as int,
                                    0,
                                    env,
                                ));
                                }
                            }
                        },
                        Err(e) => {
                            return Err(e);
                        },
                    }
                },
            }
        }
        Ok(())
    }

    fn read_options(&mut self, opts: &[String], ssh_connection: Option<&str>) -> (r: Result<
        (),
        ArgError,
    >)
        ensures
            match old(self)@.with_options(views(opts@), str_view(ssh_connection)) {
                Ok(a) => r is Ok && final(self)@ == a,
                Err(e) => r matches Err(f) && f@ == e,
            },
    {
        if opts.len() >= 2 && text_eq(opts[1].as_str(), "new") {
            return self.run_options(opts, ssh_connection);
        }
        if opts.len() == 2 {
            self.desired_ip = Some(opts[1].clone());
        } else if opts.len() == 3 {
            self.desired_ip = Some(opts[1].clone());
            self.desired_port = Some(opts[2].clone());
        } else if opts.len() > 3 {
            return Err(ArgError::BadUsage);
        }
        Ok(())
    }
}

/// Is an argument an option?
fn is_dashed(arg: &str) -> (b: bool)
    ensures
        b == is_option(arg@),
{
    if text_eq(arg, "-") {
        return false;
    }
    let chars = chars_of(arg);
    chars.len() > 0 && chars[0] == '-'
}

/// Parse the server's arguments, with nothing in the environment.
pub fn parse(argv: &[String]) -> (r: Result<Args, ArgError>)
    ensures
        match args_in(views(argv@), None) {
            Ok(v) => r matches Ok(a) && a@ == v,
            Err(e) => r matches Err(f) && f@ == e,
        },
{
    parse_with_env(argv, None)
}

/// Parse the server's arguments, given the value of `SSH_CONNECTION`.
pub fn parse_with_env(argv: &[String], ssh_connection: Option<&str>) -> (r: Result<Args, ArgError>)
    ensures
        match args_in(views(argv@), str_view(ssh_connection)) {
            Ok(v) => r matches Ok(a) && a@ == v,
            Err(e) => r matches Err(f) && f@ == e,
        },
{
    let mut args = Args::default();
    let ghost whole = views(argv@);
    let mut i: usize = 1;
    while i < argv.len()
        invariant
            whole == views(argv@),
            i >= 1,
            first_marker(whole, 1) == first_marker(whole, i as int),
            args@ == ArgsView::initial(),
        decreases argv@.len() - i,
    {
        let a = argv[i].as_str();
        assert(whole[i as int] == a@);
        if text_eq(a, "--help") || text_eq(a, "-h") {
            args.help = true;
            return Ok(args);
        }
        if text_eq(a, "--version") {
            args.version = true;
            return Ok(args);
        }
        if text_eq(a, "--") {
            let rest = slice_subrange(argv, i + 1, argv.len());
            assert(views(rest@) =~= whole.skip(i + 1));
            args.command = copy_words(rest);
            let opts = slice_subrange(argv, 0, i);
            assert(views(opts@) =~= whole.take(i as int));
            return match args.read_options(opts, ssh_connection) {
                Ok(()) => Ok(args),
                Err(e) => Err(e),
            };
        }
        i = i + 1;
    }
    match args.read_options(argv, ssh_connection) {
        Ok(()) => Ok(args),
        Err(e) => Err(e),
    }
}

pub const USAGE: &'static str = "Usage: mosh-server new [-s] [-v] [-i LOCALADDR] [-p PORT[:PORT2]] [-c COLORS] [-l NAME=VALUE] [-- COMMAND...]";

} // verus!
