//! Option handling for the launcher.

use vstd::prelude::*;
use vstd::slice::*;
use vstd::string::*;

pub use crate::shell::{shell_quote, shellwords};

use crate::shell::shell_words;
use crate::text::text_eq;
use crate::views::{group_views, views};
use crate::words::{copy_words, split_at_first, split_once};

verus! {

broadcast use group_views;

#[derive(Debug, Clone, Copy, PartialEq, Eq, Structural)]
pub enum Predict {
    Always,
    Never,
    Adaptive,
    Experimental,
}

impl Predict {
    /// The name of a mode.
    pub open spec fn name(self) -> Seq<char> {
        match self {
            Predict::Always => "always"@,
            Predict::Never => "never"@,
            Predict::Adaptive => "adaptive"@,
            Predict::Experimental => "experimental"@,
        }
    }

    /// The mode with a name.
    pub open spec fn named(s: Seq<char>) -> Option<Predict> {
        if s == "always"@ {
            Some(Predict::Always)
        } else if s == "never"@ {
            Some(Predict::Never)
        } else if s == "adaptive"@ {
            Some(Predict::Adaptive)
        } else if s == "experimental"@ {
            Some(Predict::Experimental)
        } else {
            None
        }
    }

    pub fn as_str(self) -> (s: &'static str)
        ensures
            s@ == self.name(),
    {
        match self {
            Predict::Always => "always",
            Predict::Never => "never",
            Predict::Adaptive => "adaptive",
            Predict::Experimental => "experimental",
        }
    }

    pub fn parse(s: &str) -> (r: Option<Self>)
        ensures
            r == Predict::named(s@),
    {
        if text_eq(s, "always") {
            Some(Predict::Always)
        } else if text_eq(s, "never") {
            Some(Predict::Never)
        } else if text_eq(s, "adaptive") {
            Some(Predict::Adaptive)
        } else if text_eq(s, "experimental") {
            Some(Predict::Experimental)
        } else {
            None
        }
    }
}

/// The name of a mode names it.
pub proof fn prediction_modes_are_named(p: Predict)
    ensures
        Predict::named(p.name()) == Some(p),
{
    reveal_strlit("always");
    reveal_strlit("never");
    reveal_strlit("adaptive");
    reveal_strlit("experimental");
    assert("always"@.len() == 6);
    assert("never"@.len() == 5);
    assert("adaptive"@.len() == 8);
    assert("experimental"@.len() == 12);
}

#[derive(Debug, Clone, PartialEq, Eq)]
pub enum OptError {
    BadPredict(String),
    MissingValue(String),
    BadRemoteIp(String),
}

/// Why options are refused.
pub enum OptErrorView {
    BadPredict(Seq<char>),
    MissingValue(Seq<char>),
    BadRemoteIp(Seq<char>),
}

impl View for OptError {
    type V = OptErrorView;

    open spec fn view(&self) -> OptErrorView {
        match *self {
            OptError::BadPredict(v) => OptErrorView::BadPredict(v@),
            OptError::MissingValue(o) => OptErrorView::MissingValue(o@),
            OptError::BadRemoteIp(v) => OptErrorView::BadRemoteIp(v@),
        }
    }
}

impl OptErrorView {
    /// The message for a person.
    pub open spec fn message(self) -> Seq<char> {
        match self {
            OptErrorView::BadPredict(v) => "Unknown prediction mode "@ + v
                + ". Choose one of: always, never, adaptive, experimental"@,
            OptErrorView::MissingValue(o) => "Option "@ + o + " requires a value"@,
            OptErrorView::BadRemoteIp(v) => "Unknown parameter "@ + v
                + ". Choose one of: local, remote, proxy"@,
        }
    }
}

impl OptError {
    /// The message for a person.
    pub fn text(&self) -> (s: String)
        ensures
            s@ == self@.message(),
    {
        match self {
            OptError::BadPredict(v) => joined3(
                "Unknown prediction mode ",
                v.as_str(),
                ". Choose one of: always, never, adaptive, experimental",
            ),
            OptError::MissingValue(o) => joined3("Option ", o.as_str(), " requires a value"),
            OptError::BadRemoteIp(v) => joined3(
                "Unknown parameter ",
                v.as_str(),
                ". Choose one of: local, remote, proxy",
            ),
        }
    }
}

/// Three texts, one after the other.
pub(crate) fn joined3(a: &str, b: &str, c: &str) -> (s: String)
    ensures
        s@ == a@ + b@ + c@,
{
    let mut s = a.to_owned();
    s.append(b);
    s.append(c);
    s
}

/// The lower-case form of a text.
pub uninterp spec fn lowercase(s: Seq<char>) -> Seq<char>;

/// `str::to_lowercase`: every character becomes its lower-case equivalent by the rules of
/// Unicode, which depends on the text alone.
#[verifier::external_body]
fn to_lowercase(s: &str) -> (t: String)
    ensures
        t@ == lowercase(s@),
{
    s.to_lowercase()
}

/// What the launcher was asked for.
#[verifier::ext_equal]
pub struct OptsView {
    pub client: Seq<char>,
    pub server: Seq<char>,
    pub predict: Predict,
    pub predict_overwrite: bool,
    pub port_request: Option<Seq<char>>,
    pub family: Seq<char>,
    pub ssh: Seq<Seq<char>>,
    pub ssh_pty: bool,
    pub term_init: bool,
    pub localhost: bool,
    pub bind_ip: Option<Seq<char>>,
    pub help: bool,
    pub version: bool,
    pub fake_proxy: bool,
    pub remote_ip: Seq<char>,
    pub userhost: Option<Seq<char>>,
    pub command: Seq<Seq<char>>,
}

/// The view of an optional text.
pub open spec fn text_view(s: Option<String>) -> Option<Seq<char>> {
    match s {
        Some(t) => Some(t@),
        None => None,
    }
}

#[derive(Debug, Clone, PartialEq, Eq)]
pub struct Opts {
    pub client: String,
    pub server: String,
    pub predict: Predict,
    pub predict_overwrite: bool,
    pub port_request: Option<String>,
    pub family: String,
    pub ssh: Vec<String>,
    pub ssh_pty: bool,
    pub term_init: bool,
    pub localhost: bool,
    pub bind_ip: Option<String>,
    pub help: bool,
    pub version: bool,
    /// Run as the ssh ProxyCommand, whose job is to report the resolved address.
    pub fake_proxy: bool,
    /// How to learn the address the session runs over: proxy, remote or local.
    pub remote_ip: String,
    /// host, or user@host.
    pub userhost: Option<String>,
    /// A command to run instead of the login shell.
    pub command: Vec<String>,
}

impl View for Opts {
    type V = OptsView;

    open spec fn view(&self) -> OptsView {
        OptsView {
            client: self.client@,
            server: self.server@,
            predict: self.predict,
            predict_overwrite: self.predict_overwrite,
            port_request: text_view(self.port_request),
            family: self.family@,
            ssh: views(self.ssh@),
            ssh_pty: self.ssh_pty,
            term_init: self.term_init,
            localhost: self.localhost,
            bind_ip: text_view(self.bind_ip),
            help: self.help,
            version: self.version,
            fake_proxy: self.fake_proxy,
            remote_ip: self.remote_ip@,
            userhost: text_view(self.userhost),
            command: views(self.command@),
        }
    }
}

impl OptsView {
    /// What holds without any option.
    pub open spec fn initial() -> OptsView {
        OptsView {
            client: "mosh-client"@,
            server: "mosh-server"@,
            predict: Predict::Adaptive,
            predict_overwrite: false,
            port_request: None,
            family: "prefer-inet"@,
            ssh: seq!["ssh"@],
            ssh_pty: true,
            term_init: true,
            localhost: false,
            bind_ip: None,
            help: false,
            version: false,
            fake_proxy: false,
            remote_ip: "proxy"@,
            userhost: None,
            command: Seq::empty(),
        }
    }
}

impl Default for Opts {
    fn default() -> (o: Self)
        ensures
            o@ == OptsView::initial(),
    {
        let o = Opts {
            client: "mosh-client".to_owned(),
            server: "mosh-server".to_owned(),
            predict: Predict::Adaptive,
            predict_overwrite: false,
            port_request: None,
            family: "prefer-inet".to_owned(),
            ssh: vec!["ssh".to_owned()],
            ssh_pty: true,
            term_init: true,
            localhost: false,
            bind_ip: None,
            help: false,
            version: false,
            fake_proxy: false,
            remote_ip: "proxy".to_owned(),
            userhost: None,
            command: Vec::new(),
        };
        assert(views(o.ssh@) =~= seq!["ssh"@]);
        assert(views(o.command@) =~= Seq::empty());
        o
    }
}

/// The options that take a value.
pub open spec fn takes_value(name: Seq<char>) -> bool {
    ||| name == "--client"@
    ||| name == "--server"@
    ||| name == "--predict"@
    ||| name == "--port"@
    ||| name == "-p"@
    ||| name == "--family"@
    ||| name == "--ssh"@
    ||| name == "--bind-server"@
    ||| name == "--experimental-remote-ip"@
}

fn needs_value(name: &str) -> (b: bool)
    ensures
        b == takes_value(name@),
{
    text_eq(name, "--client") || text_eq(name, "--server") || text_eq(name, "--predict")
        || text_eq(name, "--port") || text_eq(name, "-p") || text_eq(name, "--family") || text_eq(
        name,
        "--ssh",
    ) || text_eq(name, "--bind-server") || text_eq(name, "--experimental-remote-ip")
}

/// The ways to learn the address the session runs over.
pub open spec fn remote_ip_method(s: Seq<char>) -> bool {
    s == "local"@ || s == "remote"@ || s == "proxy"@
}

impl OptsView {
    /// With the value of an option.
    pub open spec fn with_value(self, name: Seq<char>, v: Seq<char>) -> Result<
        OptsView,
        OptErrorView,
    > {
        if name == "--client"@ {
            Ok(OptsView { client: v, ..self })
        } else if name == "--server"@ {
            Ok(OptsView { server: v, ..self })
        } else if name == "--predict"@ {
            match Predict::named(v) {
                Some(p) => Ok(OptsView { predict: p, ..self }),
                None => Err(OptErrorView::BadPredict(v)),
            }
        } else if name == "--port"@ || name == "-p"@ {
            Ok(OptsView { port_request: Some(v), ..self })
        } else if name == "--family"@ {
            Ok(OptsView { family: lowercase(v), ..self })
        } else if name == "--ssh"@ {
            Ok(OptsView { ssh: shell_words(v), ..self })
        } else if name == "--bind-server"@ {
            Ok(OptsView { bind_ip: Some(v), ..self })
        } else if remote_ip_method(lowercase(v)) {
            Ok(OptsView { remote_ip: lowercase(v), ..self })
        } else {
            Err(OptErrorView::BadRemoteIp(lowercase(v)))
        }
    }

    /// With an option that takes no value. One that is not recognised is passed through to
    /// ssh.
    pub open spec fn with_flag(self, name: Seq<char>, arg: Seq<char>) -> OptsView {
        if name == "--predict-overwrite"@ || name == "-o"@ {
            OptsView { predict_overwrite: true, ..self }
        } else if name == "--no-predict-overwrite"@ {
            OptsView { predict_overwrite: false, ..self }
        } else if name == "-a"@ {
            OptsView { predict: Predict::Always, ..self }
        } else if name == "-n"@ {
            OptsView { predict: Predict::Never, ..self }
        } else if name == "-4"@ {
            OptsView { family: "inet"@, ..self }
        } else if name == "-6"@ {
            OptsView { family: "inet6"@, ..self }
        } else if name == "--ssh-pty"@ {
            OptsView { ssh_pty: true, ..self }
        } else if name == "--no-ssh-pty"@ {
            OptsView { ssh_pty: false, ..self }
        } else if name == "--init"@ {
            OptsView { term_init: true, ..self }
        } else if name == "--no-init"@ {
            OptsView { term_init: false, ..self }
        } else if name == "--local"@ {
            OptsView { localhost: true, ..self }
        } else if name == "--fake-proxy"@ {
            OptsView { fake_proxy: true, ..self }
        } else if name == "--no-fake-proxy"@ {
            OptsView { fake_proxy: false, ..self }
        } else if name == "--help"@ {
            OptsView { help: true, ..self }
        } else if name == "--version"@ {
            OptsView { version: true, ..self }
        } else {
            OptsView { ssh: self.ssh.push(arg), ..self }
        }
    }
}

impl Opts {
    fn set_value(&mut self, name: &str, v: String) -> (r: Result<(), OptError>)
        ensures
            match old(self)@.with_value(name@, v@) {
                Ok(o) => r is Ok && final(self)@ == o,
                Err(e) => r matches Err(f) && f@ == e,
            },
    {
        if text_eq(name, "--client") {
            self.client = v;
            return Ok(());
        }
        if text_eq(name, "--server") {
            self.server = v;
            return Ok(());
        }
        if text_eq(name, "--predict") {
            return match Predict::parse(v.as_str()) {
                Some(p) => {
                    self.predict = p;
                    Ok(())
                },
                None => Err(OptError::BadPredict(v)),
            };
        }
        if text_eq(name, "--port") || text_eq(name, "-p") {
            self.port_request = Some(v);
            return Ok(());
        }
        if text_eq(name, "--family") {
            self.family = to_lowercase(v.as_str());
            return Ok(());
        }
        if text_eq(name, "--ssh") {
            self.ssh = shellwords(v.as_str());
            return Ok(());
        }
        if text_eq(name, "--bind-server") {
            self.bind_ip = Some(v);
            return Ok(());
        }
        let method = to_lowercase(v.as_str());
        if text_eq(method.as_str(), "local") || text_eq(method.as_str(), "remote") || text_eq(
            method.as_str(),
            "proxy",
        ) {
            self.remote_ip = method;
            return Ok(());
        }
        Err(OptError::BadRemoteIp(method))
    }

    fn set_flag(&mut self, name: &str, arg: &str)
        ensures
            final(self)@ == old(self)@.with_flag(name@, arg@),
    {
        if text_eq(name, "--predict-overwrite") || text_eq(name, "-o") {
            self.predict_overwrite = true;
            return ;
        }
        if text_eq(name, "--no-predict-overwrite") {
            self.predict_overwrite = false;
            return ;
        }
        if text_eq(name, "-a") {
            self.predict = Predict::Always;
            return ;
        }
        if text_eq(name, "-n") {
            self.predict = Predict::Never;
            return ;
        }
        if text_eq(name, "-4") {
            self.family = "inet".to_owned();
            return ;
        }
        if text_eq(name, "-6") {
            self.family = "inet6".to_owned();
            return ;
        }
        if text_eq(name, "--ssh-pty") {
            self.ssh_pty = true;
            return ;
        }
        if text_eq(name, "--no-ssh-pty") {
            self.ssh_pty = false;
            return ;
        }
        if text_eq(name, "--init") {
            self.term_init = true;
            return ;
        }
        if text_eq(name, "--no-init") {
            self.term_init = false;
            return ;
        }
        if text_eq(name, "--local") {
            self.localhost = true;
            return ;
        }
        if text_eq(name, "--fake-proxy") {
            self.fake_proxy = true;
            return ;
        }
        if text_eq(name, "--no-fake-proxy") {
            self.fake_proxy = false;
            return ;
        }
        if text_eq(name, "--help") {
            self.help = true;
            return ;
        }
        if text_eq(name, "--version") {
            self.version = true;
            return ;
        }
        self.ssh.push(arg.to_owned());
    }
}

/// The options so far, and the words that are none.
#[verifier::ext_equal]
pub struct Progress {
    pub opts: OptsView,
    pub positional: Seq<Seq<char>>,
}

/// The name of an option, and the value that is attached to it.
pub open spec fn option_parts(arg: Seq<char>) -> (Seq<char>, Option<Seq<char>>) {
    match split_at_first(arg, '=') {
        Some((name, value)) => (name, Some(value)),
        None => (arg, None),
    }
}

/// Is an argument an option?
pub open spec fn is_option(arg: Seq<char>) -> bool {
    arg.len() > 0 && arg[0] == '-' && arg != "-"@
}

impl Progress {
    /// After the arguments from `i` on. Everything behind a bare `--` is the remote
    /// command.
    pub open spec fn run(self, argv: Seq<Seq<char>>, i: int) -> Result<Progress, OptErrorView>
        decreases argv.len() - i,
    {
        if i < 0 || i >= argv.len() {
            Ok(self)
        } else if argv[i] == "--"@ {
            Ok(Progress { opts: OptsView { command: argv.skip(i + 1), ..self.opts }, ..self })
        } else if !is_option(argv[i]) {
            Progress { positional: self.positional.push(argv[i]), ..self }.run(argv, i + 1)
        } else {
            let (name, attached) = option_parts(argv[i]);
            if !takes_value(name) {
                Progress { opts: self.opts.with_flag(name, argv[i]), ..self }.run(argv, i + 1)
            } else {
                match attached {
                    Some(v) => match self.opts.with_value(name, v) {
                        Ok(o) => Progress { opts: o, ..self }.run(argv, i + 1),
                        Err(e) => Err(e),
                    },
                    None => if i + 1 >= argv.len() {
                        Err(OptErrorView::MissingValue(name))
                    } else {
                        match self.opts.with_value(name, argv[i + 1]) {
                            Ok(o) => Progress { opts: o, ..self }.run(argv, i + 2),
                            Err(e) => Err(e),
                        }
                    },
                }
            }
        }
    }

    /// With the host, and a command that may also follow it without a `--`.
    pub open spec fn settled(self) -> OptsView {
        if self.positional.len() == 0 {
            self.opts
        } else {
            OptsView {
                userhost: Some(self.positional[0]),
                command: if self.opts.command.len() == 0 && self.positional.len() > 1 {
                    self.positional.skip(1)
                } else {
                    self.opts.command
                },
                ..self.opts
            }
        }
    }
}

/// What holds before any option, given what the environment says about prediction.
pub open spec fn opts_from_env(display: Option<Seq<char>>, overwrite: Option<Seq<char>>) -> Result<
    OptsView,
    OptErrorView,
> {
    let o = OptsView {
        predict_overwrite: overwrite == Some("yes"@),
        ..OptsView::initial()
    };
    match display {
        None => Ok(o),
        Some(v) => match Predict::named(v) {
            Some(p) => Ok(OptsView { predict: p, ..o }),
            None => Err(OptErrorView::BadPredict(v)),
        },
    }
}

/// What the launcher was asked for by its arguments and the environment.
pub open spec fn parsed(
    argv: Seq<Seq<char>>,
    display: Option<Seq<char>>,
    overwrite: Option<Seq<char>>,
) -> Result<OptsView, OptErrorView> {
    match opts_from_env(display, overwrite) {
        Err(e) => Err(e),
        Ok(opts) => match (Progress { opts, positional: Seq::empty() }).run(argv, 1) {
            Err(e) => Err(e),
            Ok(p) => Ok(p.settled()),
        },
    }
}

/// The view of an optional text.
pub open spec fn str_view(s: Option<&str>) -> Option<Seq<char>> {
    match s {
        Some(t) => Some(t@),
        None => None,
    }
}

/// Parse the launcher's arguments, with nothing in the environment.
pub fn parse(argv: &[String]) -> (r: Result<Opts, OptError>)
    ensures
        match parsed(views(argv@), None, None) {
            Ok(v) => r matches Ok(o) && o@ == v,
            Err(e) => r matches Err(f) && f@ == e,
        },
{
    parse_with_env(argv, None, None)
}

/// Parse the launcher's arguments, given the values of `MOSH_PREDICTION_DISPLAY` and
/// `MOSH_PREDICTION_OVERWRITE`. An invalid mode there is reported as one in an option is.
pub fn parse_with_env(argv: &[String], display: Option<&str>, overwrite: Option<&str>) -> (r:
    Result<Opts, OptError>)
    ensures
        match parsed(views(argv@), str_view(display), str_view(overwrite)) {
            Ok(v) => r matches Ok(o) && o@ == v,
            Err(e) => r matches Err(f) && f@ == e,
        },
{
    let mut o = Opts::default();
    if let Some(v) = overwrite {
        o.predict_overwrite = text_eq(v, "yes");
    }
    if let Some(v) = display {
        match Predict::parse(v) {
            Some(p) => {
                o.predict = p;
            },
            None => {
                return Err(OptError::BadPredict(v.to_owned()));
            },
        }
    }
    assert(opts_from_env(str_view(display), str_view(overwrite)) == Ok::<OptsView, OptErrorView>(
        o@,
    ));
    let mut positional: Vec<String> = Vec::new();
    assert(views(positional@) =~= Seq::empty());
    match run_options(&mut o, &mut positional, argv) {
        Ok(()) => {},
        Err(e) => {
            return Err(e);
        },
    }
    settle(&mut o, &positional);
    Ok(o)
}

fn run_options(o: &mut Opts, positional: &mut Vec<String>, argv: &[String]) -> (r: Result<
    (),
    OptError,
>)
    ensures
        match (Progress { opts: old(o)@, positional: views(old(positional)@) }).run(
            views(argv@),
            1,
        ) {
            Ok(p) => r is Ok && final(o)@ == p.opts && views(final(positional)@) == p.positional,
            Err(e) => r matches Err(f) && f@ == e,
        },
{
    let ghost args = views(argv@);
    let ghost whole = (Progress { opts: o@, positional: views(positional@) }).run(args, 1);
    let mut i: usize = 1;
    while i < argv.len()
        invariant
            args == views(argv@),
            i >= 1,
            whole == (Progress { opts: old(o)@, positional: views(old(positional)@) }).run(
                views(argv@),
                1,
            ),
            whole == (Progress { opts: o@, positional: views(positional@) }).run(args, i as int),
        decreases argv@.len() + 1 - i,
    {
        let arg = argv[i].as_str();
        assert(args[i as int] == arg@);
        if text_eq(arg, "--") {
            let rest = slice_subrange(argv, i + 1, argv.len());
            assert(views(rest@) =~= args.skip(i + 1));
            o.command = copy_words(rest);
            return Ok(());
        }
        if !has_dash(arg) {
            positional.push(arg.to_owned());
            i = i + 1;
            continue ;
        }
        let (name, attached) = match split_once(arg, '=') {
            Some((name, value)) => (name, Some(value)),
            None => (arg.to_owned(), None),
        };
        if !needs_value(name.as_str()) {
            o.set_flag(name.as_str(), arg);
            i = i + 1;
            continue ;
        }
        let value = match attached {
            Some(v) => v,
            None => {
                i = i + 1;
                if i >= argv.len() {
                    return Err(OptError::MissingValue(name));
                }
                assert(args[i as int] == argv@[i as int]@);
                argv[i].clone()
            },
        };
        match o.set_value(name.as_str(), value) {
            Ok(()) => {},
            Err(e) => {
                return Err(e);
            },
        }
        i = i + 1;
    }
    Ok(())
}

/// Is an argument an option?
fn has_dash(arg: &str) -> (b: bool)
    ensures
        b == is_option(arg@),
{
    if text_eq(arg, "-") {
        return false;
    }
    let chars = crate::text::chars_of(arg);
    chars.len() > 0 && chars[0] == '-'
}

fn settle(o: &mut Opts, positional: &Vec<String>)
    ensures
        final(o)@ == (Progress { opts: old(o)@, positional: views(positional@) }).settled(),
{
    if positional.len() == 0 {
        return ;
    }
    o.userhost = Some(positional[0].clone());
    if o.command.len() == 0 && positional.len() > 1 {
        o.command = copy_words(slice_subrange(positional.as_slice(), 1, positional.len()));
        assert(views(o.command@) =~= views(positional@).skip(1));
    }
}

pub const USAGE: &'static str = "\
Usage: mosh [options] [--] [user@]host [command...]
        --client=PATH        mosh client on local machine
        --server=COMMAND     mosh server on remote machine
        --predict=adaptive   local echo for slower links
        --predict=always|never|experimental
    -a                       --predict=always
    -n                       --predict=never
        --predict-overwrite  aggressive prediction over existing text
    -p, --port=PORT[:PORT2]  server-side UDP port or port range
        --bind-server={ssh|any|IP}
    -4                       use IPv4 only
    -6                       use IPv6 only
        --ssh=COMMAND        ssh command to run
        --no-ssh-pty         do not allocate a pty on the ssh connection
        --no-init            do not send terminal initialization string
        --local              run mosh-server locally without using ssh
        --experimental-remote-ip=(local|remote|proxy)  select the method for
                             discovering the remote IP address to use for mosh
                             (default: \"proxy\")
        --help               this message
        --version            version and copyright information";

} // verus!
