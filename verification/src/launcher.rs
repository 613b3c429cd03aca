//! The launcher's decisions: what to run on the far end, how to reach it, and what its
//! answer means.
//!
//! It is not part of a session: it exists to get one started and then get out of the way.

use vstd::prelude::*;
use vstd::slice::*;
use vstd::string::*;

use crate::args::pair_views;
use crate::display::begins_with;
use crate::opts::{joined3, text_view, Opts, OptsView};
use crate::shell::{command_line, quoted, shell_quote};
use crate::text::{chars_of, decimal, push_decimal, string_of, text_eq};
use crate::views::{group_views, views};
use crate::words::{
    after_last, copy_words, read_unsigned, split_words, tail_after, trim, trimmed, unsigned_in,
    words_in,
};

verus! {

broadcast use group_views;

/// Drop any `user@` prefix; the client connects to the host itself.
pub fn strip_user(userhost: &str) -> (host: String)
    ensures
        host@ == after_last(userhost@, '@'),
{
    tail_after(userhost, '@')
}

/// What stands in front of the host.
pub open spec fn user_prefix(userhost: Seq<char>) -> Seq<char> {
    userhost.take(userhost.len() - after_last(userhost, '@').len())
}

proof fn lemma_after_last_len(s: Seq<char>, c: char)
    ensures
        after_last(s, c).len() <= s.len(),
    decreases s.len(),
{
    if s.len() > 0 {
        lemma_after_last_len(s.drop_last(), c);
    }
}

/// The user with an address in place of the host.
pub fn with_address(userhost: &str, address: &str) -> (s: String)
    ensures
        s@ == user_prefix(userhost@) + address@,
{
    let host = chars_of(strip_user(userhost).as_str());
    let whole = chars_of(userhost);
    proof {
        lemma_after_last_len(userhost@, '@');
    }
    let user = slice_subrange(whole.as_slice(), 0, whole.len() - host.len());
    let mut s = string_of(user);
    assert(s@ =~= user_prefix(userhost@));
    s.append(address);
    s
}

/// Does a text hold another?
pub open spec fn holds(s: Seq<char>, part: Seq<char>) -> bool {
    exists|i: int| 0 <= i <= s.len() - part.len() && #[trigger] holds_at(s, part, i)
}

/// Does a text hold another at a position?
pub open spec fn holds_at(s: Seq<char>, part: Seq<char>, i: int) -> bool {
    s.subrange(i, i + part.len()) == part
}

fn has_part(s: &str, part: &str) -> (b: bool)
    ensures
        b == holds(s@, part@),
{
    let whole = chars_of(s);
    let wanted = chars_of(part);
    if whole.len() < wanted.len() {
        return false;
    }
    let mut i: usize = 0;
    while i <= whole.len() - wanted.len()
        invariant
            whole@ == s@,
            wanted@ == part@,
            wanted@.len() <= whole@.len(),
            i <= whole@.len() - wanted@.len() + 1,
            forall|k: int| 0 <= k < i ==> !#[trigger] holds_at(s@, part@, k),
        decreases whole@.len() + 1 - i,
    {
        if crate::text::chars_eq(
            slice_subrange(whole.as_slice(), i, i + wanted.len()),
            wanted.as_slice(),
        ) {
            assert(holds_at(s@, part@, i as int));
            return true;
        }
        assert(!holds_at(s@, part@, i as int));
        if i == whole.len() - wanted.len() {
            return false;
        }
        i = i + 1;
    }
    false
}

/// How many colours a terminal of a type has.
pub open spec fn colors_of(term: Option<Seq<char>>) -> u32 {
    match term {
        Some(t) => if holds(t, "256color"@) {
            256
        } else {
            8
        },
        None => 8,
    }
}

/// How many colours a terminal of a type has, or a safe 8.
pub fn colors(term: Option<&str>) -> (n: u32)
    ensures
        n == colors_of(crate::opts::str_view(term)),
{
    match term {
        Some(t) => {
            if has_part(t, "256color") {
                256
            } else {
                8
            }
        },
        None => 8,
    }
}

/// How the server should choose the address it replies from.
pub open spec fn bind_arguments(o: OptsView) -> Seq<Seq<char>> {
    if o.bind_ip is None || o.bind_ip == Some("ssh"@) {
        if o.localhost {
            seq![
                "-i"@,
                match o.userhost {
                    Some(h) => h,
                    None => Seq::empty(),
                },
            ]
        } else {
            seq!["-s"@]
        }
    } else if o.bind_ip == Some("any"@) {
        Seq::empty()
    } else {
        seq!["-i"@, o.bind_ip->0]
    }
}

/// The port the server should use.
pub open spec fn port_arguments(o: OptsView) -> Seq<Seq<char>> {
    match o.port_request {
        Some(p) => seq!["-p"@, p],
        None => Seq::empty(),
    }
}

/// The locale, since both ends must agree on character widths.
pub open spec fn locale_arguments(locale: Seq<(Seq<char>, Seq<char>)>) -> Seq<Seq<char>>
    decreases locale.len(),
{
    if locale.len() == 0 {
        Seq::empty()
    } else {
        locale_arguments(locale.drop_last()).push("-l"@).push(
            locale.last().0 + "="@ + locale.last().1,
        )
    }
}

/// The command to run instead of the login shell.
pub open spec fn command_arguments(o: OptsView) -> Seq<Seq<char>> {
    if o.command.len() > 0 {
        seq!["--"@] + o.command
    } else {
        Seq::empty()
    }
}

/// The arguments the far end's server should receive.
pub open spec fn server_arguments(
    o: OptsView,
    colors: u32,
    locale: Seq<(Seq<char>, Seq<char>)>,
) -> Seq<Seq<char>> {
    seq!["new"@, "-c"@, decimal(colors as nat)] + bind_arguments(o) + port_arguments(o)
        + locale_arguments(locale) + command_arguments(o)
}

fn push_bind(server: &mut Vec<String>, o: &Opts)
    ensures
        views(final(server)@) == views(old(server)@) + bind_arguments(o@),
{
    let ghost before = views(server@);
    let by_ssh: bool = match &o.bind_ip {
        None => true,
        Some(ip) => text_eq(ip.as_str(), "ssh"),
    };
    if by_ssh {
        if o.localhost {
            server.push("-i".to_owned());
            match &o.userhost {
                Some(h) => server.push(h.clone()),
                None => {
                    let none = String::new();
                    assert(none@ =~= Seq::empty());
                    server.push(none);
                },
            }
            assert(views(server@) =~= before + bind_arguments(o@));
        } else {
            server.push("-s".to_owned());
            assert(views(server@) =~= before + bind_arguments(o@));
        }
        return ;
    }
    if let Some(ip) = &o.bind_ip {
        if text_eq(ip.as_str(), "any") {
            assert(views(server@) =~= before + bind_arguments(o@));
            return ;
        }
        server.push("-i".to_owned());
        server.push(ip.clone());
    }
    assert(views(server@) =~= before + bind_arguments(o@));
}

fn push_port(server: &mut Vec<String>, o: &Opts)
    ensures
        views(final(server)@) == views(old(server)@) + port_arguments(o@),
{
    let ghost before = views(server@);
    if let Some(p) = &o.port_request {
        server.push("-p".to_owned());
        server.push(p.clone());
    }
    assert(views(server@) =~= before + port_arguments(o@));
}

fn push_locale(server: &mut Vec<String>, locale: &[(String, String)])
    ensures
        views(final(server)@) == views(old(server)@) + locale_arguments(pair_views(locale@)),
{
    let ghost before = views(server@);
    let ghost vars = pair_views(locale@);
    let mut i: usize = 0;
    assert(vars.subrange(0, 0) =~= Seq::empty());
    assert(views(server@) =~= before + locale_arguments(vars.subrange(0, 0)));
    while i < locale.len()
        invariant
            vars == pair_views(locale@),
            i <= vars.len(),
            views(server@) == before + locale_arguments(vars.subrange(0, i as int)),
        decreases vars.len() - i,
    {
        let ghost next = vars.subrange(0, i + 1);
        assert(next.drop_last() =~= vars.subrange(0, i as int));
        assert(next.last() == (locale@[i as int].0@, locale@[i as int].1@));
        server.push("-l".to_owned());
        server.push(joined3(locale[i].0.as_str(), "=", locale[i].1.as_str()));
        assert(views(server@) =~= before + locale_arguments(next));
        i = i + 1;
    }
    assert(vars.subrange(0, i as int) =~= vars);
}

/// The arguments the far end's server should receive, given the type of the terminal here
/// and the variables of the locale.
pub fn server_args(o: &Opts, term: Option<&str>, locale: &[(String, String)]) -> (server: Vec<
    String,
>)
    ensures
        views(server@) == server_arguments(
            o@,
            colors_of(crate::opts::str_view(term)),
            pair_views(locale@),
        ),
{
    let mut server: Vec<String> = Vec::new();
    server.push("new".to_owned());
    server.push("-c".to_owned());
    let mut n = String::new();
    push_decimal(&mut n, colors(term) as u64);
    assert(n@ =~= decimal(colors_of(crate::opts::str_view(term)) as nat));
    server.push(n);
    assert(views(server@) =~= seq!["new"@, "-c"@, n@]);
    push_bind(&mut server, o);
    push_port(&mut server, o);
    push_locale(&mut server, locale);
    let ghost before = views(server@);
    if o.command.len() > 0 {
        server.push("--".to_owned());
        let mut command = copy_words(o.command.as_slice());
        server.append(&mut command);
    }
    assert(views(server@) =~= before + command_arguments(o@));
    server
}

/// The command line that starts the server.
pub fn server_command(o: &Opts, args: &[String]) -> (s: String)
    ensures
        s@ == o@.server + " "@ + command_line(views(args@)),
{
    let mut s = o.server.clone();
    s.append(" ");
    let ghost before = s@;
    let ghost words = views(args@);
    let mut i: usize = 0;
    assert(words.subrange(0, 0) =~= Seq::empty());
    assert(s@ =~= before + command_line(words.subrange(0, 0)));
    while i < args.len()
        invariant
            words == views(args@),
            i <= words.len(),
            s@ == before + command_line(words.subrange(0, i as int)),
        decreases words.len() - i,
    {
        let ghost next = words.subrange(0, i + 1);
        assert(next.drop_last() =~= words.subrange(0, i as int));
        assert(next.last() == args@[i as int]@);
        if i > 0 {
            s.append(" ");
        }
        s.append(shell_quote(args[i].as_str()).as_str());
        assert(s@ =~= before + command_line(next));
        i = i + 1;
    }
    assert(words.subrange(0, i as int) =~= words);
    s
}

/// Asks the far end to announce the address ssh reached it on.
pub const ANNOUNCE_SSH_CONNECTION: &'static str = "[ -n \"$SSH_CONNECTION\" ] && printf \"\\nMOSH SSH_CONNECTION %s\\n\" \"$SSH_CONNECTION\"";

/// Which kind of address ssh should use.
pub open spec fn family_arguments(family: Seq<char>) -> Seq<Seq<char>> {
    if family == "inet"@ {
        seq!["-4"@]
    } else if family == "inet6"@ {
        seq!["-6"@]
    } else {
        Seq::empty()
    }
}

/// The command that connects for ssh and reports the address it reached.
pub open spec fn proxy_command(exe: Seq<char>, family: Seq<char>) -> Seq<char> {
    quoted(exe) + " "@ + quoted("--family="@ + family) + " --fake-proxy -- %h %p"@
}

/// How ssh should connect: through the launcher itself, so that it learns the address, or
/// as it likes.
pub open spec fn method_arguments(o: OptsView, exe: Seq<char>) -> Seq<Seq<char>> {
    if o.remote_ip == "proxy"@ {
        seq!["-S"@, "none"@, "-o"@, "ProxyCommand="@ + proxy_command(exe, o.family)]
    } else {
        Seq::empty()
    }
}

/// What the far end should say before it starts the server. The user's shell may not be
/// Posix, so sh is named explicitly.
pub open spec fn announcement(o: OptsView) -> Seq<char> {
    if o.remote_ip == "remote"@ {
        "sh -c "@ + quoted(ANNOUNCE_SSH_CONNECTION@) + " ; "@
    } else {
        Seq::empty()
    }
}

/// Should ssh allocate a pty?
pub open spec fn pty_arguments(o: OptsView) -> Seq<Seq<char>> {
    if o.ssh_pty {
        seq!["-t"@]
    } else {
        Seq::empty()
    }
}

/// The arguments for ssh.
pub open spec fn ssh_arguments(
    o: OptsView,
    userhost: Seq<char>,
    exe: Seq<char>,
    server_command: Seq<char>,
) -> Seq<Seq<char>> {
    o.ssh.skip(1) + pty_arguments(o) + family_arguments(o.family) + method_arguments(o, exe)
        + seq![userhost, "--"@, announcement(o) + server_command]
}

fn push_method(args: &mut Vec<String>, o: &Opts, exe: &str)
    ensures
        views(final(args)@) == views(old(args)@) + method_arguments(o@, exe@),
{
    let ghost before = views(args@);
    if text_eq(o.remote_ip.as_str(), "proxy") {
        let mut family = "--family=".to_owned();
        family.append(o.family.as_str());
        let mut proxy = "ProxyCommand=".to_owned();
        proxy.append(
            joined3(
                shell_quote(exe).as_str(),
                " ",
                shell_quote(family.as_str()).as_str(),
            ).as_str(),
        );
        proxy.append(" --fake-proxy -- %h %p");
        assert(proxy@ =~= "ProxyCommand="@ + proxy_command(exe@, o@.family));
        args.push("-S".to_owned());
        args.push("none".to_owned());
        args.push("-o".to_owned());
        args.push(proxy);
    }
    assert(views(args@) =~= before + method_arguments(o@, exe@));
}

/// The arguments for ssh, given the path of the launcher itself and the command that
/// starts the server.
pub fn ssh_args(o: &Opts, userhost: &str, exe: &str, server_command: &str) -> (args: Vec<String>)
    requires
        o@.ssh.len() >= 1,
    ensures
        views(args@) == ssh_arguments(o@, userhost@, exe@, server_command@),
{
    let words = slice_subrange(o.ssh.as_slice(), 1, o.ssh.len());
    let mut args = copy_words(words);
    assert(views(args@) =~= o@.ssh.skip(1));
    let ghost first = views(args@);
    if o.ssh_pty {
        args.push("-t".to_owned());
    }
    assert(views(args@) =~= first + pty_arguments(o@));
    let ghost second = views(args@);
    if text_eq(o.family.as_str(), "inet") {
        args.push("-4".to_owned());
    } else if text_eq(o.family.as_str(), "inet6") {
        args.push("-6".to_owned());
    }
    assert(views(args@) =~= second + family_arguments(o@.family));
    push_method(&mut args, o, exe);
    let mut command = String::new();
    if text_eq(o.remote_ip.as_str(), "remote") {
        command = joined3("sh -c ", shell_quote(ANNOUNCE_SSH_CONNECTION).as_str(), " ; ");
    }
    assert(command@ =~= announcement(o@));
    command.append(server_command);
    let ghost third = views(args@);
    args.push(userhost.to_owned());
    args.push("--".to_owned());
    args.push(command);
    assert(views(args@) =~= third + seq![userhost@, "--"@, announcement(o@) + server_command@]);
    args
}

/// The positions of the addresses of one kind, before the end.
pub open spec fn of_kind(v6: Seq<bool>, wanted: bool) -> Seq<int>
    decreases v6.len(),
{
    if v6.len() == 0 {
        Seq::empty()
    } else if v6.last() == wanted {
        of_kind(v6.drop_last(), wanted).push(v6.len() - 1)
    } else {
        of_kind(v6.drop_last(), wanted)
    }
}

/// The order in which addresses are tried: all of one kind, or those of one kind first, or
/// the order that the resolver gave.
pub open spec fn address_order(family: Seq<char>, v6: Seq<bool>) -> Seq<int> {
    if family == "inet"@ {
        of_kind(v6, false)
    } else if family == "inet6"@ {
        of_kind(v6, true)
    } else if family == "prefer-inet6"@ {
        of_kind(v6, true) + of_kind(v6, false)
    } else if family == "prefer-inet"@ {
        of_kind(v6, false) + of_kind(v6, true)
    } else {
        Seq::new(v6.len(), |i: int| i)
    }
}

/// The positions as mathematical numbers.
pub open spec fn positions(v: Seq<usize>) -> Seq<int> {
    v.map_values(|i: usize| i as int)
}

fn push_kind(order: &mut Vec<usize>, v6: &[bool], wanted: bool)
    ensures
        positions(final(order)@) == positions(old(order)@) + of_kind(v6@, wanted),
{
    let ghost before = positions(order@);
    let mut i: usize = 0;
    assert(v6@.subrange(0, 0) =~= Seq::<bool>::empty());
    assert(positions(order@) =~= before + of_kind(v6@.subrange(0, 0), wanted));
    while i < v6.len()
        invariant
            i <= v6@.len(),
            positions(order@) == before + of_kind(v6@.subrange(0, i as int), wanted),
        decreases v6@.len() - i,
    {
        let ghost next = v6@.subrange(0, i + 1);
        assert(next.drop_last() =~= v6@.subrange(0, i as int));
        let ghost had = positions(order@);
        if v6[i] == wanted {
            order.push(i);
            assert(positions(order@) =~= had.push(i as int));
        }
        assert(positions(order@) =~= before + of_kind(next, wanted));
        i = i + 1;
    }
    assert(v6@.subrange(0, i as int) =~= v6@);
}

/// The order in which to try the addresses that a name resolves to, given which of them
/// are IPv6.
pub fn order_addresses(family: &str, v6: &[bool]) -> (order: Vec<usize>)
    ensures
        positions(order@) == address_order(family@, v6@),
{
    let mut order: Vec<usize> = Vec::new();
    assert(positions(order@) =~= Seq::<int>::empty());
    assert(Seq::<int>::empty() + of_kind(v6@, false) =~= of_kind(v6@, false));
    assert(Seq::<int>::empty() + of_kind(v6@, true) =~= of_kind(v6@, true));
    if text_eq(family, "inet") {
        push_kind(&mut order, v6, false);
        return order;
    }
    if text_eq(family, "inet6") {
        push_kind(&mut order, v6, true);
        return order;
    }
    if text_eq(family, "prefer-inet6") {
        push_kind(&mut order, v6, true);
        push_kind(&mut order, v6, false);
        return order;
    }
    if text_eq(family, "prefer-inet") {
        push_kind(&mut order, v6, false);
        push_kind(&mut order, v6, true);
        return order;
    }
    let mut i: usize = 0;
    while i < v6.len()
        invariant
            i <= v6@.len(),
            order@.len() == i,
            forall|k: int| 0 <= k < i ==> #[trigger] order@[k] == k,
        decreases v6@.len() - i,
    {
        order.push(i);
        i = i + 1;
    }
    assert(positions(order@) =~= Seq::new(v6@.len(), |i: int| i));
    order
}

/// A text without a character at its end.
pub open spec fn without_trailing(s: Seq<char>, c: char) -> Seq<char>
    decreases s.len(),
{
    if s.len() > 0 && s.last() == c {
        without_trailing(s.drop_last(), c)
    } else {
        s
    }
}

/// A line without its end.
pub open spec fn line_text(raw: Seq<char>) -> Seq<char> {
    without_trailing(without_trailing(raw, '\n'), '\r')
}

fn drop_trailing(chars: &mut Vec<char>, c: char)
    ensures
        final(chars)@ == without_trailing(old(chars)@, c),
{
    while chars.len() > 0 && chars[chars.len() - 1] == c
        invariant
            without_trailing(old(chars)@, c) == without_trailing(chars@, c),
        decreases chars@.len(),
    {
        let ghost before = chars@;
        chars.pop();
        assert(chars@ =~= before.drop_last());
    }
}

/// What the far end has said so far.
#[verifier::ext_equal]
pub struct HandshakeView {
    pub ip: Option<Seq<char>>,
    pub sship: Option<Seq<char>>,
    pub port: Option<Seq<char>>,
    pub key: Option<Seq<char>>,
}

/// What a line from the far end means.
pub enum LineView {
    /// It says something about the session.
    Noted(HandshakeView),
    /// It says where the session is, and nothing follows.
    Connected(HandshakeView),
    /// It is the remote shell talking.
    Shown(Seq<char>),
    /// The address is announced when there is one.
    RedefinedIp,
    BadSshConnection(Seq<char>),
    BadConnect(Seq<char>),
}

/// What follows a prefix, if a text begins with it.
pub open spec fn after_prefix(s: Seq<char>, prefix: Seq<char>) -> Option<Seq<char>> {
    if begins_with(s, prefix) {
        Some(s.skip(prefix.len() as int))
    } else {
        None
    }
}

/// Letters that a printed key is made of.
pub open spec fn key_letter(c: char) -> bool {
    ||| 'a' <= c <= 'z'
    ||| 'A' <= c <= 'Z'
    ||| '0' <= c <= '9'
    ||| c == '+'
    ||| c == '/'
}

/// Does a text look like a printed key?
pub open spec fn key_shaped(s: Seq<char>) -> bool {
    s.len() == 22 && forall|i: int| 0 <= i < s.len() ==> key_letter(#[trigger] s[i])
}

/// Are these a port and a key? They arrive from the far end of an ssh session, and the
/// port becomes an argument to the client, where a value that begins with a dash would
/// read as an option.
pub open spec fn port_and_key(words: Seq<Seq<char>>) -> bool {
    words.len() == 2 && unsigned_in(words[0], 65535) is Some && key_shaped(words[1])
}

impl HandshakeView {
    /// What a line means.
    pub open spec fn read(self, raw: Seq<char>) -> LineView {
        let line = line_text(raw);
        match after_prefix(line, "MOSH IP "@) {
            Some(rest) => if self.ip is Some {
                LineView::RedefinedIp
            } else {
                LineView::Noted(HandshakeView { ip: Some(trimmed(rest)), ..self })
            },
            None => match after_prefix(line, "MOSH SSH_CONNECTION "@) {
                Some(rest) => if words_in(rest).len() == 4 {
                    LineView::Noted(HandshakeView { sship: Some(words_in(rest)[2]), ..self })
                } else {
                    LineView::BadSshConnection(line)
                },
                None => match after_prefix(line, "MOSH CONNECT "@) {
                    Some(rest) => if port_and_key(words_in(rest)) {
                        LineView::Connected(
                            HandshakeView {
                                port: Some(words_in(rest)[0]),
                                key: Some(words_in(rest)[1]),
                                ..self
                            },
                        )
                    } else {
                        LineView::BadConnect(line)
                    },
                    None => LineView::Shown(line),
                },
            },
        }
    }
}

/// What a line from the far end means.
#[derive(Debug, Clone, PartialEq, Eq)]
pub enum Line {
    /// It says something about the session.
    Noted,
    /// It says where the session is, and nothing follows.
    Connected,
    /// It is the remote shell talking, and is passed through.
    Shown(String),
    /// The address is announced when there is one.
    RedefinedIp,
    BadSshConnection(String),
    BadConnect(String),
}

/// What the far end has said so far.
#[derive(Debug, Clone, PartialEq, Eq)]
pub struct Handshake {
    pub ip: Option<String>,
    pub sship: Option<String>,
    pub port: Option<String>,
    pub key: Option<String>,
}

impl View for Handshake {
    type V = HandshakeView;

    open spec fn view(&self) -> HandshakeView {
        HandshakeView {
            ip: text_view(self.ip),
            sship: text_view(self.sship),
            port: text_view(self.port),
            key: text_view(self.key),
        }
    }
}

fn rest_after(s: &str, prefix: &str) -> (r: Option<String>)
    ensures
        text_view(r) == after_prefix(s@, prefix@),
{
    let whole = chars_of(s);
    let wanted = chars_of(prefix);
    if whole.len() < wanted.len() {
        return None;
    }
    let head = slice_subrange(whole.as_slice(), 0, wanted.len());
    if !crate::text::chars_eq(head, wanted.as_slice()) {
        assert(!begins_with(s@, prefix@)) by {
            assert(head@ =~= s@.take(prefix@.len() as int));
            assert(head@ =~= s@.subrange(0, prefix@.len() as int));
        }
        return None;
    }
    let rest = slice_subrange(whole.as_slice(), wanted.len(), whole.len());
    assert(rest@ =~= s@.skip(prefix@.len() as int));
    Some(string_of(rest))
}

fn is_key_shaped(s: &str) -> (b: bool)
    ensures
        b == key_shaped(s@),
{
    let chars = chars_of(s);
    if chars.len() != 22 {
        return false;
    }
    let mut i: usize = 0;
    while i < chars.len()
        invariant
            chars@ == s@,
            i <= s@.len(),
            forall|k: int| 0 <= k < i ==> key_letter(#[trigger] s@[k]),
        decreases s@.len() - i,
    {
        let c = chars[i];
        let ok = ('a' <= c && c <= 'z') || ('A' <= c && c <= 'Z') || ('0' <= c && c <= '9') || c
            == '+' || c == '/';
        if !ok {
            return false;
        }
        i = i + 1;
    }
    true
}

impl Handshake {
    /// Before anything was said, with an address that may be known already.
    pub fn new(ip: Option<String>) -> (h: Self)
        ensures
            h@ == (HandshakeView { ip: text_view(ip), sship: None, port: None, key: None }),
    {
        Handshake { ip, sship: None, port: None, key: None }
    }

    /// Take note of a line from the far end.
    pub fn read(&mut self, raw: &str) -> (line: Line)
        ensures
            match old(self)@.read(raw@) {
                LineView::Noted(h) => line == Line::Noted && final(self)@ == h,
                LineView::Connected(h) => line == Line::Connected && final(self)@ == h,
                LineView::Shown(s) => line matches Line::Shown(t) && t@ == s && final(self)@
                    == old(self)@,
                LineView::RedefinedIp => line == Line::RedefinedIp && final(self)@ == old(self)@,
                LineView::BadSshConnection(s) => line matches Line::BadSshConnection(t) && t@ == s
                    && final(self)@ == old(self)@,
                LineView::BadConnect(s) => line matches Line::BadConnect(t) && t@ == s && final(self)@
                    == old(self)@,
            },
    {
        let mut chars = chars_of(raw);
        drop_trailing(&mut chars, '\n');
        drop_trailing(&mut chars, '\r');
        let line = string_of(chars.as_slice());
        if let Some(rest) = rest_after(line.as_str(), "MOSH IP ") {
            if self.ip.is_some() {
                return Line::RedefinedIp;
            }
            self.ip = Some(trim(rest.as_str()));
            return Line::Noted;
        }
        if let Some(rest) = rest_after(line.as_str(), "MOSH SSH_CONNECTION ") {
            let words = split_words(rest.as_str());
            if words.len() != 4 {
                return Line::BadSshConnection(line);
            }
            assert(views(words@)[2] == words@[2]@);
            self.sship = Some(words[2].clone());
            return Line::Noted;
        }
        if let Some(rest) = rest_after(line.as_str(), "MOSH CONNECT ") {
            let words = split_words(rest.as_str());
            if words.len() != 2 {
                return Line::BadConnect(line);
            }
            assert(views(words@)[0] == words@[0]@);
            assert(views(words@)[1] == words@[1]@);
            if read_unsigned(words[0].as_str(), 65535).is_none() || !is_key_shaped(
                words[1].as_str(),
            ) {
                return Line::BadConnect(line);
            }
            self.port = Some(words[0].clone());
            self.key = Some(words[1].clone());
            return Line::Connected;
        }
        Line::Shown(line)
    }

    /// Where the session is, once the far end has nothing more to say.
    pub fn destination(&self) -> (r: Result<Destination, NoDestination>)
        ensures
            match (self@.port, self@.key, self@.ip, self@.sship) {
                (Some(port), Some(key), Some(ip), _) => r matches Ok(d) && d.target@ == ip
                    && d.port@ == port && d.key@ == key && !d.from_ssh,
                (Some(port), Some(key), None, Some(ip)) => r matches Ok(d) && d.target@ == ip
                    && d.port@ == port && d.key@ == key && d.from_ssh,
                (Some(_), Some(_), None, None) => r == Err::<Destination, NoDestination>(
                    NoDestination::Address,
                ),
                _ => r == Err::<Destination, NoDestination>(NoDestination::StartupMessage),
            },
    {
        match (&self.port, &self.key) {
            (Some(port), Some(key)) => match (&self.ip, &self.sship) {
                (Some(ip), _) => Ok(
                    Destination {
                        target: ip.clone(),
                        port: port.clone(),
                        key: key.clone(),
                        from_ssh: false,
                    },
                ),
                (None, Some(ip)) => Ok(
                    Destination {
                        target: ip.clone(),
                        port: port.clone(),
                        key: key.clone(),
                        from_ssh: true,
                    },
                ),
                (None, None) => Err(NoDestination::Address),
            },
            _ => Err(NoDestination::StartupMessage),
        }
    }
}

/// Where a session is.
#[derive(Debug, Clone, PartialEq, Eq)]
pub struct Destination {
    pub target: String,
    pub port: String,
    pub key: String,
    /// The address is the one that ssh was reached on.
    pub from_ssh: bool,
}

/// What the far end did not say.
#[derive(Debug, Clone, Copy, PartialEq, Eq, Structural)]
pub enum NoDestination {
    StartupMessage,
    Address,
}

impl NoDestination {
    /// The message for a person.
    pub open spec fn message(self) -> Seq<char> {
        match self {
            NoDestination::StartupMessage => "Did not find mosh server startup message."@,
            NoDestination::Address => "Did not find remote IP address (is SSH ProxyCommand disabled?)."@,
        }
    }

    /// The message for a person.
    pub fn text(&self) -> (s: &'static str)
        ensures
            s@ == self.message(),
    {
        match self {
            NoDestination::StartupMessage => "Did not find mosh server startup message.",
            NoDestination::Address => "Did not find remote IP address (is SSH ProxyCommand disabled?).",
        }
    }
}

/// The variables that the client finds in its environment. The key goes there rather than
/// on the command line, so it never appears in the process table.
pub open spec fn client_variables(o: OptsView, key: Seq<char>) -> Seq<(Seq<char>, Seq<char>)> {
    let always = seq![("MOSH_KEY"@, key), ("MOSH_PREDICTION_DISPLAY"@, o.predict.name())];
    let overwrite = if o.predict_overwrite {
        seq![("MOSH_PREDICTION_OVERWRITE"@, "yes"@)]
    } else {
        Seq::empty()
    };
    let init = if o.term_init {
        Seq::empty()
    } else {
        seq![("MOSH_NO_TERM_INIT"@, "1"@)]
    };
    always + overwrite + init
}

/// The variables that the client finds in its environment.
pub fn client_env(o: &Opts, key: &str) -> (env: Vec<(String, String)>)
    ensures
        pair_views(env@) == client_variables(o@, key@),
{
    let mut env: Vec<(String, String)> = Vec::new();
    env.push(("MOSH_KEY".to_owned(), key.to_owned()));
    env.push(("MOSH_PREDICTION_DISPLAY".to_owned(), o.predict.as_str().to_owned()));
    if o.predict_overwrite {
        env.push(("MOSH_PREDICTION_OVERWRITE".to_owned(), "yes".to_owned()));
    }
    if !o.term_init {
        env.push(("MOSH_NO_TERM_INIT".to_owned(), "1".to_owned()));
    }
    assert(pair_views(env@) =~= client_variables(o@, key@));
    env
}

/// Why the proxy cannot connect.
#[derive(Debug, Clone, Copy, PartialEq, Eq, Structural)]
pub enum ProxyError {
    MissingArguments,
    BadPort,
}

impl ProxyError {
    /// The message for a person.
    pub open spec fn message(self) -> Seq<char> {
        match self {
            ProxyError::MissingArguments => "--fake-proxy takes a host and a port"@,
            ProxyError::BadPort => "bad port"@,
        }
    }

    /// The message for a person.
    pub fn text(&self) -> (s: &'static str)
        ensures
            s@ == self.message(),
    {
        match self {
            ProxyError::MissingArguments => "--fake-proxy takes a host and a port",
            ProxyError::BadPort => "bad port",
        }
    }
}

/// The host and the port that the proxy is to connect to.
pub fn proxy_target(o: &Opts) -> (r: Result<(String, u16), ProxyError>)
    ensures
        if o@.command.len() < 2 {
            r == Err::<(String, u16), ProxyError>(ProxyError::MissingArguments)
        } else {
            match unsigned_in(o@.command[1], 65535) {
                Some(p) => r matches Ok(t) && t.0@ == o@.command[0] && t.1 == p,
                None => r == Err::<(String, u16), ProxyError>(ProxyError::BadPort),
            }
        },
{
    if o.command.len() < 2 {
        return Err(ProxyError::MissingArguments);
    }
    assert(o@.command[0] == o.command@[0]@);
    assert(o@.command[1] == o.command@[1]@);
    match read_unsigned(o.command[1].as_str(), 65535) {
        Some(p) => Ok((o.command[0].clone(), p as u16)),
        None => Err(ProxyError::BadPort),
    }
}

} // verus!
