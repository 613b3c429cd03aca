//! What the options of a command line amount to, and that the programs understand each other.

use vstd::prelude::*;

use crate::opts::{
    is_option, opts_from_env, option_parts, parsed, takes_value, OptErrorView, OptsView, Predict,
    Progress,
};
use crate::words::{position_of, split_at_first};

verus! {

impl Progress {
    /// With other options.
    pub open spec fn opting(self, opts: OptsView) -> Progress {
        Progress { opts, ..self }
    }

    /// With a port requested.
    pub open spec fn requesting(self, port: Seq<char>) -> Progress {
        Progress { opts: OptsView { port_request: Some(port), ..self.opts }, ..self }
    }

    /// With another word that is no option.
    pub open spec fn noting(self, word: Seq<char>) -> Progress {
        Progress { positional: self.positional.push(word), ..self }
    }
}

/// Is there no such character?
pub open spec fn lacks(s: Seq<char>, c: char) -> bool {
    forall|i: int| 0 <= i < s.len() ==> #[trigger] s[i] != c
}

/// An option with its value attached.
pub open spec fn attached(name: Seq<char>, value: Seq<char>) -> Seq<char> {
    name + seq!['='] + value
}

proof fn lemma_position(s: Seq<char>, c: char, from: int, at: int)
    requires
        0 <= from <= at <= s.len(),
        forall|i: int| from <= i < at ==> #[trigger] s[i] != c,
        at < s.len() ==> s[at] == c,
    ensures
        position_of(s, c, from) == at,
    decreases at - from,
{
    if from < at {
        lemma_position(s, c, from + 1, at);
    }
}

/// A text is split at the first of a separator: what stands before it, which has none, and
/// what stands behind it, whatever that is.
pub proof fn texts_are_split_at_the_first_separator(name: Seq<char>, value: Seq<char>, c: char)
    requires
        lacks(name, c),
    ensures
        split_at_first(name + seq![c] + value, c) == Some((name, value)),
        split_at_first(name, c) is None,
{
    let s = name + seq![c] + value;
    assert forall|i: int| 0 <= i < name.len() implies #[trigger] s[i] != c by {
        assert(s[i] == name[i]);
    }
    lemma_position(s, c, 0, name.len() as int);
    assert(s.take(name.len() as int) =~= name);
    assert(s.skip(name.len() + 1int) =~= value);
    lemma_position(name, c, 0, name.len() as int);
}

/// One of the options that take a value.
pub open spec fn is_value_option(name: Seq<char>) -> bool {
    ||| name == "--client"@
    ||| name == "--server"@
    ||| name == "--predict"@
    ||| name == "--port"@
    ||| name == "-p"@
    ||| name == "--family"@
    ||| name == "--ssh"@
    ||| name == "--bind-server"@
    ||| name == "--experimental-remote-ip"@
}

proof fn lemma_value_literals()
    ensures
        "--client"@ == seq!['-', '-', 'c', 'l', 'i', 'e', 'n', 't'],
        "--server"@ == seq!['-', '-', 's', 'e', 'r', 'v', 'e', 'r'],
        "--predict"@ == seq!['-', '-', 'p', 'r', 'e', 'd', 'i', 'c', 't'],
        "--port"@ == seq!['-', '-', 'p', 'o', 'r', 't'],
        "-p"@ == seq!['-', 'p'],
        "--family"@ == seq!['-', '-', 'f', 'a', 'm', 'i', 'l', 'y'],
        "--ssh"@ == seq!['-', '-', 's', 's', 'h'],
        "--bind-server"@ == seq!['-', '-', 'b', 'i', 'n', 'd', '-', 's', 'e', 'r', 'v', 'e', 'r'],
        "--experimental-remote-ip"@.len() == 24,
        "--experimental-remote-ip"@[0] == '-',
        lacks("--experimental-remote-ip"@, '='),
        "--"@ == seq!['-', '-'],
        "-"@ == seq!['-'],
{
    reveal_strlit("--client");
    reveal_strlit("--server");
    reveal_strlit("--predict");
    reveal_strlit("--port");
    reveal_strlit("-p");
    reveal_strlit("--family");
    reveal_strlit("--ssh");
    reveal_strlit("--bind-server");
    reveal_strlit("--experimental-remote-ip");
    reveal_strlit("--");
    reveal_strlit("-");
    assert("--client"@ =~= seq!['-', '-', 'c', 'l', 'i', 'e', 'n', 't']);
    assert("--server"@ =~= seq!['-', '-', 's', 'e', 'r', 'v', 'e', 'r']);
    assert("--predict"@ =~= seq!['-', '-', 'p', 'r', 'e', 'd', 'i', 'c', 't']);
    assert("--port"@ =~= seq!['-', '-', 'p', 'o', 'r', 't']);
    assert("-p"@ =~= seq!['-', 'p']);
    assert("--family"@ =~= seq!['-', '-', 'f', 'a', 'm', 'i', 'l', 'y']);
    assert("--ssh"@ =~= seq!['-', '-', 's', 's', 'h']);
    assert("--bind-server"@ =~= seq![
        '-',
        '-',
        'b',
        'i',
        'n',
        'd',
        '-',
        's',
        'e',
        'r',
        'v',
        'e',
        'r',
    ]);
    assert("--"@ =~= seq!['-', '-']);
    assert("-"@ =~= seq!['-']);
}

/// A value option's name begins as options do, and has no equals sign.
proof fn lemma_value_option(name: Seq<char>)
    requires
        is_value_option(name),
    ensures
        name.len() >= 2,
        name[0] == '-',
        lacks(name, '='),
        name != "--"@,
        takes_value(name),
{
    lemma_value_literals();
}

/// A value option is read the same way in both its forms: with the value attached by an
/// equals sign, or as the next argument. What it does to the options is the same.
pub proof fn values_may_be_attached_or_follow(
    p: Progress,
    argv: Seq<Seq<char>>,
    i: int,
    name: Seq<char>,
    v: Seq<char>,
)
    requires
        is_value_option(name),
        0 <= i < argv.len(),
    ensures
        argv[i] == attached(name, v) ==> p.run(argv, i) == match p.opts.with_value(name, v) {
            Ok(o) => p.opting(o).run(argv, i + 1),
            Err(e) => Err(e),
        },
        argv[i] == name && i + 1 < argv.len() && argv[i + 1] == v ==> p.run(argv, i)
            == match p.opts.with_value(name, v) {
            Ok(o) => p.opting(o).run(argv, i + 2),
            Err(e) => Err(e),
        },
        argv[i] == name && i + 1 == argv.len() ==> p.run(argv, i) == Err::<
            Progress,
            OptErrorView,
        >(OptErrorView::MissingValue(name)),
{
    lemma_value_option(name);
    lemma_value_literals();
    texts_are_split_at_the_first_separator(name, v, '=');
    let a = attached(name, v);
    assert(a.len() > 2 && a[0] == '-');
    if argv[i] == a {
        assert(is_option(argv[i]));
        assert(option_parts(argv[i]) == (name, Some(v)));
    }
    if argv[i] == name {
        assert(is_option(argv[i]));
        assert(option_parts(argv[i]) == (name, None::<Seq<char>>));
    }
}

/// What each value option sets: one thing, to exactly the value that was given, whatever was
/// set before. Only a prediction mode and a method for addresses can be refused.
pub proof fn value_options_set_what_they_name(o: OptsView, v: Seq<char>)
    ensures
        o.with_value("--client"@, v) == Ok::<OptsView, OptErrorView>(OptsView { client: v, ..o }),
        o.with_value("--server"@, v) == Ok::<OptsView, OptErrorView>(OptsView { server: v, ..o }),
        o.with_value("--port"@, v) == Ok::<OptsView, OptErrorView>(
            OptsView { port_request: Some(v), ..o },
        ),
        o.with_value("-p"@, v) == o.with_value("--port"@, v),
        o.with_value("--bind-server"@, v) == Ok::<OptsView, OptErrorView>(
            OptsView { bind_ip: Some(v), ..o },
        ),
        o.with_value("--family"@, v) == Ok::<OptsView, OptErrorView>(
            OptsView { family: crate::opts::lowercase(v), ..o },
        ),
        o.with_value("--ssh"@, v) == Ok::<OptsView, OptErrorView>(
            OptsView { ssh: crate::shell::shell_words(v), ..o },
        ),
        v == "always"@ ==> o.with_value("--predict"@, v) == Ok::<OptsView, OptErrorView>(
            OptsView { predict: Predict::Always, ..o },
        ),
        v == "never"@ ==> o.with_value("--predict"@, v) == Ok::<OptsView, OptErrorView>(
            OptsView { predict: Predict::Never, ..o },
        ),
        v == "adaptive"@ ==> o.with_value("--predict"@, v) == Ok::<OptsView, OptErrorView>(
            OptsView { predict: Predict::Adaptive, ..o },
        ),
        v == "experimental"@ ==> o.with_value("--predict"@, v) == Ok::<OptsView, OptErrorView>(
            OptsView { predict: Predict::Experimental, ..o },
        ),
        v != "always"@ && v != "never"@ && v != "adaptive"@ && v != "experimental"@
            ==> o.with_value("--predict"@, v) == Err::<OptsView, OptErrorView>(
            OptErrorView::BadPredict(v),
        ),
        ({
            let m = crate::opts::lowercase(v);
            o.with_value("--experimental-remote-ip"@, v) == if m == "local"@ || m == "remote"@ || m
                == "proxy"@ {
                Ok::<OptsView, OptErrorView>(OptsView { remote_ip: m, ..o })
            } else {
                Err(OptErrorView::BadRemoteIp(m))
            }
        }),
{
    lemma_value_literals();
    reveal_strlit("always");
    reveal_strlit("never");
    reveal_strlit("adaptive");
    reveal_strlit("experimental");
}

/// Is this argument read as one, and not as the value of another, when reading starts at `j`?
pub open spec fn read_at(argv: Seq<Seq<char>>, j: int, i: int) -> bool
    decreases i - j,
{
    if j >= i || j < 0 {
        j == i
    } else if argv[j] == "--"@ {
        false
    } else if is_value_option(argv[j]) {
        j + 2 <= i && read_at(argv, j + 2, i)
    } else {
        read_at(argv, j + 1, i)
    }
}

/// Two command lines that differ in one argument come to the same, if what is read from there
/// on does.
proof fn lemma_respelled(p: Progress, a: Seq<Seq<char>>, b: Seq<Seq<char>>, j: int, i: int)
    requires
        a.len() == b.len(),
        0 <= j <= i < a.len(),
        forall|k: int| 0 <= k < a.len() && k != i ==> #[trigger] a[k] == b[k],
        read_at(a, j, i),
        forall|q: Progress| #[trigger] q.run(a, i) == q.run(b, i),
    ensures
        p.run(a, j) == p.run(b, j),
    decreases i - j,
{
    if j < i {
        assert(a[j] == b[j]);
        let (name, value) = option_parts(a[j]);
        if a[j] != "--"@ && !is_option(a[j]) {
            lemma_not_a_value_option(a[j]);
            lemma_respelled(
                Progress { positional: p.positional.push(a[j]), ..p },
                a,
                b,
                j + 1,
                i,
            );
        } else if a[j] != "--"@ && !takes_value(name) {
            lemma_parts(a[j]);
            lemma_respelled(
                Progress { opts: p.opts.with_flag(name, a[j]), ..p },
                a,
                b,
                j + 1,
                i,
            );
        } else if a[j] != "--"@ {
            lemma_parts(a[j]);
            match value {
                Some(v) => {
                    if let Ok(o) = p.opts.with_value(name, v) {
                        lemma_respelled(Progress { opts: o, ..p }, a, b, j + 1, i);
                    }
                },
                None => {
                    assert(is_value_option(a[j]));
                    assert(j + 2 <= i);
                    assert(a[j + 1] == b[j + 1]);
                    if let Ok(o) = p.opts.with_value(name, a[j + 1]) {
                        lemma_respelled(Progress { opts: o, ..p }, a, b, j + 2, i);
                    }
                },
            }
        }
    }
}

/// What is no option is no value option.
proof fn lemma_not_a_value_option(arg: Seq<char>)
    requires
        !is_option(arg),
    ensures
        !is_value_option(arg),
{
    lemma_value_literals();
    if is_value_option(arg) {
        lemma_value_option(arg);
    }
}

/// The name in an argument is the argument, unless a value is attached.
proof fn lemma_parts(arg: Seq<char>)
    ensures
        ({
            let (name, value) = option_parts(arg);
            &&& is_value_option(name) == takes_value(name)
            &&& value is None ==> name == arg
            &&& value is Some ==> !is_value_option(arg)
        }),
{
    let (name, value) = option_parts(arg);
    if value is Some {
        lemma_position_found(arg, '=', 0);
        if is_value_option(arg) {
            lemma_value_option(arg);
        }
    }
}

proof fn lemma_position_found(s: Seq<char>, c: char, i: int)
    requires
        0 <= i <= s.len(),
    ensures
        i <= position_of(s, c, i) <= s.len(),
        position_of(s, c, i) < s.len() ==> s[position_of(s, c, i)] == c,
    decreases s.len() - i,
{
    if i < s.len() && s[i] != c {
        lemma_position_found(s, c, i + 1);
    }
}

/// `-p` and `--port` mean the same: a command line with one spelled as the other, with its
/// value attached or behind it, comes to the same.
pub proof fn the_port_may_be_asked_for_either_way(
    a: Seq<Seq<char>>,
    b: Seq<Seq<char>>,
    i: int,
    v: Seq<char>,
    display: Option<Seq<char>>,
    overwrite: Option<Seq<char>>,
)
    requires
        a.len() == b.len(),
        1 <= i < a.len(),
        forall|k: int| 0 <= k < a.len() && k != i ==> #[trigger] a[k] == b[k],
        read_at(a, 1, i),
        (a[i] == "-p"@ && b[i] == "--port"@ && i + 1 < a.len()) || (a[i] == attached("-p"@, v)
            && b[i] == attached("--port"@, v)),
    ensures
        parsed(a, display, overwrite) == parsed(b, display, overwrite),
{
    assert forall|q: Progress| #[trigger] q.run(a, i) == q.run(b, i) by {
        let w = if a[i] == "-p"@ {
            a[i + 1]
        } else {
            v
        };
        lemma_value_literals();
        values_may_be_attached_or_follow(q, a, i, "-p"@, w);
        values_may_be_attached_or_follow(q, b, i, "--port"@, w);
        value_options_set_what_they_name(q.opts, w);
        assert("-p"@ != attached("-p"@, v));
        if a[i] == "-p"@ {
            assert(b[i + 1] == a[i + 1]);
            lemma_same_rest(Progress { opts: q.opts.with_value("-p"@, w)->Ok_0, ..q }, a, b, i + 2);
        } else {
            lemma_same_rest(Progress { opts: q.opts.with_value("-p"@, w)->Ok_0, ..q }, a, b, i + 1);
        }
    }
    if let Ok(opts) = opts_from_env(display, overwrite) {
        lemma_respelled(Progress { opts, positional: Seq::empty() }, a, b, 1, i);
    }
}

proof fn lemma_same_rest(p: Progress, a: Seq<Seq<char>>, b: Seq<Seq<char>>, i: int)
    requires
        a.len() == b.len(),
        0 <= i,
        forall|k: int| i <= k < a.len() ==> #[trigger] a[k] == b[k],
    ensures
        p.run(a, i) == p.run(b, i),
    decreases a.len() - i,
{
    if i < a.len() {
        assert(a[i] == b[i]);
        let (name, value) = option_parts(a[i]);
        if a[i] == "--"@ {
            assert(a.skip(i + 1) =~= b.skip(i + 1));
        } else if !is_option(a[i]) {
            lemma_same_rest(Progress { positional: p.positional.push(a[i]), ..p }, a, b, i + 1);
        } else if !takes_value(name) {
            lemma_same_rest(Progress { opts: p.opts.with_flag(name, a[i]), ..p }, a, b, i + 1);
        } else {
            match value {
                Some(v) => {
                    if let Ok(o) = p.opts.with_value(name, v) {
                        lemma_same_rest(Progress { opts: o, ..p }, a, b, i + 1);
                    }
                },
                None => {
                    if i + 1 < a.len() {
                        assert(a[i + 1] == b[i + 1]);
                        if let Ok(o) = p.opts.with_value(name, a[i + 1]) {
                            lemma_same_rest(Progress { opts: o, ..p }, a, b, i + 2);
                        }
                    }
                },
            }
        }
    }
}

/// Does an argument ask for a port?
pub open spec fn asks_for_port(arg: Seq<char>) -> bool {
    ||| arg == "-p"@
    ||| arg == "--port"@
    ||| exists|v: Seq<char>| arg == #[trigger] attached("-p"@, v)
    ||| exists|v: Seq<char>| arg == #[trigger] attached("--port"@, v)
}

proof fn lemma_port_kept(p: Progress, argv: Seq<Seq<char>>, i: int)
    requires
        0 <= i,
        forall|k: int| i <= k < argv.len() ==> !asks_for_port(#[trigger] argv[k]),
    ensures
        p.run(argv, i) matches Ok(q) ==> q.opts.port_request == p.opts.port_request,
    decreases argv.len() - i,
{
    if i < argv.len() && argv[i] != "--"@ {
        let (name, value) = option_parts(argv[i]);
        lemma_parts(argv[i]);
        lemma_value_literals();
        if !is_option(argv[i]) {
            lemma_port_kept(
                Progress { positional: p.positional.push(argv[i]), ..p },
                argv,
                i + 1,
            );
        } else if !takes_value(name) {
            lemma_port_kept(
                Progress { opts: p.opts.with_flag(name, argv[i]), ..p },
                argv,
                i + 1,
            );
        } else {
            assert(!asks_for_port(argv[i]));
            match value {
                Some(v) => {
                    lemma_position_found(argv[i], '=', 0);
                    assert(argv[i] =~= attached(name, v));
                    assert(name != "-p"@ && name != "--port"@);
                    if let Ok(o) = p.opts.with_value(name, v) {
                        lemma_port_kept(Progress { opts: o, ..p }, argv, i + 1);
                    }
                },
                None => {
                    assert(name != "-p"@ && name != "--port"@);
                    if i + 1 < argv.len() {
                        if let Ok(o) = p.opts.with_value(name, argv[i + 1]) {
                            lemma_port_kept(Progress { opts: o, ..p }, argv, i + 2);
                        }
                    }
                },
            }
        }
    }
}

proof fn lemma_port_read(p: Progress, argv: Seq<Seq<char>>, j: int, i: int, after: int, v: Seq<char>)
    requires
        0 <= j <= i < argv.len(),
        read_at(argv, j, i),
        i < after,
        forall|k: int| after <= k < argv.len() ==> !asks_for_port(#[trigger] argv[k]),
        forall|q: Progress|
            #[trigger] q.run(argv, i) == q.requesting(v).run(argv, after),
    ensures
        p.run(argv, j) matches Ok(q) ==> q.opts.port_request == Some(v),
    decreases i - j,
{
    if j == i {
        let q = p.requesting(v);
        assert(p.run(argv, i) == q.run(argv, after));
        lemma_port_kept(q, argv, after);
    } else {
        let (name, value) = option_parts(argv[j]);
        lemma_parts(argv[j]);
        if argv[j] != "--"@ && !is_option(argv[j]) {
            lemma_not_a_value_option(argv[j]);
            lemma_port_read(
                Progress { positional: p.positional.push(argv[j]), ..p },
                argv,
                j + 1,
                i,
                after,
                v,
            );
        } else if argv[j] != "--"@ && !takes_value(name) {
            lemma_port_read(
                Progress { opts: p.opts.with_flag(name, argv[j]), ..p },
                argv,
                j + 1,
                i,
                after,
                v,
            );
        } else if argv[j] != "--"@ {
            match value {
                Some(w) => {
                    if let Ok(o) = p.opts.with_value(name, w) {
                        lemma_port_read(Progress { opts: o, ..p }, argv, j + 1, i, after, v);
                    }
                },
                None => {
                    if let Ok(o) = p.opts.with_value(name, argv[j + 1]) {
                        lemma_port_read(Progress { opts: o, ..p }, argv, j + 2, i, after, v);
                    }
                },
            }
        }
    }
}

/// The port that is asked for last is the one that is requested, exactly as it was given,
/// whichever way it was spelled.
pub proof fn the_port_asked_for_last_is_requested(
    argv: Seq<Seq<char>>,
    i: int,
    v: Seq<char>,
    display: Option<Seq<char>>,
    overwrite: Option<Seq<char>>,
)
    requires
        1 <= i < argv.len(),
        read_at(argv, 1, i),
        ({
            ||| {
                &&& argv[i] == "-p"@ || argv[i] == "--port"@
                &&& i + 1 < argv.len()
                &&& argv[i + 1] == v
                &&& forall|k: int|
                    i + 2 <= k < argv.len() ==> !asks_for_port(#[trigger] argv[k])
            }
            ||| {
                &&& argv[i] == attached("-p"@, v) || argv[i] == attached("--port"@, v)
                &&& forall|k: int|
                    i + 1 <= k < argv.len() ==> !asks_for_port(#[trigger] argv[k])
            }
        }),
    ensures
        parsed(argv, display, overwrite) matches Ok(o) ==> o.port_request == Some(v),
{
    lemma_value_literals();
    let alone = argv[i] == "-p"@ || argv[i] == "--port"@;
    let after = if alone {
        i + 2
    } else {
        i + 1
    };
    assert("-p"@ != attached("-p"@, v) && "-p"@ != attached("--port"@, v) && "--port"@ != attached(
        "-p"@,
        v,
    ) && "--port"@ != attached("--port"@, v)) by {
        assert(attached("-p"@, v)[2] == '=' && attached("--port"@, v)[6] == '=');
        assert(attached("-p"@, v).len() >= 3 && attached("--port"@, v).len() >= 7);
    }
    assert forall|q: Progress|
        #[trigger] q.run(argv, i) == q.requesting(v).run(argv, after) by {
        values_may_be_attached_or_follow(q, argv, i, "-p"@, v);
        values_may_be_attached_or_follow(q, argv, i, "--port"@, v);
        value_options_set_what_they_name(q.opts, v);
    }
    if let Ok(opts) = opts_from_env(display, overwrite) {
        lemma_port_read(Progress { opts, positional: Seq::empty() }, argv, 1, i, after, v);
    }
}

/// Without a port option there is no port request.
pub proof fn no_port_is_requested_unasked(
    argv: Seq<Seq<char>>,
    display: Option<Seq<char>>,
    overwrite: Option<Seq<char>>,
)
    requires
        forall|k: int| 1 <= k < argv.len() ==> !asks_for_port(#[trigger] argv[k]),
    ensures
        parsed(argv, display, overwrite) matches Ok(o) ==> o.port_request is None,
{
    if let Ok(opts) = opts_from_env(display, overwrite) {
        lemma_port_kept(Progress { opts, positional: Seq::empty() }, argv, 1);
    }
}

/// What an option without a value does is done at once, and reading goes on behind it.
proof fn lemma_flag(p: Progress, argv: Seq<Seq<char>>, i: int)
    requires
        0 <= i < argv.len(),
        argv[i].len() >= 2,
        argv[i][0] == '-',
        lacks(argv[i], '='),
        argv[i] != "--"@,
        !is_value_option(argv[i]),
    ensures
        p.run(argv, i) == p.opting(p.opts.with_flag(argv[i], argv[i])).run(argv, i + 1),
{
    lemma_value_literals();
    texts_are_split_at_the_first_separator(argv[i], Seq::empty(), '=');
}

/// What each option without a value does.
pub proof fn flags_do_what_they_say(p: Progress, argv: Seq<Seq<char>>, i: int)
    requires
        0 <= i < argv.len(),
    ensures
        ({
            let o = p.opts;
            let arg = argv[i];
            &&& arg == "-4"@ ==> p.run(argv, i) == p.opting(OptsView { family: "inet"@, ..o }).run(
                argv,
                i + 1,
            )
            &&& arg == "-6"@ ==> p.run(argv, i) == p.opting(OptsView { family: "inet6"@, ..o }).run(
                argv,
                i + 1,
            )
            &&& arg == "-a"@ ==> p.run(argv, i) == p.opting(
                OptsView { predict: Predict::Always, ..o },
            ).run(argv, i + 1)
            &&& arg == "-n"@ ==> p.run(argv, i) == p.opting(
                OptsView { predict: Predict::Never, ..o },
            ).run(argv, i + 1)
            &&& arg == "-o"@ || arg == "--predict-overwrite"@ ==> p.run(argv, i) == p.opting(
                OptsView { predict_overwrite: true, ..o },
            ).run(argv, i + 1)
            &&& arg == "--no-predict-overwrite"@ ==> p.run(argv, i) == p.opting(
                OptsView { predict_overwrite: false, ..o },
            ).run(argv, i + 1)
            &&& arg == "--ssh-pty"@ ==> p.run(argv, i) == p.opting(
                OptsView { ssh_pty: true, ..o },
            ).run(argv, i + 1)
            &&& arg == "--no-ssh-pty"@ ==> p.run(argv, i) == p.opting(
                OptsView { ssh_pty: false, ..o },
            ).run(argv, i + 1)
            &&& arg == "--init"@ ==> p.run(argv, i) == p.opting(
                OptsView { term_init: true, ..o },
            ).run(argv, i + 1)
            &&& arg == "--no-init"@ ==> p.run(argv, i) == p.opting(
                OptsView { term_init: false, ..o },
            ).run(argv, i + 1)
            &&& arg == "--local"@ ==> p.run(argv, i) == p.opting(
                OptsView { localhost: true, ..o },
            ).run(argv, i + 1)
            &&& arg == "--help"@ ==> p.run(argv, i) == p.opting(OptsView { help: true, ..o }).run(
                argv,
                i + 1,
            )
            &&& arg == "--version"@ ==> p.run(argv, i) == p.opting(
                OptsView { version: true, ..o },
            ).run(argv, i + 1)
            &&& arg == "--fake-proxy"@ ==> p.run(argv, i) == p.opting(
                OptsView { fake_proxy: true, ..o },
            ).run(argv, i + 1)
            &&& arg == "--no-fake-proxy"@ ==> p.run(argv, i) == p.opting(
                OptsView { fake_proxy: false, ..o },
            ).run(argv, i + 1)
        }),
{
    lemma_value_literals();
    lemma_flag_literals();
    let arg = argv[i];
    if is_flag(arg) {
        lemma_flag(p, argv, i);
        lemma_with_flag(p.opts, arg);
    }
}

/// One of the options that take no value.
pub open spec fn is_flag(arg: Seq<char>) -> bool {
    ||| arg == "-4"@
    ||| arg == "-6"@
    ||| arg == "-a"@
    ||| arg == "-n"@
    ||| arg == "-o"@
    ||| arg == "--predict-overwrite"@
    ||| arg == "--no-predict-overwrite"@
    ||| arg == "--ssh-pty"@
    ||| arg == "--no-ssh-pty"@
    ||| arg == "--init"@
    ||| arg == "--no-init"@
    ||| arg == "--local"@
    ||| arg == "--help"@
    ||| arg == "--version"@
    ||| arg == "--fake-proxy"@
    ||| arg == "--no-fake-proxy"@
}

/// Does a text have this length, begin with a dash, and hold no equals sign?
spec fn flag_shaped(s: Seq<char>, len: nat) -> bool {
    s.len() == len && s[0] == '-' && lacks(s, '=')
}

proof fn lemma_flag_literals()
    ensures
        "-4"@ == seq!['-', '4'],
        "-6"@ == seq!['-', '6'],
        "-a"@ == seq!['-', 'a'],
        "-n"@ == seq!['-', 'n'],
        "-o"@ == seq!['-', 'o'],
        flag_shaped("--predict-overwrite"@, 19),
        flag_shaped("--no-predict-overwrite"@, 22),
        flag_shaped("--ssh-pty"@, 9),
        flag_shaped("--no-ssh-pty"@, 12) && "--no-ssh-pty"@[2] == 'n',
        flag_shaped("--init"@, 6) && "--init"@[2] == 'i',
        flag_shaped("--no-init"@, 9) && "--no-init"@[2] == 'n',
        "--ssh-pty"@[2] == 's',
        flag_shaped("--local"@, 7),
        flag_shaped("--help"@, 6) && "--help"@[2] == 'h',
        flag_shaped("--version"@, 9) && "--version"@[2] == 'v',
        flag_shaped("--fake-proxy"@, 12) && "--fake-proxy"@[2] == 'f',
        flag_shaped("--no-fake-proxy"@, 15),
{
    reveal_strlit("-4");
    reveal_strlit("-6");
    reveal_strlit("-a");
    reveal_strlit("-n");
    reveal_strlit("-o");
    reveal_strlit("--predict-overwrite");
    reveal_strlit("--no-predict-overwrite");
    reveal_strlit("--ssh-pty");
    reveal_strlit("--no-ssh-pty");
    reveal_strlit("--init");
    reveal_strlit("--no-init");
    reveal_strlit("--local");
    reveal_strlit("--help");
    reveal_strlit("--version");
    reveal_strlit("--fake-proxy");
    reveal_strlit("--no-fake-proxy");
    assert("-4"@ =~= seq!['-', '4']);
    assert("-6"@ =~= seq!['-', '6']);
    assert("-a"@ =~= seq!['-', 'a']);
    assert("-n"@ =~= seq!['-', 'n']);
    assert("-o"@ =~= seq!['-', 'o']);
}

proof fn lemma_with_flag(o: OptsView, arg: Seq<char>)
    requires
        is_flag(arg),
    ensures
        arg == "-4"@ ==> o.with_flag(arg, arg) == (OptsView { family: "inet"@, ..o }),
        arg == "-6"@ ==> o.with_flag(arg, arg) == (OptsView { family: "inet6"@, ..o }),
        arg == "-a"@ ==> o.with_flag(arg, arg) == (OptsView { predict: Predict::Always, ..o }),
        arg == "-n"@ ==> o.with_flag(arg, arg) == (OptsView { predict: Predict::Never, ..o }),
        arg == "-o"@ || arg == "--predict-overwrite"@ ==> o.with_flag(arg, arg) == (OptsView {
            predict_overwrite: true,
            ..o
        }),
        arg == "--no-predict-overwrite"@ ==> o.with_flag(arg, arg) == (OptsView {
            predict_overwrite: false,
            ..o
        }),
        arg == "--ssh-pty"@ ==> o.with_flag(arg, arg) == (OptsView { ssh_pty: true, ..o }),
        arg == "--no-ssh-pty"@ ==> o.with_flag(arg, arg) == (OptsView { ssh_pty: false, ..o }),
        arg == "--init"@ ==> o.with_flag(arg, arg) == (OptsView { term_init: true, ..o }),
        arg == "--no-init"@ ==> o.with_flag(arg, arg) == (OptsView { term_init: false, ..o }),
        arg == "--local"@ ==> o.with_flag(arg, arg) == (OptsView { localhost: true, ..o }),
        arg == "--help"@ ==> o.with_flag(arg, arg) == (OptsView { help: true, ..o }),
        arg == "--version"@ ==> o.with_flag(arg, arg) == (OptsView { version: true, ..o }),
        arg == "--fake-proxy"@ ==> o.with_flag(arg, arg) == (OptsView { fake_proxy: true, ..o }),
        arg == "--no-fake-proxy"@ ==> o.with_flag(arg, arg) == (OptsView {
            fake_proxy: false,
            ..o
        }),
{
    lemma_flag_literals();
}

/// An option that is not known is handed to ssh, as it was written.
pub proof fn unknown_options_are_for_ssh(p: Progress, argv: Seq<Seq<char>>, i: int)
    requires
        0 <= i < argv.len(),
        argv[i].len() >= 2,
        argv[i][0] == '-',
        lacks(argv[i], '='),
        argv[i] != "--"@,
        !is_value_option(argv[i]),
        !is_flag(argv[i]),
    ensures
        ({
            let o = p.opts;
            p.run(argv, i) == p.opting(OptsView { ssh: o.ssh.push(argv[i]), ..o }).run(argv, i + 1)
        }),
{
    lemma_flag(p, argv, i);
}

/// What is no option is the host first, and the command behind it. Everything behind two
/// dashes is the command, options or not.
pub proof fn arguments_are_the_host_and_the_command(p: Progress, argv: Seq<Seq<char>>, i: int)
    requires
        0 <= i < argv.len(),
    ensures
        argv[i] == "--"@ ==> p.run(argv, i) == Ok::<Progress, OptErrorView>(
            p.opting((OptsView { command: argv.skip(i + 1), ..p.opts })),
        ),
        argv[i].len() == 0 || argv[i][0] != '-' || argv[i] == "-"@ ==> p.run(argv, i) == p.noting(
            argv[i],
        ).run(argv, i + 1),
        p.run(argv, argv.len() as int) == Ok::<Progress, OptErrorView>(p),
        p.positional.len() == 0 ==> p.settled() == p.opts,
        p.positional.len() > 0 ==> p.settled().userhost == Some(p.positional[0]),
        p.positional.len() > 1 && p.opts.command.len() == 0 ==> p.settled().command
            == p.positional.skip(1),
        p.positional.len() == 1 || p.opts.command.len() > 0 ==> p.settled().command
            == p.opts.command,
        p.settled() == (OptsView {
            userhost: p.settled().userhost,
            command: p.settled().command,
            ..p.opts
        }),
{
    lemma_value_literals();
    assert(argv[i] == "-"@ ==> argv[i] != "--"@);
}

/// A command line without arguments asks for nothing: predictions are adaptive and insert,
/// ssh is `ssh` with a terminal of its own, the programs go by their names, and addresses are
/// learned by a proxy. The environment can ask for a prediction mode and for overwriting.
pub proof fn nothing_asked_for_is_the_default(
    argv: Seq<Seq<char>>,
    display: Option<Seq<char>>,
    overwrite: Option<Seq<char>>,
)
    requires
        argv.len() <= 1,
        display matches Some(d) ==> d == "always"@ || d == "never"@ || d == "adaptive"@ || d
            == "experimental"@,
    ensures
        parsed(argv, display, overwrite) matches Ok(o) && {
            &&& o.client == "mosh-client"@
            &&& o.server == "mosh-server"@
            &&& o.family == "prefer-inet"@
            &&& o.ssh == seq!["ssh"@]
            &&& o.ssh_pty && o.term_init
            &&& !o.localhost && !o.help && !o.version && !o.fake_proxy
            &&& o.remote_ip == "proxy"@
            &&& o.port_request is None && o.bind_ip is None && o.userhost is None
            &&& o.command.len() == 0
            &&& o.predict_overwrite == (overwrite == Some("yes"@))
            &&& display is None || display == Some("adaptive"@) ==> o.predict == Predict::Adaptive
            &&& display == Some("always"@) ==> o.predict == Predict::Always
            &&& display == Some("never"@) ==> o.predict == Predict::Never
            &&& display == Some("experimental"@) ==> o.predict == Predict::Experimental
        },
{
    reveal_strlit("always");
    reveal_strlit("never");
    reveal_strlit("adaptive");
    reveal_strlit("experimental");
    assert("always"@.len() == 6);
    assert("never"@.len() == 5);
    assert("adaptive"@.len() == 8);
    assert("experimental"@.len() == 12);
    assert(opts_from_env(display, overwrite) is Ok);
    let opts = opts_from_env(display, overwrite)->Ok_0;
    let p = Progress { opts, positional: Seq::empty() };
    assert(p.run(argv, 1) == Ok::<Progress, OptErrorView>(p));
}

} // verus!
