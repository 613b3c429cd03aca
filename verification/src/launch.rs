//! How the launcher, the server and the client understand each other.
//!
//! What the launcher writes is read by another program: the laws here are about what arrives.

use vstd::prelude::*;

use crate::args::{
    args_in, first_marker, is_marker, letter_takes_value, portrange_in, ArgErrorView, ArgsView,
};
use crate::choices::{lacks, texts_are_split_at_the_first_separator};
use crate::client::{client_asked, plain_arguments, preference_named, ClientArgsView};
use crate::display::begins_with;
use crate::launcher::{
    address_order, after_prefix, bind_arguments, client_variables, command_arguments, key_letter,
    key_shaped, line_text, locale_arguments, of_kind, port_arguments, server_arguments,
    ssh_arguments, without_trailing, HandshakeView, LineView,
};
use crate::opts::{OptsView, Predict};
use crate::prediction::DisplayPreference;
use crate::shell::{harmless, quoted, quoted_chars};
use crate::text::{decimal, digit};
use crate::words::{
    after_last, all_digits, digits_value, signed_in, trimmed, unsigned_in, white, words_begun,
    words_in,
};

verus! {

pub(crate) proof fn lemma_decimal_value(n: nat)
    ensures
        decimal(n).len() > 0,
        all_digits(decimal(n)),
        digits_value(decimal(n)) == n,
    decreases n,
{
    if n < 10 {
        assert(decimal(n).drop_last() =~= Seq::empty());
        assert(digits_value(decimal(n).drop_last()) == 0);
        assert(digit(n) as nat == '0' as nat + n);
    } else {
        lemma_decimal_value(n / 10);
        assert(decimal(n).drop_last() =~= decimal(n / 10));
        assert(digit(n % 10) as nat == '0' as nat + n % 10);
    }
}

/// A number is read as it is printed, if it is not too large.
pub proof fn printed_numbers_are_read_back(n: nat, max: nat)
    ensures
        unsigned_in(decimal(n), max) == if n <= max {
            Some(n)
        } else {
            None
        },
        n <= 0x7fff_ffff ==> signed_in(decimal(n)) == Some(n as int),
        lacks(decimal(n), ':') && lacks(decimal(n), '=') && lacks(decimal(n), '-'),
{
    lemma_decimal_value(n);
    let d = decimal(n);
    assert('0' <= d[0] <= '9');
    assert forall|i: int| 0 <= i < d.len() implies '0' <= #[trigger] d[i] <= '9' by {}
}

/// A port is itself, and a range goes from its first port to its last, which may be the same.
/// Zero is no port, and neither is a range that runs backwards.
pub proof fn port_ranges_are_read(lo: nat, hi: nat)
    requires
        lo <= 65535,
        hi <= 65535,
    ensures
        portrange_in(decimal(lo)) == if lo == 0 {
            None
        } else {
            Some((lo, lo))
        },
        portrange_in(decimal(lo) + seq![':'] + decimal(hi)) == if lo == 0 || hi < lo {
            None
        } else {
            Some((lo, hi))
        },
{
    printed_numbers_are_read_back(lo, 65535);
    printed_numbers_are_read_back(hi, 65535);
    texts_are_split_at_the_first_separator(decimal(lo), decimal(hi), ':');
}

proof fn lemma_no_marker(argv: Seq<Seq<char>>, i: int, n: int)
    requires
        0 <= i <= n <= argv.len(),
        forall|k: int| i <= k < n ==> !is_marker(#[trigger] argv[k]),
        n == argv.len() || is_marker(argv[n]),
    ensures
        first_marker(argv, i) == n,
    decreases n - i,
{
    if i < n {
        lemma_no_marker(argv, i + 1, n);
    }
}

/// The server reads a value that is attached to its letter as it reads one that follows.
pub proof fn server_values_may_be_attached_or_follow(
    a: ArgsView,
    opts: Seq<Seq<char>>,
    i: int,
    c: char,
    v: Seq<char>,
    ssh: Option<Seq<char>>,
)
    requires
        0 <= i < opts.len(),
        letter_takes_value(c),
    ensures
        opts[i] == seq!['-', c] && i + 1 < opts.len() && opts[i + 1] == v ==> a.run(
            opts,
            i,
            0,
            ssh,
        ) == match a.with_value(c, Some(v)) {
            Ok(b) => b.run(opts, i + 2, 0, ssh),
            Err(e) => Err(e),
        },
        v.len() > 0 && opts[i] == seq!['-', c] + v ==> a.run(opts, i, 0, ssh) == match a.with_value(
            c,
            Some(v),
        ) {
            Ok(b) => b.run(opts, i + 1, 0, ssh),
            Err(e) => Err(e),
        },
{
    reveal_strlit("-");
    assert("-"@.len() == 1);
    if opts[i] == seq!['-', c] && i + 1 < opts.len() && opts[i + 1] == v {
        assert(opts[i].len() == 2 && opts[i][0] == '-' && opts[i][1] == c);
        assert(a.run(opts, i, 0, ssh) == a.run(opts, i, 1, ssh));
    }
    if v.len() > 0 && opts[i] == seq!['-', c] + v {
        assert(opts[i].len() == 2 + v.len() && opts[i][0] == '-' && opts[i][1] == c);
        assert(a.run(opts, i, 0, ssh) == a.run(opts, i, 1, ssh));
        assert(opts[i].skip(2) =~= v);
    }
}

/// What each of the server's options asks for.
pub proof fn server_options_set_what_they_name(a: ArgsView, v: Seq<char>, ssh: Option<Seq<char>>)
    ensures
        a.with_value('i', Some(v)) == Ok::<ArgsView, ArgErrorView>(
            ArgsView { desired_ip: Some(v), ..a },
        ),
        a.with_value('p', Some(v)) == Ok::<ArgsView, ArgErrorView>(
            ArgsView { desired_port: Some(v), ..a },
        ),
        forall|n: nat|
            n <= 0x7fff_ffff ==> #[trigger] a.with_value('c', Some(decimal(n))) == Ok::<
                ArgsView,
                ArgErrorView,
            >(ArgsView { colors: n as int, ..a }),
        a.with_value('@', Some(v)) == Ok::<ArgsView, ArgErrorView>(a),
        forall|name: Seq<char>|
            lacks(name, '=') ==> a.with_value('l', Some(#[trigger] (name + seq!['='] + v))) == Ok::<
                ArgsView,
                ArgErrorView,
            >(ArgsView { locale_vars: a.locale_vars.push((name, v)), ..a }),
        a.with_flag('s', ssh).desired_ip == match ssh {
            Some(s) => if words_in(s).len() > 2 {
                Some(words_in(s)[2])
            } else {
                None
            },
            None => None,
        },
        a.verbose < u32::MAX ==> a.with_flag('v', ssh) == (ArgsView {
            verbose: (a.verbose + 1) as u32,
            ..a
        }),
{
    assert forall|n: nat| n <= 0x7fff_ffff implies #[trigger] a.with_value('c', Some(decimal(n)))
        == Ok::<ArgsView, ArgErrorView>(ArgsView { colors: n as int, ..a }) by {
        printed_numbers_are_read_back(n, 0);
    }
    assert forall|name: Seq<char>| lacks(name, '=') implies a.with_value(
        'l',
        Some(#[trigger] (name + seq!['='] + v)),
    ) == Ok::<ArgsView, ArgErrorView>(
        ArgsView { locale_vars: a.locale_vars.push((name, v)), ..a },
    ) by {
        texts_are_split_at_the_first_separator(name, v, '=');
    }
}

proof fn lemma_literals()
    ensures
        "new"@ == seq!['n', 'e', 'w'],
        "-c"@ == seq!['-', 'c'],
        "-i"@ == seq!['-', 'i'],
        "-s"@ == seq!['-', 's'],
        "-p"@ == seq!['-', 'p'],
        "-l"@ == seq!['-', 'l'],
        "="@ == seq!['='],
        "--"@ == seq!['-', '-'],
        "-h"@ == seq!['-', 'h'],
        "-"@ == seq!['-'],
        "--help"@.len() == 6,
        "--version"@.len() == 9,
        "--help"@[0] == '-',
        "--version"@[0] == '-',
        lacks("--help"@, '='),
        lacks("--version"@, '='),
{
    reveal_strlit("new");
    reveal_strlit("-c");
    reveal_strlit("-i");
    reveal_strlit("-s");
    reveal_strlit("-p");
    reveal_strlit("-l");
    reveal_strlit("=");
    reveal_strlit("--");
    reveal_strlit("-h");
    reveal_strlit("-");
    reveal_strlit("--help");
    reveal_strlit("--version");
    assert("new"@ =~= seq!['n', 'e', 'w']);
    assert("-c"@ =~= seq!['-', 'c']);
    assert("-i"@ =~= seq!['-', 'i']);
    assert("-s"@ =~= seq!['-', 's']);
    assert("-p"@ =~= seq!['-', 'p']);
    assert("-l"@ =~= seq!['-', 'l']);
    assert("="@ =~= seq!['=']);
    assert("--"@ =~= seq!['-', '-']);
    assert("-h"@ =~= seq!['-', 'h']);
    assert("-"@ =~= seq!['-']);
}

/// A variable of the locale, as it is written.
pub open spec fn assignment(p: (Seq<char>, Seq<char>)) -> Seq<char> {
    p.0 + seq!['='] + p.1
}

/// Is a variable of the locale written at a position?
spec fn written(l: Seq<Seq<char>>, i: int, p: (Seq<char>, Seq<char>)) -> bool {
    l[i] == seq!['-', 'l'] && l[i + 1] == assignment(p)
}

proof fn lemma_locale_arguments(locale: Seq<(Seq<char>, Seq<char>)>)
    ensures
        locale_arguments(locale).len() == 2 * locale.len(),
        forall|k: int|
            0 <= k < locale.len() ==> written(
                locale_arguments(locale),
                2 * k,
                #[trigger] locale[k],
            ),
    decreases locale.len(),
{
    if locale.len() > 0 {
        lemma_locale_arguments(locale.drop_last());
        lemma_literals();
        let (rest, all) = (locale_arguments(locale.drop_last()), locale_arguments(locale));
        assert forall|k: int| 0 <= k < locale.len() implies written(
            all,
            2 * k,
            #[trigger] locale[k],
        ) by {
            if k < locale.len() - 1 {
                assert(written(rest, 2 * k, locale.drop_last()[k]));
                assert(all[2 * k] == rest[2 * k]);
                assert(all[2 * k + 1] == rest[2 * k + 1]);
            } else {
                assert(all[2 * k] == "-l"@);
                assert(all[2 * k + 1] == assignment(locale.last()));
            }
        }
    }
}

proof fn lemma_locale_read(
    a: ArgsView,
    opts: Seq<Seq<char>>,
    i: int,
    locale: Seq<(Seq<char>, Seq<char>)>,
    k: int,
    ssh: Option<Seq<char>>,
)
    requires
        0 <= k <= locale.len(),
        0 <= i,
        i + 2 * locale.len() == opts.len(),
        forall|j: int|
            0 <= j < locale.len() ==> written(opts, i + 2 * j, #[trigger] locale[j]),
        forall|j: int| 0 <= j < locale.len() ==> lacks((#[trigger] locale[j]).0, '='),
    ensures
        a.run(opts, i + 2 * k, 0, ssh) == Ok::<ArgsView, ArgErrorView>(
            ArgsView { locale_vars: a.locale_vars + locale.skip(k), ..a },
        ),
    decreases locale.len() - k,
{
    if k < locale.len() {
        let (name, value) = locale[k];
        assert(written(opts, i + 2 * k, locale[k]));
        server_values_may_be_attached_or_follow(
            a,
            opts,
            i + 2 * k,
            'l',
            assignment(locale[k]),
            ssh,
        );
        server_options_set_what_they_name(a, value, ssh);
        let b = ArgsView { locale_vars: a.locale_vars.push((name, value)), ..a };
        assert(a.with_value('l', Some(name + seq!['='] + value)) == Ok::<ArgsView, ArgErrorView>(
            b,
        ));
        lemma_locale_read(b, opts, i, locale, k + 1, ssh);
        assert(b.locale_vars + locale.skip(k + 1) =~= a.locale_vars + locale.skip(k));
    } else {
        assert(a.locale_vars + locale.skip(k) =~= a.locale_vars);
    }
}

/// May this be given as a value on the server's command line?
pub open spec fn plain_value(v: Option<Seq<char>>) -> bool {
    v matches Some(v) ==> v != "--"@ && v != "-h"@ && v != "--help"@ && v != "--version"@
}

/// Where the server is to reply from, by what the user asked for.
pub open spec fn asked_address(o: OptsView, ssh: Option<Seq<char>>) -> Option<Seq<char>> {
    if o.bind_ip == Some("any"@) {
        None
    } else if o.bind_ip is Some && o.bind_ip != Some("ssh"@) {
        o.bind_ip
    } else if !o.localhost {
        match ssh {
            Some(s) => if words_in(s).len() > 2 {
                Some(words_in(s)[2])
            } else {
                None
            },
            None => None,
        }
    } else {
        match o.userhost {
            Some(h) => Some(h),
            None => Some(Seq::empty()),
        }
    }
}

proof fn lemma_bind_read(a: ArgsView, opts: Seq<Seq<char>>, i: int, o: OptsView, ssh: Option<Seq<char>>)
    requires
        0 <= i,
        i + bind_arguments(o).len() <= opts.len(),
        forall|k: int|
            0 <= k < bind_arguments(o).len() ==> opts[i + k] == #[trigger] bind_arguments(o)[k],
        a.desired_ip is None,
    ensures
        a.run(opts, i, 0, ssh) == (ArgsView { desired_ip: asked_address(o, ssh), ..a }).run(
            opts,
            i + bind_arguments(o).len(),
            0,
            ssh,
        ),
{
    lemma_literals();
    reveal_strlit("any");
    reveal_strlit("ssh");
    assert("any"@.len() == 3 && "any"@[0] == 'a' && "ssh"@[0] == 's');
    let b = bind_arguments(o);
    let t = ArgsView { desired_ip: asked_address(o, ssh), ..a };
    if b.len() == 2 {
        assert(opts[i + 0] == b[0]);
        assert(opts[i + 1] == b[1]);
        server_values_may_be_attached_or_follow(a, opts, i, 'i', b[1], ssh);
    } else if b.len() == 1 {
        assert(opts[i + 0] == b[0]);
        assert(a.run(opts, i, 0, ssh) == a.run(opts, i, 1, ssh));
        assert(a.run(opts, i, 1, ssh) == a.with_flag('s', ssh).run(opts, i, 2, ssh));
        assert(a.with_flag('s', ssh) == t);
        assert(t.run(opts, i, 2, ssh) == t.run(opts, i + 1, 0, ssh));
    } else {
        assert(t == a);
    }
}

/// The server understands what the launcher asks of it: the command, the number of colours,
/// the port, the address and the locale arrive as the user gave them.
pub proof fn the_server_understands_the_launcher(
    name: Seq<char>,
    o: OptsView,
    colors: u32,
    locale: Seq<(Seq<char>, Seq<char>)>,
    ssh: Option<Seq<char>>,
)
    requires
        colors <= 0x7fff_ffff,
        plain_value(o.port_request),
        plain_value(o.bind_ip),
        plain_value(o.userhost),
        forall|j: int| 0 <= j < locale.len() ==> lacks((#[trigger] locale[j]).0, '='),
    ensures
        args_in(seq![name] + server_arguments(o, colors, locale), ssh) == Ok::<
            ArgsView,
            ArgErrorView,
        >(
            ArgsView {
                desired_ip: asked_address(o, ssh),
                desired_port: o.port_request,
                command: o.command,
                colors: colors as int,
                verbose: 0,
                locale_vars: locale,
                help: false,
                version: false,
            },
        ),
{
    let argv = seq![name] + server_arguments(o, colors, locale);
    let (b, p, l) = (bind_arguments(o), port_arguments(o), locale_arguments(locale));
    let opts = options_of(o, colors, locale, name);
    let start = ArgsView { command: o.command, ..ArgsView::initial() };
    lemma_layout(name, o, colors, locale, ssh);
    lemma_literals();
    lemma_locale_arguments(locale);
    printed_numbers_are_read_back(colors as nat, 0);
    server_values_may_be_attached_or_follow(start, opts, 2, 'c', decimal(colors as nat), ssh);
    let a1 = ArgsView { colors: colors as int, ..start };
    assert(start.run(opts, 2, 0, ssh) == a1.run(opts, 4, 0, ssh));
    lemma_bind_read(a1, opts, 4, o, ssh);
    let a2 = ArgsView { desired_ip: asked_address(o, ssh), ..a1 };
    let i = 4 + b.len() as int;
    let a3 = ArgsView { desired_port: o.port_request, ..a2 };
    lemma_port_read(a2, opts, i, o, ssh);
    let m = i + p.len();
    assert forall|j: int| 0 <= j < locale.len() implies written(
        opts,
        m + 2 * j,
        #[trigger] locale[j],
    ) by {
        assert(written(l, 2 * j, locale[j]));
        assert(opts[4 + b.len() + p.len() + 2 * j] == l[2 * j]);
        assert(opts[4 + b.len() + p.len() + (2 * j + 1)] == l[2 * j + 1]);
    }
    lemma_locale_read(a3, opts, m, locale, 0, ssh);
    assert(a3.locale_vars + locale.skip(0) =~= locale);
}

/// The arguments in front of the command.
spec fn options_of(
    o: OptsView,
    colors: u32,
    locale: Seq<(Seq<char>, Seq<char>)>,
    name: Seq<char>,
) -> Seq<Seq<char>> {
    seq![name, "new"@, "-c"@, decimal(colors as nat)] + bind_arguments(o) + port_arguments(o)
        + locale_arguments(locale)
}

proof fn lemma_layout(
    name: Seq<char>,
    o: OptsView,
    colors: u32,
    locale: Seq<(Seq<char>, Seq<char>)>,
    ssh: Option<Seq<char>>,
)
    requires
        plain_value(o.port_request),
        plain_value(o.bind_ip),
        plain_value(o.userhost),
    ensures
        args_in(seq![name] + server_arguments(o, colors, locale), ssh) == (ArgsView {
            command: o.command,
            ..ArgsView::initial()
        }).run(options_of(o, colors, locale, name), 2, 0, ssh),
{
    lemma_literals();
    let argv = seq![name] + server_arguments(o, colors, locale);
    let opts = options_of(o, colors, locale, name);
    let c = command_arguments(o);
    let n = opts.len() as int;
    let start = ArgsView { command: o.command, ..ArgsView::initial() };
    assert(argv =~= opts + c);
    assert(argv.skip(1) =~= server_arguments(o, colors, locale));
    lemma_options_are_plain(argv, o, colors, locale);
    assert(argv.take(n) =~= opts);
    if c.len() > 0 {
        assert(argv[n] == "--"@);
        assert("--"@ != "--help"@ && "--"@ != "--version"@ && "--"@ != "-h"@) by {
            assert("-h"@[1] == 'h' && "--"@[1] == '-');
        }
        assert(argv.skip(n + 1) =~= o.command);
    } else {
        assert(opts =~= argv);
        assert(o.command =~= Seq::empty());
        assert(start =~= ArgsView::initial());
    }
    lemma_no_marker(argv, 1, n);
    assert(opts[1] == "new"@);
}

proof fn lemma_port_read(a: ArgsView, opts: Seq<Seq<char>>, i: int, o: OptsView, ssh: Option<Seq<char>>)
    requires
        0 <= i,
        i + port_arguments(o).len() <= opts.len(),
        forall|k: int|
            0 <= k < port_arguments(o).len() ==> opts[i + k] == #[trigger] port_arguments(o)[k],
        a.desired_port is None,
    ensures
        a.run(opts, i, 0, ssh) == (ArgsView { desired_port: o.port_request, ..a }).run(
            opts,
            i + port_arguments(o).len(),
            0,
            ssh,
        ),
{
    lemma_literals();
    let p = port_arguments(o);
    if o.port_request is Some {
        assert(opts[i + 0] == p[0]);
        assert(opts[i + 1] == p[1]);
        server_values_may_be_attached_or_follow(a, opts, i, 'p', o.port_request->0, ssh);
    } else {
        assert(ArgsView { desired_port: o.port_request, ..a } == a);
    }
}

/// Nothing that the launcher writes in front of the command reads as the end of the options.
proof fn lemma_options_are_plain(
    argv: Seq<Seq<char>>,
    o: OptsView,
    colors: u32,
    locale: Seq<(Seq<char>, Seq<char>)>,
)
    requires
        argv.len() > 0,
        argv.skip(1) == server_arguments(o, colors, locale),
        plain_value(o.port_request),
        plain_value(o.bind_ip),
        plain_value(o.userhost),
    ensures
        forall|k: int|
            1 <= k < 4 + bind_arguments(o).len() + port_arguments(o).len() + locale_arguments(
                locale,
            ).len() ==> !is_marker(#[trigger] argv[k]),
{
    lemma_literals();
    lemma_locale_arguments(locale);
    lemma_decimal_value(colors as nat);
    let (b, p, l) = (bind_arguments(o), port_arguments(o), locale_arguments(locale));
    let s = server_arguments(o, colors, locale);
    assert forall|k: int| 1 <= k < 4 + b.len() + p.len() + l.len() implies !is_marker(
        #[trigger] argv[k],
    ) by {
        assert(argv.skip(1).len() == s.len());
        assert(argv.skip(1)[k - 1] == s[k - 1]);
        assert(argv[k] == s[k - 1]);
        if k < 4 {
            if k == 3 {
                let d = decimal(colors as nat);
                assert(s[2] == d && '0' <= d[0] <= '9');
            }
        } else if k < 4 + b.len() {
            assert(s[k - 1] == b[k - 4]);
        } else if k < 4 + b.len() + p.len() {
            assert(s[k - 1] == p[k - 4 - b.len()]);
        } else {
            let j = k - 4 - b.len() - p.len();
            assert(s[k - 1] == l[j]);
            let h = j / 2;
            assert(0 <= h < locale.len());
            let v = assignment(locale[h]);
            assert(written(l, 2 * h, locale[h]));
            assert(j == 2 * h || j == 2 * h + 1);
            if j == 2 * h + 1 {
                assert(v[locale[h].0.len() as int] == '=');
                assert(!lacks(v, '='));
                assert(lacks("--"@, '=') && lacks("-h"@, '='));
            }
        }
    }
}

/// A word: some characters, none of them white space.
pub open spec fn is_word(w: Seq<char>) -> bool {
    w.len() > 0 && forall|i: int| 0 <= i < w.len() ==> !white(#[trigger] w[i])
}

proof fn lemma_word_taken(s: Seq<char>, w: Seq<char>)
    requires
        forall|i: int| 0 <= i < w.len() ==> !white(#[trigger] w[i]),
    ensures
        words_begun(s + w).0 == words_begun(s).0,
        words_begun(s + w).1 == words_begun(s).1 + w,
    decreases w.len(),
{
    if w.len() == 0 {
        assert(s + w =~= s);
        assert(words_begun(s).1 + w =~= words_begun(s).1);
    } else {
        lemma_word_taken(s, w.drop_last());
        assert((s + w).drop_last() =~= s + w.drop_last());
        assert((words_begun(s).1 + w.drop_last()).push(w.last()) =~= words_begun(s).1 + w);
    }
}

proof fn lemma_word_ended(s: Seq<char>)
    ensures
        words_begun(s + seq![' ']) == (if words_begun(s).1.len() > 0 {
            (words_begun(s).0.push(words_begun(s).1), Seq::empty())
        } else {
            words_begun(s)
        }),
{
    assert((s + seq![' ']).drop_last() =~= s);
}

/// Words with a space between them are read as those words.
pub proof fn spaced_words_are_read(a: Seq<char>, b: Seq<char>, c: Seq<char>, d: Seq<char>)
    requires
        is_word(a),
        is_word(b),
        is_word(c),
        is_word(d),
    ensures
        words_in(a + seq![' '] + b) == seq![a, b],
        words_in(a + seq![' '] + b + seq![' '] + c + seq![' '] + d) == seq![a, b, c, d],
{
    let none = Seq::<char>::empty();
    lemma_word_taken(none, a);
    assert(none + a =~= a);
    lemma_word_ended(a);
    lemma_word_taken(a + seq![' '], b);
    assert(words_begun(none) == (Seq::<Seq<char>>::empty(), none));
    assert(none + b =~= b && none + c =~= c && none + d =~= d);
    assert(words_in(a + seq![' '] + b) =~= seq![a, b]);
    let two = a + seq![' '] + b;
    lemma_word_ended(two);
    lemma_word_taken(two + seq![' '], c);
    let three = two + seq![' '] + c;
    lemma_word_ended(three);
    lemma_word_taken(three + seq![' '], d);
    assert(words_in(three + seq![' '] + d) =~= seq![a, b, c, d]);
}

/// The end of a line: a line feed, perhaps after a carriage return, or nothing.
pub open spec fn line_end(e: Seq<char>) -> bool {
    e == seq!['\n'] || e == seq!['\r', '\n'] || e.len() == 0
}

proof fn lemma_line_text(line: Seq<char>, e: Seq<char>)
    requires
        line_end(e),
        line.len() > 0,
        line.last() != '\n',
        line.last() != '\r',
    ensures
        line_text(line + e) == line,
{
    assert(without_trailing(line, '\n') == line);
    assert(without_trailing(line, '\r') == line);
    if e == seq!['\n'] {
        assert((line + e).drop_last() =~= line);
        assert((line + e).last() == '\n');
        assert(without_trailing(line + e, '\n') == line);
    } else if e == seq!['\r', '\n'] {
        let half = line + seq!['\r'];
        assert((line + e).drop_last() =~= half);
        assert((line + e).last() == '\n');
        assert(half.drop_last() =~= line);
        assert(half.last() == '\r');
        assert(without_trailing(half, '\n') == half);
        assert(without_trailing(line + e, '\n') == half);
        assert(without_trailing(half, '\r') == line);
    } else {
        assert(line + e =~= line);
    }
}

proof fn lemma_prefix(p: Seq<char>, rest: Seq<char>)
    ensures
        after_prefix(p + rest, p) == Some(rest),
{
    assert((p + rest).take(p.len() as int) =~= p);
    assert((p + rest).subrange(0, p.len() as int) =~= p);
    assert((p + rest).skip(p.len() as int) =~= rest);
}

proof fn lemma_prefixes(rest: Seq<char>)
    ensures
        after_prefix("MOSH IP "@ + rest, "MOSH IP "@) == Some(rest),
        after_prefix("MOSH SSH_CONNECTION "@ + rest, "MOSH SSH_CONNECTION "@) == Some(rest),
        after_prefix("MOSH CONNECT "@ + rest, "MOSH CONNECT "@) == Some(rest),
        after_prefix("MOSH SSH_CONNECTION "@ + rest, "MOSH IP "@) is None,
        after_prefix("MOSH CONNECT "@ + rest, "MOSH IP "@) is None,
        after_prefix("MOSH CONNECT "@ + rest, "MOSH SSH_CONNECTION "@) is None,
{
    reveal_strlit("MOSH IP ");
    reveal_strlit("MOSH SSH_CONNECTION ");
    reveal_strlit("MOSH CONNECT ");
    let (ip, ssh, connect) = ("MOSH IP "@, "MOSH SSH_CONNECTION "@, "MOSH CONNECT "@);
    lemma_prefix(ip, rest);
    lemma_prefix(ssh, rest);
    lemma_prefix(connect, rest);
    assert(ip.len() == 8 && ssh.len() == 20 && connect.len() == 13);
    assert(ip[5] == 'I' && ssh[5] == 'S' && connect[5] == 'C');
    if begins_with(ssh + rest, ip) {
        assert((ssh + rest)[5] == ip[5]);
    }
    if begins_with(connect + rest, ip) {
        assert((connect + rest)[5] == ip[5]);
    }
    if begins_with(connect + rest, ssh) {
        assert((connect + rest)[5] == ssh[5]);
    }
}

/// When the server says where it listens and with which key, the launcher takes down both,
/// and keeps what it knew of addresses.
pub proof fn the_launcher_hears_where_to_connect(
    h: HandshakeView,
    port: nat,
    key: Seq<char>,
    e: Seq<char>,
)
    requires
        port <= 65535,
        key_shaped(key),
        line_end(e),
    ensures
        h.read("MOSH CONNECT "@ + decimal(port) + seq![' '] + key + e) == LineView::Connected(
            HandshakeView { port: Some(decimal(port)), key: Some(key), ..h },
        ),
{
    let rest = decimal(port) + seq![' '] + key;
    let line = "MOSH CONNECT "@ + rest;
    assert("MOSH CONNECT "@ + decimal(port) + seq![' '] + key + e =~= line + e);
    lemma_decimal_value(port);
    printed_numbers_are_read_back(port, 65535);
    assert(key_letter(key[21]));
    assert(line.last() == key[21]);
    lemma_line_text(line, e);
    lemma_prefixes(rest);
    assert(is_word(decimal(port)));
    assert(is_word(key)) by {
        assert forall|i: int| 0 <= i < key.len() implies !white(#[trigger] key[i]) by {
            assert(key_letter(key[i]));
        }
    }
    spaced_words_are_read(decimal(port), key, key, key);
}

/// The address that ssh was reached on is the third word of what the far end announces of its
/// connection. An address that the launcher is told is kept, and must not be told twice.
pub proof fn the_launcher_hears_addresses(
    h: HandshakeView,
    a: Seq<char>,
    b: Seq<char>,
    c: Seq<char>,
    d: Seq<char>,
    e: Seq<char>,
)
    requires
        is_word(a),
        is_word(b),
        is_word(c),
        is_word(d),
        line_end(e),
    ensures
        h.read(
            "MOSH SSH_CONNECTION "@ + a + seq![' '] + b + seq![' '] + c + seq![' '] + d + e,
        ) == LineView::Noted(HandshakeView { sship: Some(c), ..h }),
        h.ip is None ==> h.read("MOSH IP "@ + a + e) == LineView::Noted(
            HandshakeView { ip: Some(a), ..h },
        ),
        h.ip is Some ==> h.read("MOSH IP "@ + a + e) == LineView::RedefinedIp,
{
    let rest = a + seq![' '] + b + seq![' '] + c + seq![' '] + d;
    let line = "MOSH SSH_CONNECTION "@ + rest;
    assert("MOSH SSH_CONNECTION "@ + a + seq![' '] + b + seq![' '] + c + seq![' '] + d + e =~= line
        + e);
    assert(!white(d[d.len() - 1]) && !white(a[a.len() - 1]));
    assert(line.last() == d[d.len() - 1]);
    lemma_line_text(line, e);
    lemma_prefixes(rest);
    spaced_words_are_read(a, b, c, d);
    let ip = "MOSH IP "@ + a;
    assert(ip.last() == a[a.len() - 1]);
    lemma_line_text(ip, e);
    lemma_prefixes(a);
    assert(!white(a[0]));
    assert(trimmed(a) =~= a);
}

/// Everything else that the far end says is passed on, without its line end.
pub proof fn other_lines_are_passed_on(h: HandshakeView, line: Seq<char>, e: Seq<char>)
    requires
        line_end(e),
        line.len() > 0,
        line.last() != '\n',
        line.last() != '\r',
        line.len() < 5 || line.take(5) != seq!['M', 'O', 'S', 'H', ' '],
    ensures
        h.read(line + e) == LineView::Shown(line),
{
    lemma_line_text(line, e);
    reveal_strlit("MOSH IP ");
    reveal_strlit("MOSH SSH_CONNECTION ");
    reveal_strlit("MOSH CONNECT ");
    assert("MOSH IP "@.len() == 8 && "MOSH SSH_CONNECTION "@.len() == 20 && "MOSH CONNECT "@.len()
        == 13);
    let m = seq!['M', 'O', 'S', 'H', ' '];
    assert("MOSH IP "@.take(5) =~= m);
    assert("MOSH SSH_CONNECTION "@.take(5) =~= m);
    assert("MOSH CONNECT "@.take(5) =~= m);
    lemma_not_begun(line, "MOSH IP "@);
    lemma_not_begun(line, "MOSH SSH_CONNECTION "@);
    lemma_not_begun(line, "MOSH CONNECT "@);
}

proof fn lemma_not_begun(line: Seq<char>, p: Seq<char>)
    requires
        p.len() >= 5,
        line.len() < 5 || line.take(5) != p.take(5),
    ensures
        !begins_with(line, p),
{
    if begins_with(line, p) {
        assert(line.take(5) =~= p.take(5));
    }
}

/// Where the addresses of one kind are.
proof fn lemma_of_kind(v6: Seq<bool>, wanted: bool)
    ensures
        ({
            let k = of_kind(v6, wanted);
            &&& forall|i: int|
                0 <= i < k.len() ==> 0 <= #[trigger] k[i] < v6.len() && v6[k[i]] == wanted
            &&& forall|i: int, j: int|
                0 <= i < j < k.len() ==> #[trigger] k[i] < #[trigger] k[j]
            &&& forall|a: int|
                0 <= a < v6.len() && #[trigger] v6[a] == wanted ==> k.contains(a)
        }),
    decreases v6.len(),
{
    if v6.len() > 0 {
        let rest = v6.drop_last();
        lemma_of_kind(rest, wanted);
        let (q, k) = (of_kind(rest, wanted), of_kind(v6, wanted));
        assert forall|a: int| 0 <= a < v6.len() && #[trigger] v6[a] == wanted implies k.contains(
            a,
        ) by {
            if a < rest.len() {
                assert(rest[a] == wanted);
                assert(q.contains(a));
                let i = choose|i: int| 0 <= i < q.len() && q[i] == a;
                assert(k[i] == a);
            } else {
                assert(k[k.len() - 1] == a);
            }
        }
        assert forall|i: int| 0 <= i < k.len() implies 0 <= #[trigger] k[i] < v6.len() && v6[k[i]]
            == wanted by {
            if i < q.len() {
                assert(k[i] == q[i]);
                assert(rest[q[i]] == wanted);
            }
        }
        assert forall|i: int, j: int| 0 <= i < j < k.len() implies #[trigger] k[i]
            < #[trigger] k[j] by {
            assert(k[i] == q[i]);
            if j < q.len() {
                assert(k[j] == q[j]);
            }
        }
    }
}

/// Addresses of the wanted kind are tried, each once, in the order that they were found. A
/// preference tries the preferred kind first and then the other, and without one the order is
/// kept.
pub proof fn addresses_are_tried_in_order(family: Seq<char>, v6: Seq<bool>)
    ensures
        ({
            let order = address_order(family, v6);
            let only = family == "inet"@ || family == "inet6"@;
            let preferred = family == "inet6"@ || family == "prefer-inet6"@;
            let choosy = only || family == "prefer-inet"@ || family == "prefer-inet6"@;
            &&& forall|i: int| 0 <= i < order.len() ==> 0 <= #[trigger] order[i] < v6.len()
            &&& only ==> forall|i: int|
                0 <= i < order.len() ==> v6[#[trigger] order[i]] == preferred
            &&& forall|a: int|
                0 <= a < v6.len() && (!only || v6[a] == preferred) ==> #[trigger] order.contains(a)
            &&& forall|i: int, j: int|
                0 <= i < j < order.len() ==> {
                    let (a, b) = (#[trigger] order[i], #[trigger] order[j]);
                    if choosy && v6[a] != v6[b] {
                        v6[a] == preferred
                    } else {
                        a < b
                    }
                }
        }),
{
    reveal_strlit("inet");
    reveal_strlit("inet6");
    reveal_strlit("prefer-inet");
    reveal_strlit("prefer-inet6");
    assert("inet"@.len() == 4 && "inet6"@.len() == 5 && "prefer-inet"@.len() == 11
        && "prefer-inet6"@.len() == 12);
    lemma_of_kind(v6, false);
    lemma_of_kind(v6, true);
    let order = address_order(family, v6);
    let (v4s, v6s) = (of_kind(v6, false), of_kind(v6, true));
    if family == "prefer-inet6"@ || family == "prefer-inet"@ {
        let (x, y) = if family == "prefer-inet6"@ {
            (v6s, v4s)
        } else {
            (v4s, v6s)
        };
        assert forall|i: int| 0 <= i < order.len() implies #[trigger] order[i] == (if i < x.len() {
            x[i]
        } else {
            y[i - x.len()]
        }) by {}
        assert forall|a: int| 0 <= a < v6.len() implies #[trigger] order.contains(a) by {
            if v6[a] == (family == "prefer-inet6"@) {
                assert(x.contains(a));
                let i = choose|i: int| 0 <= i < x.len() && x[i] == a;
                assert(order[i] == a);
            } else {
                assert(y.contains(a));
                let i = choose|i: int| 0 <= i < y.len() && y[i] == a;
                assert(order[x.len() + i] == a);
            }
        }
        let preferred = family == "prefer-inet6"@;
        assert forall|i: int, j: int| 0 <= i < j < order.len() implies ({
            let (a, b) = (#[trigger] order[i], #[trigger] order[j]);
            if v6[a] != v6[b] {
                v6[a] == preferred
            } else {
                a < b
            }
        }) by {
            if i < x.len() {
                assert(order[i] == x[i]);
            } else {
                assert(order[i] == y[i - x.len()]);
            }
            if j < x.len() {
                assert(order[j] == x[j]);
            } else {
                assert(order[j] == y[j - x.len()]);
            }
        }
        assert forall|i: int| 0 <= i < order.len() implies 0 <= #[trigger] order[i] < v6.len() by {
            if i < x.len() {
                assert(order[i] == x[i]);
            } else {
                assert(order[i] == y[i - x.len()]);
            }
        }
    } else if family != "inet"@ && family != "inet6"@ {
        assert forall|a: int| 0 <= a < v6.len() implies #[trigger] order.contains(a) by {
            assert(order[a] == a);
        }
    } else {
        assert forall|a: int| 0 <= a < v6.len() && v6[a] == (family
            == "inet6"@) implies #[trigger] order.contains(a) by {
            assert(v6[a] == (family == "inet6"@));
        }
    }
}

/// The client shows predictions as the launcher was asked to.
pub proof fn the_client_understands_the_launcher(o: OptsView, key: Seq<char>)
    ensures
        ({
            let env = client_variables(o, key);
            &&& env.contains(("MOSH_KEY"@, key))
            &&& env.contains(("MOSH_PREDICTION_DISPLAY"@, o.predict.name()))
            &&& (env.contains(("MOSH_PREDICTION_OVERWRITE"@, "yes"@)) <==> o.predict_overwrite)
            &&& (env.contains(("MOSH_NO_TERM_INIT"@, "1"@)) <==> !o.term_init)
            &&& preference_named(Some(o.predict.name())) == match o.predict {
                Predict::Adaptive => DisplayPreference::Adaptive,
                Predict::Always => DisplayPreference::Always,
                Predict::Never => DisplayPreference::Never,
                Predict::Experimental => DisplayPreference::Experimental,
            }
        }),
{
    reveal_strlit("always");
    reveal_strlit("never");
    reveal_strlit("adaptive");
    reveal_strlit("experimental");
    assert("always"@.len() == 6 && "never"@.len() == 5 && "adaptive"@.len() == 8
        && "experimental"@.len() == 12);
    reveal_strlit("MOSH_KEY");
    reveal_strlit("MOSH_PREDICTION_DISPLAY");
    reveal_strlit("MOSH_PREDICTION_OVERWRITE");
    reveal_strlit("MOSH_NO_TERM_INIT");
    assert("MOSH_KEY"@.len() == 8 && "MOSH_PREDICTION_DISPLAY"@.len() == 23
        && "MOSH_PREDICTION_OVERWRITE"@.len() == 25 && "MOSH_NO_TERM_INIT"@.len() == 17);
    let env = client_variables(o, key);
    assert(env[0] == ("MOSH_KEY"@, key));
    assert(env[1] == ("MOSH_PREDICTION_DISPLAY"@, o.predict.name()));
    if o.predict_overwrite {
        assert(env[2] == ("MOSH_PREDICTION_OVERWRITE"@, "yes"@));
    }
    if !o.term_init {
        assert(env[env.len() - 1] == ("MOSH_NO_TERM_INIT"@, "1"@));
    }
}

/// The client goes to the address and the port that it is given.
pub proof fn the_client_goes_where_it_is_sent(name: Seq<char>, ip: Seq<char>, port: nat)
    requires
        port <= 65535,
        ip.len() == 0 || ip[0] != '-',
        name.len() == 0 || name[0] != '-',
    ensures
        client_asked(seq![name, ip, decimal(port)]) == (ClientArgsView::Connect { ip, port }),
{
    lemma_literals();
    lemma_decimal_value(port);
    printed_numbers_are_read_back(port, 65535);
    let d = decimal(port);
    assert('0' <= d[0] <= '9');
    let argv = seq![name, ip, d];
    assert forall|i: int| 0 <= i < argv.len() implies (#[trigger] argv[i]).len() == 0 || argv[i][0]
        != '-' by {}
    assert(!argv.contains("--help"@) && !argv.contains("-h"@) && !argv.contains("--version"@));
    let rest = argv.skip(1);
    assert(rest =~= seq![ip, d]);
    assert(rest.drop_last() =~= seq![ip]);
    assert(seq![ip].drop_last() =~= Seq::empty());
    assert(plain_arguments(seq![ip].drop_last()) =~= Seq::empty());
    assert(plain_arguments(seq![ip]) =~= seq![ip]);
    assert(plain_arguments(rest) =~= seq![ip, d]);
}

/// The client is given no address and port, unless there are two arguments that are not
/// options; options in front of them are passed over.
pub proof fn options_for_the_client_are_passed_over(args: Seq<Seq<char>>, option: Seq<char>)
    requires
        option.len() > 0,
        option[0] == '-',
    ensures
        plain_arguments(seq![option] + args) == plain_arguments(args),
    decreases args.len(),
{
    let all = seq![option] + args;
    if args.len() == 0 {
        assert(all.drop_last() =~= args);
        assert(all.last() == option);
    } else {
        options_for_the_client_are_passed_over(args.drop_last(), option);
        assert(all.drop_last() =~= seq![option] + args.drop_last());
    }
}

/// ssh gets the words of the user's ssh command, then whatever else is asked for, and last
/// the host and the command that starts the server.
pub proof fn ssh_is_told_the_host_and_the_command(
    o: OptsView,
    userhost: Seq<char>,
    exe: Seq<char>,
    command: Seq<char>,
)
    requires
        o.ssh.len() >= 1,
    ensures
        ({
            let a = ssh_arguments(o, userhost, exe, command);
            let n = a.len() as int;
            let k = o.ssh.len() - 1;
            &&& n >= k + 3
            &&& a.take(k) == o.ssh.skip(1)
            &&& a[n - 3] == userhost
            &&& a[n - 2] == "--"@
            &&& o.remote_ip != "remote"@ ==> a[n - 1] == command
            &&& a[n - 1].len() >= command.len()
            &&& a[n - 1].skip(a[n - 1].len() - command.len()) == command
            &&& o.ssh_pty ==> a[k] == "-t"@
            &&& o.family == "inet"@ ==> a.subrange(k, n - 3).contains("-4"@)
            &&& o.family == "inet6"@ ==> a.subrange(k, n - 3).contains("-6"@)
            &&& (!o.ssh_pty && o.family != "inet"@ && o.family != "inet6"@ && o.remote_ip
                != "proxy"@ ==> n == k + 3)
            &&& o.remote_ip == "proxy"@ ==> n >= k + 7 && a[n - 7] == "-S"@ && a[n - 6] == "none"@
                && a[n - 5] == "-o"@
        }),
{
    let a = ssh_arguments(o, userhost, exe, command);
    let n = a.len() as int;
    let k = o.ssh.len() - 1;
    assert(a.take(k) =~= o.ssh.skip(1));
    assert(a[n - 1].skip(a[n - 1].len() - command.len()) =~= command);
    reveal_strlit("inet");
    reveal_strlit("inet6");
    assert("inet"@.len() == 4 && "inet6"@.len() == 5);
    if o.remote_ip != "remote"@ {
        assert(a[n - 1] =~= command);
    }
    let pty: int = if o.ssh_pty {
        1
    } else {
        0
    };
    if o.family == "inet"@ {
        assert(a[k + pty] == "-4"@);
        assert(a.subrange(k, n - 3)[pty] == "-4"@);
    }
    if o.family == "inet6"@ {
        assert(a[k + pty] == "-6"@);
        assert(a.subrange(k, n - 3)[pty] == "-6"@);
    }
}

/// A terminal whose type says that it has 256 colours has them; others are taken to have 8.
pub proof fn colours_are_told_by_the_type(before: Seq<char>, after: Seq<char>)
    ensures
        crate::launcher::colors_of(Some(before + "256color"@ + after)) == 256,
        crate::launcher::colors_of(None) == 8,
        before.len() < 8 ==> crate::launcher::colors_of(Some(before)) == 8,
{
    reveal_strlit("256color");
    assert("256color"@.len() == 8);
    let s = before + "256color"@ + after;
    assert(s.subrange(before.len() as int, before.len() + "256color"@.len() as int)
        =~= "256color"@);
    assert(crate::launcher::holds_at(s, "256color"@, before.len() as int));
}

/// The host is what follows the last at sign, and the user is kept when an address takes the
/// host's place.
pub proof fn hosts_follow_the_last_at_sign(user: Seq<char>, host: Seq<char>)
    requires
        lacks(host, '@'),
    ensures
        after_last(user + seq!['@'] + host, '@') == host,
        after_last(host, '@') == host,
        crate::launcher::user_prefix(user + seq!['@'] + host) == user + seq!['@'],
        crate::launcher::user_prefix(host).len() == 0,
{
    lemma_after_last(user + seq!['@'], host);
    lemma_after_last(Seq::empty(), host);
    assert(Seq::<char>::empty() + host =~= host);
    assert((user + seq!['@'] + host).take((user.len() + 1) as int) =~= user + seq!['@']);
}

proof fn lemma_after_last(front: Seq<char>, host: Seq<char>)
    requires
        lacks(host, '@'),
        front.len() == 0 || front.last() == '@',
    ensures
        after_last(front + host, '@') == host,
    decreases host.len(),
{
    if host.len() == 0 {
        assert(front + host =~= front);
        assert(after_last(front, '@') =~= host);
    } else {
        let rest = host.drop_last();
        assert(lacks(rest, '@')) by {
            assert forall|i: int| 0 <= i < rest.len() implies #[trigger] rest[i] != '@' by {
                assert(host[i] != '@');
            }
        }
        lemma_after_last(front, rest);
        assert((front + host).drop_last() =~= front + rest);
        assert(host[host.len() - 1] != '@');
        assert(rest.push(host.last()) =~= host);
    }
}

/// Is this a character that every shell takes as it is?
pub open spec fn plain_to_shells(c: char) -> bool {
    ||| 'a' <= c <= 'z'
    ||| 'A' <= c <= 'Z'
    ||| '0' <= c <= '9'
    ||| seq!['-', '_', '.', '/', ':', '=', '@'].contains(c)
}

/// A word that a shell might not take as it is, or that is empty, is put in single quotes,
/// which only a single quote itself is taken out of.
pub proof fn special_characters_are_quoted(word: Seq<char>, i: int)
    requires
        word.len() == 0 || (0 <= i < word.len() && !plain_to_shells(word[i])),
    ensures
        quoted(word) == seq!['\''] + quoted_chars(word) + seq!['\''],
        lacks(word, '\'') ==> quoted(word) == seq!['\''] + word + seq!['\''],
{
    if word.len() > 0 {
        let specials = seq!['-', '_', '.', '/', ':', '=', '@'];
        assert(specials[0] == '-' && specials[1] == '_' && specials[2] == '.' && specials[3] == '/'
            && specials[4] == ':' && specials[5] == '=' && specials[6] == '@');
        assert(!harmless(word[i]));
    }
    if lacks(word, '\'') {
        lemma_quoted_chars(word);
    }
}

proof fn lemma_quoted_chars(s: Seq<char>)
    requires
        lacks(s, '\''),
    ensures
        quoted_chars(s) == s,
    decreases s.len(),
{
    if s.len() > 0 {
        let init = s.drop_last();
        assert forall|i: int| 0 <= i < init.len() implies #[trigger] init[i] != '\'' by {
            assert(s[i] != '\'');
        }
        lemma_quoted_chars(init);
        assert(s[s.len() - 1] != '\'');
        assert(init + seq![s.last()] =~= s);
    }
}

/// A single quote ends the quotation, is escaped, and begins it again.
pub proof fn single_quotes_are_escaped(before: Seq<char>)
    ensures
        quoted_chars(before.push('\'')) == quoted_chars(before) + seq!['\'', '\\', '\'', '\''],
{
    assert(before.push('\'').drop_last() =~= before);
}

} // verus!
