//! Command lines: splitting them into words, and quoting words for them.

use vstd::prelude::*;
use vstd::string::*;

use crate::text::chars_of;
use crate::views::{group_views, views};
use crate::words::{is_white, white};

verus! {

broadcast use group_views;

/// How far a command line has been split.
#[verifier::ext_equal]
pub struct Splitting {
    /// The words that are complete.
    pub words: Seq<Seq<char>>,
    /// What there is of the next one.
    pub word: Seq<char>,
    /// There is a next one, even if it is empty so far.
    pub begun: bool,
    /// The quotation mark that is open.
    pub quote: Option<char>,
    /// The next character is taken literally.
    pub escaped: bool,
}

impl Splitting {
    pub open spec fn start() -> Splitting {
        Splitting {
            words: Seq::empty(),
            word: Seq::empty(),
            begun: false,
            quote: None,
            escaped: false,
        }
    }

    /// With a character of a word.
    pub open spec fn taken(self, c: char) -> Splitting {
        Splitting { word: self.word.push(c), begun: true, escaped: false, ..self }
    }

    /// With the word ended, if one has begun.
    pub open spec fn ended(self) -> Splitting {
        if self.begun {
            Splitting {
                words: self.words.push(self.word),
                word: Seq::empty(),
                begun: false,
                ..self
            }
        } else {
            self
        }
    }

    /// After a character. A quotation mark makes everything up to the next one part of the
    /// word, and a backslash outside of quotation marks the character behind it.
    pub open spec fn after(self, c: char) -> Splitting {
        if self.escaped {
            self.taken(c)
        } else {
            match self.quote {
                Some(q) => if c == q {
                    Splitting { quote: None, ..self }
                } else {
                    self.taken(c)
                },
                None => if c == '\'' || c == '"' {
                    Splitting { quote: Some(c), begun: true, ..self }
                } else if c == '\\' {
                    Splitting { escaped: true, ..self }
                } else if white(c) {
                    self.ended()
                } else {
                    self.taken(c)
                },
            }
        }
    }

    /// After a text.
    pub open spec fn after_all(self, s: Seq<char>) -> Splitting
        decreases s.len(),
    {
        if s.len() == 0 {
            self
        } else {
            self.after_all(s.drop_last()).after(s.last())
        }
    }
}

/// The words of a command line.
pub open spec fn shell_words(s: Seq<char>) -> Seq<Seq<char>> {
    Splitting::start().after_all(s).ended().words
}

/// Split a string the way a shell would, honouring quotes.
pub fn shellwords(s: &str) -> (out: Vec<String>)
    ensures
        views(out@) == shell_words(s@),
{
    let chars = chars_of(s);
    let mut out: Vec<String> = Vec::new();
    let mut cur = String::new();
    let mut begun: bool = false;
    let mut quote: Option<char> = None;
    let mut escaped: bool = false;
    let mut i: usize = 0;
    assert(views(out@) =~= Seq::empty());
    assert(s@.subrange(0, 0) =~= Seq::<char>::empty());
    while i < chars.len()
        invariant
            chars@ == s@,
            i <= s@.len(),
            Splitting::start().after_all(s@.subrange(0, i as int)) == (Splitting {
                words: views(out@),
                word: cur@,
                begun,
                quote,
                escaped,
            }),
        decreases s@.len() - i,
    {
        proof {
            let next = s@.subrange(0, i + 1);
            assert(next.drop_last() =~= s@.subrange(0, i as int));
        }
        let c = chars[i];
        i = i + 1;
        let plain: bool = escaped || match quote {
            Some(q) => c != q,
            None => c != '\'' && c != '"' && c != '\\' && !is_white(c),
        };
        if plain {
            cur.push(c);
            begun = true;
            escaped = false;
        } else if quote.is_some() {
            quote = None;
        } else if c == '\'' || c == '"' {
            quote = Some(c);
            begun = true;
        } else if c == '\\' {
            escaped = true;
        } else if begun {
            out.push(cur);
            cur = String::new();
            begun = false;
        }
    }
    assert(s@.subrange(0, i as int) =~= s@);
    if begun {
        out.push(cur);
    }
    out
}

/// Characters that mean nothing to a shell.
pub open spec fn harmless(c: char) -> bool {
    ||| 'a' <= c <= 'z'
    ||| 'A' <= c <= 'Z'
    ||| '0' <= c <= '9'
    ||| c == '-'
    ||| c == '_'
    ||| c == '.'
    ||| c == '/'
    ||| c == ':'
    ||| c == '='
    ||| c == '@'
}

fn is_harmless(c: char) -> (b: bool)
    ensures
        b == harmless(c),
{
    ('a' <= c && c <= 'z') || ('A' <= c && c <= 'Z') || ('0' <= c && c <= '9') || c == '-' || c
        == '_' || c == '.' || c == '/' || c == ':' || c == '=' || c == '@'
}

/// Does every character mean nothing to a shell?
pub open spec fn all_harmless(s: Seq<char>) -> bool {
    forall|i: int| 0 <= i < s.len() ==> harmless(#[trigger] s[i])
}

/// A character inside of single quotes. They protect everything except a single quote
/// itself, which is put outside of them.
pub open spec fn quoted_char(c: char) -> Seq<char> {
    if c == '\'' {
        seq!['\'', '\\', '\'', '\'']
    } else {
        seq![c]
    }
}

/// Characters inside of single quotes.
pub open spec fn quoted_chars(s: Seq<char>) -> Seq<char>
    decreases s.len(),
{
    if s.len() == 0 {
        Seq::empty()
    } else {
        quoted_chars(s.drop_last()) + quoted_char(s.last())
    }
}

/// A word as a shell has to be given it.
pub open spec fn quoted(word: Seq<char>) -> Seq<char> {
    if word.len() > 0 && all_harmless(word) {
        word
    } else {
        seq!['\''] + quoted_chars(word) + seq!['\'']
    }
}

/// Quote a word so a remote shell receives it unchanged.
pub fn shell_quote(word: &str) -> (s: String)
    ensures
        s@ == quoted(word@),
{
    let chars = chars_of(word);
    let mut plain: bool = chars.len() > 0;
    let mut i: usize = 0;
    while i < chars.len() && plain
        invariant
            chars@ == word@,
            i <= word@.len(),
            plain ==> forall|k: int| 0 <= k < i ==> harmless(#[trigger] word@[k]),
            !plain && word@.len() > 0 ==> !all_harmless(word@),
            plain ==> word@.len() > 0,
        decreases word@.len() - i,
    {
        if !is_harmless(chars[i]) {
            plain = false;
        }
        i = i + 1;
    }
    if plain {
        return word.to_owned();
    }
    let mut s = String::new();
    s.push('\'');
    assert(s@ =~= seq!['\''] + quoted_chars(word@.subrange(0, 0)));
    let mut j: usize = 0;
    while j < chars.len()
        invariant
            chars@ == word@,
            j <= word@.len(),
            s@ == seq!['\''] + quoted_chars(word@.subrange(0, j as int)),
        decreases word@.len() - j,
    {
        proof {
            let next = word@.subrange(0, j + 1);
            assert(next.drop_last() =~= word@.subrange(0, j as int));
        }
        let c = chars[j];
        if c == '\'' {
            s.push('\'');
            s.push('\\');
            s.push('\'');
            s.push('\'');
        } else {
            s.push(c);
        }
        j = j + 1;
        assert(s@ =~= seq!['\''] + quoted_chars(word@.subrange(0, j as int)));
    }
    assert(word@.subrange(0, j as int) =~= word@);
    s.push('\'');
    assert(s@ =~= seq!['\''] + quoted_chars(word@) + seq!['\'']);
    s
}

proof fn lemma_after_all_concat(p: Splitting, a: Seq<char>, b: Seq<char>)
    ensures
        p.after_all(a + b) == p.after_all(a).after_all(b),
    decreases b.len(),
{
    if b.len() == 0 {
        assert(a + b =~= a);
    } else {
        assert((a + b).drop_last() =~= a + b.drop_last());
        lemma_after_all_concat(p, a, b.drop_last());
    }
}

proof fn lemma_one(p: Splitting, c: char)
    ensures
        p.after_all(seq![c]) == p.after(c),
{
    assert(seq![c].drop_last() =~= Seq::<char>::empty());
    assert(p.after_all(Seq::<char>::empty()) == p);
}

proof fn lemma_harmless_taken(p: Splitting, s: Seq<char>)
    requires
        all_harmless(s),
        s.len() > 0,
        p.quote is None,
        !p.escaped,
    ensures
        p.after_all(s) == (Splitting { word: p.word + s, begun: true, ..p }),
    decreases s.len(),
{
    let init = s.drop_last();
    assert(harmless(s[s.len() - 1]));
    if init.len() == 0 {
        assert(p.after_all(init) == p);
        assert(p.word + s =~= p.word.push(s.last()));
    } else {
        assert(all_harmless(init)) by {
            assert forall|i: int| 0 <= i < init.len() implies harmless(#[trigger] init[i]) by {
                assert(init[i] == s[i]);
            }
        }
        lemma_harmless_taken(p, init);
        assert((p.word + init).push(s.last()) =~= p.word + s);
    }
}

proof fn lemma_quoted_taken(p: Splitting, s: Seq<char>)
    requires
        p.quote == Some('\''),
        !p.escaped,
        p.begun,
    ensures
        p.after_all(quoted_chars(s)) == (Splitting { word: p.word + s, ..p }),
    decreases s.len(),
{
    if s.len() == 0 {
        assert(p.word + s =~= p.word);
        assert(p.after_all(quoted_chars(s)) == p);
    } else {
        let init = s.drop_last();
        let c = s.last();
        lemma_quoted_taken(p, init);
        lemma_after_all_concat(p, quoted_chars(init), quoted_char(c));
        let q = p.after_all(quoted_chars(init));
        assert((p.word + init).push(c) =~= p.word + s);
        if c == '\'' {
            let a = seq!['\''];
            let b = seq!['\\'];
            lemma_one(q, '\'');
            let q1 = q.after('\'');
            lemma_one(q1, '\\');
            let q2 = q1.after('\\');
            lemma_one(q2, '\'');
            let q3 = q2.after('\'');
            lemma_one(q3, '\'');
            lemma_after_all_concat(q, a, b);
            lemma_after_all_concat(q, a + b, a);
            lemma_after_all_concat(q, a + b + a, a);
            assert(quoted_char(c) =~= a + b + a + a);
        } else {
            lemma_one(q, c);
            assert(quoted_char(c) =~= seq![c]);
        }
    }
}

/// Between words, a quoted word is taken as the next one.
proof fn lemma_quoted_word_taken(p: Splitting, word: Seq<char>)
    requires
        p.word.len() == 0,
        !p.begun,
        p.quote is None,
        !p.escaped,
    ensures
        p.after_all(quoted(word)) == (Splitting { word, begun: true, ..p }),
{
    assert(p.word + word =~= word);
    if word.len() > 0 && all_harmless(word) {
        lemma_harmless_taken(p, word);
    } else {
        let mark = seq!['\''];
        lemma_one(p, '\'');
        let open = p.after('\'');
        lemma_quoted_taken(open, word);
        lemma_after_all_concat(p, mark, quoted_chars(word));
        lemma_after_all_concat(p, mark + quoted_chars(word), mark);
        lemma_one(open.after_all(quoted_chars(word)), '\'');
    }
}

/// A shell receives a quoted word unchanged: splitting it gives the word back.
pub proof fn quoted_words_arrive_unchanged(word: Seq<char>)
    ensures
        shell_words(quoted(word)) == seq![word],
{
    lemma_quoted_word_taken(Splitting::start(), word);
    assert(shell_words(quoted(word)) =~= seq![word]);
}

/// Words as a shell has to be given them.
pub open spec fn command_line(words: Seq<Seq<char>>) -> Seq<char>
    decreases words.len(),
{
    if words.len() == 0 {
        Seq::empty()
    } else if words.len() == 1 {
        quoted(words[0])
    } else {
        command_line(words.drop_last()) + " "@ + quoted(words.last())
    }
}

proof fn lemma_line_taken(words: Seq<Seq<char>>)
    requires
        words.len() > 0,
    ensures
        Splitting::start().after_all(command_line(words)) == (Splitting {
            words: words.drop_last(),
            word: words.last(),
            begun: true,
            quote: None,
            escaped: false,
        }),
    decreases words.len(),
{
    let p = Splitting::start();
    let init = words.drop_last();
    if words.len() == 1 {
        lemma_quoted_word_taken(p, words[0]);
        assert(init =~= Seq::empty());
    } else {
        reveal_strlit(" ");
        lemma_line_taken(init);
        let (line, gap) = (command_line(init), " "@);
        assert(gap =~= seq![' ']);
        lemma_after_all_concat(p, line, gap);
        lemma_one(p.after_all(line), ' ');
        lemma_after_all_concat(p, line + gap, quoted(words.last()));
        let q = p.after_all(line + gap);
        assert(init.drop_last().push(init.last()) =~= init);
        lemma_quoted_word_taken(q, words.last());
    }
}

/// A shell receives a whole line of quoted words unchanged: splitting it gives the words
/// back.
pub proof fn quoted_lines_arrive_unchanged(words: Seq<Seq<char>>)
    ensures
        shell_words(command_line(words)) == words,
{
    if words.len() == 0 {
        assert(command_line(words) =~= Seq::empty());
        assert(shell_words(command_line(words)) =~= words);
    } else {
        lemma_line_taken(words);
        assert(words.drop_last().push(words.last()) =~= words);
    }
}

} // verus!
