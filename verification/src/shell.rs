//! Quoting arguments for a POSIX shell, and what the shell makes of them.
use crate::text::{chars_of, joined};
use vstd::prelude::*;

verus! {

/// Whether a shell takes `c` as it is.
pub open spec fn is_safe(c: char) -> bool {
    ||| '0' <= c <= '9'
    ||| 'A' <= c <= 'Z'
    ||| 'a' <= c <= 'z'
    ||| c == '-'
    ||| c == '_'
    ||| c == '.'
    ||| c == '/'
    ||| c == ':'
    ||| c == '='
    ||| c == '@'
    ||| c == '%'
    ||| c == '+'
    ||| c == ','
}

fn safe(c: char) -> (yes: bool)
    ensures
        yes == is_safe(c),
{
    ('0' <= c && c <= '9') || ('A' <= c && c <= 'Z') || ('a' <= c && c <= 'z') || c == '-' || c
        == '_' || c == '.' || c == '/' || c == ':' || c == '=' || c == '@' || c == '%' || c == '+'
        || c == ','
}

/// Whether a shell takes an argument as it is.
pub open spec fn all_safe(arg: Seq<char>) -> bool {
    arg.len() > 0 && forall|i: int| 0 <= i < arg.len() ==> is_safe(#[trigger] arg[i])
}

/// `arg` with every single quote written so that it can stand between single quotes.
pub open spec fn escaped(arg: Seq<char>) -> Seq<char>
    decreases arg.len(),
{
    if arg.len() == 0 {
        Seq::empty()
    } else if arg.last() == '\'' {
        escaped(arg.drop_last()) + "'\\''"@
    } else {
        escaped(arg.drop_last()).push(arg.last())
    }
}

/// `arg` as it is written in a shell command.
pub open spec fn quoted(arg: Seq<char>) -> Seq<char> {
    if all_safe(arg) {
        arg
    } else {
        "'"@ + escaped(arg) + "'"@
    }
}

/// Quote an argument for a POSIX shell.
#[must_use]
pub fn shell_quote(arg: &str) -> (word: String)
    ensures
        word@ == quoted(arg@),
{
    let v: Vec<char> = chars_of(arg);
    let mut i: usize = 0;
    while i < v.len() && safe(v[i])
        invariant
            i <= v@.len(),
            v@ == arg@,
            forall|k: int| 0 <= k < i ==> is_safe(#[trigger] arg@[k]),
        decreases v@.len() - i,
    {
        i += 1;
    }
    if v.len() > 0 && i == v.len() {
        return arg.to_owned();
    }
    proof {
        if v@.len() > 0 {
            assert(!is_safe(arg@[i as int]));
        }
    }
    let mut word: String = "'".to_owned();
    let mut j: usize = 0;
    proof {
        assert(escaped(arg@.take(0)) =~= Seq::empty());
        assert("'"@ + Seq::<char>::empty() =~= "'"@);
    }
    while j < v.len()
        invariant
            j <= v@.len(),
            v@ == arg@,
            word@ == "'"@ + escaped(arg@.take(j as int)),
        decreases v@.len() - j,
    {
        proof {
            assert(arg@.take(j + 1).drop_last() =~= arg@.take(j as int));
            assert(arg@.take(j + 1).last() == arg@[j as int]);
        }
        let ghost before = escaped(arg@.take(j as int));
        if v[j] == '\'' {
            word.append("'\\''");
            assert("'"@ + (before + "'\\''"@) =~= "'"@ + before + "'\\''"@);
        } else {
            word.append(arg.substring_char(j, j + 1));
            assert(word@ =~= "'"@ + before.push(arg@[j as int]));
        }
        j += 1;
    }
    proof {
        assert(arg@.take(arg@.len() as int) =~= arg@);
    }
    word.append("'");
    word
}

/// How far a shell has read a command: the finished words, the word that it is in, whether it is
/// between single quotes or behind a backslash, and whether it met a character that may mean
/// something else to it than itself.
#[verifier::ext_equal]
pub struct Reading {
    pub words: Seq<Seq<char>>,
    pub word: Option<Seq<char>>,
    pub quoted: bool,
    pub escaped: bool,
    pub special: bool,
}

impl Reading {
    /// The word with `c` behind it.
    pub open spec fn with(self, c: char) -> Reading {
        Reading {
            word: Some(
                match self.word {
                    Some(w) => w.push(c),
                    None => seq![c],
                },
            ),
            escaped: false,
            ..self
        }
    }

    /// In a word, be it an empty one.
    pub open spec fn in_word(self) -> Reading {
        Reading {
            word: match self.word {
                Some(w) => Some(w),
                None => Some(Seq::empty()),
            },
            ..self
        }
    }

    /// What a shell does with the next character. Between single quotes every character stands
    /// for itself, behind a backslash all but a line feed do too, and a space ends a word. Outside
    /// of that only safe characters are known to stand for themselves.
    pub open spec fn next(self, c: char) -> Reading {
        if self.escaped {
            Reading { special: self.special || c == '\n', ..self.with(c) }
        } else if self.quoted {
            if c == '\'' {
                Reading { quoted: false, ..self }
            } else {
                self.with(c)
            }
        } else if c == '\'' {
            Reading { quoted: true, ..self.in_word() }
        } else if c == '\\' {
            Reading { escaped: true, ..self.in_word() }
        } else if c == ' ' {
            match self.word {
                Some(w) => Reading { words: self.words.push(w), word: None, ..self },
                None => self,
            }
        } else {
            Reading { special: self.special || !is_safe(c), ..self.with(c) }
        }
    }

    /// What a shell does with a run of characters.
    pub open spec fn read(self, s: Seq<char>) -> Reading
        decreases s.len(),
    {
        if s.len() == 0 {
            self
        } else {
            self.read(s.drop_last()).next(s.last())
        }
    }
}

/// A command that was not read yet.
pub open spec fn unread() -> Reading {
    Reading { words: Seq::empty(), word: None, quoted: false, escaped: false, special: false }
}

/// Whether a shell reads a command as nothing but words: it meets no character that may mean
/// something else to it, and no quote or backslash is left open.
pub open spec fn is_plain_command(command: Seq<char>) -> bool {
    let end = unread().read(command);
    !end.special && !end.quoted && !end.escaped
}

/// The words of a command, as a shell reads them.
pub open spec fn shell_words(command: Seq<char>) -> Seq<Seq<char>> {
    let end = unread().read(command);
    match end.word {
        Some(w) => end.words.push(w),
        None => end.words,
    }
}

/// The arguments as they are written in a shell command.
pub open spec fn all_quoted(args: Seq<Seq<char>>) -> Seq<Seq<char>> {
    args.map_values(|a: Seq<char>| quoted(a))
}

proof fn lemma_read_concat(start: Reading, a: Seq<char>, b: Seq<char>)
    ensures
        start.read(a + b) == start.read(a).read(b),
    decreases b.len(),
{
    if b.len() == 0 {
        assert(a + b =~= a);
    } else {
        assert((a + b).drop_last() =~= a + b.drop_last());
        lemma_read_concat(start, a, b.drop_last());
    }
}

proof fn lemma_read_plain(start: Reading, s: Seq<char>)
    requires
        !start.quoted,
        !start.escaped,
        start.word is None,
        s.len() > 0,
        forall|i: int| 0 <= i < s.len() ==> is_safe(#[trigger] s[i]),
    ensures
        start.read(s) == (Reading { word: Some(s), ..start }),
    decreases s.len(),
{
    let front = s.drop_last();
    assert(is_safe(s[s.len() - 1]));
    if front.len() == 0 {
        assert(start.read(front) == start);
        assert(s =~= seq![s.last()]);
    } else {
        assert forall|i: int| 0 <= i < front.len() implies is_safe(#[trigger] front[i]) by {
            assert(front[i] == s[i]);
        }
        lemma_read_plain(start, front);
        assert(s =~= front.push(s.last()));
    }
}

proof fn lemma_read_escaped(start: Reading, arg: Seq<char>)
    requires
        start.quoted,
        !start.escaped,
        start.word is Some,
    ensures
        start.read(escaped(arg)) == (Reading { word: Some(start.word->0 + arg), ..start }),
    decreases arg.len(),
{
    let had = start.word->0;
    if arg.len() == 0 {
        assert(had + arg =~= had);
    } else {
        let front = arg.drop_last();
        lemma_read_escaped(start, front);
        let mid = Reading { word: Some(had + front), ..start };
        assert((had + front).push(arg.last()) =~= had + arg);
        if arg.last() == '\'' {
            lemma_read_concat(start, escaped(front), "'\\''"@);
            reveal_strlit("'\\''");
            let four = "'\\''"@;
            assert(four =~= seq!['\'', '\\', '\'', '\'']);
            let three = four.drop_last();
            let two = three.drop_last();
            let one = two.drop_last();
            assert(one.drop_last() =~= Seq::<char>::empty());
            assert(mid.read(one.drop_last()) == mid);
            assert(mid.read(one) == mid.next('\''));
            assert(mid.read(two) == mid.next('\'').next('\\'));
            assert(mid.read(three) == mid.next('\'').next('\\').next('\''));
            assert(mid.read(four) == mid.next('\'').next('\\').next('\'').next('\''));
            assert(mid.next('\'').next('\\').next('\'').next('\'') == (Reading {
                word: Some(had + arg),
                ..start
            }));
        } else {
            let written = escaped(front).push(arg.last());
            assert(written.drop_last() =~= escaped(front));
            assert(start.read(written) == mid.next(arg.last()));
        }
    }
}

/// A shell reads a quoted argument as that argument.
pub proof fn lemma_read_quoted(start: Reading, arg: Seq<char>)
    requires
        !start.quoted,
        !start.escaped,
        start.word is None,
    ensures
        start.read(quoted(arg)) == (Reading { word: Some(arg), ..start }),
{
    if all_safe(arg) {
        lemma_read_plain(start, arg);
    } else {
        reveal_strlit("'");
        let q = "'"@;
        assert(q =~= seq!['\'']);
        assert(q.drop_last() =~= Seq::<char>::empty());
        let open = Reading { word: Some(Seq::empty()), quoted: true, ..start };
        assert(start.read(q.drop_last()) == start);
        assert(start.read(q) == start.next('\''));
        assert(start.read(q) == open);
        lemma_read_concat(start, q, escaped(arg));
        lemma_read_escaped(open, arg);
        assert(Seq::<char>::empty() + arg =~= arg);
        lemma_read_concat(start, q + escaped(arg), q);
        let inside = start.read(q + escaped(arg));
        assert(inside.read(q.drop_last()) == inside);
        assert(inside.read(q) == inside.next('\''));
    }
}

proof fn lemma_read_joined(args: Seq<Seq<char>>)
    requires
        args.len() > 0,
    ensures
        ({
            let none = unread();
            none.read(joined(all_quoted(args), " "@)) == Reading {
                words: args.drop_last(),
                word: Some(args.last()),
                ..none
            }
        }),
    decreases args.len(),
{
    let none = unread();
    let written = all_quoted(args);
    if args.len() == 1 {
        assert(written[0] == quoted(args[0]));
        lemma_read_quoted(none, args[0]);
        assert(args.drop_last() =~= Seq::<Seq<char>>::empty());
    } else {
        let front = args.drop_last();
        lemma_read_joined(front);
        assert(written.drop_last() =~= all_quoted(front));
        assert(written.last() == quoted(args.last()));
        let head = joined(all_quoted(front), " "@);
        reveal_strlit(" ");
        let gap = " "@;
        assert(gap =~= seq![' ']);
        assert(gap.drop_last() =~= Seq::<char>::empty());
        let mid = none.read(head);
        lemma_read_concat(none, head, gap);
        assert(mid.read(gap.drop_last()) == mid);
        assert(mid.read(gap) == mid.next(' '));
        assert(front.drop_last().push(front.last()) =~= front);
        let between = none.read(head + gap);
        assert(between == Reading { words: front, word: None, ..none });
        lemma_read_concat(none, head + gap, quoted(args.last()));
        lemma_read_quoted(between, args.last());
    }
}

/// A shell reads quoted arguments with spaces between them as those arguments and nothing else.
pub proof fn lemma_shell_reads_back(args: Seq<Seq<char>>)
    ensures
        shell_words(joined(all_quoted(args), " "@)) == args,
        is_plain_command(joined(all_quoted(args), " "@)),
{
    if args.len() == 0 {
        assert(all_quoted(args) =~= Seq::<Seq<char>>::empty());
        assert(shell_words(Seq::<char>::empty()) =~= args);
    } else {
        lemma_read_joined(args);
        assert(args.drop_last().push(args.last()) =~= args);
    }
}

} // verus!
