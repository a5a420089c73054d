//! The commands of the chat protocol and how a line is read as one.

use crate::text::{
    chars_of, clean, cleaned, find_space, head, is_whitespace, lemma_first_space_is,
    lemma_trimmed_fixed, lemma_without_nul_fixed, string_of, tail, trim, trimmed,
};
use vstd::prelude::*;

verus! {

/// What a client's line asks for, as plain values.
pub enum CommandView {
    /// Chat text for everybody else.
    Say(Seq<char>),
    /// Chat text for the one session named `target`.
    Dm { target: Seq<char>, text: Seq<char> },
    /// The directory of admitted nicknames.
    Users,
    /// Leaving the chat.
    Exit,
    /// A line that begins with `/` and names no command.
    Unknown,
}

/// What a client's line asks for.
#[derive(Debug, PartialEq, Eq)]
pub enum Command {
    /// Chat text for everybody else.
    Say(String),
    /// Chat text for the one session named `target`.
    Dm { target: String, text: String },
    /// The directory of admitted nicknames.
    Users,
    /// Leaving the chat.
    Exit,
    /// A line that begins with `/` and names no command.
    Unknown,
}

impl View for Command {
    type V = CommandView;

    open spec fn view(&self) -> CommandView {
        match self {
            Command::Say(text) => CommandView::Say(text@),
            Command::Dm { target, text } => CommandView::Dm { target: target@, text: text@ },
            Command::Users => CommandView::Users,
            Command::Exit => CommandView::Exit,
            Command::Unknown => CommandView::Unknown,
        }
    }
}

/// Whether `line` is a command: it begins with `/`.
pub open spec fn is_command(line: Seq<char>) -> bool {
    line.len() > 0 && line.first() == '/'
}

/// The word that names the command of `line`: what stands before the first
/// space, trimmed.
pub open spec fn command_word(line: Seq<char>) -> Seq<char> {
    trimmed(head(line))
}

/// How a line is read. A line that does not begin with `/` is chat text as
/// it stands. Otherwise the word before the first space names the command
/// and what follows that space is its argument: all of it for `/broadcast`;
/// for `/dm`, the target up to the next space and the text after it.
pub open spec fn parsed(line: Seq<char>) -> CommandView {
    if !is_command(line) {
        CommandView::Say(line)
    } else if command_word(line) == "/broadcast"@ {
        CommandView::Say(tail(line))
    } else if command_word(line) == "/dm"@ {
        CommandView::Dm { target: cleaned(head(tail(line))), text: tail(tail(line)) }
    } else if command_word(line) == "/users"@ {
        CommandView::Users
    } else if command_word(line) == "/exit"@ {
        CommandView::Exit
    } else {
        CommandView::Unknown
    }
}

/// Reads `line` as a command.
pub fn parse_command(line: &str) -> (c: Command)
    ensures
        c@ == parsed(line@),
{
    let chars = chars_of(line);
    let n = chars.len();
    if n == 0 || chars[0] != '/' {
        return Command::Say(line.to_owned());
    }
    let k = find_space(&chars, 0);
    assert(chars@.skip(0) =~= chars@);
    let first = string_of(&chars, 0, k);
    assert(first@ =~= head(line@));
    let word = trim(first.as_str());
    let rest: usize = if k < n {
        k + 1
    } else {
        n
    };
    assert(chars@.subrange(rest as int, n as int) =~= tail(line@));
    assert(chars@.skip(rest as int) =~= tail(line@));
    if word.as_str().eq("/broadcast") {
        Command::Say(string_of(&chars, rest, n))
    } else if word.as_str().eq("/dm") {
        let k2 = find_space(&chars, rest);
        let second = string_of(&chars, rest, k2);
        assert(second@ =~= head(tail(line@)));
        let target = clean(second.as_str());
        let rest2: usize = if k2 < n {
            k2 + 1
        } else {
            n
        };
        let text = string_of(&chars, rest2, n);
        assert(text@ =~= tail(tail(line@)));
        Command::Dm { target, text }
    } else if word.as_str().eq("/users") {
        Command::Users
    } else if word.as_str().eq("/exit") {
        Command::Exit
    } else {
        Command::Unknown
    }
}

/// Whether `word` can stand as one word of a command line: it holds neither
/// whitespace nor NUL.
pub open spec fn is_word(word: Seq<char>) -> bool {
    forall|i: int| 0 <= i < word.len() ==> !is_whitespace(word[i]) && word[i] != '\0'
}

/// A line that does not begin with `/` is chat text as it stands.
pub proof fn lemma_plain_text_is_said(line: Seq<char>)
    requires
        !is_command(line),
    ensures
        parsed(line) == CommandView::Say(line),
{
}

/// `/broadcast`, a space and a text is read as that text for everybody.
pub proof fn lemma_parsed_broadcast(text: Seq<char>)
    ensures
        parsed("/broadcast "@ + text) == CommandView::Say(text),
{
    reveal_strlit("/broadcast ");
    reveal_strlit("/broadcast");
    let line = "/broadcast "@ + text;
    lemma_first_space_is(line, 10);
    assert(head(line) =~= "/broadcast"@);
    lemma_trimmed_fixed(head(line));
    assert(tail(line) =~= text);
}

/// `/dm`, a space, a word, a space and a text is read as a direct message
/// with that word as its target and that text as its text.
pub proof fn lemma_parsed_dm(target: Seq<char>, text: Seq<char>)
    requires
        is_word(target),
    ensures
        parsed("/dm "@ + target + " "@ + text) == (CommandView::Dm { target, text }),
{
    reveal_strlit("/dm ");
    reveal_strlit("/dm");
    reveal_strlit("/broadcast");
    reveal_strlit(" ");
    let line = "/dm "@ + target + " "@ + text;
    lemma_first_space_is(line, 3);
    assert(head(line) =~= "/dm"@);
    lemma_trimmed_fixed(head(line));
    let rest = tail(line);
    assert(rest =~= target + " "@ + text);
    assert forall|i: int| 0 <= i < target.len() implies rest[i] != ' ' by {
        assert(rest[i] == target[i]);
        assert(is_whitespace(' '));
    }
    lemma_first_space_is(rest, target.len() as int);
    assert(head(rest) =~= target);
    assert(tail(rest) =~= text);
    lemma_trimmed_fixed(target);
    lemma_without_nul_fixed(target);
}

/// `/users` and `/exit` are read as the commands of those names, and any
/// other single word that begins with `/` as an unknown command.
pub proof fn lemma_parsed_word(word: Seq<char>)
    requires
        is_word(word),
        is_command(word),
        word != "/broadcast"@,
        word != "/dm"@,
    ensures
        parsed(word) == if word == "/users"@ {
            CommandView::Users
        } else if word == "/exit"@ {
            CommandView::Exit
        } else {
            CommandView::Unknown
        },
{
    assert forall|i: int| 0 <= i < word.len() implies word[i] != ' ' by {
        assert(is_whitespace(' '));
    }
    lemma_first_space_is(word, word.len() as int);
    assert(head(word) =~= word);
    lemma_trimmed_fixed(word);
}

} // verus!
