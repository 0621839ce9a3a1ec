//! Which commands the allowlist admits.
//!
//! A command is admitted when it can be read as plain words and the words begin
//! with those of an allowed prefix. Anything of the shell beyond words and quoting
//! (operators, redirections, substitutions, expansions of variables) cannot be
//! read, so it is refused whatever the list says.

use crate::policy::{self, CommandPrefix};
use crate::text;
use vstd::prelude::*;

verus! {

broadcast use vstd::string::group_string_axioms;

/// The words a shell would split a text into, or `None` when the text ends
/// inside a quotation or after a lone backslash.
pub uninterp spec fn shell_words(command: Seq<char>) -> Option<Seq<Seq<char>>>;

/// The characters of each word, when there are words.
pub open spec fn words_view(words: Option<Vec<String>>) -> Option<Seq<Seq<char>>> {
    match words {
        Some(words) => Some(text::views(words@)),
        None => None,
    }
}

/// `shlex::split`: the words of a command, which depend on the command alone.
#[verifier::external_body]
pub(crate) fn split_words(command: &str) -> (r: Option<Vec<String>>)
    ensures
        words_view(r) == shell_words(command@),
{
    shlex::split(command)
}

/// How the next character of a command is read.
#[derive(Clone, Copy, Debug, PartialEq, Eq, Structural)]
pub enum Reading {
    /// Outside any quotation.
    Plain,
    /// After a backslash.
    Escaped,
    /// Between single quotes.
    Single,
    /// Between double quotes.
    Double,
    /// Between double quotes, after a backslash.
    DoubleEscaped,
}

/// Whether a shell takes an unquoted character for more than a part of a word: an
/// operator, a redirection, a substitution or the end of the command.
pub open spec fn is_syntax(c: char) -> bool {
    c == ';' || c == '&' || c == '|' || c == '<' || c == '>' || c == '(' || c == ')' || c == '$'
        || c == '`' || c == '\n'
}

/// How a command is read on after a character, or `None` when the character is
/// shell syntax where it stands.
pub open spec fn read_on(reading: Reading, c: char) -> Option<Reading> {
    match reading {
        Reading::Plain => if c == '\\' {
            Some(Reading::Escaped)
        } else if c == '\'' {
            Some(Reading::Single)
        } else if c == '"' {
            Some(Reading::Double)
        } else if is_syntax(c) {
            None
        } else {
            Some(Reading::Plain)
        },
        Reading::Escaped => Some(Reading::Plain),
        Reading::Single => if c == '\'' {
            Some(Reading::Plain)
        } else {
            Some(Reading::Single)
        },
        Reading::Double => if c == '"' {
            Some(Reading::Plain)
        } else if c == '\\' {
            Some(Reading::DoubleEscaped)
        } else if c == '$' || c == '`' {
            None
        } else {
            Some(Reading::Double)
        },
        Reading::DoubleEscaped => Some(Reading::Double),
    }
}

/// How a command is read at its end, or `None` when it holds shell syntax.
pub open spec fn read_through(command: Seq<char>) -> Option<Reading>
    decreases command.len(),
{
    if command.len() == 0 {
        Some(Reading::Plain)
    } else {
        match read_through(command.drop_last()) {
            Some(reading) => read_on(reading, command.last()),
            None => None,
        }
    }
}

/// Whether a command is made of words and quoting alone.
pub open spec fn is_plain(command: Seq<char>) -> bool {
    read_through(command) is Some
}

/// The tokens of a command, or `None` for one that cannot be read: it holds shell
/// syntax or an unfinished quotation.
pub open spec fn command_tokens(command: Seq<char>) -> Option<Seq<Seq<char>>> {
    if is_plain(command) {
        shell_words(command)
    } else {
        None
    }
}

/// The tokens of each allowed prefix.
pub open spec fn prefix_tokens(allow: Seq<Seq<char>>) -> Seq<Option<Seq<Seq<char>>>> {
    Seq::new(allow.len(), |i: int| shell_words(allow[i]))
}

/// Whether the prefixes admit a command: its tokens start with exactly the tokens
/// of one of them. Nothing comes of a command or a prefix that cannot be read; a
/// prefix without tokens begins every command that can.
pub open spec fn admits(
    allow: Seq<Option<Seq<Seq<char>>>>,
    tokens: Option<Seq<Seq<char>>>,
) -> bool {
    tokens is Some && exists|i: int|
        0 <= i < allow.len() && (#[trigger] allow[i]) is Some && allow[i]->0.is_prefix_of(
            tokens->0,
        )
}

/// Whether an allowlist admits a command.
pub open spec fn allows(allow: Seq<Seq<char>>, command: Seq<char>) -> bool {
    admits(prefix_tokens(allow), command_tokens(command))
}

/// Deny by default: an empty list admits no command.
pub proof fn an_empty_list_admits_nothing(allow: Seq<Seq<char>>, command: Seq<char>)
    requires
        allow.len() == 0,
    ensures
        !allows(allow, command),
        forall|tokens: Option<Seq<Seq<char>>>| !#[trigger] admits(prefix_tokens(allow), tokens),
{
}

/// A command that cannot be read is refused, whatever the list says.
pub proof fn what_cannot_be_read_is_refused(allow: Seq<Seq<char>>, command: Seq<char>)
    requires
        !is_plain(command) || shell_words(command) is None,
    ensures
        !allows(allow, command),
{
}

/// What follows the tokens of a prefix does not matter, and neither do further
/// prefixes: an admitted command stays admitted.
pub proof fn a_prefix_decides(
    allow: Seq<Option<Seq<Seq<char>>>>,
    tokens: Seq<Seq<char>>,
    more: Seq<Seq<char>>,
    other: Option<Seq<Seq<char>>>,
)
    requires
        admits(allow, Some(tokens)),
    ensures
        admits(allow, Some(tokens + more)),
        admits(allow.push(other), Some(tokens)),
{
    let i = choose|i: int|
        0 <= i < allow.len() && (#[trigger] allow[i]) is Some && allow[i]->0.is_prefix_of(tokens);
    let prefix = allow[i]->0;
    assert(prefix =~= (tokens + more).subrange(0, prefix.len() as int)) by {
        assert(prefix =~= tokens.subrange(0, prefix.len() as int));
    }
    assert(prefix.is_prefix_of(tokens + more));
    assert(allow.push(other)[i] == allow[i]);
}

/// Without quoting, a command is plain exactly when no character of it is shell
/// syntax.
pub proof fn unquoted_syntax_is_refused(command: Seq<char>)
    requires
        !command.contains('\\'),
        !command.contains('\''),
        !command.contains('"'),
    ensures
        is_plain(command) <==> forall|i: int|
            0 <= i < command.len() ==> !is_syntax(#[trigger] command[i]),
        is_plain(command) ==> read_through(command) == Some(Reading::Plain),
    decreases command.len(),
{
    if command.len() > 0 {
        let init = command.drop_last();
        assert(command[command.len() - 1] == command.last());
        assert forall|c: char| init.contains(c) implies #[trigger] command.contains(c) by {
            let k = choose|k: int| 0 <= k < init.len() && init[k] == c;
            assert(command[k] == c);
        }
        unquoted_syntax_is_refused(init);
        assert(command.contains(command.last()));
        if is_plain(init) && !is_syntax(command.last()) {
            assert forall|i: int| 0 <= i < command.len() implies !is_syntax(
                #[trigger] command[i],
            ) by {
                if i < init.len() {
                    assert(init[i] == command[i]);
                }
            }
        }
        if !is_plain(init) {
            let i = choose|i: int| 0 <= i < init.len() && is_syntax(#[trigger] init[i]);
            assert(is_syntax(command[i]));
        }
    }
}

/// Double quotes do not protect from substitution: a command with a `$` or a
/// backquote, and neither a single quote nor a backslash, is refused.
pub proof fn substitution_is_refused(command: Seq<char>)
    requires
        !command.contains('\\'),
        !command.contains('\''),
        command.contains('$') || command.contains('`'),
    ensures
        !is_plain(command),
{
    lemma_substitution(command);
    if is_plain(command) {
        let c = if command.contains('$') {
            '$'
        } else {
            '`'
        };
        let k = choose|k: int| 0 <= k < command.len() && command[k] == c;
        assert(command[k] != '$' && command[k] != '`');
    }
}

proof fn lemma_substitution(command: Seq<char>)
    requires
        !command.contains('\\'),
        !command.contains('\''),
    ensures
        match read_through(command) {
            Some(reading) => {
                &&& reading == Reading::Plain || reading == Reading::Double
                &&& forall|i: int|
                    0 <= i < command.len() ==> (#[trigger] command[i]) != '$' && command[i] != '`'
            },
            None => true,
        },
    decreases command.len(),
{
    if command.len() > 0 {
        let init = command.drop_last();
        assert(command[command.len() - 1] == command.last());
        assert forall|c: char| init.contains(c) implies #[trigger] command.contains(c) by {
            let k = choose|k: int| 0 <= k < init.len() && init[k] == c;
            assert(command[k] == c);
        }
        lemma_substitution(init);
        assert(command.contains(command.last()));
        if read_through(command) is Some {
            assert forall|i: int| 0 <= i < command.len() implies (#[trigger] command[i]) != '$'
                && command[i] != '`' by {
                if i < init.len() {
                    assert(init[i] == command[i]);
                }
            }
        }
    }
}

fn next_reading(reading: Reading, c: char) -> (r: Option<Reading>)
    ensures
        r == read_on(reading, c),
{
    match reading {
        Reading::Plain => match c {
            '\\' => Some(Reading::Escaped),
            '\'' => Some(Reading::Single),
            '"' => Some(Reading::Double),
            ';' | '&' | '|' | '<' | '>' | '(' | ')' | '$' | '`' | '\n' => None,
            _ => Some(Reading::Plain),
        },
        Reading::Escaped => Some(Reading::Plain),
        Reading::Single => match c {
            '\'' => Some(Reading::Plain),
            _ => Some(Reading::Single),
        },
        Reading::Double => match c {
            '"' => Some(Reading::Plain),
            '\\' => Some(Reading::DoubleEscaped),
            '$' | '`' => None,
            _ => Some(Reading::Double),
        },
        Reading::DoubleEscaped => Some(Reading::Double),
    }
}

/// Whether a command is made of words and quoting alone.
pub fn reads_plainly(command: &str) -> (r: bool)
    ensures
        r == is_plain(command@),
{
    let chars = text::to_chars(command);
    let mut reading = Some(Reading::Plain);
    let mut i: usize = 0;
    proof {
        assert(command@.take(0) =~= Seq::<char>::empty());
    }
    while i < chars.len()
        invariant
            i <= chars@.len(),
            chars@ == command@,
            reading == read_through(command@.take(i as int)),
        decreases chars@.len() - i,
    {
        proof {
            assert(command@.take(i + 1).drop_last() =~= command@.take(i as int));
            assert(command@.take(i + 1).last() == chars@[i as int]);
        }
        reading = match reading {
            Some(before) => next_reading(before, chars[i]),
            None => None,
        };
        i = i + 1;
    }
    proof {
        assert(command@.take(i as int) =~= command@);
    }
    reading.is_some()
}

/// The tokens of a command, or `None` for one that cannot be read.
pub fn tokens_of(command: &str) -> (r: Option<Vec<String>>)
    ensures
        words_view(r) == command_tokens(command@),
{
    if reads_plainly(command) {
        split_words(command)
    } else {
        None
    }
}

/// The tokens of a list of prefixes, as plain values.
pub open spec fn token_views(prefixes: Seq<Option<Vec<String>>>) -> Seq<Option<Seq<Seq<char>>>> {
    Seq::new(prefixes.len(), |i: int| words_view(prefixes[i]))
}

/// The tokens of each allowed prefix.
pub fn prefixes_of(allow: &[CommandPrefix]) -> (r: Vec<Option<Vec<String>>>)
    ensures
        token_views(r@) == prefix_tokens(policy::prefix_views(allow@)),
{
    let ghost all = prefix_tokens(policy::prefix_views(allow@));
    let mut prefixes: Vec<Option<Vec<String>>> = Vec::new();
    let mut i: usize = 0;
    while i < allow.len()
        invariant
            i <= allow@.len(),
            all == prefix_tokens(policy::prefix_views(allow@)),
            token_views(prefixes@) == all.take(i as int),
        decreases allow@.len() - i,
    {
        let ghost before = prefixes@;
        prefixes.push(split_words(allow[i].as_str()));
        proof {
            assert(token_views(prefixes@) =~= token_views(before).push(all[i as int]));
            assert(all.take(i + 1) =~= all.take(i as int).push(all[i as int]));
        }
        i = i + 1;
    }
    proof {
        assert(all.take(i as int) =~= all);
    }
    prefixes
}

/// Whether the tokens begin with those of the prefix.
fn begins_with(tokens: &Vec<String>, prefix: &Vec<String>) -> (r: bool)
    ensures
        r == text::views(prefix@).is_prefix_of(text::views(tokens@)),
{
    let ghost whole = text::views(tokens@);
    let ghost front = text::views(prefix@);
    if prefix.len() > tokens.len() {
        return false;
    }
    let mut i: usize = 0;
    while i < prefix.len()
        invariant
            i <= prefix@.len() <= tokens@.len(),
            whole == text::views(tokens@),
            front == text::views(prefix@),
            forall|k: int| 0 <= k < i ==> front[k] == whole[k],
        decreases prefix@.len() - i,
    {
        proof {
            assert(front[i as int] == prefix@[i as int]@);
            assert(whole[i as int] == tokens@[i as int]@);
        }
        if !text::same(tokens[i].as_str(), prefix[i].as_str()) {
            proof {
                assert(whole.subrange(0, front.len() as int)[i as int] != front[i as int]);
            }
            return false;
        }
        i = i + 1;
    }
    proof {
        assert(front =~= whole.subrange(0, front.len() as int));
    }
    true
}

/// Whether the prefixes admit a command with these tokens.
pub fn is_admitted(prefixes: &Vec<Option<Vec<String>>>, tokens: &Option<Vec<String>>) -> (r: bool)
    ensures
        r == admits(token_views(prefixes@), words_view(*tokens)),
{
    let ghost all = token_views(prefixes@);
    let ghost wanted = words_view(*tokens);
    let words = match tokens {
        Some(words) => words,
        None => return false,
    };
    let mut i: usize = 0;
    while i < prefixes.len()
        invariant
            i <= prefixes@.len(),
            all == token_views(prefixes@),
            wanted == words_view(*tokens),
            wanted == Some(text::views(words@)),
            forall|k: int|
                0 <= k < i && (#[trigger] all[k]) is Some ==> !all[k]->0.is_prefix_of(
                    text::views(words@),
                ),
        decreases prefixes@.len() - i,
    {
        proof {
            assert(all[i as int] == words_view(prefixes@[i as int]));
        }
        if let Some(prefix) = &prefixes[i] {
            if begins_with(words, prefix) {
                return true;
            }
        }
        i = i + 1;
    }
    false
}

/// Whether the allowlist admits a command.
pub fn is_allowed(command: &str, allow: &[CommandPrefix]) -> (r: bool)
    ensures
        r == allows(policy::prefix_views(allow@), command@),
{
    is_admitted(&prefixes_of(allow), &tokens_of(command))
}

} // verus!
