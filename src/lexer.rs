use vstd::prelude::*;

use crate::error::CommandParseError;
use crate::text::last_char;

verus! {

/// Whether the quotes of a line are closed, and if not, which kind is open.
#[derive(Debug, PartialEq, Eq, Structural, Clone, Copy)]
pub enum QuotingState {
    Balanced,
    UnbalancedSingleQuote,
    UnbalancedDoubleQuote,
}

/// After reading `s`: (single quotes balanced, double quotes balanced).
/// A quote toggles its own kind only while the other kind is balanced, so
/// that one kind of quote is inert inside the other.
pub open spec fn balance_after(s: Seq<char>) -> (bool, bool)
    decreases s.len(),
{
    if s.len() == 0 {
        (true, true)
    } else {
        let (single, double) = balance_after(s.drop_last());
        let c = s.last();
        if c == '\'' && double {
            (!single, double)
        } else if c == '"' && single {
            (single, !double)
        } else {
            (single, double)
        }
    }
}

/// The quoting state of a whole line.
pub open spec fn quoting_state_of(s: Seq<char>) -> QuotingState {
    let (single, double) = balance_after(s);
    if !single {
        QuotingState::UnbalancedSingleQuote
    } else if !double {
        QuotingState::UnbalancedDoubleQuote
    } else {
        QuotingState::Balanced
    }
}

/// The line with its open quote, if any, closed.
pub open spec fn repaired(s: Seq<char>) -> Seq<char> {
    match quoting_state_of(s) {
        QuotingState::Balanced => s,
        QuotingState::UnbalancedSingleQuote => s.push('\''),
        QuotingState::UnbalancedDoubleQuote => s.push('"'),
    }
}

/// The line ends in an unquoted space: the cursor stands at a new, empty word.
pub open spec fn new_word_started(s: Seq<char>) -> bool {
    quoting_state_of(s) == QuotingState::Balanced && s.len() > 0 && s.last() == ' '
}

/// The words of a list of strings.
pub open spec fn words_view(v: Seq<String>) -> Seq<Seq<char>> {
    v.map_values(|w: String| w@)
}

/// What shell-style word splitting makes of a text: `None` where it is malformed.
pub uninterp spec fn shell_words(s: Seq<char>) -> Option<Seq<Seq<char>>>;

/// The words of `s` given the result `split` of splitting its repaired text:
/// one more, empty word where a new word was started.
pub open spec fn finish_words(s: Seq<char>, split: Option<Seq<Seq<char>>>) -> Option<
    Seq<Seq<char>>,
> {
    match split {
        None => None,
        Some(w) => Some(
            if new_word_started(s) {
                w.push(Seq::<char>::empty())
            } else {
                w
            },
        ),
    }
}

/// The words of a possibly unfinished line.
pub open spec fn lex(s: Seq<char>) -> Option<Seq<Seq<char>>> {
    finish_words(s, shell_words(repaired(s)))
}

/// Relies on shlex::split: splits a text into words by POSIX-shell rules, and
/// returns `None` where the text is malformed.
#[verifier::external_body]
pub(crate) fn shell_split(s: &str) -> (r: Option<Vec<String>>)
    ensures
        r matches Some(v) ==> shell_words(s@) == Some(words_view(v@)),
        r is None ==> shell_words(s@) is None,
{
    shlex::split(s)
}

/// The quoting state of `string`.
pub fn get_quoting_state(string: &str) -> (r: QuotingState)
    ensures
        r == quoting_state_of(string@),
{
    let n = string.unicode_len();
    let mut single_balanced = true;
    let mut double_balanced = true;
    let mut i: usize = 0;
    while i < n
        invariant
            i <= n,
            n == string@.len(),
            (single_balanced, double_balanced) == balance_after(string@.subrange(0, i as int)),
        decreases n - i,
    {
        let c = string.get_char(i);
        assert(string@.subrange(0, i + 1).drop_last() =~= string@.subrange(0, i as int));
        if c == '\'' && double_balanced {
            single_balanced = !single_balanced;
        } else if c == '"' && single_balanced {
            double_balanced = !double_balanced;
        }
        i = i + 1;
    }
    assert(string@.subrange(0, n as int) =~= string@);
    if !single_balanced {
        QuotingState::UnbalancedSingleQuote
    } else if !double_balanced {
        QuotingState::UnbalancedDoubleQuote
    } else {
        QuotingState::Balanced
    }
}

/// `command` with its open quote, if any, closed.
pub fn repair_quotes(command: &str) -> (r: String)
    ensures
        r@ == repaired(command@),
{
    let mut r = String::from_str(command);
    match get_quoting_state(command) {
        QuotingState::Balanced => {},
        QuotingState::UnbalancedSingleQuote => {
            proof {
                reveal_strlit("'");
            }
            r.append("'");
        },
        QuotingState::UnbalancedDoubleQuote => {
            proof {
                reveal_strlit("\"");
            }
            r.append("\"");
        },
    }
    proof {
        assert(r@ =~= repaired(command@));
    }
    r
}

/// The words of `command`, given `split`, the result of splitting its repaired text.
pub fn words_from_split(command: &str, split: Option<Vec<String>>) -> (r: Result<
    Vec<String>,
    CommandParseError,
>)
    ensures
        split is None ==> r == Err::<Vec<String>, CommandParseError>(
            CommandParseError::UnparseableCommand,
        ),
        split matches Some(v) ==> r matches Ok(w) && Some(words_view(w@)) == finish_words(
            command@,
            Some(words_view(v@)),
        ),
{
    match split {
        None => Err(CommandParseError::UnparseableCommand),
        Some(mut words) => {
            let ghost before = words@;
            let ends_in_space = match last_char(command) {
                Some(c) => c == ' ',
                None => false,
            };
            if ends_in_space && get_quoting_state(command) == QuotingState::Balanced {
                words.push(String::new());
                proof {
                    assert(words_view(words@) =~= words_view(before).push(Seq::<char>::empty()));
                }
            }
            Ok(words)
        },
    }
}

/// Splits a possibly unfinished command line into words. An open quote is
/// closed first; a line that ends in an unquoted space gets one more, empty word.
pub fn parse_words(command: String) -> (r: Result<Vec<String>, CommandParseError>)
    ensures
        r matches Ok(w) ==> lex(command@) == Some(words_view(w@)),
        r matches Err(e) ==> lex(command@) is None && e == CommandParseError::UnparseableCommand,
{
    let text = repair_quotes(command.as_str());
    let split = shell_split(text.as_str());
    words_from_split(command.as_str(), split)
}

/// A line without quote characters is balanced.
pub proof fn lemma_no_quotes_balanced(s: Seq<char>)
    requires
        forall|i: int| 0 <= i < s.len() ==> s[i] != '\'' && s[i] != '"',
    ensures
        quoting_state_of(s) == QuotingState::Balanced,
    decreases s.len(),
{
    if s.len() > 0 {
        lemma_no_quotes_balanced(s.drop_last());
    }
}

/// Single and double quotes are never open at once.
pub proof fn lemma_never_both_open(s: Seq<char>)
    ensures
        balance_after(s).0 || balance_after(s).1,
    decreases s.len(),
{
    if s.len() > 0 {
        lemma_never_both_open(s.drop_last());
    }
}

/// On a balanced line, a quote opens its own kind, and a second one of the
/// same kind closes it again.
pub proof fn lemma_quote_toggles(s: Seq<char>)
    requires
        quoting_state_of(s) == QuotingState::Balanced,
    ensures
        quoting_state_of(s.push('\'')) == QuotingState::UnbalancedSingleQuote,
        quoting_state_of(s.push('"')) == QuotingState::UnbalancedDoubleQuote,
        quoting_state_of(s.push('\'').push('\'')) == QuotingState::Balanced,
        quoting_state_of(s.push('"').push('"')) == QuotingState::Balanced,
{
    assert(s.push('\'').drop_last() =~= s);
    assert(s.push('"').drop_last() =~= s);
    assert(s.push('\'').push('\'').drop_last() =~= s.push('\''));
    assert(s.push('"').push('"').drop_last() =~= s.push('"'));
}

/// Closing the open quote of a line leaves it balanced.
pub proof fn lemma_repaired_is_balanced(s: Seq<char>)
    ensures
        quoting_state_of(repaired(s)) == QuotingState::Balanced,
{
    lemma_never_both_open(s);
    assert(s.push('\'').drop_last() =~= s);
    assert(s.push('"').drop_last() =~= s);
}

} // verus!
