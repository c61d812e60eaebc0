//! A flat argument model, in which keyword and positional arguments share one type.

use vstd::prelude::*;
use vstd::string::StringSliceAdditionalSpecFns;
use vstd::utf8::{decode_utf8, encode_utf8_decode_utf8, is_char_boundary};

use crate::completion::{get_path_completions, prefix_matches};
use crate::error::CommandParseError;
use crate::lexer::{shell_split, shell_words, words_view};
use crate::text::{is_prefix, last_char, starts_with};

verus! {

/// An argument of a command or subcommand.
#[derive(Debug, PartialEq, Eq)]
pub struct Argument {
    pub name: String,
    pub description: String,
    pub shorthand: Option<String>,
    pub repeatable: bool,
    pub arg_type: ArgumentType,
    /// Names of arguments this one cannot be combined with (kept as data only).
    pub incompatible_with: Vec<String>,
}

/// What kind of value an argument takes.
#[derive(Debug, PartialEq, Eq)]
#[non_exhaustive]
pub enum ArgumentType {
    /// The argument is a flag and thus does not have an associated value.
    Flag,
    /// The value of the argument should be treated as a free-text string and no completion can be
    /// done for it.
    String,
    /// The value is a filesystem path.
    Path,
    /// The value of the argument must be one of a given set of strings.
    Enumeration(Vec<String>),
}

/// A named subcommand with arguments of its own.
#[derive(Debug, PartialEq, Eq)]
pub struct Subcommand {
    /// The name of the subcommand, as it should be typed by the user.
    pub name: String,
    /// A brief description of what the subcommand does.
    pub description: String,
    /// Arguments present specifically for this subcommand.
    pub arguments: Vec<Argument>,
}

impl Argument {
    /// Takes the words that this argument consumes from `words`, starting at
    /// `*next`, and moves `*next` past them: none for a flag, one for a string.
    pub fn consume_iter(&self, words: &Vec<String>, next: &mut usize) -> (r: Result<
        Vec<String>,
        CommandParseError,
    >)
        requires
            self.arg_type is Flag || self.arg_type is String,
        ensures
            self.arg_type is Flag ==> (r matches Ok(v) && v@.len() == 0),
            self.arg_type is Flag ==> *final(next) == *old(next),
            self.arg_type is String && *old(next) < words@.len() ==> (r matches Ok(v) && words_view(
                v@,
            ) == seq![words@[*old(next) as int]@]),
            self.arg_type is String && *old(next) < words@.len() ==> *final(next) == *old(next) + 1,
            self.arg_type is String && *old(next) >= words@.len() ==> (r matches Err(e)
                && e matches CommandParseError::ArgumentMissingValue(n) && n@ == self.name@),
            self.arg_type is String && *old(next) >= words@.len() ==> *final(next) == *old(next),
    {
        match &self.arg_type {
            ArgumentType::Flag => Ok(Vec::new()),
            _ => {
                if *next < words.len() {
                    let mut v: Vec<String> = Vec::new();
                    v.push(words[*next].clone());
                    *next = *next + 1;
                    proof {
                        assert(words_view(v@) =~= seq![words@[*old(next) as int]@]);
                    }
                    Ok(v)
                } else {
                    Err(CommandParseError::ArgumentMissingValue(self.name.clone()))
                }
            },
        }
    }
}

/// `s` holds an even number of the character `c`.
pub open spec fn even_count(s: Seq<char>, c: char) -> bool
    decreases s.len(),
{
    if s.len() == 0 {
        true
    } else if s.last() == c {
        !even_count(s.drop_last(), c)
    } else {
        even_count(s.drop_last(), c)
    }
}

/// Whether single and double quotes each come in pairs in `string`, counted
/// independently of each other.
pub fn quotes_balanced(string: &str) -> (r: bool)
    ensures
        r == (even_count(string@, '\'') && even_count(string@, '"')),
{
    let n = string.unicode_len();
    let mut double_balanced = true;
    let mut single_balanced = true;
    let mut i: usize = 0;
    while i < n
        invariant
            i <= n,
            n == string@.len(),
            single_balanced == even_count(string@.subrange(0, i as int), '\''),
            double_balanced == even_count(string@.subrange(0, i as int), '"'),
        decreases n - i,
    {
        let c = string.get_char(i);
        assert(string@.subrange(0, i + 1).drop_last() =~= string@.subrange(0, i as int));
        if c == '\'' {
            single_balanced = !single_balanced;
        } else if c == '"' {
            double_balanced = !double_balanced;
        }
        i = i + 1;
    }
    assert(string@.subrange(0, n as int) =~= string@);
    double_balanced && single_balanced
}

/// The words of a line: split as a shell would, with one more, empty word
/// where the line ends in a space and its quotes are paired.
pub open spec fn flat_lex(s: Seq<char>) -> Option<Seq<Seq<char>>> {
    match shell_words(s) {
        None => None,
        Some(w) => Some(
            if s.len() > 0 && s.last() == ' ' && even_count(s, '\'') && even_count(s, '"') {
                w.push(Seq::<char>::empty())
            } else {
                w
            },
        ),
    }
}

/// Splits a command line into words; fails where it cannot be split.
pub fn parse_words(command: &str) -> (r: Result<Vec<String>, CommandParseError>)
    ensures
        r matches Ok(w) ==> flat_lex(command@) == Some(words_view(w@)),
        r matches Err(e) ==> flat_lex(command@) is None && e == CommandParseError::UnparseableCommand,
{
    let new_word_started = match last_char(command) {
        Some(c) => c == ' ',
        None => false,
    } && quotes_balanced(command);
    match shell_split(command) {
        None => Err(CommandParseError::UnparseableCommand),
        Some(mut words) => {
            let ghost before = words@;
            if new_word_started {
                words.push(String::new());
                proof {
                    assert(words_view(words@) =~= words_view(before).push(Seq::<char>::empty()));
                }
            }
            Ok(words)
        },
    }
}

/// A command whose keyword and positional arguments share one type.
pub struct Command {
    /// A brief overview of the command
    pub description: String,
    /// Any top-level arguments, including subcommands.
    pub keyword_arguments: Vec<Argument>,
    /// Any top-level arguments which are positional, i.e. passed by position as opposed to by
    /// flag.
    pub positional_arguments: Vec<Argument>,
    /// Whether the top-level arguments above are valid anywhere in the command or must appear
    /// before any subcommands.
    pub arguments_valid_anywhere: bool,
}

/// A word of a command line, classified against a command's arguments.
#[derive(Debug)]
pub enum Token {
    /// An argument and its value; `positional` tells which list `argument` indexes.
    PopulatedArgument { argument: usize, value: String, positional: bool },
    /// A word that is neither a keyword argument nor a positional value.
    PartialKeywordArgument(String),
}

/// What a classified word stands for.
pub enum TokenView {
    Populated(int, Seq<char>, bool),
    Partial(Seq<char>),
}

impl View for Token {
    type V = TokenView;

    open spec fn view(&self) -> TokenView {
        match self {
            Token::PopulatedArgument { argument, value, positional } => TokenView::Populated(
                *argument as int,
                value@,
                *positional,
            ),
            Token::PartialKeywordArgument(s) => TokenView::Partial(s@),
        }
    }
}

pub open spec fn tokens_view(v: Seq<Token>) -> Seq<TokenView> {
    v.map_values(|t: Token| t@)
}

/// The index of the first of the first `n` arguments named `name`.
pub open spec fn find_argument(args: Seq<Argument>, name: Seq<char>, n: int) -> Option<int>
    decreases n,
{
    if n <= 0 {
        None
    } else {
        match find_argument(args, name, n - 1) {
            Some(k) => Some(k),
            None => if args[n - 1].name@ == name {
                Some(n - 1)
            } else {
                None
            },
        }
    }
}

/// A classification that follows the tokens `p`.
pub open spec fn after(p: Seq<TokenView>, r: Result<Seq<TokenView>, Seq<char>>) -> Result<
    Seq<TokenView>,
    Seq<char>,
> {
    match r {
        Ok(rest) => Ok(p + rest),
        Err(w) => Err(w),
    }
}

/// The candidates for a value of type `arg_type` typed as `value`, where
/// `paths` are the filesystem paths that start with it.
pub open spec fn value_completions(arg_type: ArgumentType, value: Seq<char>, paths: Seq<Seq<char>>) -> Seq<Seq<char>> {
    match arg_type {
        ArgumentType::Path => paths,
        ArgumentType::Enumeration(values) => prefix_matches(words_view(values@), value),
        _ => Seq::empty(),
    }
}

proof fn lemma_find_argument_stable(args: Seq<Argument>, name: Seq<char>, j: int, n: int)
    requires
        j <= n,
        find_argument(args, name, j) is Some,
    ensures
        find_argument(args, name, n) == find_argument(args, name, j),
    decreases n - j,
{
    if j < n {
        lemma_find_argument_stable(args, name, j, n - 1);
    }
}

proof fn lemma_after_push(p: Seq<TokenView>, t: TokenView, r: Result<Seq<TokenView>, Seq<char>>)
    ensures
        after(p, after(seq![t], r)) == after(p.push(t), r),
{
    if let Ok(rest) = r {
        assert(p + (seq![t] + rest) =~= p.push(t) + rest);
    }
}

/// Values of type `arg_type` that start with `value`, where `paths` are the
/// filesystem paths that start with it.
fn value_candidates(arg_type: &ArgumentType, value: &str, paths: Vec<String>) -> (r: Vec<String>)
    ensures
        words_view(r@) == value_completions(*arg_type, value@, words_view(paths@)),
{
    match arg_type {
        ArgumentType::Path => paths,
        ArgumentType::Enumeration(values) => {
            let ghost vs = words_view(values@);
            let mut r: Vec<String> = Vec::new();
            let mut i: usize = 0;
            while i < values.len()
                invariant
                    i <= values@.len(),
                    vs == words_view(values@),
                    words_view(r@) == prefix_matches(vs.subrange(0, i as int), value@),
                decreases values@.len() - i,
            {
                proof {
                    assert(vs.subrange(0, i + 1).drop_last() =~= vs.subrange(0, i as int));
                }
                if starts_with(values[i].as_str(), value) {
                    let ghost before = r@;
                    r.push(values[i].clone());
                    proof {
                        assert(words_view(r@) =~= words_view(before).push(values@[i as int]@));
                    }
                }
                i = i + 1;
            }
            proof {
                assert(vs.subrange(0, values@.len() as int) =~= vs);
            }
            r
        },
        _ => {
            proof {
                assert(words_view(Seq::<String>::empty()) =~= Seq::<Seq<char>>::empty());
            }
            Vec::new()
        },
    }
}

impl Command {
    /// The argument of a token: a keyword or a positional one, by its mark.
    pub open spec fn token_argument(&self, k: int, positional: bool) -> Option<Argument> {
        let args = if positional {
            self.positional_arguments@
        } else {
            self.keyword_arguments@
        };
        if 0 <= k < args.len() {
            Some(args[k])
        } else {
            None
        }
    }

    /// Classifies `words`, with `pos` positional arguments already filled:
    /// the tokens, or the keyword argument left without a value.
    pub open spec fn classify_rest(&self, words: Seq<Seq<char>>, pos: int) -> Result<
        Seq<TokenView>,
        Seq<char>,
    >
        decreases words.len(),
    {
        if words.len() == 0 {
            Ok(Seq::empty())
        } else {
            let w = words[0];
            match find_argument(self.keyword_arguments@, w, self.keyword_arguments@.len() as int) {
                Some(k) => if self.keyword_arguments@[k].arg_type is Flag {
                    self.classify_rest(words.drop_first(), pos)
                } else if words.len() < 2 {
                    Err(w)
                } else {
                    after(
                        seq![TokenView::Populated(k, words[1], false)],
                        self.classify_rest(words.subrange(2, words.len() as int), pos),
                    )
                },
                None => if pos < self.positional_arguments@.len() {
                    after(
                        seq![TokenView::Populated(pos, w, true)],
                        self.classify_rest(words.drop_first(), pos + 1),
                    )
                } else {
                    after(seq![TokenView::Partial(w)], self.classify_rest(words.drop_first(), pos))
                },
            }
        }
    }

    /// Classifies the words of a line; its first word, the program's name, is skipped.
    pub open spec fn classify(&self, words: Seq<Seq<char>>) -> Result<Seq<TokenView>, Seq<char>> {
        if words.len() == 0 {
            Ok(Seq::empty())
        } else {
            self.classify_rest(words.drop_first(), 0)
        }
    }

    /// The token `t` gives a value to an argument called `name`.
    pub open spec fn names_argument(&self, t: TokenView, name: Seq<char>) -> bool {
        match t {
            TokenView::Populated(k, _, positional) => match self.token_argument(k, positional) {
                Some(a) => a.name@ == name,
                None => false,
            },
            _ => false,
        }
    }

    /// An argument called `name` has already been given a value in `tokens`.
    pub open spec fn consumed(&self, tokens: Seq<TokenView>, name: Seq<char>) -> bool {
        exists|i: int| 0 <= i < tokens.len() && #[trigger] self.names_argument(tokens[i], name)
    }

    /// The names of the first `n` keyword arguments that start with `query`
    /// and are repeatable or not yet used.
    pub open spec fn valid_keywords_upto(&self, tokens: Seq<TokenView>, query: Seq<char>, n: int) -> Seq<Seq<char>>
        decreases n,
    {
        if n <= 0 {
            Seq::empty()
        } else {
            let prev = self.valid_keywords_upto(tokens, query, n - 1);
            let arg = self.keyword_arguments@[n - 1];
            if is_prefix(query, arg.name@) && (arg.repeatable || !self.consumed(tokens, arg.name@)) {
                prev.push(arg.name@)
            } else {
                prev
            }
        }
    }

    /// The names of the keyword arguments offered for `query`, in declaration order.
    pub open spec fn valid_keywords(&self, tokens: Seq<TokenView>, query: Seq<char>) -> Seq<Seq<char>> {
        self.valid_keywords_upto(tokens, query, self.keyword_arguments@.len() as int)
    }

    /// The candidates after the classified tokens `tokens` of a line, where
    /// `paths` are the filesystem paths that start with the value being typed.
    pub open spec fn completions(&self, tokens: Seq<TokenView>, paths: Seq<Seq<char>>) -> Seq<Seq<char>> {
        let ps = self.positional_arguments@;
        if tokens.len() == 0 {
            self.valid_keywords(tokens, Seq::empty()) + if ps.len() > 0 {
                value_completions(ps[0].arg_type, Seq::empty(), paths)
            } else {
                Seq::empty()
            }
        } else {
            match tokens.last() {
                TokenView::Populated(k, v, positional) => (if positional {
                    self.valid_keywords(tokens, v)
                } else {
                    Seq::empty()
                }) + match self.token_argument(k, positional) {
                    Some(a) => value_completions(a.arg_type, v, paths),
                    None => Seq::empty(),
                },
                TokenView::Partial(s) => self.valid_keywords(tokens, s),
            }
        }
    }

    /// The partial path to list the filesystem for, where the candidates after
    /// `tokens` include paths.
    pub open spec fn path_query(&self, tokens: Seq<TokenView>) -> Option<Seq<char>> {
        let ps = self.positional_arguments@;
        if tokens.len() == 0 {
            if ps.len() > 0 && ps[0].arg_type is Path {
                Some(Seq::empty())
            } else {
                None
            }
        } else {
            match tokens.last() {
                TokenView::Populated(k, v, positional) => match self.token_argument(k, positional) {
                    Some(a) => if a.arg_type is Path {
                        Some(v)
                    } else {
                        None
                    },
                    None => None,
                },
                TokenView::Partial(_) => None,
            }
        }
    }

    /// What completing the words `words` of a line may give: exact but for the
    /// filesystem listing of a path completion.
    pub open spec fn word_outcome(&self, words: Seq<Seq<char>>, r: Result<Vec<String>, CommandParseError>) -> bool {
        if words.len() == 0 {
            r matches Ok(v) && v@.len() == 0
        } else {
            match self.classify(words) {
                Err(w) => r matches Err(e) && e matches CommandParseError::ArgumentMissingValue(n) && n@ == w,
                Ok(tokens) => match self.path_query(tokens) {
                    None => r matches Ok(v) && words_view(v@) == self.completions(tokens, Seq::empty()),
                    Some(_) => match r {
                        Ok(v) => exists|paths: Seq<Seq<char>>| words_view(v@) == self.completions(tokens, paths),
                        Err(e) => e == CommandParseError::PathCompletionFailure,
                    },
                },
            }
        }
    }
}

impl Command {
    /// The keyword argument named exactly `word`.
    fn find_keyword_argument(&self, word: &String) -> (r: Option<usize>)
        ensures
            r matches Some(k) ==> find_argument(
                self.keyword_arguments@,
                word@,
                self.keyword_arguments@.len() as int,
            ) == Some(k as int) && k < self.keyword_arguments@.len(),
            r is None ==> find_argument(
                self.keyword_arguments@,
                word@,
                self.keyword_arguments@.len() as int,
            ) is None,
    {
        let n = self.keyword_arguments.len();
        let mut k: usize = 0;
        while k < n
            invariant
                k <= n,
                n == self.keyword_arguments@.len(),
                find_argument(self.keyword_arguments@, word@, k as int) is None,
            decreases n - k,
        {
            if self.keyword_arguments[k].name == *word {
                proof {
                    lemma_find_argument_stable(self.keyword_arguments@, word@, k + 1, n as int);
                }
                return Some(k);
            }
            k = k + 1;
        }
        None
    }

    /// Classifies the words of a line against this command's arguments,
    /// skipping the first word. Fails with the keyword argument that is left
    /// without a value.
    pub fn classify_words(&self, words: &Vec<String>) -> (r: Result<Vec<Token>, CommandParseError>)
        ensures
            r matches Ok(t) ==> self.classify(words_view(words@)) == Ok::<
                Seq<TokenView>,
                Seq<char>,
            >(tokens_view(t@)),
            r matches Err(e) ==> e matches CommandParseError::ArgumentMissingValue(n)
                && self.classify(words_view(words@)) == Err::<Seq<TokenView>, Seq<char>>(n@),
    {
        let ghost ws = words_view(words@);
        let n = words.len();
        let mut tokens: Vec<Token> = Vec::new();
        if n == 0 {
            proof {
                assert(tokens_view(tokens@) =~= Seq::<TokenView>::empty());
            }
            return Ok(tokens);
        }
        let mut i: usize = 1;
        let mut pos: usize = 0;
        proof {
            assert(ws.drop_first() =~= ws.subrange(1, n as int));
            if let Ok(x) = self.classify_rest(ws.subrange(1, n as int), 0) {
                assert(tokens_view(tokens@) + x =~= x);
            }
        }
        while i < n
            invariant
                1 <= i <= n,
                n == words@.len(),
                ws == words_view(words@),
                pos <= self.positional_arguments@.len(),
                self.classify(ws) == after(
                    tokens_view(tokens@),
                    self.classify_rest(ws.subrange(i as int, n as int), pos as int),
                ),
            decreases n - i,
        {
            let ghost rest = ws.subrange(i as int, n as int);
            let ghost before = tokens_view(tokens@);
            proof {
                assert(rest[0] == words@[i as int]@);
                assert(rest.drop_first() =~= ws.subrange(i + 1, n as int));
            }
            let word = &words[i];
            match self.find_keyword_argument(word) {
                Some(k) => {
                    if matches!(self.keyword_arguments[k].arg_type, ArgumentType::Flag) {
                        i = i + 1;
                    } else if i + 1 >= n {
                        return Err(CommandParseError::ArgumentMissingValue(word.clone()));
                    } else {
                        let value = words[i + 1].clone();
                        proof {
                            assert(rest[1] == value@);
                            assert(rest.subrange(2, rest.len() as int) =~= ws.subrange(
                                i + 2,
                                n as int,
                            ));
                        }
                        let t = Token::PopulatedArgument { argument: k, value, positional: false };
                        tokens.push(t);
                        proof {
                            assert(tokens_view(tokens@) =~= before.push(t@));
                            lemma_after_push(
                                before,
                                t@,
                                self.classify_rest(ws.subrange(i + 2, n as int), pos as int),
                            );
                        }
                        i = i + 2;
                    }
                },
                None => {
                    let t = if pos < self.positional_arguments.len() {
                        let t = Token::PopulatedArgument {
                            argument: pos,
                            value: word.clone(),
                            positional: true,
                        };
                        pos = pos + 1;
                        t
                    } else {
                        Token::PartialKeywordArgument(word.clone())
                    };
                    tokens.push(t);
                    proof {
                        assert(tokens_view(tokens@) =~= before.push(t@));
                        lemma_after_push(
                            before,
                            t@,
                            self.classify_rest(ws.subrange(i + 1, n as int), pos as int),
                        );
                    }
                    i = i + 1;
                },
            }
        }
        proof {
            assert(tokens_view(tokens@) + Seq::<TokenView>::empty() =~= tokens_view(tokens@));
        }
        Ok(tokens)
    }

    /// The argument of a token, where its index is in range.
    fn argument_of(&self, argument: usize, positional: bool) -> (r: Option<&Argument>)
        ensures
            r matches Some(a) ==> self.token_argument(argument as int, positional) == Some(*a),
            r is None ==> self.token_argument(argument as int, positional) is None,
    {
        if positional {
            if argument < self.positional_arguments.len() {
                Some(&self.positional_arguments[argument])
            } else {
                None
            }
        } else if argument < self.keyword_arguments.len() {
            Some(&self.keyword_arguments[argument])
        } else {
            None
        }
    }

    /// Whether an argument called `name` has a value among `tokens`.
    fn is_consumed(&self, tokens: &Vec<Token>, name: &String) -> (r: bool)
        ensures
            r == self.consumed(tokens_view(tokens@), name@),
    {
        let ghost tv = tokens_view(tokens@);
        let mut i: usize = 0;
        while i < tokens.len()
            invariant
                i <= tokens@.len(),
                tv == tokens_view(tokens@),
                forall|j: int| 0 <= j < i ==> !#[trigger] self.names_argument(tv[j], name@),
            decreases tokens@.len() - i,
        {
            assert(tv[i as int] == tokens@[i as int]@);
            if let Token::PopulatedArgument { argument, value: _, positional } = &tokens[i] {
                if let Some(a) = self.argument_of(*argument, *positional) {
                    if a.name == *name {
                        assert(self.names_argument(tv[i as int], name@));
                        return true;
                    }
                }
            }
            i = i + 1;
        }
        false
    }

    /// The names of the keyword arguments that start with `query` and are
    /// repeatable or not yet given a value in `tokens`, in declaration order.
    pub fn get_valid_keyword_arguments(&self, tokens: &Vec<Token>, query: &str) -> (r: Vec<String>)
        ensures
            words_view(r@) == self.valid_keywords(tokens_view(tokens@), query@),
    {
        let mut r: Vec<String> = Vec::new();
        let mut i: usize = 0;
        proof {
            assert(words_view(r@) =~= Seq::<Seq<char>>::empty());
        }
        while i < self.keyword_arguments.len()
            invariant
                i <= self.keyword_arguments@.len(),
                words_view(r@) == self.valid_keywords_upto(tokens_view(tokens@), query@, i as int),
            decreases self.keyword_arguments@.len() - i,
        {
            let arg = &self.keyword_arguments[i];
            if starts_with(arg.name.as_str(), query) && (arg.repeatable || !self.is_consumed(tokens, &arg.name)) {
                let ghost before = r@;
                r.push(arg.name.clone());
                proof {
                    assert(words_view(r@) =~= words_view(before).push(arg.name@));
                }
            }
            i = i + 1;
        }
        r
    }

    /// The partial path to list the filesystem for, where the candidates after
    /// `tokens` include paths.
    fn pending_path_query(&self, tokens: &Vec<Token>) -> (r: Option<String>)
        ensures
            r matches Some(q) ==> self.path_query(tokens_view(tokens@)) == Some(q@),
            r is None ==> self.path_query(tokens_view(tokens@)) is None,
    {
        let n = tokens.len();
        if n == 0 {
            if self.positional_arguments.len() > 0 && matches!(self.positional_arguments[0].arg_type, ArgumentType::Path) {
                return Some(String::new());
            }
            return None;
        }
        assert(tokens_view(tokens@).last() == tokens@[n - 1]@);
        match &tokens[n - 1] {
            Token::PopulatedArgument { argument, value, positional } => {
                match self.argument_of(*argument, *positional) {
                    Some(a) => if matches!(a.arg_type, ArgumentType::Path) {
                        Some(value.clone())
                    } else {
                        None
                    },
                    None => None,
                }
            },
            Token::PartialKeywordArgument(_) => None,
        }
    }

    /// The candidates after the classified tokens `tokens` of a line, where
    /// `paths` are the filesystem paths that start with the value being typed.
    pub fn complete_tokens(&self, tokens: &Vec<Token>, paths: Vec<String>) -> (r: Vec<String>)
        ensures
            words_view(r@) == self.completions(tokens_view(tokens@), words_view(paths@)),
    {
        let ghost tv = tokens_view(tokens@);
        let n = tokens.len();
        if n == 0 {
            let mut r = self.get_valid_keyword_arguments(tokens, "");
            proof {
                reveal_strlit("");
                assert(""@ =~= Seq::<char>::empty());
            }
            if self.positional_arguments.len() > 0 {
                let mut more = value_candidates(&self.positional_arguments[0].arg_type, "", paths);
                let ghost before = r@;
                let ghost extra = more@;
                r.append(&mut more);
                proof {
                    assert(words_view(r@) =~= words_view(before) + words_view(extra));
                }
            } else {
                proof {
                    assert(words_view(r@) =~= words_view(r@) + Seq::<Seq<char>>::empty());
                }
            }
            return r;
        }
        assert(tv.last() == tokens@[n - 1]@);
        match &tokens[n - 1] {
            Token::PopulatedArgument { argument, value, positional } => {
                let mut r = if *positional {
                    self.get_valid_keyword_arguments(tokens, value.as_str())
                } else {
                    Vec::new()
                };
                let ghost before = r@;
                proof {
                    assert(!*positional ==> words_view(before) =~= Seq::<Seq<char>>::empty());
                }
                match self.argument_of(*argument, *positional) {
                    Some(a) => {
                        let mut more = value_candidates(&a.arg_type, value.as_str(), paths);
                        let ghost extra = more@;
                        r.append(&mut more);
                        proof {
                            assert(words_view(r@) =~= words_view(before) + words_view(extra));
                        }
                    },
                    None => {
                        proof {
                            assert(words_view(r@) =~= words_view(before) + Seq::<Seq<char>>::empty());
                        }
                    },
                }
                r
            },
            Token::PartialKeywordArgument(partial) => self.get_valid_keyword_arguments(tokens, partial.as_str()),
        }
    }

    /// The candidates after the words `words` of a line, the first of which
    /// names the program.
    pub fn complete_words(&self, words: &Vec<String>) -> (r: Result<Vec<String>, CommandParseError>)
        ensures
            self.word_outcome(words_view(words@), r),
    {
        if words.len() == 0 {
            return Ok(Vec::new());
        }
        let tokens = self.classify_words(words)?;
        let paths = match self.pending_path_query(&tokens) {
            Some(query) => get_path_completions(query.as_str())?,
            None => Vec::new(),
        };
        let r = self.complete_tokens(&tokens, paths);
        proof {
            assert(words_view(Seq::<String>::empty()) =~= Seq::<Seq<char>>::empty());
        }
        Ok(r)
    }

    /// The candidates that may follow the part of `command` before
    /// `cursor_position`, a byte offset.
    pub fn generate_completions(&self, command: &str, cursor_position: usize) -> (r: Result<
        Vec<String>,
        CommandParseError,
    >)
        requires
            command.spec_bytes().len() <= usize::MAX,
            cursor_position <= command.spec_bytes().len() ==> is_char_boundary(
                command.spec_bytes(),
                cursor_position as int,
            ),
        ensures
            cursor_position > command.spec_bytes().len() ==> r == Err::<Vec<String>, CommandParseError>(
                CommandParseError::CursorOutOfRange(cursor_position),
            ),
            cursor_position <= command.spec_bytes().len() ==> match flat_lex(
                decode_utf8(command.spec_bytes().subrange(0, cursor_position as int)),
            ) {
                None => r == Err::<Vec<String>, CommandParseError>(
                    CommandParseError::UnparseableCommand,
                ),
                Some(words) => self.word_outcome(words, r),
            },
    {
        if cursor_position > command.len() {
            return Err(CommandParseError::CursorOutOfRange(cursor_position));
        }
        let (typed, _) = command.split_at(cursor_position);
        proof {
            encode_utf8_decode_utf8(typed@);
        }
        let words = parse_words(typed)?;
        self.complete_words(&words)
    }
}

} // verus!
