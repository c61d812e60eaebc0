use vstd::prelude::*;
use vstd::string::StringSliceAdditionalSpecFns;
use vstd::utf8::{decode_utf8, encode_utf8_decode_utf8, is_char_boundary};

use crate::argument::{KeywordArgument, PositionalArgument, ValueType};
use crate::error::CommandParseError;
use crate::lexer::{lex, parse_words, words_view};
use crate::text::{is_prefix, starts_with, strip_dashes, trim_dashes};

verus! {

/// The declared arguments of one command.
pub struct Command {
    /// A brief overview of the command
    pub description: String,
    /// Arguments passed by name. Names are expected to be unique.
    pub keyword_arguments: Vec<KeywordArgument>,
    /// Arguments passed by position, in the order in which they are filled.
    pub positional_arguments: Vec<PositionalArgument>,
}

/// A word of a command line, classified against a command's arguments.
/// Arguments are referred to by their index in the command.
#[derive(Debug)]
pub enum Token {
    /// A keyword argument that takes a value, and that value.
    PopulatedKeywordArgument { argument: usize, value: String },
    /// A word bound to the next unfilled positional argument.
    PopulatedPositionalArgument { argument: usize, value: String },
    /// A word that is neither a keyword argument nor a positional value:
    /// taken as a keyword argument being typed, its leading dashes removed.
    PartialKeywordArgument(String),
}

/// What a classified word stands for.
pub enum TokenView {
    Keyword(int, Seq<char>),
    Positional(int, Seq<char>),
    Partial(Seq<char>),
}

impl View for Token {
    type V = TokenView;

    open spec fn view(&self) -> TokenView {
        match self {
            Token::PopulatedKeywordArgument { argument, value } => TokenView::Keyword(
                *argument as int,
                value@,
            ),
            Token::PopulatedPositionalArgument { argument, value } => TokenView::Positional(
                *argument as int,
                value@,
            ),
            Token::PartialKeywordArgument(s) => TokenView::Partial(s@),
        }
    }
}

pub open spec fn tokens_view(v: Seq<Token>) -> Seq<TokenView> {
    v.map_values(|t: Token| t@)
}

/// The index of the first of the first `n` keyword arguments named `name`.
pub open spec fn find_keyword(args: Seq<KeywordArgument>, name: Seq<char>, n: int) -> Option<int>
    decreases n,
{
    if n <= 0 {
        None
    } else {
        match find_keyword(args, name, n - 1) {
            Some(k) => Some(k),
            None => if args[n - 1].name@ == name {
                Some(n - 1)
            } else {
                None
            },
        }
    }
}

/// A classification that follows the tokens `p`.
pub open spec fn after(p: Seq<TokenView>, r: Result<Seq<TokenView>, Seq<char>>) -> Result<
    Seq<TokenView>,
    Seq<char>,
> {
    match r {
        Ok(rest) => Ok(p + rest),
        Err(w) => Err(w),
    }
}

proof fn lemma_find_keyword_stable(args: Seq<KeywordArgument>, name: Seq<char>, j: int, n: int)
    requires
        j <= n,
        find_keyword(args, name, j) is Some,
    ensures
        find_keyword(args, name, n) == find_keyword(args, name, j),
    decreases n - j,
{
    if j < n {
        lemma_find_keyword_stable(args, name, j, n - 1);
    }
}

proof fn lemma_after_push(p: Seq<TokenView>, t: TokenView, r: Result<Seq<TokenView>, Seq<char>>)
    ensures
        after(p, after(seq![t], r)) == after(p.push(t), r),
{
    if let Ok(rest) = r {
        assert(p + (seq![t] + rest) =~= p.push(t) + rest);
    }
}

impl Command {
    /// The keyword argument that a word names, its dashes aside.
    pub open spec fn keyword_index(&self, word: Seq<char>) -> Option<int> {
        find_keyword(self.keyword_arguments@, strip_dashes(word), self.keyword_arguments@.len() as int)
    }

    /// Classifies `words`, with `pos` positional arguments already filled:
    /// the tokens, or the keyword argument left without a value.
    pub open spec fn classify_rest(&self, words: Seq<Seq<char>>, pos: int) -> Result<
        Seq<TokenView>,
        Seq<char>,
    >
        decreases words.len(),
    {
        if words.len() == 0 {
            Ok(Seq::empty())
        } else {
            let w = words[0];
            match self.keyword_index(w) {
                Some(k) => if self.keyword_arguments@[k].value_type is Flag {
                    self.classify_rest(words.drop_first(), pos)
                } else if words.len() < 2 {
                    Err(w)
                } else {
                    after(
                        seq![TokenView::Keyword(k, words[1])],
                        self.classify_rest(words.subrange(2, words.len() as int), pos),
                    )
                },
                None => if pos < self.positional_arguments@.len() {
                    after(
                        seq![TokenView::Positional(pos, w)],
                        self.classify_rest(words.drop_first(), pos + 1),
                    )
                } else {
                    after(
                        seq![TokenView::Partial(strip_dashes(w))],
                        self.classify_rest(words.drop_first(), pos),
                    )
                },
            }
        }
    }

    /// Classifies the words of a line; its first word, the program's name, is skipped.
    pub open spec fn classify(&self, words: Seq<Seq<char>>) -> Result<Seq<TokenView>, Seq<char>> {
        if words.len() == 0 {
            Ok(Seq::empty())
        } else {
            self.classify_rest(words.drop_first(), 0)
        }
    }

    /// The keyword argument named `word`, its dashes aside.
    fn find_keyword_argument(&self, word: &str) -> (r: Option<usize>)
        ensures
            r matches Some(k) ==> self.keyword_index(word@) == Some(k as int) && k
                < self.keyword_arguments@.len(),
            r is None ==> self.keyword_index(word@) is None,
    {
        let name = trim_dashes(word);
        let n = self.keyword_arguments.len();
        let mut k: usize = 0;
        while k < n
            invariant
                k <= n,
                n == self.keyword_arguments@.len(),
                name@ == strip_dashes(word@),
                find_keyword(self.keyword_arguments@, name@, k as int) is None,
            decreases n - k,
        {
            if self.keyword_arguments[k].name == name {
                proof {
                    lemma_find_keyword_stable(self.keyword_arguments@, name@, k + 1, n as int);
                }
                return Some(k);
            }
            k = k + 1;
        }
        None
    }

    /// Classifies the words of a line against this command's arguments,
    /// skipping the first word. Fails with the keyword argument that is left
    /// without a value.
    pub fn classify_words(&self, words: &Vec<String>) -> (r: Result<Vec<Token>, CommandParseError>)
        ensures
            r matches Ok(t) ==> self.classify(words_view(words@)) == Ok::<
                Seq<TokenView>,
                Seq<char>,
            >(tokens_view(t@)),
            r matches Err(e) ==> e matches CommandParseError::ArgumentMissingValue(n)
                && self.classify(words_view(words@)) == Err::<Seq<TokenView>, Seq<char>>(n@),
    {
        let ghost ws = words_view(words@);
        let n = words.len();
        let mut tokens: Vec<Token> = Vec::new();
        if n == 0 {
            proof {
                assert(tokens_view(tokens@) =~= Seq::<TokenView>::empty());
            }
            return Ok(tokens);
        }
        let mut i: usize = 1;
        let mut pos: usize = 0;
        proof {
            assert(ws.drop_first() =~= ws.subrange(1, n as int));
            assert(tokens_view(tokens@) + Seq::<TokenView>::empty() =~= Seq::<TokenView>::empty());
            if let Ok(x) = self.classify_rest(ws.subrange(1, n as int), 0) {
                assert(tokens_view(tokens@) + x =~= x);
            }
        }
        while i < n
            invariant
                1 <= i <= n,
                n == words@.len(),
                ws == words_view(words@),
                pos <= self.positional_arguments@.len(),
                self.classify(ws) == after(
                    tokens_view(tokens@),
                    self.classify_rest(ws.subrange(i as int, n as int), pos as int),
                ),
            decreases n - i,
        {
            let ghost rest = ws.subrange(i as int, n as int);
            let ghost before = tokens_view(tokens@);
            proof {
                assert(rest[0] == words@[i as int]@);
                assert(rest.drop_first() =~= ws.subrange(i + 1, n as int));
            }
            let word = &words[i];
            match self.find_keyword_argument(word.as_str()) {
                Some(k) => {
                    if matches!(self.keyword_arguments[k].value_type, ValueType::Flag) {
                        i = i + 1;
                    } else if i + 1 >= n {
                        return Err(CommandParseError::ArgumentMissingValue(word.clone()));
                    } else {
                        let value = words[i + 1].clone();
                        proof {
                            assert(rest[1] == value@);
                            assert(rest.subrange(2, rest.len() as int) =~= ws.subrange(
                                i + 2,
                                n as int,
                            ));
                        }
                        let t = Token::PopulatedKeywordArgument { argument: k, value };
                        tokens.push(t);
                        proof {
                            assert(tokens_view(tokens@) =~= before.push(t@));
                            lemma_after_push(
                                before,
                                t@,
                                self.classify_rest(ws.subrange(i + 2, n as int), pos as int),
                            );
                        }
                        i = i + 2;
                    }
                },
                None => {
                    let t = if pos < self.positional_arguments.len() {
                        let t = Token::PopulatedPositionalArgument {
                            argument: pos,
                            value: word.clone(),
                        };
                        pos = pos + 1;
                        t
                    } else {
                        Token::PartialKeywordArgument(trim_dashes(word.as_str()))
                    };
                    tokens.push(t);
                    proof {
                        assert(tokens_view(tokens@) =~= before.push(t@));
                        lemma_after_push(
                            before,
                            t@,
                            self.classify_rest(ws.subrange(i + 1, n as int), pos as int),
                        );
                    }
                    i = i + 1;
                },
            }
        }
        proof {
            assert(tokens_view(tokens@) + Seq::<TokenView>::empty() =~= tokens_view(tokens@));
        }
        Ok(tokens)
    }
}

/// The values among `values` that start with `query`, in order.
pub open spec fn prefix_matches(values: Seq<Seq<char>>, query: Seq<char>) -> Seq<Seq<char>>
    decreases values.len(),
{
    if values.len() == 0 {
        Seq::empty()
    } else {
        let prev = prefix_matches(values.drop_last(), query);
        if is_prefix(query, values.last()) {
            prev.push(values.last())
        } else {
            prev
        }
    }
}

/// The candidates for a value of type `value_type` typed as `value`, where
/// `paths` are the filesystem paths that start with it.
pub open spec fn value_completions(value_type: ValueType, value: Seq<char>, paths: Seq<Seq<char>>) -> Seq<Seq<char>> {
    match value_type {
        ValueType::Path => paths,
        ValueType::Enumeration(values) => prefix_matches(words_view(values@), value),
        _ => Seq::empty(),
    }
}

/// The line typed before the cursor, which is a byte offset.
pub open spec fn typed_prefix(line: &str, cursor: usize) -> Seq<char> {
    decode_utf8(line.spec_bytes().subrange(0, cursor as int))
}

/// Relies on glob::glob and the `Paths` it returns: lists the paths that match
/// a pattern, each as a lossily converted string. What it lists depends on the
/// filesystem.
#[verifier::external_body]
fn glob_paths(pattern: &str) -> (r: Result<Result<Vec<String>, glob::GlobError>, glob::PatternError>)
{
    glob::glob(pattern).map(
        |paths| paths.map(|p| p.map(|p| p.to_string_lossy().to_string())).collect(),
    )
}

#[verifier::external_type_specification]
#[verifier::external_body]
pub struct ExGlobError(glob::GlobError);

#[verifier::external_type_specification]
#[verifier::external_body]
pub struct ExPatternError(glob::PatternError);

/// Values of type `value_type` that start with `value`, where `paths` are the
/// filesystem paths that start with it.
fn value_candidates(value_type: &ValueType, value: &str, paths: Vec<String>) -> (r: Vec<String>)
    ensures
        words_view(r@) == value_completions(*value_type, value@, words_view(paths@)),
{
    match value_type {
        ValueType::Path => paths,
        ValueType::Enumeration(values) => {
            let ghost vs = words_view(values@);
            let mut r: Vec<String> = Vec::new();
            let mut i: usize = 0;
            while i < values.len()
                invariant
                    i <= values@.len(),
                    vs == words_view(values@),
                    words_view(r@) == prefix_matches(vs.subrange(0, i as int), value@),
                decreases values@.len() - i,
            {
                proof {
                    assert(vs.subrange(0, i + 1).drop_last() =~= vs.subrange(0, i as int));
                }
                if starts_with(values[i].as_str(), value) {
                    let ghost before = r@;
                    r.push(values[i].clone());
                    proof {
                        assert(words_view(r@) =~= words_view(before).push(values@[i as int]@));
                    }
                }
                i = i + 1;
            }
            proof {
                assert(vs.subrange(0, values@.len() as int) =~= vs);
            }
            r
        },
        _ => {
            proof {
                assert(words_view(Seq::<String>::empty()) =~= Seq::<Seq<char>>::empty());
            }
            Vec::new()
        },
    }
}

/// The filesystem paths, relative to the working directory, that start with `partial_path`.
pub(crate) fn get_path_completions(partial_path: &str) -> (r: Result<Vec<String>, CommandParseError>)
    ensures
        r matches Err(e) ==> e == CommandParseError::PathCompletionFailure,
{
    proof {
        reveal_strlit("./");
        reveal_strlit("*");
    }
    let mut pattern = String::from_str("./");
    pattern.append(partial_path);
    pattern.append("*");
    match glob_paths(pattern.as_str()) {
        Ok(Ok(paths)) => Ok(paths),
        _ => Err(CommandParseError::PathCompletionFailure),
    }
}

impl Command {
    /// The token `t` names a keyword argument called `name`.
    pub open spec fn names_keyword(&self, t: TokenView, name: Seq<char>) -> bool {
        match t {
            TokenView::Keyword(k, _) => 0 <= k < self.keyword_arguments@.len()
                && self.keyword_arguments@[k].name@ == name,
            _ => false,
        }
    }

    /// A keyword argument called `name` has already been given a value in `tokens`.
    pub open spec fn consumed(&self, tokens: Seq<TokenView>, name: Seq<char>) -> bool {
        exists|i: int| 0 <= i < tokens.len() && #[trigger] self.names_keyword(tokens[i], name)
    }

    /// `arg` is offered for `query`: its name starts with the query, and it is
    /// repeatable or not yet used.
    pub open spec fn offered(&self, tokens: Seq<TokenView>, query: Seq<char>, arg: KeywordArgument) -> bool {
        is_prefix(query, arg.name@) && (arg.repeatable || !self.consumed(tokens, arg.name@))
    }

    /// The display names of the first `n` keyword arguments that are offered for `query`.
    pub open spec fn valid_keywords_upto(&self, tokens: Seq<TokenView>, query: Seq<char>, n: int) -> Seq<Seq<char>>
        decreases n,
    {
        if n <= 0 {
            Seq::empty()
        } else {
            let prev = self.valid_keywords_upto(tokens, query, n - 1);
            let arg = self.keyword_arguments@[n - 1];
            if self.offered(tokens, query, arg) {
                prev.push(arg.display_name())
            } else {
                prev
            }
        }
    }

    /// The display names of the keyword arguments offered for `query`, in declaration order.
    pub open spec fn valid_keywords(&self, tokens: Seq<TokenView>, query: Seq<char>) -> Seq<Seq<char>> {
        self.valid_keywords_upto(tokens, query, self.keyword_arguments@.len() as int)
    }

    /// The candidates after the classified tokens `tokens` of a line, where
    /// `paths` are the filesystem paths that start with the value being typed.
    pub open spec fn completions(&self, tokens: Seq<TokenView>, paths: Seq<Seq<char>>) -> Seq<Seq<char>> {
        let kws = self.keyword_arguments@;
        let ps = self.positional_arguments@;
        if tokens.len() == 0 {
            self.valid_keywords(tokens, Seq::empty()) + if ps.len() > 0 {
                value_completions(ps[0].value_type, Seq::empty(), paths)
            } else {
                Seq::empty()
            }
        } else {
            match tokens.last() {
                TokenView::Keyword(k, v) => if 0 <= k < kws.len() {
                    value_completions(kws[k].value_type, v, paths)
                } else {
                    Seq::empty()
                },
                TokenView::Positional(p, v) => self.valid_keywords(tokens, v) + if 0 <= p < ps.len() {
                    value_completions(ps[p].value_type, v, paths)
                } else {
                    Seq::empty()
                },
                TokenView::Partial(s) => self.valid_keywords(tokens, s),
            }
        }
    }

    /// The partial path to list the filesystem for, where the candidates after
    /// `tokens` include paths.
    pub open spec fn path_query(&self, tokens: Seq<TokenView>) -> Option<Seq<char>> {
        let kws = self.keyword_arguments@;
        let ps = self.positional_arguments@;
        if tokens.len() == 0 {
            if ps.len() > 0 && ps[0].value_type is Path {
                Some(Seq::empty())
            } else {
                None
            }
        } else {
            match tokens.last() {
                TokenView::Keyword(k, v) => if 0 <= k < kws.len() && kws[k].value_type is Path {
                    Some(v)
                } else {
                    None
                },
                TokenView::Positional(p, v) => if 0 <= p < ps.len() && ps[p].value_type is Path {
                    Some(v)
                } else {
                    None
                },
                TokenView::Partial(_) => None,
            }
        }
    }

    /// What completing the words `words` of a line may give: exact but for the
    /// filesystem listing of a path completion.
    pub open spec fn word_outcome(&self, words: Seq<Seq<char>>, r: Result<Vec<String>, CommandParseError>) -> bool {
        if words.len() == 0 {
            r matches Ok(v) && v@.len() == 0
        } else {
            match self.classify(words) {
                Err(w) => r matches Err(e) && e matches CommandParseError::ArgumentMissingValue(n) && n@ == w,
                Ok(tokens) => match self.path_query(tokens) {
                    None => r matches Ok(v) && words_view(v@) == self.completions(tokens, Seq::empty()),
                    Some(_) => match r {
                        Ok(v) => exists|paths: Seq<Seq<char>>| words_view(v@) == self.completions(tokens, paths),
                        Err(e) => e == CommandParseError::PathCompletionFailure,
                    },
                },
            }
        }
    }

    /// Whether a keyword argument called `name` has a value among `tokens`.
    fn is_consumed(&self, tokens: &Vec<Token>, name: &String) -> (r: bool)
        ensures
            r == self.consumed(tokens_view(tokens@), name@),
    {
        let ghost tv = tokens_view(tokens@);
        let mut i: usize = 0;
        while i < tokens.len()
            invariant
                i <= tokens@.len(),
                tv == tokens_view(tokens@),
                forall|j: int| 0 <= j < i ==> !#[trigger] self.names_keyword(tv[j], name@),
            decreases tokens@.len() - i,
        {
            assert(tv[i as int] == tokens@[i as int]@);
            if let Token::PopulatedKeywordArgument { argument, value: _ } = &tokens[i] {
                if *argument < self.keyword_arguments.len() && self.keyword_arguments[*argument].name == *name {
                    assert(self.names_keyword(tv[i as int], name@));
                    return true;
                }
            }
            i = i + 1;
        }
        false
    }

    /// The display names of the keyword arguments that start with `query` and
    /// are repeatable or not yet given a value in `tokens`, in declaration order.
    pub fn get_valid_keyword_arguments(&self, tokens: &Vec<Token>, query: &str) -> (r: Vec<String>)
        ensures
            words_view(r@) == self.valid_keywords(tokens_view(tokens@), query@),
    {
        let mut r: Vec<String> = Vec::new();
        let mut i: usize = 0;
        proof {
            assert(words_view(r@) =~= Seq::<Seq<char>>::empty());
        }
        while i < self.keyword_arguments.len()
            invariant
                i <= self.keyword_arguments@.len(),
                words_view(r@) == self.valid_keywords_upto(tokens_view(tokens@), query@, i as int),
            decreases self.keyword_arguments@.len() - i,
        {
            let arg = &self.keyword_arguments[i];
            if starts_with(arg.name.as_str(), query) && (arg.repeatable || !self.is_consumed(tokens, &arg.name)) {
                let ghost before = r@;
                r.push(arg.to_string());
                proof {
                    assert(words_view(r@) =~= words_view(before).push(arg.display_name()));
                }
            }
            i = i + 1;
        }
        r
    }

    /// The partial path to list the filesystem for, where the candidates after
    /// `tokens` include paths.
    fn pending_path_query(&self, tokens: &Vec<Token>) -> (r: Option<String>)
        ensures
            r matches Some(q) ==> self.path_query(tokens_view(tokens@)) == Some(q@),
            r is None ==> self.path_query(tokens_view(tokens@)) is None,
    {
        let n = tokens.len();
        if n == 0 {
            if self.positional_arguments.len() > 0 && matches!(self.positional_arguments[0].value_type, ValueType::Path) {
                return Some(String::new());
            }
            return None;
        }
        assert(tokens_view(tokens@).last() == tokens@[n - 1]@);
        match &tokens[n - 1] {
            Token::PopulatedKeywordArgument { argument, value } => {
                if *argument < self.keyword_arguments.len() && matches!(self.keyword_arguments[*argument].value_type, ValueType::Path) {
                    Some(value.clone())
                } else {
                    None
                }
            },
            Token::PopulatedPositionalArgument { argument, value } => {
                if *argument < self.positional_arguments.len() && matches!(self.positional_arguments[*argument].value_type, ValueType::Path) {
                    Some(value.clone())
                } else {
                    None
                }
            },
            Token::PartialKeywordArgument(_) => None,
        }
    }

    /// The candidates after the classified tokens `tokens` of a line, where
    /// `paths` are the filesystem paths that start with the value being typed.
    pub fn complete_tokens(&self, tokens: &Vec<Token>, paths: Vec<String>) -> (r: Vec<String>)
        ensures
            words_view(r@) == self.completions(tokens_view(tokens@), words_view(paths@)),
    {
        let ghost tv = tokens_view(tokens@);
        let n = tokens.len();
        if n == 0 {
            let mut r = self.get_valid_keyword_arguments(tokens, "");
            proof {
                reveal_strlit("");
                assert(""@ =~= Seq::<char>::empty());
            }
            if self.positional_arguments.len() > 0 {
                let mut more = value_candidates(&self.positional_arguments[0].value_type, "", paths);
                let ghost before = r@;
                let ghost extra = more@;
                r.append(&mut more);
                proof {
                    assert(words_view(r@) =~= words_view(before) + words_view(extra));
                }
            } else {
                proof {
                    assert(words_view(r@) =~= words_view(r@) + Seq::<Seq<char>>::empty());
                }
            }
            return r;
        }
        assert(tv.last() == tokens@[n - 1]@);
        match &tokens[n - 1] {
            Token::PopulatedKeywordArgument { argument, value } => {
                if *argument < self.keyword_arguments.len() {
                    value_candidates(&self.keyword_arguments[*argument].value_type, value.as_str(), paths)
                } else {
                    proof {
                        assert(words_view(Seq::<String>::empty()) =~= Seq::<Seq<char>>::empty());
                    }
                    Vec::new()
                }
            },
            Token::PopulatedPositionalArgument { argument, value } => {
                let mut r = self.get_valid_keyword_arguments(tokens, value.as_str());
                let ghost before = r@;
                if *argument < self.positional_arguments.len() {
                    let mut more = value_candidates(&self.positional_arguments[*argument].value_type, value.as_str(), paths);
                    let ghost extra = more@;
                    r.append(&mut more);
                    proof {
                        assert(words_view(r@) =~= words_view(before) + words_view(extra));
                    }
                } else {
                    proof {
                        assert(words_view(r@) =~= words_view(before) + Seq::<Seq<char>>::empty());
                    }
                }
                r
            },
            Token::PartialKeywordArgument(partial) => self.get_valid_keyword_arguments(tokens, partial.as_str()),
        }
    }

    /// The candidates after the words `words` of a line, the first of which
    /// names the program.
    pub fn complete_words(&self, words: &Vec<String>) -> (r: Result<Vec<String>, CommandParseError>)
        ensures
            self.word_outcome(words_view(words@), r),
    {
        if words.len() == 0 {
            return Ok(Vec::new());
        }
        let tokens = self.classify_words(words)?;
        let paths = match self.pending_path_query(&tokens) {
            Some(query) => get_path_completions(query.as_str())?,
            None => Vec::new(),
        };
        let r = self.complete_tokens(&tokens, paths);
        proof {
            assert(words_view(Seq::<String>::empty()) =~= Seq::<Seq<char>>::empty());
        }
        Ok(r)
    }

    /// The candidates that may follow the part of `command` before
    /// `cursor_position`, a byte offset.
    pub fn generate_completions(&self, command: &str, cursor_position: usize) -> (r: Result<
        Vec<String>,
        CommandParseError,
    >)
        requires
            command.spec_bytes().len() <= usize::MAX,
            cursor_position <= command.spec_bytes().len() ==> is_char_boundary(
                command.spec_bytes(),
                cursor_position as int,
            ),
        ensures
            cursor_position > command.spec_bytes().len() ==> r == Err::<Vec<String>, CommandParseError>(
                CommandParseError::CursorOutOfRange(cursor_position),
            ),
            cursor_position <= command.spec_bytes().len() ==> match lex(
                typed_prefix(command, cursor_position),
            ) {
                None => r == Err::<Vec<String>, CommandParseError>(
                    CommandParseError::UnparseableCommand,
                ),
                Some(words) => self.word_outcome(words, r),
            },
    {
        if cursor_position > command.len() {
            return Err(CommandParseError::CursorOutOfRange(cursor_position));
        }
        let (typed, _) = command.split_at(cursor_position);
        proof {
            encode_utf8_decode_utf8(typed@);
        }
        let words = parse_words(String::from_str(typed))?;
        self.complete_words(&words)
    }
}

/// Keyword arguments are told apart by how they are written on a command line.
pub open spec fn distinct_display_names(args: Seq<KeywordArgument>) -> bool {
    forall|i: int, j: int|
        0 <= i < args.len() && 0 <= j < args.len() && i != j ==> #[trigger] args[i].display_name()
            != #[trigger] args[j].display_name()
}

proof fn lemma_not_added(s: Seq<Seq<char>>, e: Seq<char>, d: Seq<char>)
    requires
        !s.contains(d),
        e != d,
    ensures
        !s.push(e).contains(d),
{
    if s.push(e).contains(d) {
        let j = choose|j: int| 0 <= j < s.push(e).len() && s.push(e)[j] == d;
        if j < s.len() {
            assert(s[j] == d);
        }
    }
}

proof fn lemma_kept(s: Seq<Seq<char>>, e: Seq<char>, d: Seq<char>)
    requires
        s.contains(d) || e == d,
    ensures
        s.push(e).contains(d),
{
    if e == d {
        assert(s.push(e)[s.len() as int] == d);
    } else {
        let j = choose|j: int| 0 <= j < s.len() && s[j] == d;
        assert(s.push(e)[j] == d);
    }
}

proof fn lemma_used_not_offered_upto(cmd: Command, tokens: Seq<TokenView>, query: Seq<char>, k: int, n: int)
    requires
        0 <= k < cmd.keyword_arguments@.len(),
        n <= cmd.keyword_arguments@.len(),
        distinct_display_names(cmd.keyword_arguments@),
        !cmd.keyword_arguments@[k].repeatable,
        cmd.consumed(tokens, cmd.keyword_arguments@[k].name@),
    ensures
        !cmd.valid_keywords_upto(tokens, query, n).contains(cmd.keyword_arguments@[k].display_name()),
    decreases n,
{
    let args = cmd.keyword_arguments@;
    if n > 0 {
        lemma_used_not_offered_upto(cmd, tokens, query, k, n - 1);
        let prev = cmd.valid_keywords_upto(tokens, query, n - 1);
        if cmd.offered(tokens, query, args[n - 1]) {
            lemma_not_added(prev, args[n - 1].display_name(), args[k].display_name());
        }
    }
}

proof fn lemma_repeatable_offered_upto(cmd: Command, tokens: Seq<TokenView>, query: Seq<char>, k: int, n: int)
    requires
        0 <= k < n <= cmd.keyword_arguments@.len(),
        cmd.keyword_arguments@[k].repeatable,
        is_prefix(query, cmd.keyword_arguments@[k].name@),
    ensures
        cmd.valid_keywords_upto(tokens, query, n).contains(cmd.keyword_arguments@[k].display_name()),
    decreases n,
{
    let args = cmd.keyword_arguments@;
    let prev = cmd.valid_keywords_upto(tokens, query, n - 1);
    if n - 1 > k {
        lemma_repeatable_offered_upto(cmd, tokens, query, k, n - 1);
    }
    if cmd.offered(tokens, query, args[n - 1]) {
        lemma_kept(prev, args[n - 1].display_name(), args[k].display_name());
    }
}

/// A keyword argument that is not repeatable is no longer offered once an
/// earlier word has given it a value, whatever is being typed; a repeatable
/// one is still offered whenever its name starts with what is being typed.
pub proof fn lemma_used_keyword_excluded(cmd: Command, tokens: Seq<TokenView>, query: Seq<char>, k: int)
    requires
        0 <= k < cmd.keyword_arguments@.len(),
        distinct_display_names(cmd.keyword_arguments@),
    ensures
        !cmd.keyword_arguments@[k].repeatable && cmd.consumed(tokens, cmd.keyword_arguments@[k].name@)
            ==> !cmd.valid_keywords(tokens, query).contains(cmd.keyword_arguments@[k].display_name()),
        cmd.keyword_arguments@[k].repeatable && is_prefix(query, cmd.keyword_arguments@[k].name@)
            ==> cmd.valid_keywords(tokens, query).contains(cmd.keyword_arguments@[k].display_name()),
{
    let n = cmd.keyword_arguments@.len() as int;
    if !cmd.keyword_arguments@[k].repeatable && cmd.consumed(tokens, cmd.keyword_arguments@[k].name@) {
        lemma_used_not_offered_upto(cmd, tokens, query, k, n);
    }
    if cmd.keyword_arguments@[k].repeatable && is_prefix(query, cmd.keyword_arguments@[k].name@) {
        lemma_repeatable_offered_upto(cmd, tokens, query, k, n);
    }
}

} // verus!
