//! Shell-completion candidates for a command line, computed from a declarative
//! description of the command's keyword and positional arguments.

pub mod argument;
pub mod completion;
pub mod error;
pub mod flat;
pub mod hooks;
pub mod lexer;
pub mod text;

pub use argument::{KeywordArgument, KeywordArgumentStyle, PositionalArgument, ValueType};
pub use completion::{Command, Token};
pub use error::CommandParseError;
pub use hooks::{Bash, Fish, Shell};
pub use lexer::{get_quoting_state, parse_words, repair_quotes, words_from_split, QuotingState};
