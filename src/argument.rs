use vstd::prelude::*;

verus! {

/// An argument passed by name, such as `--output` or `-name`.
#[derive(Debug, PartialEq, Eq)]
pub struct KeywordArgument {
    /// The flag identifier, without its dash prefix.
    pub name: String,
    pub description: String,
    pub shorthand: Option<char>,
    /// Whether the argument may appear more than once in one command line.
    pub repeatable: bool,
    pub style: KeywordArgumentStyle,
    pub value_type: ValueType,
    /// Names of arguments this one cannot be combined with (kept as data only).
    pub incompatible_with: Vec<String>,
}

/// How a keyword argument is prefixed on the command line.
#[derive(Debug, PartialEq, Eq)]
pub enum KeywordArgumentStyle {
    /// The usual double-dash prefix for a keyword argument, present on most commands
    Standard,
    /// The older single-dash prefix for a keyword argument, present on commands such as `find`
    Old,
}

/// An argument bound by its position on the command line.
#[derive(Debug, PartialEq, Eq)]
pub struct PositionalArgument {
    pub name: String,
    pub description: String,
    pub value_type: ValueType,
    /// Names of arguments this one cannot be combined with (kept as data only).
    pub incompatible_with: Vec<String>,
}

/// What kind of value an argument takes.
#[derive(Debug, PartialEq, Eq)]
#[non_exhaustive]
pub enum ValueType {
    /// The argument is a flag and thus does not have an associated value.
    Flag,
    /// The value of the argument should be treated as a free-text string and no completion can be
    /// done for it.
    String,
    /// The value is a filesystem path.
    Path,
    /// The value of the argument must be one of a given set of strings.
    Enumeration(Vec<String>),
}

/// The dashes that precede a keyword argument of the given style.
pub open spec fn dash_prefix(style: KeywordArgumentStyle) -> Seq<char> {
    match style {
        KeywordArgumentStyle::Standard => seq!['-', '-'],
        KeywordArgumentStyle::Old => seq!['-'],
    }
}

impl KeywordArgument {
    /// The argument as it is written on a command line: dashes, then name.
    pub open spec fn display_name(&self) -> Seq<char> {
        dash_prefix(self.style) + self.name@
    }

    /// The argument as it is written on a command line: dashes, then name.
    pub fn to_string(&self) -> (r: String)
        ensures
            r@ == self.display_name(),
    {
        let mut r = match self.style {
            KeywordArgumentStyle::Standard => {
                proof {
                    reveal_strlit("--");
                }
                String::from_str("--")
            },
            KeywordArgumentStyle::Old => {
                proof {
                    reveal_strlit("-");
                }
                String::from_str("-")
            },
        };
        r.append(self.name.as_str());
        proof {
            assert(r@ =~= self.display_name());
        }
        r
    }
}

} // verus!
