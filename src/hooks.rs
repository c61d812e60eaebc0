use vstd::prelude::*;

use crate::argument::KeywordArgument;
use crate::completion::Command;

verus! {

/// A shell whose completion system can be hooked up.
#[derive(Debug, Clone, Copy, PartialEq, Eq)]
pub enum Shell {
    Bash,
    Fish,
    Zsh,
    Csh,
}

/// Registers completions with bash.
pub struct Bash;

/// Registers completions with fish.
pub struct Fish;

/// The file extension of a schema file.
pub open spec fn schema_extension() -> Seq<char> {
    seq!['.', 'y', 'a', 'm', 'l']
}

/// `s` ends with the schema file extension.
pub open spec fn has_schema_extension(s: Seq<char>) -> bool {
    s.len() >= 5 && s.subrange(s.len() - 5, s.len() as int) == schema_extension()
}

/// `s` with every trailing schema extension removed.
pub open spec fn trim_schema_extensions(s: Seq<char>) -> Seq<char>
    decreases s.len(),
{
    if has_schema_extension(s) {
        trim_schema_extensions(s.subrange(0, s.len() - 5))
    } else {
        s
    }
}

/// The bash command that registers `exe` as the completer of `command_name`.
pub open spec fn bash_registration(exe: Seq<char>, schema_path: Seq<char>, command_name: Seq<char>) -> Seq<char> {
    "complete -C \""@ + exe + " complete bash "@ + schema_path + "\" "@ + command_name
}

/// The fish command that declares `arg` as an option of `command_name`.
pub open spec fn fish_declaration(command_name: Seq<char>, arg: KeywordArgument) -> Seq<char> {
    let base = "complete -c "@ + command_name + " -l '"@ + arg.name@ + "' -d '"@ + arg.description@ + "'"@;
    match arg.shorthand {
        Some(c) => base + " -s '"@ + (if c == '-' { Seq::empty() } else { seq![c] }) + "'"@,
        None => base,
    }
}

/// Relies on String::push: appends one character.
#[verifier::external_body]
fn push_char(s: &mut String, c: char)
    ensures
        final(s)@ == old(s)@.push(c),
{
    s.push(c)
}

/// Whether the first `end` characters of `s` end with the schema extension.
fn ends_with_schema_extension(s: &str, end: usize) -> (r: bool)
    requires
        end <= s@.len(),
    ensures
        r == has_schema_extension(s@.subrange(0, end as int)),
{
    if end < 5 {
        return false;
    }
    let r = s.get_char(end - 5) == '.' && s.get_char(end - 4) == 'y' && s.get_char(end - 3) == 'a'
        && s.get_char(end - 2) == 'm' && s.get_char(end - 1) == 'l';
    proof {
        let t = s@.subrange(0, end as int);
        if r {
            assert(t.subrange(t.len() - 5, t.len() as int) =~= schema_extension());
        } else {
            if has_schema_extension(t) {
                let u = t.subrange(t.len() - 5, t.len() as int);
                assert(u[0] == t[t.len() - 5] && u[1] == t[t.len() - 4] && u[2] == t[t.len() - 3]
                    && u[3] == t[t.len() - 2] && u[4] == t[t.len() - 1]);
            }
        }
    }
    r
}

impl Bash {
    /// The bash command that completes the command of the schema file
    /// `file_name` (at `schema_path`) by running `exe`. The command's name is
    /// the file name without its schema extensions.
    pub fn generate_completions_from_schema(exe: &str, schema_path: &str, file_name: &str) -> (r: Vec<String>)
        ensures
            r@.len() == 1,
            r@[0]@ == bash_registration(exe@, schema_path@, trim_schema_extensions(file_name@)),
    {
        let mut end = file_name.unicode_len();
        proof {
            assert(file_name@.subrange(0, end as int) =~= file_name@);
        }
        while ends_with_schema_extension(file_name, end)
            invariant
                end <= file_name@.len(),
                trim_schema_extensions(file_name@) == trim_schema_extensions(file_name@.subrange(0, end as int)),
            decreases end,
        {
            proof {
                assert(file_name@.subrange(0, end as int).subrange(0, end - 5) =~= file_name@.subrange(0, end - 5));
            }
            end = end - 5;
        }
        let command_name = file_name.substring_char(0, end);
        let mut line = String::from_str("complete -C \"");
        line.append(exe);
        line.append(" complete bash ");
        line.append(schema_path);
        line.append("\" ");
        line.append(command_name);
        let mut r: Vec<String> = Vec::new();
        r.push(line);
        r
    }
}

/// The fish declaration of one keyword argument of `command_name`.
fn fish_line(command_name: &str, arg: &KeywordArgument) -> (r: String)
    ensures
        r@ == fish_declaration(command_name@, *arg),
{
    let mut line = String::from_str("complete -c ");
    line.append(command_name);
    line.append(" -l '");
    line.append(arg.name.as_str());
    line.append("' -d '");
    line.append(arg.description.as_str());
    line.append("'");
    if let Some(c) = arg.shorthand {
        line.append(" -s '");
        if c != '-' {
            push_char(&mut line, c);
        }
        line.append("'");
    }
    proof {
        assert(line@ =~= fish_declaration(command_name@, *arg));
    }
    line
}

impl Fish {
    /// The fish declarations of the keyword arguments of `schema`, read from
    /// the schema file `file_name`: none where the name lacks the schema
    /// extension, which is removed once to give the command's name.
    pub fn generate_completions_from_schema(schema: &Command, file_name: &str) -> (r: Vec<String>)
        ensures
            !has_schema_extension(file_name@) ==> r@.len() == 0,
            has_schema_extension(file_name@) ==> r@.len() == schema.keyword_arguments@.len()
                && forall|i: int| 0 <= i < r@.len() ==> #[trigger] r@[i]@ == fish_declaration(
                    file_name@.subrange(0, file_name@.len() - 5),
                    schema.keyword_arguments@[i],
                ),
    {
        let n = file_name.unicode_len();
        let mut r: Vec<String> = Vec::new();
        proof {
            assert(file_name@.subrange(0, n as int) =~= file_name@);
        }
        if !ends_with_schema_extension(file_name, n) {
            return r;
        }
        let command_name = file_name.substring_char(0, n - 5);
        let mut i: usize = 0;
        while i < schema.keyword_arguments.len()
            invariant
                i <= schema.keyword_arguments@.len(),
                r@.len() == i,
                command_name@ == file_name@.subrange(0, file_name@.len() - 5),
                forall|j: int| 0 <= j < i ==> #[trigger] r@[j]@ == fish_declaration(
                    command_name@,
                    schema.keyword_arguments@[j],
                ),
            decreases schema.keyword_arguments@.len() - i,
        {
            r.push(fish_line(command_name, &schema.keyword_arguments[i]));
            i = i + 1;
        }
        r
    }
}

} // verus!
