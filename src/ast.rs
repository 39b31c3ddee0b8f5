use vstd::prelude::*;

verus! {

/// One statement of a parsed MallardScript program.
///
/// Block statements own their nested statement sequences; a chorded key
/// command owns the key statements it is made of.
pub enum Statement {
    /// `IF <expression> THEN ... [ELSE ...] END_IF`
    BlockIf { expression: String, statements_true: Vec<Statement>, statements_false: Vec<Statement> },
    /// `WHILE <expression> ... END_WHILE`
    BlockWhile { expression: String, statements: Vec<Statement> },
    CommandDefaultDelay(String),
    CommandDefine(String),
    CommandDelay(String),
    /// The name of the variable to exfiltrate.
    CommandExfil(String),
    /// The path of the imported file, as written.
    CommandImport(String),
    /// A key chord: its key statements, then the raw text of the keys left over.
    CommandKey { statements: Vec<Statement>, remaining_keys: String },
    /// One key name; only meaningful inside a key chord.
    CommandKeyValue(String),
    CommandRem(String),
    CommandString(String),
    CommandStringln(String),
    /// The marker the parser appends after the last statement of a file.
    End,
    /// A command without a value (`RESET`, `HIDE_PAYLOAD`, ...).
    SingleCommand(String),
    /// `$name = assignment`
    VariableAssignment { name: String, assignment: String },
    /// `VAR $name = assignment`
    VariableDeclaration { name: String, assignment: String },
}


/// The views of a sequence of strings.
pub open spec fn views(v: Seq<String>) -> Seq<Seq<char>> {
    v.map_values(|s: String| s@)
}

/// The statements that lower to exactly one line, with no other effect.
pub open spec fn is_one_line(s: Statement) -> bool {
    match s {
        Statement::BlockIf { .. } => false,
        Statement::BlockWhile { .. } => false,
        Statement::CommandImport(_) => false,
        Statement::CommandKeyValue(_) => false,
        Statement::End => false,
        _ => true,
    }
}

/// `keyword value`
pub open spec fn with_value(keyword: Seq<char>, value: Seq<char>) -> Seq<char> {
    keyword + seq![' '] + value
}

/// The text of the line that a one-line statement lowers to, indentation and
/// line break left out.
pub open spec fn line_text(s: Statement) -> Seq<char> {
    match s {
        Statement::CommandDefaultDelay(v) => with_value("DEFAULTDELAY"@, v@),
        Statement::CommandDefine(v) => with_value("DEFINE"@, v@),
        Statement::CommandDelay(v) => with_value("DELAY"@, v@),
        Statement::CommandExfil(v) => with_value("EXFIL"@, v@),
        Statement::CommandRem(v) => with_value("REM"@, v@),
        Statement::CommandString(v) => with_value("STRING"@, v@),
        Statement::CommandStringln(v) => with_value("STRINGLN"@, v@),
        Statement::SingleCommand(name) => name@,
        Statement::CommandKey { statements, remaining_keys } => chord_text(
            statements@,
            remaining_keys@,
        ),
        Statement::VariableDeclaration { name, assignment } => "VAR $"@ + name@ + " = "@
            + assignment@,
        Statement::VariableAssignment { name, assignment } => "$"@ + name@ + " = "@ + assignment@,
        _ => Seq::empty(),
    }
}

/// The key names of a chord's key statements, depth first: a key statement
/// gives its name, a nested chord gives its own key names and leftover keys,
/// and any other statement gives nothing.
pub open spec fn key_names(ss: Seq<Statement>) -> Seq<Seq<char>>
    decreases ss,
{
    if ss.len() == 0 {
        Seq::empty()
    } else {
        let last = match ss.last() {
            Statement::CommandKey { statements, remaining_keys } => key_names(statements@)
                + leftover(remaining_keys@),
            Statement::CommandKeyValue(name) => seq![name@],
            _ => Seq::empty(),
        };
        key_names(ss.drop_last()) + last
    }
}

/// The leftover keys of a chord as a list of at most one word.
pub open spec fn leftover(remaining: Seq<char>) -> Seq<Seq<char>> {
    if remaining.len() == 0 {
        Seq::empty()
    } else {
        seq![remaining]
    }
}

/// The words joined by single spaces.
pub open spec fn join_spaced(words: Seq<Seq<char>>) -> Seq<char>
    decreases words.len(),
{
    if words.len() == 0 {
        Seq::empty()
    } else if words.len() == 1 {
        words[0]
    } else {
        join_spaced(words.drop_last()) + seq![' '] + words.last()
    }
}

/// The one command line a key chord flattens to.
pub open spec fn chord_text(statements: Seq<Statement>, remaining: Seq<char>) -> Seq<char> {
    join_spaced(key_names(statements) + leftover(remaining))
}

} // verus!
