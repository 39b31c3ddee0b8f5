use vstd::prelude::*;

verus! {

/// Why a compilation failed.
pub enum CompileError {
    /// The path, as written, did not resolve to a file from `directory`.
    FileNotFound { path: String, directory: String, cause: String },
    /// The file at this canonical path was already entered during the
    /// compilation.
    CircularDependency { path: String },
    /// The file at this canonical path resolved but could not be read.
    ReadError { path: String, directory: String, cause: String },
    /// The text of the file at this canonical path is not a valid program.
    ParseError { path: String, cause: String },
    /// A key statement stands outside any key chord, or blocks nest deeper
    /// than an indentation can be counted.
    InvalidStructure,
    /// Importing `path` (as written) from the file written as `from` failed.
    ImportFailed { path: String, from: String, error: Box<CompileError> },
}

/// A file that the compilation needs and that has not been looked up yet:
/// `path` as written, relative to `directory`.
pub struct ImportRequest {
    pub directory: String,
    pub path: String,
}

/// Why a lowering step stopped before the end of its statements.
pub enum Halt {
    /// The compilation failed.
    Failed(CompileError),
    /// The compilation cannot go on until this file has been looked up.
    Needs(ImportRequest),
}

/// The innermost error of a chain of import failures.
pub open spec fn root_of(e: CompileError) -> CompileError
    decreases e,
{
    match e {
        CompileError::ImportFailed { error, .. } => root_of(*error),
        _ => e,
    }
}

/// `'text'`
pub open spec fn quoted(text: Seq<char>) -> Seq<char> {
    seq!['\''] + text + seq!['\'']
}

/// The messages that describe `e`, outermost first: one for each import
/// crossed, then the failure itself, then the cause the outside world gave
/// for it, if any.
pub open spec fn messages(e: CompileError) -> Seq<Seq<char>>
    decreases e,
{
    match e {
        CompileError::FileNotFound { path, directory, cause } => seq![
            "Unable to find file input "@ + quoted(path@) + " from "@ + quoted(directory@) + "."@,
            cause@,
        ],
        CompileError::CircularDependency { .. } => seq!["Circular dependency detected."@],
        CompileError::ReadError { path, directory, cause } => seq![
            "Unable to load file input "@ + quoted(path@) + " from "@ + quoted(directory@) + "."@,
            cause@,
        ],
        CompileError::ParseError { cause, .. } => seq!["Unable to parse input."@, cause@],
        CompileError::InvalidStructure => seq![
            "Invalid statement structure: key statements belong inside key chords, and blocks cannot nest this deep."@,
        ],
        CompileError::ImportFailed { path, from, error } => seq![
            "Unable to import file "@ + quoted(path@) + " from "@ + quoted(from@) + "."@,
        ] + messages(*error),
    }
}

/// `first 'a' second 'b'.`
fn sentence(first: &str, a: &String, second: &str, b: &String) -> (r: String)
    ensures
        r@ == first@ + quoted(a@) + second@ + quoted(b@) + "."@,
{
    let mut text = String::from_str(first);
    text.append("'");
    text.append(a.as_str());
    text.append("'");
    text.append(second);
    text.append("'");
    text.append(b.as_str());
    text.append("'");
    text.append(".");
    proof {
        reveal_strlit("'");
        assert(text@ =~= first@ + quoted(a@) + second@ + quoted(b@) + "."@);
    }
    text
}

impl CompileError {
    /// The messages that describe this error, outermost first.
    pub fn messages(&self) -> (r: Vec<String>)
        ensures
            r@.map_values(|m: String| m@) == messages(*self),
        decreases *self,
    {
        let r: Vec<String> = match self {
            CompileError::FileNotFound { path, directory, cause } => vec![
                sentence("Unable to find file input ", path, " from ", directory),
                cause.clone(),
            ],
            CompileError::CircularDependency { .. } => vec![
                String::from_str("Circular dependency detected."),
            ],
            CompileError::ReadError { path, directory, cause } => vec![
                sentence("Unable to load file input ", path, " from ", directory),
                cause.clone(),
            ],
            CompileError::ParseError { cause, .. } => vec![
                String::from_str("Unable to parse input."),
                cause.clone(),
            ],
            CompileError::InvalidStructure => vec![
                String::from_str(
                    "Invalid statement structure: key statements belong inside key chords, and blocks cannot nest this deep.",
                ),
            ],
            CompileError::ImportFailed { path, from, error } => {
                let mut all = vec![sentence("Unable to import file ", path, " from ", from)];
                let mut inner = error.messages();
                all.append(&mut inner);
                all
            },
        };
        assert(r@.map_values(|m: String| m@) =~= messages(*self));
        r
    }

    /// The innermost error of a chain of import failures.
    pub fn root_cause(&self) -> (r: &CompileError)
        ensures
            *r == root_of(*self),
        decreases *self,
    {
        match self {
            CompileError::ImportFailed { error, .. } => error.root_cause(),
            _ => self,
        }
    }

    /// Whether the innermost error is a circular dependency.
    pub fn is_circular(&self) -> (r: bool)
        ensures
            r == (root_of(*self) is CircularDependency),
    {
        match self.root_cause() {
            CompileError::CircularDependency { .. } => true,
            _ => false,
        }
    }
}

} // verus!
