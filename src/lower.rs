use vstd::prelude::*;
use crate::ast::{Statement, is_one_line, line_text, views, with_value};
use crate::chord::flatten_chord;
use crate::error::{CompileError, Halt, ImportRequest};
use crate::sink::{OutputSink, line, trim_newline};
use crate::sources::{Contents, SourceFile, Sources, find_file, find_resolution};

verus! {

/// How many spaces each block level adds to the indentation.
pub const INDENTATION_STEP: usize = 2;

/// What lowering a statement, a sequence of statements or a file does: the
/// whole output text afterwards, the canonical paths of the files it entered,
/// in order, and whether it went through.
pub struct Run {
    pub out: Seq<char>,
    pub entered: Seq<Seq<char>>,
    pub result: Result<(), Halt>,
}

/// A run that wrote `out`, entered nothing, and went through.
pub open spec fn done(out: Seq<char>) -> Run {
    Run { out, entered: Seq::empty(), result: Ok(()) }
}

/// A run that stopped with `error` after writing `out`, entering nothing.
pub open spec fn failed(out: Seq<char>, error: CompileError) -> Run {
    Run { out, entered: Seq::empty(), result: Err(Halt::Failed(error)) }
}

/// A run that stopped, after writing `out`, because it needs `path` looked
/// up from `directory`.
pub open spec fn needs(out: Seq<char>, directory: String, path: String) -> Run {
    Run {
        out,
        entered: Seq::empty(),
        result: Err(Halt::Needs(ImportRequest { directory, path })),
    }
}

/// `first`'s entered files followed by `then`'s run.
pub open spec fn after(first: Seq<Seq<char>>, then: Run) -> Run {
    Run { out: then.out, entered: first + then.entered, result: then.result }
}

/// The number of loaded files whose path is not among `visited`: each file
/// entered lowers it, which bounds the depth of imports.
pub open spec fn unentered(files: Seq<SourceFile>, visited: Seq<Seq<char>>) -> nat
    decreases files.len(),
{
    if files.len() == 0 {
        0
    } else {
        unentered(files.drop_last(), visited) + if visited.contains(files.last().path@) {
            0nat
        } else {
            1nat
        }
    }
}

/// Visiting more files never adds unentered ones.
pub proof fn lemma_unentered_grows(
    files: Seq<SourceFile>,
    visited: Seq<Seq<char>>,
    more: Seq<Seq<char>>,
)
    ensures
        unentered(files, visited + more) <= unentered(files, visited),
    decreases files.len(),
{
    if files.len() > 0 {
        lemma_unentered_grows(files.drop_last(), visited, more);
        if visited.contains(files.last().path@) {
            let k = choose|k: int| 0 <= k < visited.len() && visited[k] == files.last().path@;
            assert((visited + more)[k] == files.last().path@);
        }
    }
}

/// Entering a loaded file that was not visited lowers the count.
pub proof fn lemma_unentered_enter(files: Seq<SourceFile>, visited: Seq<Seq<char>>, p: Seq<char>)
    requires
        !visited.contains(p),
        find_file(files, p) is Some,
    ensures
        unentered(files, visited.push(p)) < unentered(files, visited),
    decreases files.len(),
{
    lemma_unentered_grows(files.drop_last(), visited, seq![p]);
    assert(visited + seq![p] =~= visited.push(p));
    if files.last().path@ != p {
        lemma_unentered_enter(files.drop_last(), visited, p);
        if visited.push(p).contains(files.last().path@) {
            let k = choose|k: int|
                0 <= k < visited.push(p).len() && visited.push(p)[k] == files.last().path@;
            assert(visited[k] == files.last().path@);
        }
        if visited.contains(files.last().path@) {
            let k = choose|k: int| 0 <= k < visited.len() && visited[k] == files.last().path@;
            assert(visited.push(p)[k] == files.last().path@);
        }
    } else {
        assert(visited.push(p)[visited.len() as int] == p);
    }
}

/// Lowers the statements `ss` of the file written as `name`, whose imports
/// resolve from `directory`, one after the other at indentation `indent`,
/// onto `out`, with the files in `visited` already entered. The first
/// statement that stops ends the run.
pub open spec fn lower_seq(
    src: Sources,
    directory: String,
    name: String,
    ss: Seq<Statement>,
    indent: nat,
    out: Seq<char>,
    visited: Seq<Seq<char>>,
) -> Run
    decreases unentered(src.files@, visited), 1nat, ss,
{
    if ss.len() == 0 {
        done(out)
    } else {
        let first = lower_stmt(src, directory, name, ss[0], indent, out, visited);
        if first.result is Err {
            first
        } else {
            proof {
                lemma_unentered_grows(src.files@, visited, first.entered);
            }
            after(
                first.entered,
                lower_seq(
                    src,
                    directory,
                    name,
                    ss.drop_first(),
                    indent,
                    first.out,
                    visited + first.entered,
                ),
            )
        }
    }
}

/// Lowers one statement; see [`lower_seq`].
pub open spec fn lower_stmt(
    src: Sources,
    directory: String,
    name: String,
    s: Statement,
    indent: nat,
    out: Seq<char>,
    visited: Seq<Seq<char>>,
) -> Run
    decreases unentered(src.files@, visited), 1nat, s,
{
    match s {
        Statement::BlockIf { expression, statements_true, statements_false } => {
            if indent + INDENTATION_STEP > usize::MAX {
                failed(out, CompileError::InvalidStructure)
            } else {
                let inner = (indent + INDENTATION_STEP) as nat;
                let opened = out + line(indent, "IF "@ + expression@ + " THEN"@);
                let yes = lower_seq(src, directory, name, statements_true@, inner, opened, visited);
                if yes.result is Err {
                    yes
                } else if statements_false@.len() == 0 {
                    Run { out: yes.out + line(indent, "END_IF"@), entered: yes.entered, result: Ok(()) }
                } else {
                    proof {
                        lemma_unentered_grows(src.files@, visited, yes.entered);
                    }
                    let no = lower_seq(
                        src,
                        directory,
                        name,
                        statements_false@,
                        inner,
                        yes.out + line(indent, "ELSE"@),
                        visited + yes.entered,
                    );
                    if no.result is Err {
                        after(yes.entered, no)
                    } else {
                        Run {
                            out: no.out + line(indent, "END_IF"@),
                            entered: yes.entered + no.entered,
                            result: Ok(()),
                        }
                    }
                }
            }
        },
        Statement::BlockWhile { expression, statements } => {
            if indent + INDENTATION_STEP > usize::MAX {
                failed(out, CompileError::InvalidStructure)
            } else {
                let opened = out + line(indent, "WHILE "@ + expression@);
                let body = lower_seq(
                    src,
                    directory,
                    name,
                    statements@,
                    (indent + INDENTATION_STEP) as nat,
                    opened,
                    visited,
                );
                if body.result is Err {
                    body
                } else {
                    Run {
                        out: body.out + line(indent, "END_WHILE"@),
                        entered: body.entered,
                        result: Ok(()),
                    }
                }
            }
        },
        Statement::CommandImport(path) => {
            let imported = enter_file(src, directory, path, indent, out, visited);
            match imported.result {
                Ok(()) => Run {
                    out: imported.out + line(indent, Seq::empty()),
                    entered: imported.entered,
                    result: Ok(()),
                },
                Err(Halt::Failed(e)) => Run {
                    result: Err(
                        Halt::Failed(
                            CompileError::ImportFailed { path, from: name, error: Box::new(e) },
                        ),
                    ),
                    ..imported
                },
                Err(Halt::Needs(_)) => imported,
            }
        },
        Statement::CommandKeyValue(_) => failed(out, CompileError::InvalidStructure),
        Statement::End => done(trim_newline(out)),
        _ => done(out + line(indent, line_text(s))),
    }
}

/// Resolves `path` from `directory`, checks that the file it names was not
/// entered yet, enters it, and lowers its statements at indentation `indent`.
pub open spec fn enter_file(
    src: Sources,
    directory: String,
    path: String,
    indent: nat,
    out: Seq<char>,
    visited: Seq<Seq<char>>,
) -> Run
    decreases unentered(src.files@, visited), 0nat, Seq::<Statement>::empty(),
{
    match find_resolution(src.resolutions@, directory@, path@) {
        None => needs(out, directory, path),
        Some(resolution) => match resolution.found {
            Err(cause) => failed(out, CompileError::FileNotFound { path, directory, cause }),
            Ok(canonical) => match find_file(src.files@, canonical@) {
                None => needs(out, directory, path),
                Some(file) => {
                    if visited.contains(canonical@) {
                        failed(out, CompileError::CircularDependency { path: canonical })
                    } else {
                        let entered = seq![canonical@];
                        match file.contents {
                            Contents::Unreadable(cause) => after(
                                entered,
                                failed(
                                    out,
                                    CompileError::ReadError { path: canonical, directory, cause },
                                ),
                            ),
                            Contents::Unparsable(cause) => after(
                                entered,
                                failed(out, CompileError::ParseError { path: canonical, cause }),
                            ),
                            Contents::Program(statements) => {
                                proof {
                                    lemma_unentered_enter(src.files@, visited, canonical@);
                                }
                                after(
                                    entered,
                                    lower_seq(
                                        src,
                                        file.directory,
                                        path,
                                        statements@,
                                        indent,
                                        out,
                                        visited.push(canonical@),
                                    ),
                                )
                            },
                        }
                    }
                },
            },
        },
    }
}

/// `keyword value`
fn keyword_value(keyword: &str, value: &String) -> (r: String)
    ensures
        r@ == with_value(keyword@, value@),
{
    let mut text = String::from_str(keyword);
    text.append(" ");
    text.append(value.as_str());
    proof {
        reveal_strlit(" ");
    }
    text
}

/// The text of the line that a one-line statement lowers to.
fn render_line(s: &Statement) -> (r: String)
    requires
        is_one_line(*s),
    ensures
        r@ == line_text(*s),
{
    match s {
        Statement::CommandDefaultDelay(v) => keyword_value("DEFAULTDELAY", v),
        Statement::CommandDefine(v) => keyword_value("DEFINE", v),
        Statement::CommandDelay(v) => keyword_value("DELAY", v),
        Statement::CommandExfil(v) => keyword_value("EXFIL", v),
        Statement::CommandRem(v) => keyword_value("REM", v),
        Statement::CommandString(v) => keyword_value("STRING", v),
        Statement::CommandStringln(v) => keyword_value("STRINGLN", v),
        Statement::SingleCommand(name) => name.clone(),
        Statement::CommandKey { statements, remaining_keys } => flatten_chord(
            statements,
            remaining_keys,
        ),
        Statement::VariableDeclaration { name, assignment } => {
            let mut text = String::from_str("VAR $");
            text.append(name.as_str());
            text.append(" = ");
            text.append(assignment.as_str());
            text
        },
        Statement::VariableAssignment { name, assignment } => {
            let mut text = String::from_str("$");
            text.append(name.as_str());
            text.append(" = ");
            text.append(assignment.as_str());
            text
        },
        _ => String::new(),
    }
}

/// Whether `path` is among the visited paths.
fn is_visited(visited: &Vec<String>, path: &String) -> (r: bool)
    ensures
        r == views(visited@).contains(path@),
{
    let mut i: usize = 0;
    while i < visited.len()
        invariant
            i <= visited@.len(),
            forall|k: int| 0 <= k < i ==> visited@[k]@ != path@,
        decreases visited@.len() - i,
    {
        if visited[i] == *path {
            assert(views(visited@)[i as int] == path@);
            return true;
        }
        i = i + 1;
    }
    proof {
        if views(visited@).contains(path@) {
            let k = choose|k: int| 0 <= k < views(visited@).len() && views(visited@)[k] == path@;
            assert(visited@[k]@ == path@);
        }
    }
    false
}

/// Lowers `ss` as [`lower_seq`] says, writing to `sink` and recording each
/// file entered in `visited`.
fn lower_sequence(
    src: &Sources,
    directory: &String,
    name: &String,
    ss: &Vec<Statement>,
    indent: usize,
    sink: &mut OutputSink,
    visited: &mut Vec<String>,
) -> (r: Result<(), Halt>)
    ensures
        ({
            let run = lower_seq(
                *src,
                *directory,
                *name,
                ss@,
                indent as nat,
                old(sink)@,
                views(old(visited)@),
            );
            &&& final(sink)@ == run.out
            &&& views(final(visited)@) == views(old(visited)@) + run.entered
            &&& r == run.result
        }),
    decreases unentered(src.files@, views(old(visited)@)), 1nat, ss@,
{
    let ghost out0 = sink@;
    let ghost v0 = views(visited@);
    let ghost mut entered: Seq<Seq<char>> = Seq::empty();
    let mut i: usize = 0;
    assert(ss@.subrange(0, ss@.len() as int) =~= ss@);
    assert(v0 + entered =~= v0);
    while i < ss.len()
        invariant
            i <= ss@.len(),
            v0 == views(old(visited)@),
            out0 == old(sink)@,
            views(visited@) == v0 + entered,
            lower_seq(*src, *directory, *name, ss@, indent as nat, out0, v0) == after(
                entered,
                lower_seq(
                    *src,
                    *directory,
                    *name,
                    ss@.subrange(i as int, ss@.len() as int),
                    indent as nat,
                    sink@,
                    v0 + entered,
                ),
            ),
        decreases ss@.len() - i,
    {
        let ghost tail = ss@.subrange(i as int, ss@.len() as int);
        let ghost out1 = sink@;
        proof {
            lemma_unentered_grows(src.files@, v0, entered);
            assert(tail.drop_first() =~= ss@.subrange(i as int + 1, ss@.len() as int));
            assert(tail[0] == ss@[i as int]);
            assert(decreases_to!(ss@ => ss@[i as int]));
        }
        let r = lower_statement(src, directory, name, &ss[i], indent, sink, visited);
        let ghost first = lower_stmt(
            *src,
            *directory,
            *name,
            ss@[i as int],
            indent as nat,
            out1,
            v0 + entered,
        );
        assert(lower_seq(*src, *directory, *name, tail, indent as nat, out1, v0 + entered) == if first.result is Err {
            first
        } else {
            after(first.entered, lower_seq(*src, *directory, *name, tail.drop_first(), indent as nat, first.out, v0 + entered + first.entered))
        });
        match r {
            Err(h) => {
                assert(views(visited@) =~= v0 + (entered + first.entered));
                return Err(h);
            },
            Ok(()) => {},
        }
        proof {
            assert(views(visited@) =~= v0 + (entered + first.entered));
            assert(v0 + entered + first.entered =~= v0 + (entered + first.entered));
            assert(entered + (first.entered + lower_seq(
                *src,
                *directory,
                *name,
                ss@.subrange(i as int + 1, ss@.len() as int),
                indent as nat,
                sink@,
                v0 + entered + first.entered,
            ).entered) =~= entered + first.entered + lower_seq(
                *src,
                *directory,
                *name,
                ss@.subrange(i as int + 1, ss@.len() as int),
                indent as nat,
                sink@,
                v0 + entered + first.entered,
            ).entered);
            entered = entered + first.entered;
        }
        i = i + 1;
    }
    assert(entered + Seq::<Seq<char>>::empty() =~= entered);
    Ok(())
}

/// Lowers one statement as [`lower_stmt`] says.
fn lower_statement(
    src: &Sources,
    directory: &String,
    name: &String,
    s: &Statement,
    indent: usize,
    sink: &mut OutputSink,
    visited: &mut Vec<String>,
) -> (r: Result<(), Halt>)
    ensures
        ({
            let run = lower_stmt(
                *src,
                *directory,
                *name,
                *s,
                indent as nat,
                old(sink)@,
                views(old(visited)@),
            );
            &&& final(sink)@ == run.out
            &&& views(final(visited)@) == views(old(visited)@) + run.entered
            &&& r == run.result
        }),
    decreases unentered(src.files@, views(old(visited)@)), 1nat, *s,
{
    let ghost v0 = views(visited@);
    match s {
        Statement::BlockIf { expression, statements_true, statements_false } => {
            if indent > usize::MAX - INDENTATION_STEP {
                assert(v0 + Seq::<Seq<char>>::empty() =~= v0);
                return Err(Halt::Failed(CompileError::InvalidStructure));
            }
            let inner = indent + INDENTATION_STEP;
            let mut head = String::from_str("IF ");
            head.append(expression.as_str());
            head.append(" THEN");
            sink.write_line(indent, head.as_str());
            let ghost opened = sink@;
            let yes = lower_sequence(src, directory, name, statements_true, inner, sink, visited);
            let ghost yes_run = lower_seq(
                *src,
                *directory,
                *name,
                statements_true@,
                inner as nat,
                opened,
                v0,
            );
            if yes.is_err() {
                return yes;
            }
            if statements_false.len() > 0 {
                sink.write_line(indent, "ELSE");
                let ghost v1 = views(visited@);
                let ghost turned = sink@;
                proof {
                    lemma_unentered_grows(src.files@, v0, yes_run.entered);
                }
                let no = lower_sequence(src, directory, name, statements_false, inner, sink, visited);
                let ghost no_run = lower_seq(
                    *src,
                    *directory,
                    *name,
                    statements_false@,
                    inner as nat,
                    turned,
                    v1,
                );
                assert(views(visited@) =~= v0 + (yes_run.entered + no_run.entered));
                if no.is_err() {
                    return no;
                }
            }
            sink.write_line(indent, "END_IF");
            Ok(())
        },
        Statement::BlockWhile { expression, statements } => {
            if indent > usize::MAX - INDENTATION_STEP {
                assert(v0 + Seq::<Seq<char>>::empty() =~= v0);
                return Err(Halt::Failed(CompileError::InvalidStructure));
            }
            let mut head = String::from_str("WHILE ");
            head.append(expression.as_str());
            sink.write_line(indent, head.as_str());
            let body = lower_sequence(
                src,
                directory,
                name,
                statements,
                indent + INDENTATION_STEP,
                sink,
                visited,
            );
            if body.is_err() {
                return body;
            }
            sink.write_line(indent, "END_WHILE");
            Ok(())
        },
        Statement::CommandImport(path) => {
            let imported = enter(src, directory, path, indent, sink, visited);
            match imported {
                Ok(()) => {
                    sink.write_line(indent, "");
                    proof {
                        reveal_strlit("");
                    }
                    Ok(())
                },
                Err(Halt::Failed(e)) => Err(
                    Halt::Failed(
                        CompileError::ImportFailed {
                            path: path.clone(),
                            from: name.clone(),
                            error: Box::new(e),
                        },
                    ),
                ),
                Err(Halt::Needs(q)) => Err(Halt::Needs(q)),
            }
        },
        Statement::CommandKeyValue(_) => {
            assert(v0 + Seq::<Seq<char>>::empty() =~= v0);
            Err(Halt::Failed(CompileError::InvalidStructure))
        },
        Statement::End => {
            sink.trim_trailing_newline();
            assert(v0 + Seq::<Seq<char>>::empty() =~= v0);
            Ok(())
        },
        _ => {
            let text = render_line(s);
            sink.write_line(indent, text.as_str());
            assert(v0 + Seq::<Seq<char>>::empty() =~= v0);
            Ok(())
        },
    }
}

/// Resolves, checks and enters a file as [`enter_file`] says.
fn enter(
    src: &Sources,
    directory: &String,
    path: &String,
    indent: usize,
    sink: &mut OutputSink,
    visited: &mut Vec<String>,
) -> (r: Result<(), Halt>)
    ensures
        ({
            let run = enter_file(
                *src,
                *directory,
                *path,
                indent as nat,
                old(sink)@,
                views(old(visited)@),
            );
            &&& final(sink)@ == run.out
            &&& views(final(visited)@) == views(old(visited)@) + run.entered
            &&& r == run.result
        }),
    decreases unentered(src.files@, views(old(visited)@)), 0nat, Seq::<Statement>::empty(),
{
    let ghost v0 = views(visited@);
    assert(v0 + Seq::<Seq<char>>::empty() =~= v0);
    let resolution = match src.resolution(directory, path) {
        None => {
            return Err(Halt::Needs(ImportRequest { directory: directory.clone(), path: path.clone() }));
        },
        Some(resolution) => resolution,
    };
    let canonical = match &resolution.found {
        Err(cause) => {
            return Err(
                Halt::Failed(
                    CompileError::FileNotFound {
                        path: path.clone(),
                        directory: directory.clone(),
                        cause: cause.clone(),
                    },
                ),
            );
        },
        Ok(canonical) => canonical,
    };
    let file = match src.file(canonical) {
        None => {
            return Err(Halt::Needs(ImportRequest { directory: directory.clone(), path: path.clone() }));
        },
        Some(file) => file,
    };
    if is_visited(visited, canonical) {
        return Err(Halt::Failed(CompileError::CircularDependency { path: canonical.clone() }));
    }
    visited.push(canonical.clone());
    assert(views(visited@) =~= v0.push(canonical@));
    assert(v0.push(canonical@) =~= v0 + seq![canonical@]);
    match &file.contents {
        Contents::Unreadable(cause) => {
            assert(seq![canonical@] + Seq::<Seq<char>>::empty() =~= seq![canonical@]);
            Err(
                Halt::Failed(
                    CompileError::ReadError {
                        path: canonical.clone(),
                        directory: directory.clone(),
                        cause: cause.clone(),
                    },
                ),
            )
        },
        Contents::Unparsable(cause) => {
            assert(seq![canonical@] + Seq::<Seq<char>>::empty() =~= seq![canonical@]);
            Err(Halt::Failed(CompileError::ParseError { path: canonical.clone(), cause: cause.clone() }))
        },
        Contents::Program(statements) => {
            proof {
                lemma_unentered_enter(src.files@, v0, canonical@);
            }
            let r = lower_sequence(src, &file.directory, path, statements, indent, sink, visited);
            assert(views(visited@) =~= v0 + (seq![canonical@] + views(visited@).subrange(v0.len() as int + 1, views(visited@).len() as int)));
            r
        },
    }
}

/// What a compilation came to.
pub enum CompileOutcome {
    /// The whole output text.
    Complete(String),
    /// The compilation failed; `partial` is the text written before it did.
    Failed { partial: String, error: CompileError },
    /// The compilation needs this file looked up before it can go on.
    Needs(ImportRequest),
}

/// What compiling the file written as `path`, from `directory`, with what
/// `src` knows, does: it enters that file at indentation zero onto an empty
/// output with no file visited.
pub open spec fn compile_run(src: Sources, directory: String, path: String) -> Run {
    enter_file(src, directory, path, 0, Seq::empty(), Seq::empty())
}

/// `r` reports `run`.
pub open spec fn reports(r: CompileOutcome, run: Run) -> bool {
    match run.result {
        Ok(()) => r matches CompileOutcome::Complete(text) && text@ == run.out,
        Err(Halt::Failed(e)) => r matches CompileOutcome::Failed { partial, error } && partial@
            == run.out && error == e,
        Err(Halt::Needs(q)) => r == CompileOutcome::Needs(q),
    }
}

/// Compiles the file written as `path`, resolved from `directory`, into
/// DuckyScript text, with what `src` knows of the file system.
///
/// Imports are compiled in place, depth first, each followed by one blank
/// line; a file entered twice fails as a circular dependency. When the
/// compilation reaches an import that `src` cannot answer, it stops and
/// returns that import: the caller looks it up, records the answer in `src`,
/// and compiles again.
pub fn compile(src: &Sources, directory: &String, path: &String) -> (r: CompileOutcome)
    ensures
        reports(r, compile_run(*src, *directory, *path)),
{
    let mut sink = OutputSink::new();
    let mut visited: Vec<String> = Vec::new();
    assert(views(visited@) =~= Seq::<Seq<char>>::empty());
    match enter(src, directory, path, 0, &mut sink, &mut visited) {
        Ok(()) => CompileOutcome::Complete(sink.into_string()),
        Err(Halt::Failed(error)) => CompileOutcome::Failed { partial: sink.into_string(), error },
        Err(Halt::Needs(request)) => CompileOutcome::Needs(request),
    }
}

} // verus!
