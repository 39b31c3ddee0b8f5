use vstd::prelude::*;
use crate::ast::{
    Statement, is_one_line, join_spaced, key_names, leftover, line_text, with_value,
};
use crate::error::{CompileError, Halt};
use crate::lower::{
    INDENTATION_STEP, CompileOutcome, Run, after, compile_run, done, enter_file, failed, lower_seq, lower_stmt,
    reports,
};
use crate::sink::{line, spaces, trim_newline};
use crate::sources::{Contents, Sources, find_file, find_resolution};

verus! {

/// The canonical path that `path`, looked up from `directory`, resolved to,
/// if the lookup was recorded and succeeded.
pub open spec fn resolved(src: Sources, directory: Seq<char>, path: Seq<char>) -> Option<String> {
    match find_resolution(src.resolutions@, directory, path) {
        Some(r) => match r.found {
            Ok(p) => Some(p),
            Err(_) => None,
        },
        None => None,
    }
}

/// The program loaded under canonical path `path`, if it was loaded and parsed.
pub open spec fn program_of(src: Sources, path: Seq<char>) -> Option<Seq<Statement>> {
    match find_file(src.files@, path) {
        Some(f) => match f.contents {
            Contents::Program(ss) => Some(ss@),
            _ => None,
        },
        None => None,
    }
}

/// The directory that the imports of the file loaded under `path` resolve from.
pub open spec fn directory_for(src: Sources, path: Seq<char>) -> Seq<char> {
    match find_file(src.files@, path) {
        Some(f) => f.directory@,
        None => Seq::empty(),
    }
}

/// Every statement lowers to one line.
pub open spec fn all_one_line(ss: Seq<Statement>) -> bool {
    forall|i: int| 0 <= i < ss.len() ==> is_one_line(#[trigger] ss[i])
}

/// The lines that the one-line statements `ss` lower to at `indent`.
pub open spec fn plain_lines(ss: Seq<Statement>, indent: nat) -> Seq<char>
    decreases ss.len(),
{
    if ss.len() == 0 {
        Seq::empty()
    } else {
        line(indent, line_text(ss[0])) + plain_lines(ss.drop_first(), indent)
    }
}

/// Two outcomes say the same: the same text, the same error, the same request.
pub open spec fn same_outcome(a: CompileOutcome, b: CompileOutcome) -> bool {
    match (a, b) {
        (CompileOutcome::Complete(x), CompileOutcome::Complete(y)) => x@ == y@,
        (
            CompileOutcome::Failed { partial: p, error: e },
            CompileOutcome::Failed { partial: q, error: f },
        ) => p@ == q@ && e == f,
        (CompileOutcome::Needs(x), CompileOutcome::Needs(y)) => x == y,
        _ => false,
    }
}

/// Compiling is deterministic: any two outcomes of compiling the same file
/// with the same table say the same, byte for byte.
pub proof fn lemma_compile_deterministic(
    src: Sources,
    directory: String,
    path: String,
    first: CompileOutcome,
    second: CompileOutcome,
)
    requires
        reports(first, compile_run(src, directory, path)),
        reports(second, compile_run(src, directory, path)),
    ensures
        same_outcome(first, second),
{
}

/// Lowering `a + b` is lowering `a`, then, if that went through, lowering `b`
/// from where `a` left off.
pub proof fn lemma_seq_split(
    src: Sources,
    directory: String,
    name: String,
    a: Seq<Statement>,
    b: Seq<Statement>,
    indent: nat,
    out: Seq<char>,
    visited: Seq<Seq<char>>,
)
    ensures
        lower_seq(src, directory, name, a + b, indent, out, visited) == ({
            let ra = lower_seq(src, directory, name, a, indent, out, visited);
            if ra.result is Err {
                ra
            } else {
                after(
                    ra.entered,
                    lower_seq(src, directory, name, b, indent, ra.out, visited + ra.entered),
                )
            }
        }),
    decreases a.len(),
{
    let whole = lower_seq(src, directory, name, a + b, indent, out, visited);
    if a.len() == 0 {
        assert(a + b =~= b);
        assert(visited + Seq::<Seq<char>>::empty() =~= visited);
        let rb = lower_seq(src, directory, name, b, indent, out, visited);
        assert(Seq::<Seq<char>>::empty() + rb.entered =~= rb.entered);
    } else {
        assert((a + b)[0] == a[0]);
        assert((a + b).drop_first() =~= a.drop_first() + b);
        let first = lower_stmt(src, directory, name, a[0], indent, out, visited);
        if first.result is Ok {
            let v1 = visited + first.entered;
            lemma_seq_split(src, directory, name, a.drop_first(), b, indent, first.out, v1);
            let rest = lower_seq(src, directory, name, a.drop_first(), indent, first.out, v1);
            if rest.result is Ok {
                let rb = lower_seq(src, directory, name, b, indent, rest.out, v1 + rest.entered);
                assert(v1 + rest.entered =~= visited + (first.entered + rest.entered));
                assert(first.entered + (rest.entered + rb.entered) =~= (first.entered
                    + rest.entered) + rb.entered);
            }
        }
    }
}

/// One-line statements write their lines one after the other and enter no
/// file.
pub proof fn lemma_plain_lines(
    src: Sources,
    directory: String,
    name: String,
    ss: Seq<Statement>,
    indent: nat,
    out: Seq<char>,
    visited: Seq<Seq<char>>,
)
    requires
        all_one_line(ss),
    ensures
        lower_seq(src, directory, name, ss, indent, out, visited) == done(
            out + plain_lines(ss, indent),
        ),
    decreases ss.len(),
{
    if ss.len() > 0 {
        assert(is_one_line(ss[0]));
        let out1 = out + line(indent, line_text(ss[0]));
        assert(visited + Seq::<Seq<char>>::empty() =~= visited);
        assert(all_one_line(ss.drop_first())) by {
            assert forall|i: int| 0 <= i < ss.drop_first().len() implies is_one_line(
                #[trigger] ss.drop_first()[i],
            ) by {
                assert(ss.drop_first()[i] == ss[i + 1]);
            }
        }
        lemma_plain_lines(src, directory, name, ss.drop_first(), indent, out1, visited);
        assert(out1 + plain_lines(ss.drop_first(), indent) =~= out + plain_lines(ss, indent));
        assert(Seq::<Seq<char>>::empty() + Seq::<Seq<char>>::empty() =~= Seq::<
            Seq<char>,
        >::empty());
        let first = lower_stmt(src, directory, name, ss[0], indent, out, visited);
        assert(first == done(out1));
        let rest = lower_seq(src, directory, name, ss.drop_first(), indent, out1, visited);
        assert(lower_seq(src, directory, name, ss, indent, out, visited) == after(
            Seq::empty(),
            rest,
        ));
    } else {
        assert(out + Seq::<char>::empty() =~= out);
    }
}

/// Entering a file that was already entered fails as a circular dependency
/// and writes nothing.
pub proof fn lemma_reentry_is_circular(
    src: Sources,
    directory: String,
    path: String,
    canonical: String,
    indent: nat,
    out: Seq<char>,
    visited: Seq<Seq<char>>,
)
    requires
        resolved(src, directory@, path@) == Some(canonical),
        find_file(src.files@, canonical@) is Some,
        visited.contains(canonical@),
    ensures
        enter_file(src, directory, path, indent, out, visited) == failed(
            out,
            CompileError::CircularDependency { path: canonical },
        ),
{
}

/// A file that imports a file which imports it straight back fails as a
/// circular dependency, before anything but the lines of the statements
/// ahead of its import is written.
pub proof fn lemma_mutual_import_is_circular(
    src: Sources,
    cwd: String,
    entry: String,
    a: String,
    b: String,
    to_b: String,
    back_to_a: String,
    a_again: String,
    before: Seq<Statement>,
    rest_of_a: Seq<Statement>,
    rest_of_b: Seq<Statement>,
)
    requires
        resolved(src, cwd@, entry@) == Some(a),
        program_of(src, a@) == Some(before + seq![Statement::CommandImport(to_b)] + rest_of_a),
        all_one_line(before),
        resolved(src, directory_for(src, a@), to_b@) == Some(b),
        b@ != a@,
        program_of(src, b@) == Some(seq![Statement::CommandImport(back_to_a)] + rest_of_b),
        resolved(src, directory_for(src, b@), back_to_a@) == Some(a_again),
        a_again@ == a@,
    ensures
        compile_run(src, cwd, entry).out == plain_lines(before, 0),
        compile_run(src, cwd, entry).result == Err::<(), Halt>(
            Halt::Failed(
                CompileError::ImportFailed {
                    path: to_b,
                    from: entry,
                    error: Box::new(
                        CompileError::ImportFailed {
                            path: back_to_a,
                            from: to_b,
                            error: Box::new(CompileError::CircularDependency { path: a_again }),
                        },
                    ),
                },
            ),
        ),
{
    let fa = find_file(src.files@, a@)->0;
    let fb = find_file(src.files@, b@)->0;
    let empty = Seq::<char>::empty();
    let v0 = Seq::<Seq<char>>::empty();
    let va = v0.push(a@);
    assert(!v0.contains(a@));
    let import_b = seq![Statement::CommandImport(to_b)];
    lemma_seq_split(src, fa.directory, entry, before, import_b + rest_of_a, 0, empty, va);
    lemma_plain_lines(src, fa.directory, entry, before, 0, empty, va);
    assert(va + Seq::<Seq<char>>::empty() =~= va);
    let out1 = empty + plain_lines(before, 0);
    lemma_seq_split(src, fa.directory, entry, import_b, rest_of_a, 0, out1, va);
    assert(import_b.drop_first() =~= Seq::<Statement>::empty());
    assert((import_b)[0] == Statement::CommandImport(to_b));
    assert(before + seq![Statement::CommandImport(to_b)] + rest_of_a =~= before + (import_b
        + rest_of_a));
    // Inside B.
    assert(!va.contains(b@)) by {
        if va.contains(b@) {
            let k = choose|k: int| 0 <= k < va.len() && va[k] == b@;
            assert(va[0] == a@);
        }
    }
    let vb = va.push(b@);
    let import_a = seq![Statement::CommandImport(back_to_a)];
    lemma_seq_split(src, fb.directory, to_b, import_a, rest_of_b, 0, out1, vb);
    assert(import_a.drop_first() =~= Seq::<Statement>::empty());
    assert(vb[0] == a@);
    assert(vb.contains(a_again@));
    lemma_reentry_is_circular(src, fb.directory, back_to_a, a_again, 0, out1, vb);
    assert(empty + plain_lines(before, 0) =~= plain_lines(before, 0));
    let circular = CompileError::CircularDependency { path: a_again };
    let inner = CompileError::ImportFailed {
        path: back_to_a,
        from: to_b,
        error: Box::new(circular),
    };
    let outer = CompileError::ImportFailed { path: to_b, from: entry, error: Box::new(inner) };
    let in_b = lower_seq(src, fb.directory, to_b, import_a, 0, out1, vb);
    assert(in_b.out == out1 && in_b.result == Err::<(), Halt>(Halt::Failed(inner)));
    let b_all = lower_seq(src, fb.directory, to_b, import_a + rest_of_b, 0, out1, vb);
    assert(b_all == in_b);
    assert(directory_for(src, a@) == fa.directory@);
    let entered_b = enter_file(src, fa.directory, to_b, 0, out1, va);
    assert(entered_b == after(seq![b@], b_all));
    let stmt_b = lower_stmt(src, fa.directory, entry, Statement::CommandImport(to_b), 0, out1, va);
    assert(stmt_b.out == out1 && stmt_b.result == Err::<(), Halt>(Halt::Failed(outer)));
    let in_a = lower_seq(src, fa.directory, entry, import_b + rest_of_a, 0, out1, va);
    assert(in_a.out == out1 && in_a.result == stmt_b.result);
    let a_all = lower_seq(src, fa.directory, entry, before + (import_b + rest_of_a), 0, empty, va);
    assert(a_all.out == out1 && a_all.result == stmt_b.result);
    assert(compile_run(src, cwd, entry) == after(seq![a@], a_all));
}

/// The lines of one or more one-line statements end with a line break.
pub proof fn lemma_plain_lines_end_with_newline(ss: Seq<Statement>, indent: nat)
    requires
        ss.len() > 0,
    ensures
        plain_lines(ss, indent).len() > 0,
        plain_lines(ss, indent).last() == '\n',
    decreases ss.len(),
{
    let first = line(indent, line_text(ss[0]));
    let rest = plain_lines(ss.drop_first(), indent);
    if ss.drop_first().len() > 0 {
        lemma_plain_lines_end_with_newline(ss.drop_first(), indent);
        assert((first + rest).last() == rest.last());
    } else {
        assert(rest =~= Seq::<char>::empty());
        assert(first + rest =~= first);
    }
}

/// A file made of one-line statements and the end marker writes its lines,
/// less the last line break.
pub proof fn lemma_plain_file(
    src: Sources,
    directory: String,
    path: String,
    canonical: String,
    body: Seq<Statement>,
    indent: nat,
    out: Seq<char>,
    visited: Seq<Seq<char>>,
)
    requires
        resolved(src, directory@, path@) == Some(canonical),
        program_of(src, canonical@) == Some(body + seq![Statement::End]),
        body.len() > 0,
        all_one_line(body),
        !visited.contains(canonical@),
    ensures
        enter_file(src, directory, path, indent, out, visited) == (Run {
            out: (out + plain_lines(body, indent)).drop_last(),
            entered: seq![canonical@],
            result: Ok(()),
        }),
{
    let f = find_file(src.files@, canonical@)->0;
    let v1 = visited.push(canonical@);
    let end = seq![Statement::End];
    lemma_seq_split(src, f.directory, path, body, end, indent, out, v1);
    lemma_plain_lines(src, f.directory, path, body, indent, out, v1);
    lemma_plain_lines_end_with_newline(body, indent);
    let written = out + plain_lines(body, indent);
    assert(v1 + Seq::<Seq<char>>::empty() =~= v1);
    assert(end.drop_first() =~= Seq::<Statement>::empty());
    assert(end[0] == Statement::End);
    assert(written.last() == '\n');
    let tail = lower_seq(src, f.directory, path, end, indent, written, v1);
    let trimmed = trim_newline(written);
    assert(lower_stmt(src, f.directory, path, end[0], indent, written, v1) == done(trimmed));
    assert(lower_seq(src, f.directory, path, end.drop_first(), indent, trimmed, v1 + Seq::<Seq<char>>::empty()) == done(trimmed));
    assert(tail.out == trimmed);
    assert(Seq::<Seq<char>>::empty() + Seq::<Seq<char>>::empty() =~= Seq::<Seq<char>>::empty());
    assert(seq![canonical@] + Seq::<Seq<char>>::empty() =~= seq![canonical@]);
}

/// Imports are lowered in the order written: the second file is entered from
/// the text that the first one left followed by its separator line, with the
/// files that the first one entered already visited, and the files entered
/// by the first come before those entered by the second.
pub proof fn lemma_imports_in_order(
    src: Sources,
    directory: String,
    name: String,
    b: String,
    c: String,
    indent: nat,
    out: Seq<char>,
    visited: Seq<Seq<char>>,
)
    ensures
        ({
            let two = seq![Statement::CommandImport(b), Statement::CommandImport(c)];
            let run = lower_seq(src, directory, name, two, indent, out, visited);
            let rb = enter_file(src, directory, b, indent, out, visited);
            let rc = enter_file(
                src,
                directory,
                c,
                indent,
                rb.out + line(indent, Seq::empty()),
                visited + rb.entered,
            );
            rb.result is Ok && rc.result is Ok ==> run == (Run {
                out: rc.out + line(indent, Seq::empty()),
                entered: rb.entered + rc.entered,
                result: Ok(()),
            })
        }),
{
    let two = seq![Statement::CommandImport(b), Statement::CommandImport(c)];
    let rb = enter_file(src, directory, b, indent, out, visited);
    let rc = enter_file(
        src,
        directory,
        c,
        indent,
        rb.out + line(indent, Seq::empty()),
        visited + rb.entered,
    );
    if rb.result is Ok && rc.result is Ok {
        let sep = line(indent, Seq::empty());
        assert(two[0] == Statement::CommandImport(b));
        assert(two.drop_first() =~= seq![Statement::CommandImport(c)]);
        assert(two.drop_first()[0] == Statement::CommandImport(c));
        assert(two.drop_first().drop_first() =~= Seq::<Statement>::empty());
        let first = lower_stmt(src, directory, name, two[0], indent, out, visited);
        assert(first == (Run { out: rb.out + sep, entered: rb.entered, result: Ok::<(), Halt>(()) }));
        let second = lower_stmt(
            src,
            directory,
            name,
            two.drop_first()[0],
            indent,
            rb.out + sep,
            visited + rb.entered,
        );
        assert(second == (Run { out: rc.out + sep, entered: rc.entered, result: Ok::<(), Halt>(()) }));
        let v2 = visited + rb.entered + rc.entered;
        assert(lower_seq(src, directory, name, two.drop_first().drop_first(), indent, rc.out + sep, v2) == done(rc.out + sep));
        let rest = lower_seq(src, directory, name, two.drop_first(), indent, rb.out + sep, visited + rb.entered);
        assert(rest == after(rc.entered, done(rc.out + sep)));
        assert(rc.entered + Seq::<Seq<char>>::empty() =~= rc.entered);
        assert(rb.entered + (rc.entered + Seq::<Seq<char>>::empty()) =~= rb.entered + rc.entered);
    }
}

/// At the top level, importing B and then C, two files made of one-line
/// statements and the end marker, writes all of B's lines and then all of
/// C's lines: the separator line after each import puts back the line break
/// that the end of its file took away.
pub proof fn lemma_imports_write_files_in_order(
    src: Sources,
    directory: String,
    name: String,
    b: String,
    c: String,
    canonical_b: String,
    canonical_c: String,
    body_b: Seq<Statement>,
    body_c: Seq<Statement>,
    out: Seq<char>,
    visited: Seq<Seq<char>>,
)
    requires
        resolved(src, directory@, b@) == Some(canonical_b),
        program_of(src, canonical_b@) == Some(body_b + seq![Statement::End]),
        body_b.len() > 0,
        all_one_line(body_b),
        !visited.contains(canonical_b@),
        resolved(src, directory@, c@) == Some(canonical_c),
        program_of(src, canonical_c@) == Some(body_c + seq![Statement::End]),
        body_c.len() > 0,
        all_one_line(body_c),
        !visited.contains(canonical_c@),
        canonical_b@ != canonical_c@,
    ensures
        lower_seq(
            src,
            directory,
            name,
            seq![Statement::CommandImport(b), Statement::CommandImport(c)],
            0,
            out,
            visited,
        ) == (Run {
            out: out + plain_lines(body_b, 0) + plain_lines(body_c, 0),
            entered: seq![canonical_b@, canonical_c@],
            result: Ok(()),
        }),
{
    let separator = line(0, Seq::empty());
    assert(separator =~= seq!['\n']) by {
        assert(spaces(0) =~= Seq::<char>::empty());
    }
    lemma_plain_file(src, directory, b, canonical_b, body_b, 0, out, visited);
    let wb = out + plain_lines(body_b, 0);
    lemma_plain_lines_end_with_newline(body_b, 0);
    assert(wb.drop_last() + separator =~= wb);
    let v1 = visited + seq![canonical_b@];
    assert(!v1.contains(canonical_c@)) by {
        if v1.contains(canonical_c@) {
            let k = choose|k: int| 0 <= k < v1.len() && v1[k] == canonical_c@;
            if k < visited.len() {
                assert(visited[k] == canonical_c@);
            }
        }
    }
    lemma_plain_file(src, directory, c, canonical_c, body_c, 0, wb, v1);
    let wc = wb + plain_lines(body_c, 0);
    lemma_plain_lines_end_with_newline(body_c, 0);
    assert(wc.drop_last() + separator =~= wc);
    lemma_imports_in_order(src, directory, name, b, c, 0, out, visited);
    assert(seq![canonical_b@] + seq![canonical_c@] =~= seq![canonical_b@, canonical_c@]);
}

/// `s` is `n` levels of blocks, each holding nothing but the next (a WHILE,
/// or an IF without ELSE), around the one-line statement `inner`.
pub open spec fn block_tower(s: Statement, inner: Statement, n: nat) -> bool
    decreases n,
{
    if n == 0 {
        s == inner && is_one_line(inner)
    } else {
        match s {
            Statement::BlockWhile { statements, .. } => statements@.len() == 1 && block_tower(
                statements@[0],
                inner,
                (n - 1) as nat,
            ),
            Statement::BlockIf { statements_true, statements_false, .. } => statements_true@.len()
                == 1 && statements_false@.len() == 0 && block_tower(
                statements_true@[0],
                inner,
                (n - 1) as nat,
            ),
            _ => false,
        }
    }
}

/// The opening lines of the `n` outer blocks of a tower, outermost first,
/// each at its own block's indentation.
pub open spec fn tower_open(s: Statement, n: nat, indent: nat) -> Seq<char>
    decreases n,
{
    if n == 0 {
        Seq::empty()
    } else {
        match s {
            Statement::BlockWhile { expression, statements } => line(
                indent,
                "WHILE "@ + expression@,
            ) + tower_open(statements@[0], (n - 1) as nat, (indent + INDENTATION_STEP) as nat),
            Statement::BlockIf { expression, statements_true, .. } => line(
                indent,
                "IF "@ + expression@ + " THEN"@,
            ) + tower_open(statements_true@[0], (n - 1) as nat, (indent + INDENTATION_STEP) as nat),
            _ => Seq::empty(),
        }
    }
}

/// The closing lines of the `n` outer blocks of a tower, innermost first,
/// each at its own block's indentation.
pub open spec fn tower_close(s: Statement, n: nat, indent: nat) -> Seq<char>
    decreases n,
{
    if n == 0 {
        Seq::empty()
    } else {
        match s {
            Statement::BlockWhile { statements, .. } => tower_close(
                statements@[0],
                (n - 1) as nat,
                (indent + INDENTATION_STEP) as nat,
            ) + line(indent, "END_WHILE"@),
            Statement::BlockIf { statements_true, .. } => tower_close(
                statements_true@[0],
                (n - 1) as nat,
                (indent + INDENTATION_STEP) as nat,
            ) + line(indent, "END_IF"@),
            _ => Seq::empty(),
        }
    }
}

/// A one-line statement nested in `n` blocks is written after exactly
/// `indent + 2 * n` spaces, between the opening and closing lines of the
/// blocks, each at its own block's indentation.
pub proof fn lemma_tower_indentation(
    src: Sources,
    directory: String,
    name: String,
    s: Statement,
    inner: Statement,
    n: nat,
    indent: nat,
    out: Seq<char>,
    visited: Seq<Seq<char>>,
)
    requires
        block_tower(s, inner, n),
        indent + 2 * n <= usize::MAX,
    ensures
        lower_stmt(src, directory, name, s, indent, out, visited) == done(
            out + tower_open(s, n, indent) + line((indent + 2 * n) as nat, line_text(inner)) + tower_close(
                s,
                n,
                indent,
            ),
        ),
    decreases n,
{
    let none = Seq::<Seq<char>>::empty();
    if n == 0 {
        assert(out + Seq::<char>::empty() + line(indent, line_text(inner)) + Seq::<char>::empty()
            =~= out + line(indent, line_text(inner)));
    } else {
        let inner_indent = (indent + INDENTATION_STEP) as nat;
        let (head, child, closer) = match s {
            Statement::BlockWhile { expression, statements } => (
                line(indent, "WHILE "@ + expression@),
                statements@,
                line(indent, "END_WHILE"@),
            ),
            Statement::BlockIf { expression, statements_true, .. } => (
                line(indent, "IF "@ + expression@ + " THEN"@),
                statements_true@,
                line(indent, "END_IF"@),
            ),
            _ => (Seq::empty(), Seq::empty(), Seq::empty()),
        };
        let opened = out + head;
        lemma_tower_indentation(
            src,
            directory,
            name,
            child[0],
            inner,
            (n - 1) as nat,
            inner_indent,
            opened,
            visited,
        );
        let middle = tower_open(child[0], (n - 1) as nat, inner_indent) + line(
            (inner_indent + 2 * (n - 1)) as nat,
            line_text(inner),
        ) + tower_close(child[0], (n - 1) as nat, inner_indent);
        assert(inner_indent + 2 * (n - 1) == indent + 2 * n);
        assert(opened + tower_open(child[0], (n - 1) as nat, inner_indent) + line(
            (inner_indent + 2 * (n - 1)) as nat,
            line_text(inner),
        ) + tower_close(child[0], (n - 1) as nat, inner_indent) =~= opened + middle);
        assert(child.drop_first() =~= Seq::<Statement>::empty());
        assert(lower_seq(src, directory, name, child.drop_first(), inner_indent, opened + middle, visited + none) == done(opened + middle));
        assert(none + none =~= none);
        assert(lower_seq(src, directory, name, child, inner_indent, opened, visited) == done(opened + middle));
        assert(opened + middle + closer =~= out + tower_open(s, n, indent) + line(
            (indent + 2 * n) as nat,
            line_text(inner),
        ) + tower_close(s, n, indent));
    }
}

/// A statement nested in `n` blocks is written after exactly `indent + 2 * n`
/// spaces, and the statement that follows the blocks is written back at
/// `indent`.
pub proof fn lemma_nested_indentation(
    src: Sources,
    directory: String,
    name: String,
    s: Statement,
    inner: Statement,
    n: nat,
    next: Statement,
    indent: nat,
    out: Seq<char>,
    visited: Seq<Seq<char>>,
)
    requires
        block_tower(s, inner, n),
        is_one_line(next),
        indent + 2 * n <= usize::MAX,
    ensures
        lower_seq(src, directory, name, seq![s, next], indent, out, visited) == done(
            out + tower_open(s, n, indent) + line((indent + 2 * n) as nat, line_text(inner)) + tower_close(
                s,
                n,
                indent,
            ) + line(indent, line_text(next)),
        ),
{
    let none = Seq::<Seq<char>>::empty();
    let two = seq![s, next];
    lemma_tower_indentation(src, directory, name, s, inner, n, indent, out, visited);
    let w1 = out + tower_open(s, n, indent) + line((indent + 2 * n) as nat, line_text(inner)) + tower_close(
        s,
        n,
        indent,
    );
    let w2 = w1 + line(indent, line_text(next));
    assert(two[0] == s);
    assert(two.drop_first() =~= seq![next]);
    assert(two.drop_first()[0] == next);
    assert(two.drop_first().drop_first() =~= Seq::<Statement>::empty());
    assert(visited + none =~= visited);
    assert(none + none =~= none);
    assert(lower_stmt(src, directory, name, next, indent, w1, visited) == done(w2));
    assert(lower_seq(src, directory, name, two.drop_first().drop_first(), indent, w2, visited) == done(w2));
    assert(lower_seq(src, directory, name, two.drop_first(), indent, w1, visited) == done(w2));
}

/// No character of `t` is a line break.
pub open spec fn no_break(t: Seq<char>) -> bool {
    forall|i: int| 0 <= i < t.len() ==> t[i] != '\n'
}

/// The number of line breaks in `t`.
pub open spec fn newlines(t: Seq<char>) -> nat
    decreases t.len(),
{
    if t.len() == 0 {
        0
    } else {
        newlines(t.drop_last()) + if t.last() == '\n' {
            1nat
        } else {
            0nat
        }
    }
}

/// No key name of a chord's key statements holds a line break.
pub open spec fn keys_clean(ss: Seq<Statement>) -> bool
    decreases ss,
{
    if ss.len() == 0 {
        true
    } else {
        keys_clean(ss.drop_last()) && match ss.last() {
            Statement::CommandKey { statements, remaining_keys } => keys_clean(statements@)
                && no_break(remaining_keys@),
            Statement::CommandKeyValue(name) => no_break(name@),
            _ => true,
        }
    }
}

/// No text that a one-line statement holds has a line break.
pub open spec fn texts_clean(s: Statement) -> bool {
    match s {
        Statement::CommandDefaultDelay(v) => no_break(v@),
        Statement::CommandDefine(v) => no_break(v@),
        Statement::CommandDelay(v) => no_break(v@),
        Statement::CommandExfil(v) => no_break(v@),
        Statement::CommandRem(v) => no_break(v@),
        Statement::CommandString(v) => no_break(v@),
        Statement::CommandStringln(v) => no_break(v@),
        Statement::SingleCommand(v) => no_break(v@),
        Statement::CommandKey { statements, remaining_keys } => keys_clean(statements@) && no_break(
            remaining_keys@,
        ),
        Statement::VariableDeclaration { name, assignment } => no_break(name@) && no_break(
            assignment@,
        ),
        Statement::VariableAssignment { name, assignment } => no_break(name@) && no_break(
            assignment@,
        ),
        _ => false,
    }
}

/// Statements that each lower to lines of their own: no import, no end
/// marker, no key statement outside a chord, no IF with an ELSE branch, and
/// no text with a line break.
pub open spec fn flat(ss: Seq<Statement>) -> bool
    decreases ss,
{
    if ss.len() == 0 {
        true
    } else {
        flat(ss.drop_first()) && match ss[0] {
            Statement::BlockIf { expression, statements_true, statements_false } => no_break(
                expression@,
            ) && statements_false@.len() == 0 && flat(statements_true@),
            Statement::BlockWhile { expression, statements } => no_break(expression@) && flat(
                statements@,
            ),
            _ => is_one_line(ss[0]) && texts_clean(ss[0]),
        }
    }
}

/// The deepest nesting of blocks in `ss`.
pub open spec fn depth(ss: Seq<Statement>) -> nat
    decreases ss,
{
    if ss.len() == 0 {
        0
    } else {
        let rest = depth(ss.drop_first());
        let here = match ss[0] {
            Statement::BlockIf { statements_true, .. } => 1 + depth(statements_true@),
            Statement::BlockWhile { statements, .. } => 1 + depth(statements@),
            _ => 0,
        };
        if here > rest {
            here
        } else {
            rest
        }
    }
}

/// One line for each statement that is not a block, two for each block
/// (its opening and closing lines), and the lines of the statements it holds.
pub open spec fn line_count(ss: Seq<Statement>) -> nat
    decreases ss,
{
    if ss.len() == 0 {
        0
    } else {
        line_count(ss.drop_first()) + match ss[0] {
            Statement::BlockIf { statements_true, .. } => 2 + line_count(statements_true@),
            Statement::BlockWhile { statements, .. } => 2 + line_count(statements@),
            _ => 1,
        }
    }
}

proof fn lemma_newlines_add(a: Seq<char>, b: Seq<char>)
    ensures
        newlines(a + b) == newlines(a) + newlines(b),
    decreases b.len(),
{
    if b.len() == 0 {
        assert(a + b =~= a);
    } else {
        assert((a + b).drop_last() =~= a + b.drop_last());
        lemma_newlines_add(a, b.drop_last());
    }
}

proof fn lemma_no_break_newlines(t: Seq<char>)
    requires
        no_break(t),
    ensures
        newlines(t) == 0,
    decreases t.len(),
{
    if t.len() > 0 {
        assert(no_break(t.drop_last())) by {
            assert forall|i: int| 0 <= i < t.drop_last().len() implies t.drop_last()[i] != '\n' by {
                assert(t.drop_last()[i] == t[i]);
            }
        }
        lemma_no_break_newlines(t.drop_last());
    }
}

proof fn lemma_no_break_add(a: Seq<char>, b: Seq<char>)
    requires
        no_break(a),
        no_break(b),
    ensures
        no_break(a + b),
{
    assert forall|i: int| 0 <= i < (a + b).len() implies (a + b)[i] != '\n' by {
        if i >= a.len() {
            assert((a + b)[i] == b[i - a.len()]);
        }
    }
}

proof fn lemma_line_newlines(indent: nat, text: Seq<char>)
    requires
        no_break(text),
    ensures
        newlines(line(indent, text)) == 1,
{
    assert(no_break(spaces(indent)));
    lemma_no_break_add(spaces(indent), text);
    let body = spaces(indent) + text;
    lemma_no_break_newlines(body);
    lemma_newlines_add(body, seq!['\n']);
    assert(seq!['\n'].drop_last() =~= Seq::<char>::empty());
    assert(newlines(Seq::<char>::empty()) == 0);
    assert(newlines(seq!['\n']) == 1);
}

proof fn lemma_join_no_break(words: Seq<Seq<char>>)
    requires
        forall|i: int| 0 <= i < words.len() ==> no_break(#[trigger] words[i]),
    ensures
        no_break(join_spaced(words)),
    decreases words.len(),
{
    if words.len() == 1 {
        assert(no_break(words[0]));
    } else if words.len() > 1 {
        assert forall|i: int| 0 <= i < words.drop_last().len() implies no_break(
            #[trigger] words.drop_last()[i],
        ) by {
            assert(words.drop_last()[i] == words[i]);
        }
        lemma_join_no_break(words.drop_last());
        assert(no_break(seq![' ']));
        lemma_no_break_add(join_spaced(words.drop_last()), seq![' ']);
        assert(no_break(words[words.len() - 1]));
        lemma_no_break_add(join_spaced(words.drop_last()) + seq![' '], words.last());
    }
}

proof fn lemma_key_names_no_break(ss: Seq<Statement>)
    requires
        keys_clean(ss),
    ensures
        forall|i: int| 0 <= i < key_names(ss).len() ==> no_break(#[trigger] key_names(ss)[i]),
    decreases ss,
{
    if ss.len() > 0 {
        lemma_key_names_no_break(ss.drop_last());
        let front = key_names(ss.drop_last());
        match ss.last() {
            Statement::CommandKey { statements, remaining_keys } => {
                lemma_key_names_no_break(statements@);
                let last = key_names(statements@) + leftover(remaining_keys@);
                assert forall|i: int| 0 <= i < key_names(ss).len() implies no_break(
                    #[trigger] key_names(ss)[i],
                ) by {
                    if i >= front.len() {
                        let j = i - front.len();
                        if j >= key_names(statements@).len() {
                            assert(last[j] == remaining_keys@);
                        } else {
                            assert(last[j] == key_names(statements@)[j]);
                        }
                        assert(key_names(ss)[i] == last[j]);
                    } else {
                        assert(key_names(ss)[i] == front[i]);
                    }
                }
            },
            Statement::CommandKeyValue(name) => {
                assert forall|i: int| 0 <= i < key_names(ss).len() implies no_break(
                    #[trigger] key_names(ss)[i],
                ) by {
                    if i < front.len() {
                        assert(key_names(ss)[i] == front[i]);
                    } else {
                        assert(key_names(ss)[i] == name@);
                    }
                }
            },
            _ => {
                assert(key_names(ss) =~= front);
            },
        }
    }
}

proof fn lemma_keyword_no_break(keyword: Seq<char>, value: Seq<char>)
    requires
        no_break(keyword),
        no_break(value),
    ensures
        no_break(with_value(keyword, value)),
{
    assert(no_break(seq![' ']));
    lemma_no_break_add(keyword, seq![' ']);
    lemma_no_break_add(keyword + seq![' '], value);
}

proof fn lemma_line_text_no_break(s: Statement)
    requires
        is_one_line(s),
        texts_clean(s),
    ensures
        no_break(line_text(s)),
{
    reveal_strlit("DEFAULTDELAY");
    reveal_strlit("DEFINE");
    reveal_strlit("DELAY");
    reveal_strlit("EXFIL");
    reveal_strlit("REM");
    reveal_strlit("STRING");
    reveal_strlit("STRINGLN");
    reveal_strlit("VAR $");
    reveal_strlit(" = ");
    reveal_strlit("$");
    match s {
        Statement::CommandDefaultDelay(v) => lemma_keyword_no_break("DEFAULTDELAY"@, v@),
        Statement::CommandDefine(v) => lemma_keyword_no_break("DEFINE"@, v@),
        Statement::CommandDelay(v) => lemma_keyword_no_break("DELAY"@, v@),
        Statement::CommandExfil(v) => lemma_keyword_no_break("EXFIL"@, v@),
        Statement::CommandRem(v) => lemma_keyword_no_break("REM"@, v@),
        Statement::CommandString(v) => lemma_keyword_no_break("STRING"@, v@),
        Statement::CommandStringln(v) => lemma_keyword_no_break("STRINGLN"@, v@),
        Statement::CommandKey { statements, remaining_keys } => {
            lemma_key_names_no_break(statements@);
            let words = key_names(statements@) + leftover(remaining_keys@);
            assert forall|i: int| 0 <= i < words.len() implies no_break(#[trigger] words[i]) by {
                if i < key_names(statements@).len() {
                    assert(words[i] == key_names(statements@)[i]);
                }
            }
            lemma_join_no_break(words);
        },
        Statement::VariableDeclaration { name, assignment } => {
            lemma_no_break_add("VAR $"@, name@);
            lemma_no_break_add("VAR $"@ + name@, " = "@);
            lemma_no_break_add("VAR $"@ + name@ + " = "@, assignment@);
        },
        Statement::VariableAssignment { name, assignment } => {
            lemma_no_break_add("$"@, name@);
            lemma_no_break_add("$"@ + name@, " = "@);
            lemma_no_break_add("$"@ + name@ + " = "@, assignment@);
        },
        _ => {},
    }
}

/// Lowering never drops or repeats a statement: statements without imports,
/// end markers, stray key statements, ELSE branches or line breaks in their
/// texts go through, enter no file, and add exactly [`line_count`] lines.
pub proof fn lemma_line_count(
    src: Sources,
    directory: String,
    name: String,
    ss: Seq<Statement>,
    indent: nat,
    out: Seq<char>,
    visited: Seq<Seq<char>>,
)
    requires
        flat(ss),
        indent + 2 * depth(ss) <= usize::MAX,
    ensures
        ({
            let run = lower_seq(src, directory, name, ss, indent, out, visited);
            &&& run.result is Ok
            &&& run.entered.len() == 0
            &&& newlines(run.out) == newlines(out) + line_count(ss)
        }),
    decreases ss,
{
    if ss.len() > 0 {
        let none = Seq::<Seq<char>>::empty();
        let first = lower_stmt(src, directory, name, ss[0], indent, out, visited);
        assert(indent + 2 * depth(ss.drop_first()) <= usize::MAX);
        reveal_strlit("IF ");
        reveal_strlit(" THEN");
        reveal_strlit("END_IF");
        reveal_strlit("WHILE ");
        reveal_strlit("END_WHILE");
        let inner = (indent + INDENTATION_STEP) as nat;
        match ss[0] {
            Statement::BlockIf { expression, statements_true, statements_false } => {
                let head = "IF "@ + expression@ + " THEN"@;
                lemma_no_break_add("IF "@, expression@);
                lemma_no_break_add("IF "@ + expression@, " THEN"@);
                lemma_line_newlines(indent, head);
                let opened = out + line(indent, head);
                lemma_newlines_add(out, line(indent, head));
                assert(inner + 2 * depth(statements_true@) <= usize::MAX);
                lemma_line_count(src, directory, name, statements_true@, inner, opened, visited);
                let yes = lower_seq(src, directory, name, statements_true@, inner, opened, visited);
                lemma_line_newlines(indent, "END_IF"@);
                lemma_newlines_add(yes.out, line(indent, "END_IF"@));
                assert(first.out == yes.out + line(indent, "END_IF"@));
            },
            Statement::BlockWhile { expression, statements } => {
                let head = "WHILE "@ + expression@;
                lemma_no_break_add("WHILE "@, expression@);
                lemma_line_newlines(indent, head);
                let opened = out + line(indent, head);
                lemma_newlines_add(out, line(indent, head));
                assert(inner + 2 * depth(statements@) <= usize::MAX);
                lemma_line_count(src, directory, name, statements@, inner, opened, visited);
                let body = lower_seq(src, directory, name, statements@, inner, opened, visited);
                lemma_line_newlines(indent, "END_WHILE"@);
                lemma_newlines_add(body.out, line(indent, "END_WHILE"@));
                assert(first.out == body.out + line(indent, "END_WHILE"@));
            },
            _ => {
                lemma_line_text_no_break(ss[0]);
                lemma_line_newlines(indent, line_text(ss[0]));
                lemma_newlines_add(out, line(indent, line_text(ss[0])));
                assert(first == done(out + line(indent, line_text(ss[0]))));
            },
        }
        assert(first.result is Ok && first.entered.len() == 0);
        assert(first.entered =~= none);
        assert(visited + first.entered =~= visited);
        lemma_line_count(src, directory, name, ss.drop_first(), indent, first.out, visited);
        let rest = lower_seq(src, directory, name, ss.drop_first(), indent, first.out, visited);
        assert(lower_seq(src, directory, name, ss, indent, out, visited) == after(
            first.entered,
            rest,
        ));
        assert((first.entered + rest.entered).len() == 0);
    }
}

} // verus!
