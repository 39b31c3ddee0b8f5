use mallardscript::{compile, CompileError, CompileOutcome, Contents, ImportRequest, Sources, Statement};

fn text(s: &str) -> String {
    s.to_string()
}

fn rem(s: &str) -> Statement {
    Statement::CommandRem(text(s))
}

fn string(s: &str) -> Statement {
    Statement::CommandString(text(s))
}

fn import(s: &str) -> Statement {
    Statement::CommandImport(text(s))
}

fn key(s: &str) -> Statement {
    Statement::CommandKeyValue(text(s))
}

fn block_if(expression: &str, yes: Vec<Statement>, no: Vec<Statement>) -> Statement {
    Statement::BlockIf { expression: text(expression), statements_true: yes, statements_false: no }
}

fn block_while(expression: &str, body: Vec<Statement>) -> Statement {
    Statement::BlockWhile { expression: text(expression), statements: body }
}

/// Records that `written`, looked up from `directory`, is the file at
/// `canonical`, holding `program`.
fn add(src: &mut Sources, directory: &str, written: &str, canonical: &str, program: Vec<Statement>) {
    src.add_resolution(text(directory), text(written), Ok(text(canonical)));
    src.add_file(text(canonical), Contents::Program(program));
}

/// Compiles the entry file `/work/index.ducky`, written as `index.ducky` from `/cwd`.
fn compile_entry(src: &Sources) -> CompileOutcome {
    compile(src, &text("/cwd"), &text("index.ducky"))
}

fn entry_sources(program: Vec<Statement>) -> Sources {
    let mut src = Sources::new();
    add(&mut src, "/cwd", "index.ducky", "/work/index.ducky", program);
    src
}

fn complete(outcome: CompileOutcome) -> String {
    match outcome {
        CompileOutcome::Complete(out) => out,
        CompileOutcome::Failed { partial, .. } => panic!("compilation failed after {:?}", partial),
        CompileOutcome::Needs(q) => panic!("compilation needs {} from {}", q.path, q.directory),
    }
}

fn failed(outcome: CompileOutcome) -> (String, CompileError) {
    match outcome {
        CompileOutcome::Failed { partial, error } => (partial, error),
        _ => panic!("compilation did not fail"),
    }
}

fn compile_program(program: Vec<Statement>) -> String {
    complete(compile_entry(&entry_sources(program)))
}

#[test]
fn test_command_build_duckyscript_valid_rem_only() {
    let out = compile_program(vec![
        rem("Hello, Friend."),
        rem("This is it."),
        rem("Good luck."),
        Statement::End,
    ]);
    assert_eq!(out, "REM Hello, Friend.\nREM This is it.\nREM Good luck.");
}

#[test]
fn test_command_build_duckyscript_valid_rem_string_only() {
    let out = compile_program(vec![rem("Hello, Friend."), string("Typing Typing Typing..."), Statement::End]);
    assert_eq!(out, "REM Hello, Friend.\nSTRING Typing Typing Typing...");
}

#[test]
fn test_command_build_duckyscript_valid_rem_string_variable_only() {
    let out = compile_program(vec![
        rem("Hello, Friend."),
        string("Typing Typing Typing..."),
        Statement::VariableDeclaration { name: text("MY_VARIABLE"), assignment: text("34") },
        Statement::End,
    ]);
    assert_eq!(out, "REM Hello, Friend.\nSTRING Typing Typing Typing...\nVAR $MY_VARIABLE = 34");
}

#[test]
fn test_command_build_duckyscript_valid_rem_string_single_import_only() {
    let mut src = entry_sources(vec![rem("Hello, Friend."), import("/tmp/dep.ducky"), Statement::End]);
    add(&mut src, "/work", "/tmp/dep.ducky", "/tmp/dep.ducky", vec![
        string("Typing Typing Typing..."),
        Statement::End,
    ]);
    assert_eq!(complete(compile_entry(&src)), "REM Hello, Friend.\nSTRING Typing Typing Typing...");
}

#[test]
fn test_command_build_duckyscript_valid_rem_string_multiple_import_only() {
    let mut src = entry_sources(vec![rem("Hello, Friend."), import("/tmp/b.ducky"), Statement::End]);
    add(&mut src, "/work", "/tmp/b.ducky", "/tmp/b.ducky", vec![
        import("/tmp/a.ducky"),
        string("Typing From B..."),
        Statement::End,
    ]);
    add(&mut src, "/tmp", "/tmp/a.ducky", "/tmp/a.ducky", vec![string("Typing From A..."), Statement::End]);
    assert_eq!(
        complete(compile_entry(&src)),
        "REM Hello, Friend.\nSTRING Typing From A...\nSTRING Typing From B..."
    );
}

#[test]
fn test_command_build_duckyscript_valid_if() {
    let out = compile_program(vec![block_if("TRUE", vec![rem("Hello, Friend.")], vec![]), Statement::End]);
    assert_eq!(out, "IF TRUE THEN\n  REM Hello, Friend.\nEND_IF");
}

#[test]
fn test_command_build_duckyscript_valid_if_expression() {
    let out = compile_program(vec![
        block_if("$MY_VARIABLE > 0 && TRUE", vec![rem("Hello, Friend.")], vec![]),
        Statement::End,
    ]);
    assert_eq!(out, "IF $MY_VARIABLE > 0 && TRUE THEN\n  REM Hello, Friend.\nEND_IF");
}

#[test]
fn test_command_build_duckyscript_valid_if_and_else_expression() {
    let out = compile_program(vec![
        block_if("$MY_VARIABLE > 0 && TRUE", vec![rem("Hello, Friend.")], vec![rem("Hello, Dog?")]),
        Statement::End,
    ]);
    assert_eq!(out, "IF $MY_VARIABLE > 0 && TRUE THEN\n  REM Hello, Friend.\nELSE\n  REM Hello, Dog?\nEND_IF");
}

#[test]
fn test_command_build_duckyscript_valid_if_and_else_nested() {
    let out = compile_program(vec![
        block_if(
            "$MY_VARIABLE > 0 && TRUE",
            vec![block_if("TRUE", vec![rem("Hello, Friend.")], vec![])],
            vec![block_if("TRUE", vec![rem("Hello, Dog?")], vec![])],
        ),
        Statement::End,
    ]);
    assert_eq!(
        out,
        "IF $MY_VARIABLE > 0 && TRUE THEN\n  IF TRUE THEN\n    REM Hello, Friend.\n  END_IF\nELSE\n  IF TRUE THEN\n    REM Hello, Dog?\n  END_IF\nEND_IF"
    );
}

#[test]
fn test_command_build_duckyscript_valid_while() {
    let out = compile_program(vec![block_while("TRUE", vec![rem("Hello, Friend.")]), Statement::End]);
    assert_eq!(out, "WHILE TRUE\n  REM Hello, Friend.\nEND_WHILE");
}

#[test]
fn test_command_build_duckyscript_valid_while_nested() {
    let out = compile_program(vec![
        block_while("TRUE", vec![block_while("TRUE", vec![rem("Hello, Friend.")])]),
        Statement::End,
    ]);
    assert_eq!(out, "WHILE TRUE\n  WHILE TRUE\n    REM Hello, Friend.\n  END_WHILE\nEND_WHILE");
}

#[test]
fn test_command_build_duckyscript_valid_multi_command_key() {
    let chord = Statement::CommandKey {
        statements: vec![key("GUI"), key("SHIFT"), key("WINDOWS")],
        remaining_keys: text(""),
    };
    assert_eq!(compile_program(vec![chord, Statement::End]), "GUI SHIFT WINDOWS");
}

#[test]
fn test_command_build_duckyscript_invalid_circular_dependency_imports() {
    let mut src = entry_sources(vec![rem("Hello, Friend."), import("/tmp/b.ducky"), Statement::End]);
    add(&mut src, "/work", "/tmp/b.ducky", "/tmp/b.ducky", vec![
        import("/tmp/a.ducky"),
        string("Typing From B..."),
        Statement::End,
    ]);
    add(&mut src, "/tmp", "/tmp/a.ducky", "/tmp/a.ducky", vec![
        string("Typing From A..."),
        import("/tmp/c.ducky"),
        Statement::End,
    ]);
    add(&mut src, "/tmp", "/tmp/c.ducky", "/tmp/c.ducky", vec![
        import("/tmp/a.ducky"),
        string("Typing From C..."),
        Statement::End,
    ]);
    let (partial, error) = failed(compile_entry(&src));
    assert_eq!(partial, "REM Hello, Friend.\nSTRING Typing From A...\n");
    assert!(error.is_circular());
    match error.root_cause() {
        CompileError::CircularDependency { path } => assert_eq!(path, "/tmp/a.ducky"),
        _ => panic!("not a circular dependency"),
    }
}

#[test]
fn test_command_build_duckyscript_valid_multiple_rem_string_import_relative_only() {
    let mut src = entry_sources(vec![rem("Hello, Friend."), import("./b.ducky"), Statement::End]);
    add(&mut src, "/work", "./b.ducky", "/work/b.ducky", vec![
        import("./a.ducky"),
        string("Typing From B..."),
        Statement::End,
    ]);
    add(&mut src, "/work", "./a.ducky", "/work/a.ducky", vec![string("Typing From A..."), Statement::End]);
    assert_eq!(
        complete(compile_entry(&src)),
        "REM Hello, Friend.\nSTRING Typing From A...\nSTRING Typing From B..."
    );
}

#[test]
fn test_command_build_duckyscript_invalid_delay() {
    let mut src = Sources::new();
    src.add_resolution(text("/cwd"), text("index.ducky"), Ok(text("/work/index.ducky")));
    src.add_file(text("/work/index.ducky"), Contents::Unparsable(text("expected EOI")));
    let (partial, error) = failed(compile_entry(&src));
    assert_eq!(partial, "");
    match error {
        CompileError::ParseError { path, cause } => {
            assert_eq!(path, "/work/index.ducky");
            assert_eq!(cause, "expected EOI");
        }
        _ => panic!("not a parse error"),
    }
}

#[test]
fn test_command_build_duckyscript_invalid_import_not_found() {
    let mut src = entry_sources(vec![rem("Hello, Friend."), import("./__non_existant.ducky"), Statement::End]);
    src.add_resolution(
        text("/work"),
        text("./__non_existant.ducky"),
        Err(text("No such file or directory (os error 2)")),
    );
    let (partial, error) = failed(compile_entry(&src));
    assert_eq!(partial, "REM Hello, Friend.\n");
    match error {
        CompileError::ImportFailed { path, from, error } => {
            assert_eq!(path, "./__non_existant.ducky");
            assert_eq!(from, "index.ducky");
            match *error {
                CompileError::FileNotFound { path, directory, cause } => {
                    assert_eq!(path, "./__non_existant.ducky");
                    assert_eq!(directory, "/work");
                    assert_eq!(cause, "No such file or directory (os error 2)");
                }
                _ => panic!("not a missing file"),
            }
        }
        _ => panic!("not an import failure"),
    }
}

#[test]
fn unknown_entry_is_requested() {
    match compile_entry(&Sources::new()) {
        CompileOutcome::Needs(ImportRequest { directory, path }) => {
            assert_eq!(directory, "/cwd");
            assert_eq!(path, "index.ducky");
        }
        _ => panic!("the entry file was not requested"),
    }
}

#[test]
fn unknown_import_is_requested_from_the_importing_directory() {
    let src = entry_sources(vec![rem("Hello."), import("lib/keys.ducky"), Statement::End]);
    match compile_entry(&src) {
        CompileOutcome::Needs(ImportRequest { directory, path }) => {
            assert_eq!(directory, "/work");
            assert_eq!(path, "lib/keys.ducky");
        }
        _ => panic!("the import was not requested"),
    }
}

#[test]
fn unreadable_entry_fails_with_read_error() {
    let mut src = Sources::new();
    src.add_resolution(text("/cwd"), text("index.ducky"), Ok(text("/work/index.ducky")));
    src.add_file(text("/work/index.ducky"), Contents::Unreadable(text("permission denied")));
    match failed(compile_entry(&src)).1 {
        CompileError::ReadError { path, directory, cause } => {
            assert_eq!(path, "/work/index.ducky");
            assert_eq!(directory, "/cwd");
            assert_eq!(cause, "permission denied");
        }
        _ => panic!("not a read error"),
    }
}

#[test]
fn key_value_at_top_level_is_invalid_structure() {
    let src = entry_sources(vec![rem("Hello."), key("GUI"), Statement::End]);
    let (partial, error) = failed(compile_entry(&src));
    assert_eq!(partial, "REM Hello.\n");
    assert!(matches!(error, CompileError::InvalidStructure));
}

#[test]
fn key_value_inside_a_block_is_invalid_structure() {
    let src = entry_sources(vec![block_while("TRUE", vec![key("GUI")]), Statement::End]);
    let (partial, error) = failed(compile_entry(&src));
    assert_eq!(partial, "WHILE TRUE\n");
    assert!(matches!(error, CompileError::InvalidStructure));
}

#[test]
fn simple_commands_render_keyword_and_value() {
    let out = compile_program(vec![
        Statement::CommandDefaultDelay(text("100")),
        Statement::CommandDefine(text("#WAIT 500")),
        Statement::CommandDelay(text("3000")),
        Statement::CommandExfil(text("$FOO")),
        Statement::CommandStringln(text("hello")),
        Statement::SingleCommand(text("HIDE_PAYLOAD")),
        Statement::VariableAssignment { name: text("X"), assignment: text("$X + 1") },
        Statement::End,
    ]);
    assert_eq!(
        out,
        "DEFAULTDELAY 100\nDEFINE #WAIT 500\nDELAY 3000\nEXFIL $FOO\nSTRINGLN hello\nHIDE_PAYLOAD\n$X = $X + 1"
    );
}

#[test]
fn nested_chords_flatten_depth_first_with_leftover_keys() {
    let inner = Statement::CommandKey { statements: vec![key("SHIFT")], remaining_keys: text("a") };
    let chord = Statement::CommandKey {
        statements: vec![key("CTRL"), inner, rem("ignored"), key("ALT")],
        remaining_keys: text("DELETE"),
    };
    assert_eq!(compile_program(vec![chord, Statement::End]), "CTRL SHIFT a ALT DELETE");
}

#[test]
fn chord_of_leftover_keys_only_has_no_leading_space() {
    let chord = Statement::CommandKey { statements: vec![], remaining_keys: text("x y") };
    assert_eq!(compile_program(vec![chord, Statement::End]), "x y");
}

#[test]
fn empty_chord_renders_an_empty_line() {
    let chord = Statement::CommandKey { statements: vec![], remaining_keys: text("") };
    assert_eq!(compile_program(vec![rem("a"), chord, rem("b"), Statement::End]), "REM a\n\nREM b");
}

#[test]
fn import_inside_a_block_is_indented_and_its_separator_carries_the_indentation() {
    let mut src = entry_sources(vec![block_while("TRUE", vec![import("x.ducky"), rem("after")]), Statement::End]);
    add(&mut src, "/work", "x.ducky", "/work/x.ducky", vec![rem("inside"), Statement::End]);
    assert_eq!(
        complete(compile_entry(&src)),
        "WHILE TRUE\n  REM inside  \n  REM after\nEND_WHILE"
    );
}

#[test]
fn imports_are_emitted_in_order_with_one_blank_line_after_each() {
    let mut src = entry_sources(vec![import("b.ducky"), import("c.ducky"), rem("end"), Statement::End]);
    add(&mut src, "/work", "b.ducky", "/work/b.ducky", vec![rem("b1"), rem("b2"), Statement::End]);
    add(&mut src, "/work", "c.ducky", "/work/c.ducky", vec![rem("c1"), Statement::End]);
    assert_eq!(complete(compile_entry(&src)), "REM b1\nREM b2\nREM c1\nREM end");
}

#[test]
fn second_import_of_the_same_file_is_circular() {
    let mut src = entry_sources(vec![import("b.ducky"), import("./b.ducky"), Statement::End]);
    add(&mut src, "/work", "b.ducky", "/work/b.ducky", vec![rem("b"), Statement::End]);
    src.add_resolution(text("/work"), text("./b.ducky"), Ok(text("/work/b.ducky")));
    let (partial, error) = failed(compile_entry(&src));
    assert_eq!(partial, "REM b\n");
    assert!(error.is_circular());
}

#[test]
fn self_import_is_circular_and_keeps_the_prefix() {
    let src = entry_sources(vec![rem("before"), import("index.ducky"), rem("never"), Statement::End]);
    let mut src = src;
    src.add_resolution(text("/work"), text("index.ducky"), Ok(text("/work/index.ducky")));
    let (partial, error) = failed(compile_entry(&src));
    assert_eq!(partial, "REM before\n");
    assert!(error.is_circular());
}

#[test]
fn compiling_twice_gives_the_same_text() {
    let mut src = entry_sources(vec![rem("x"), import("y.ducky"), block_if("A", vec![rem("z")], vec![]), Statement::End]);
    add(&mut src, "/work", "y.ducky", "/work/y.ducky", vec![string("y"), Statement::End]);
    let first = complete(compile_entry(&src));
    let second = complete(compile_entry(&src));
    assert_eq!(first, second);
    assert_eq!(first, "REM x\nSTRING y\nIF A THEN\n  REM z\nEND_IF");
}

#[test]
fn end_marker_on_empty_output_leaves_it_empty() {
    assert_eq!(compile_program(vec![Statement::End]), "");
}

#[test]
fn parent_directory_strips_the_last_component() {
    assert_eq!(mallardscript::parent_directory("/tmp/a/b.ducky"), "/tmp/a");
    assert_eq!(mallardscript::parent_directory("/b.ducky"), "/");
    assert_eq!(mallardscript::parent_directory("b.ducky"), "");
}

#[test]
fn added_files_resolve_imports_from_their_own_directory() {
    let mut src = Sources::new();
    src.add_file(text("/srv/scripts/main.ducky"), Contents::Program(vec![]));
    let file = src.file(&text("/srv/scripts/main.ducky")).expect("file was added");
    assert_eq!(file.directory, "/srv/scripts");
}

#[test]
fn error_messages_name_each_import_crossed() {
    let mut src = entry_sources(vec![rem("Hello, Friend."), import("./__non_existant.ducky"), Statement::End]);
    src.add_resolution(
        text("/work"),
        text("./__non_existant.ducky"),
        Err(text("No such file or directory (os error 2)")),
    );
    let (_, error) = failed(compile_entry(&src));
    assert_eq!(
        error.messages(),
        vec![
            text("Unable to import file './__non_existant.ducky' from 'index.ducky'."),
            text("Unable to find file input './__non_existant.ducky' from '/work'."),
            text("No such file or directory (os error 2)"),
        ]
    );
}

#[test]
fn circular_error_messages() {
    let src = entry_sources(vec![import("index.ducky"), Statement::End]);
    let mut src = src;
    src.add_resolution(text("/work"), text("index.ducky"), Ok(text("/work/index.ducky")));
    let (_, error) = failed(compile_entry(&src));
    assert_eq!(
        error.messages(),
        vec![
            text("Unable to import file 'index.ducky' from 'index.ducky'."),
            text("Circular dependency detected."),
        ]
    );
}

#[test]
fn output_sink_trims_only_a_trailing_newline() {
    let mut sink = mallardscript::OutputSink::new();
    sink.write_line(4, "REM x");
    assert_eq!(sink.as_str(), "    REM x\n");
    sink.trim_trailing_newline();
    assert_eq!(sink.as_str(), "    REM x");
    sink.trim_trailing_newline();
    assert_eq!(sink.as_str(), "    REM x");
    sink.append("!");
    assert_eq!(sink.into_string(), "    REM x!");
}

#[test]
fn flatten_chord_joins_keys_with_single_spaces() {
    let keys = vec![key("CTRL"), key("ALT")];
    assert_eq!(mallardscript::flatten_chord(&keys, &text("DELETE")), "CTRL ALT DELETE");
    assert_eq!(mallardscript::flatten_chord(&keys, &text("")), "CTRL ALT");
}

#[test]
fn line_count_is_one_per_statement_and_two_per_block() {
    let program = vec![
        rem("a"),
        block_while("T", vec![rem("b"), block_if("X", vec![rem("c")], vec![])]),
        rem("d"),
    ];
    let out = compile_program(program);
    assert_eq!(out.matches('\n').count(), 8);
    assert_eq!(out, "REM a\nWHILE T\n  REM b\n  IF X THEN\n    REM c\n  END_IF\nEND_WHILE\nREM d\n");
}

#[test]
fn three_levels_of_nesting_indent_by_six_spaces() {
    let out = compile_program(vec![
        block_while("A", vec![block_if("B", vec![block_while("C", vec![string("deep")])], vec![])]),
        string("back"),
        Statement::End,
    ]);
    assert_eq!(
        out,
        "WHILE A\n  IF B THEN\n    WHILE C\n      STRING deep\n    END_WHILE\n  END_IF\nEND_WHILE\nSTRING back"
    );
}
