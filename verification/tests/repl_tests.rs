use datex_cli::repl::{
    classify_repl_line, execution_response, indent_continuation_lines, invalid_endpoint_message,
    char_is_whitespace, memory_dump_response, repl_history_path, repl_response, trace_response,
    CommandOutcome, ExecutionOutcome, ReplLine,
    ReplOptions,
};

fn kind(l: &ReplLine) -> String {
    match l {
        ReplLine::Clear => "clear".to_string(),
        ReplLine::ComHubInfo => "com".to_string(),
        ReplLine::LocalMemoryDump => "mem".to_string(),
        ReplLine::Trace(e) => format!("trace:{e}"),
        ReplLine::Execute(x) => format!("exec:{x}"),
    }
}

#[test]
fn classify_commands() {
    assert_eq!(kind(&classify_repl_line("clear")), "clear");
    assert_eq!(kind(&classify_repl_line("  clear\t")), "clear");
    assert_eq!(kind(&classify_repl_line("com")), "com");
    assert_eq!(kind(&classify_repl_line(" mem ")), "mem");
    assert_eq!(kind(&classify_repl_line("trace @alice")), "trace:@alice");
    assert_eq!(kind(&classify_repl_line("trace ")), "trace:");
    // the trace prefix is looked for in the line as typed
    assert_eq!(kind(&classify_repl_line(" trace @alice")), "exec: trace @alice");
    assert_eq!(kind(&classify_repl_line("trace")), "exec:trace");
    assert_eq!(kind(&classify_repl_line("1 + 2")), "exec:1 + 2");
    assert_eq!(kind(&classify_repl_line("comment")), "exec:comment");
    // Unicode whitespace is trimmed as well
    assert_eq!(kind(&classify_repl_line("\u{2003}com\u{a0}")), "com");
}

#[test]
fn repl_messages() {
    assert_eq!(invalid_endpoint_message(), "Invalid endpoint format. Use 'trace <endpoint>'.");
    assert_eq!(memory_dump_response(Some("x".to_string())), "Memory Dump:\n\nx");
    assert_eq!(memory_dump_response(None), "<Memory dump not available>");
    assert_eq!(trace_response(Some("t".to_string())), "t");
    assert_eq!(trace_response(None), "Could not create trace");
}

#[test]
fn execution_responses() {
    assert_eq!(
        execution_response(ExecutionOutcome::CompilerError("bad".to_string())),
        Some("\x1b[31m[Compiler Error] bad\x1b[0m".to_string())
    );
    assert_eq!(
        execution_response(ExecutionOutcome::ExecutionError("boom".to_string())),
        Some("\x1b[31m[Execution Error] boom\x1b[0m".to_string())
    );
    assert_eq!(
        execution_response(ExecutionOutcome::Value(Some("42".to_string()))),
        Some("< 42".to_string())
    );
    assert_eq!(
        execution_response(ExecutionOutcome::Value(Some("{\n  a: 1\n}".to_string()))),
        Some("< {\n    a: 1\n  }".to_string())
    );
    assert_eq!(execution_response(ExecutionOutcome::Value(None)), None);
}

#[test]
fn indentation_follows_lines() {
    assert_eq!(indent_continuation_lines("a\nb\nc"), "a\n  b\n  c");
    assert_eq!(indent_continuation_lines("a\r\nb\n"), "a\n  b");
    assert_eq!(indent_continuation_lines(""), "");
    assert_eq!(indent_continuation_lines("\n\nx"), "\n  \n  x");
}

#[test]
fn repl_paths_and_options() {
    assert_eq!(repl_history_path("/home/u/.datex"), "/home/u/.datex/repl-history.txt");
    assert_eq!(repl_history_path("/home/u/.datex/"), "/home/u/.datex/repl-history.txt");
    let o = ReplOptions::default();
    assert!(!o.verbose);
    assert!(o.config_path.is_none());
}

#[test]
fn whitespace_as_std_has_it() {
    for u in 0..=0x10FFFFu32 {
        if let Some(c) = char::from_u32(u) {
            assert_eq!(char_is_whitespace(c), c.is_whitespace(), "{u:#x}");
        }
    }
}

#[test]
fn one_answer_per_command() {
    let outcomes = vec![
        CommandOutcome::ComHubInfo("hub".to_string()),
        CommandOutcome::LocalMemoryDump(Some("m".to_string())),
        CommandOutcome::LocalMemoryDump(None),
        CommandOutcome::Trace(None),
        CommandOutcome::Trace(Some("t".to_string())),
        CommandOutcome::Execute(ExecutionOutcome::Value(None)),
        CommandOutcome::Execute(ExecutionOutcome::Value(Some("1\n2".to_string()))),
        CommandOutcome::Execute(ExecutionOutcome::CompilerError("e".to_string())),
    ];
    let answers: Vec<Option<String>> = outcomes.into_iter().map(repl_response).collect();
    assert_eq!(
        answers,
        vec![
            Some("hub".to_string()),
            Some("Memory Dump:\n\nm".to_string()),
            Some("<Memory dump not available>".to_string()),
            Some("Could not create trace".to_string()),
            Some("t".to_string()),
            None,
            Some("< 1\n  2".to_string()),
            Some("\x1b[31m[Compiler Error] e\x1b[0m".to_string()),
        ]
    );
}
