use easy_repl::{ArgInfo, BuilderError, Command, CommandStatus, CriticalError, Handler,
    HandlerError, InputEvent, LoopStatus, Repl, ReplBuilder, TypeTag};

enum TestAction {
    Done,
    Quit,
    QuitIfArgs(Vec<String>),
    Critical(String),
    Recoverable(String),
}

struct TestHandler(TestAction);

impl Handler for TestHandler {
    fn handle(&mut self, args: &Vec<String>) -> Result<CommandStatus, HandlerError> {
        match &self.0 {
            TestAction::Done => Ok(CommandStatus::Done),
            TestAction::Quit => Ok(CommandStatus::Quit),
            TestAction::QuitIfArgs(want) => {
                if args == want {
                    Ok(CommandStatus::Quit)
                } else {
                    Err(HandlerError::Recoverable("unexpected arguments".to_string()))
                }
            }
            TestAction::Critical(m) => {
                Err(HandlerError::Critical(CriticalError::Critical(m.clone())))
            }
            TestAction::Recoverable(m) => Err(HandlerError::Recoverable(m.clone())),
        }
    }
}

fn builder() -> ReplBuilder<TestHandler> {
    Repl::builder()
}

fn done_cmd(desc: &str) -> Command<TestHandler> {
    Command::new(desc, vec![], TestHandler(TestAction::Done))
}

fn unnamed(tags: &[TypeTag]) -> Vec<ArgInfo> {
    tags.iter().map(|t| ArgInfo { name: None, tag: *t }).collect()
}

fn strings(items: &[&str]) -> Vec<String> {
    items.iter().map(|s| s.to_string()).collect()
}

#[test]
fn repl_builder_duplicate() {
    let result = builder()
        .add("name_x", done_cmd(""))
        .add("name_x", done_cmd(""))
        .build();
    assert!(matches!(result, Err(BuilderError::DuplicateCommands(_))));
}

#[test]
fn repl_builder_empty() {
    let result = builder().add("", done_cmd("")).build();
    assert!(matches!(result, Err(BuilderError::InvalidName(_))));
}

#[test]
fn repl_builder_spaces() {
    let result = builder().add("name-with spaces", done_cmd("")).build();
    assert!(matches!(result, Err(BuilderError::InvalidName(_))));
}

#[test]
fn repl_builder_reserved() {
    let result = builder().add("help", done_cmd("")).build();
    assert!(matches!(result, Err(BuilderError::ReservedName(_))));
    let result = builder().add("quit", done_cmd("")).build();
    assert!(matches!(result, Err(BuilderError::ReservedName(_))));
}

#[test]
fn repl_quits() {
    let mut out: Vec<String> = Vec::new();
    let mut repl = builder().add("foo", done_cmd("description")).build().unwrap();
    assert_eq!(repl.handle_line("quit", &mut out).unwrap(), LoopStatus::Break);
    let mut repl = builder()
        .add("foo", Command::new("description", vec![], TestHandler(TestAction::Quit)))
        .build()
        .unwrap();
    assert_eq!(repl.handle_line("foo", &mut out).unwrap(), LoopStatus::Break);
}

#[test]
fn builder_succeeds_on_valid_names() {
    // a name is valid whenever it tokenizes to exactly itself: the
    // comment character is ordinary inside a word, and carriage return
    // is not a shell delimiter
    let result = builder()
        .add("alpha", done_cmd("a"))
        .add("beta_2", done_cmd("b"))
        .add("gamma-x", done_cmd("c"))
        .add("ab#cd", done_cmd("d"))
        .add("a\rb", done_cmd("e"))
        .build();
    assert!(result.is_ok());
}

#[test]
fn leading_comment_character_is_invalid() {
    // a name starting with the comment character would swallow the line
    let result = builder().add("#ab", done_cmd("")).build();
    match result {
        Err(BuilderError::InvalidName(n)) => assert_eq!(n, "#ab"),
        other => panic!("expected invalid name, got {:?}", other.err()),
    }
}

#[test]
fn name_with_inner_comment_character_is_callable() {
    let mut out: Vec<String> = Vec::new();
    let mut repl = builder()
        .add("ab#cd", Command::new("", vec![], TestHandler(TestAction::Quit)))
        .build()
        .unwrap();
    assert_eq!(repl.handle_line("ab#cd", &mut out).unwrap(), LoopStatus::Break);
    assert!(out.is_empty());
}

#[test]
fn invalid_name_reported_before_duplicate() {
    // the first offending entry decides, and an invalid name takes
    // precedence at that entry
    let result = builder()
        .add("ok", done_cmd(""))
        .add("bad name", done_cmd(""))
        .add("ok", done_cmd(""))
        .build();
    match result {
        Err(BuilderError::InvalidName(n)) => assert_eq!(n, "bad name"),
        other => panic!("expected invalid name, got {:?}", other.err()),
    }
}

// Scenario: a two-argument i32 command called through a one-letter prefix
#[test]
fn prefix_resolves_parses_and_runs() {
    let mut out: Vec<String> = Vec::new();
    let mut repl = builder()
        .add(
            "add",
            Command::new(
                "Add X to Y",
                unnamed(&[TypeTag::I32, TypeTag::I32]),
                TestHandler(TestAction::QuitIfArgs(strings(&["1", "2"]))),
            ),
        )
        .build()
        .unwrap();
    // the handler quits only when it received exactly ["1", "2"]
    assert_eq!(repl.handle_line("a 1 2", &mut out).unwrap(), LoopStatus::Break);
    assert!(out.is_empty());
}

// Scenario: "m" matches only "mul", so "m 1 2" runs mul
#[test]
fn unique_prefix_runs_among_several_commands() {
    let mut out: Vec<String> = Vec::new();
    let mut repl = builder()
        .add("add", done_cmd("Add"))
        .add(
            "mul",
            Command::new(
                "Multiply",
                unnamed(&[TypeTag::I32, TypeTag::I32]),
                TestHandler(TestAction::QuitIfArgs(strings(&["1", "2"]))),
            ),
        )
        .build()
        .unwrap();
    assert_eq!(repl.handle_line("m 1 2", &mut out).unwrap(), LoopStatus::Break);
    assert!(out.is_empty());
}

#[test]
fn ambiguous_prefix_lists_sorted_candidates() {
    let mut out: Vec<String> = Vec::new();
    let mut repl = builder().add("quux", done_cmd("")).build().unwrap();
    // "q" matches the reserved "quit" and the registered "quux"
    assert_eq!(repl.handle_line("q", &mut out).unwrap(), LoopStatus::Continue);
    assert_eq!(
        out,
        vec![
            "Command not found: q".to_string(),
            "Candidates:\n  quit\n  quux".to_string(),
            "Use 'help' to see available commands.".to_string(),
        ]
    );
}

#[test]
fn unknown_token_reports_not_found() {
    let mut out: Vec<String> = Vec::new();
    let mut repl = builder().add("add", done_cmd("")).build().unwrap();
    assert_eq!(repl.handle_line("zzz", &mut out).unwrap(), LoopStatus::Continue);
    assert_eq!(
        out,
        vec![
            "Command not found: zzz".to_string(),
            "Use 'help' to see available commands.".to_string(),
        ]
    );
}

// Scenario: wrong arity prints the arity error and a usage line
#[test]
fn arity_error_prints_usage() {
    let mut out: Vec<String> = Vec::new();
    let mut repl = builder()
        .add(
            "add",
            Command::new(
                "Add X to Y",
                unnamed(&[TypeTag::I32, TypeTag::I32]),
                TestHandler(TestAction::Done),
            ),
        )
        .build()
        .unwrap();
    assert_eq!(repl.handle_line("add 1", &mut out).unwrap(), LoopStatus::Continue);
    assert_eq!(
        out,
        vec![
            "Error: wrong number of arguments: got 1, expected 2".to_string(),
            "Usage: add :i32 :i32".to_string(),
        ]
    );
}

#[test]
fn value_error_prints_cause_and_usage() {
    let mut out: Vec<String> = Vec::new();
    let mut repl = builder()
        .add(
            "add",
            Command::new(
                "Add X to Y",
                unnamed(&[TypeTag::I32, TypeTag::I32]),
                TestHandler(TestAction::Done),
            ),
        )
        .build()
        .unwrap();
    assert_eq!(repl.handle_line("add 1 world", &mut out).unwrap(), LoopStatus::Continue);
    assert_eq!(
        out,
        vec![
            "Error: failed to parse argument value 'world': invalid i32 literal".to_string(),
            "Usage: add :i32 :i32".to_string(),
        ]
    );
}

// Scenario: a handler marks its failure critical; the loop propagates it
// instead of printing and continuing
#[test]
fn critical_error_propagates_out_of_the_loop() {
    let mut out: Vec<String> = Vec::new();
    let mut repl = builder()
        .add(
            "boom",
            Command::new("", vec![], TestHandler(TestAction::Critical("fatal".to_string()))),
        )
        .build()
        .unwrap();
    let result = repl.handle_line("boom", &mut out);
    match result {
        Err(CriticalError::Critical(m)) => assert_eq!(m, "fatal"),
        other => panic!("expected a critical error, got {:?}", other),
    }
    assert!(out.is_empty());
}

#[test]
fn recoverable_error_is_printed_and_continues() {
    let mut out: Vec<String> = Vec::new();
    let mut repl = builder()
        .add(
            "frob",
            Command::new("", vec![], TestHandler(TestAction::Recoverable("softly".to_string()))),
        )
        .build()
        .unwrap();
    assert_eq!(repl.handle_line("frob", &mut out).unwrap(), LoopStatus::Continue);
    assert_eq!(out, vec!["Error: softly".to_string()]);
}

#[test]
fn quoted_arguments_reach_the_handler_as_one_token() {
    let mut out: Vec<String> = Vec::new();
    let mut repl = builder()
        .add(
            "echo",
            Command::new(
                "",
                unnamed(&[TypeTag::Str]),
                TestHandler(TestAction::QuitIfArgs(strings(&["b c"]))),
            ),
        )
        .build()
        .unwrap();
    assert_eq!(repl.handle_line("e \"b c\"", &mut out).unwrap(), LoopStatus::Break);
}

#[test]
fn unmatched_quote_is_reported() {
    let mut out: Vec<String> = Vec::new();
    let mut repl = builder().add("add", done_cmd("")).build().unwrap();
    assert_eq!(repl.handle_line("add \"1", &mut out).unwrap(), LoopStatus::Continue);
    assert_eq!(out, vec!["Error: missing closing quote".to_string()]);
}

#[test]
fn prefix_execution_can_be_disabled() {
    let mut out: Vec<String> = Vec::new();
    let mut repl = builder()
        .predict_commands(false)
        .add("add", done_cmd(""))
        .build()
        .unwrap();
    // a strict prefix is rejected and the single candidate is listed
    assert_eq!(repl.handle_line("ad", &mut out).unwrap(), LoopStatus::Continue);
    assert_eq!(
        out,
        vec![
            "Command not found: ad".to_string(),
            "Candidates:\n  add".to_string(),
            "Use 'help' to see available commands.".to_string(),
        ]
    );
    // the exact name still runs
    out.clear();
    let mut repl = builder()
        .predict_commands(false)
        .add("addx", Command::new("", vec![], TestHandler(TestAction::Quit)))
        .build()
        .unwrap();
    assert_eq!(repl.handle_line("addx", &mut out).unwrap(), LoopStatus::Break);
}

#[test]
fn events_classify_like_line_endings() {
    let mut out: Vec<String> = Vec::new();
    let mut repl = builder().add("add", done_cmd("")).build().unwrap();
    assert_eq!(
        repl.handle_event(InputEvent::Line("   ".to_string()), &mut out).unwrap(),
        LoopStatus::Continue
    );
    assert!(out.is_empty());
    assert_eq!(
        repl.handle_event(InputEvent::Interrupted, &mut out).unwrap(),
        LoopStatus::Break
    );
    assert_eq!(out, vec!["CTRL-C".to_string()]);
    out.clear();
    assert_eq!(
        repl.handle_event(InputEvent::EndOfInput, &mut out).unwrap(),
        LoopStatus::Break
    );
    assert!(out.is_empty());
}

#[test]
fn help_lists_commands_sorted_and_aligned() {
    let mut repl = builder()
        .add(
            "hello",
            Command::new(
                "Say hello",
                vec![ArgInfo { name: Some("name".to_string()), tag: TypeTag::Str }],
                TestHandler(TestAction::Done),
            ),
        )
        .add(
            "add",
            Command::new(
                "Add X to Y",
                vec![
                    ArgInfo { name: Some("X".to_string()), tag: TypeTag::I32 },
                    ArgInfo { name: Some("Y".to_string()), tag: TypeTag::I32 },
                ],
                TestHandler(TestAction::Done),
            ),
        )
        .build()
        .unwrap();
    let expected = "Available commands:\n  add X:i32 Y:i32    Add X to Y\n  hello name:String  Say hello\n\nOther commands:\n  help  Show this help message\n  quit  Quit repl";
    assert_eq!(repl.help(), expected);
    // typing the reserved command prints the same text
    let mut out: Vec<String> = Vec::new();
    assert_eq!(repl.handle_line("help", &mut out).unwrap(), LoopStatus::Continue);
    assert_eq!(out, vec![expected.to_string()]);
}

#[test]
fn help_wraps_long_descriptions() {
    let repl = builder()
        .text_width(20usize)
        .add(
            "c",
            Command::new(
                "one two three four five six seven",
                vec![],
                TestHandler(TestAction::Done),
            ),
        )
        .build()
        .unwrap();
    let help = repl.help();
    let start = help.find("Available commands:\n").unwrap() + "Available commands:\n".len();
    let end = help.find("\n\nOther commands:").unwrap();
    let block = &help[start..end];
    // the single entry was wrapped onto continuation lines, indented under
    // the description column (signature "c " is 2 wide, so 2+4 spaces)
    assert!(block.contains("\n      "), "not wrapped: {:?}", block);
}

#[test]
fn exact_name_that_prefixes_another_is_ambiguous() {
    // policy: a typed name equal to one command is still ambiguous when it
    // is also a prefix of another; no silent choice is made
    let mut out: Vec<String> = Vec::new();
    let mut repl = builder()
        .add("add", done_cmd(""))
        .add("addx", done_cmd(""))
        .build()
        .unwrap();
    assert_eq!(repl.handle_line("add", &mut out).unwrap(), LoopStatus::Continue);
    assert_eq!(
        out,
        vec![
            "Command not found: add".to_string(),
            "Candidates:\n  add\n  addx".to_string(),
            "Use 'help' to see available commands.".to_string(),
        ]
    );
}

#[test]
fn error_messages_render() {
    let e = BuilderError::DuplicateCommands("x".to_string());
    assert_eq!(e.message(), "more than one command with name 'x' added");
    let e = BuilderError::InvalidName("a b".to_string());
    assert_eq!(
        e.message(),
        "name 'a b' cannot be parsed correctly, thus would be impossible to call"
    );
    let e = BuilderError::ReservedName("help".to_string());
    assert_eq!(e.message(), "'help' is a reserved command name");
    let e = CriticalError::Critical("why".to_string());
    assert_eq!(e.message(), "why");
}

struct NestedHandler {
    inner: Repl<TestHandler>,
}

impl Handler for NestedHandler {
    fn handle(&mut self, _args: &Vec<String>) -> Result<CommandStatus, HandlerError> {
        // a handler may run a nested instance of the same engine; the
        // inner session ends normally and the outer one continues
        let mut inner_out: Vec<String> = Vec::new();
        match self.inner.handle_line("quit", &mut inner_out) {
            Ok(LoopStatus::Break) => Ok(CommandStatus::Done),
            _ => Err(HandlerError::Recoverable("inner session misbehaved".to_string())),
        }
    }
}

#[test]
fn a_handler_may_run_a_nested_session() {
    let inner = builder().add("foo", done_cmd("")).build().unwrap();
    let mut repl: Repl<NestedHandler> = Repl::builder()
        .add("outer", Command::new("", vec![], NestedHandler { inner }))
        .build()
        .unwrap();
    let mut out: Vec<String> = Vec::new();
    assert_eq!(repl.handle_line("outer", &mut out).unwrap(), LoopStatus::Continue);
    assert!(out.is_empty());
}
