use easy_repl::completion::{complete_first_word, completion_hint, split_args, whitespace_before};
use easy_repl::{Command, CommandStatus, Handler, HandlerError, PrefixIndex, Repl, ReplBuilder,
    Resolution};

struct NopHandler;

impl Handler for NopHandler {
    fn handle(&mut self, _args: &Vec<String>) -> Result<CommandStatus, HandlerError> {
        Ok(CommandStatus::Done)
    }
}

fn index(names: &[&str]) -> PrefixIndex {
    PrefixIndex::from_names(&names.iter().map(|s| s.to_string()).collect())
}

fn sorted(mut v: Vec<String>) -> Vec<String> {
    v.sort();
    v
}

#[test]
fn predict_returns_exactly_the_matching_names() {
    let idx = index(&["make", "move", "help"]);
    assert_eq!(sorted(idx.predict("m")), vec!["make".to_string(), "move".to_string()]);
    assert_eq!(idx.predict("mo"), vec!["move".to_string()]);
    assert_eq!(idx.predict("make"), vec!["make".to_string()]);
    assert_eq!(idx.predict("x"), Vec::<String>::new());
    assert_eq!(idx.predict("maker"), Vec::<String>::new());
}

#[test]
fn predict_empty_prefix_yields_nothing() {
    let idx = index(&["make", "move"]);
    assert_eq!(idx.predict(""), Vec::<String>::new());
}

#[test]
fn resolve_unique_strict_prefix_succeeds() {
    let idx = index(&["make", "move"]);
    match idx.resolve("mo", true) {
        Resolution::Resolved(n) => assert_eq!(n, "move"),
        other => panic!("expected resolved, got {:?}", other),
    }
}

#[test]
fn resolve_exact_name_succeeds_even_without_prefix_execution() {
    let idx = index(&["make", "move"]);
    match idx.resolve("make", false) {
        Resolution::Resolved(n) => assert_eq!(n, "make"),
        other => panic!("expected resolved, got {:?}", other),
    }
}

#[test]
fn resolve_strict_prefix_rejected_without_prefix_execution() {
    let idx = index(&["make", "move"]);
    match idx.resolve("mo", false) {
        Resolution::NotFound(c) => assert_eq!(c, vec!["move".to_string()]),
        other => panic!("expected not found, got {:?}", other),
    }
}

#[test]
fn resolve_ambiguous_prefix_lists_all_matches_sorted() {
    let idx = index(&["move", "make", "mongo"]);
    match idx.resolve("m", true) {
        Resolution::Ambiguous(c) => {
            assert_eq!(c, vec!["make".to_string(), "mongo".to_string(), "move".to_string()]);
        }
        other => panic!("expected ambiguous, got {:?}", other),
    }
}

#[test]
fn resolve_no_match_is_not_found() {
    let idx = index(&["make", "move"]);
    match idx.resolve("q", true) {
        Resolution::NotFound(c) => assert!(c.is_empty()),
        other => panic!("expected not found, got {:?}", other),
    }
}

#[test]
fn repl_predict_covers_registered_and_reserved_names() {
    let b: ReplBuilder<NopHandler> = Repl::builder();
    let repl = b
        .add("hello", Command::new("", vec![], NopHandler))
        .build()
        .unwrap();
    assert_eq!(sorted(repl.predict("he")), vec!["hello".to_string(), "help".to_string()]);
    assert_eq!(repl.predict("q"), vec!["quit".to_string()]);
    assert_eq!(repl.predict(""), Vec::<String>::new());
}

#[test]
fn whitespace_before_counts_leading_spaces() {
    assert_eq!(whitespace_before("  abc"), 2);
    assert_eq!(whitespace_before("abc"), 0);
    assert_eq!(whitespace_before("\t x"), 2);
    assert_eq!(whitespace_before("   "), 3);
    assert_eq!(whitespace_before(""), 0);
}

#[test]
fn split_args_splits_on_every_whitespace() {
    let views = |v: Vec<String>| v;
    assert_eq!(views(split_args("a b")), vec!["a".to_string(), "b".to_string()]);
    assert_eq!(
        views(split_args(" a  b ")),
        vec!["a".to_string(), "".to_string(), "b".to_string()]
    );
    assert_eq!(views(split_args("")), vec!["".to_string()]);
    assert_eq!(views(split_args("one")), vec!["one".to_string()]);
}

#[test]
fn hint_completes_a_unique_match_at_end_of_line() {
    let idx = index(&["move", "make"]);
    assert_eq!(completion_hint(&idx, "mo", 2), Some("ve".to_string()));
    // ambiguous: no hint
    assert_eq!(completion_hint(&idx, "m", 1), None);
    // cursor not at the end: no hint
    assert_eq!(completion_hint(&idx, "mo", 1), None);
    // nothing typed: no hint
    assert_eq!(completion_hint(&idx, "", 0), None);
    // leading whitespace is skipped
    assert_eq!(completion_hint(&idx, "  mo", 4), Some("ve".to_string()));
}

#[test]
fn completion_offers_names_for_the_first_word_only() {
    let idx = index(&["move", "make"]);
    match complete_first_word(&idx, "m") {
        Some((start, cands)) => {
            assert_eq!(start, 0);
            assert_eq!(sorted(cands), vec!["make".to_string(), "move".to_string()]);
        }
        None => panic!("expected completion"),
    }
    match complete_first_word(&idx, "  mo") {
        Some((start, cands)) => {
            assert_eq!(start, 2);
            assert_eq!(cands, vec!["move".to_string()]);
        }
        None => panic!("expected completion"),
    }
    // past the first word there is no command completion
    assert!(complete_first_word(&idx, "move x").is_none());
}
