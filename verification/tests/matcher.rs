use regex::Regex;
use server_monitor::matcher::{build_pattern, confirm, listed, NameMatcher, PatternError};

fn matcher_for(names: &[&str]) -> NameMatcher {
    let matcher = NameMatcher::new(names);
    assert_eq!(matcher.why_no_expression(), &None);
    matcher
}

#[test]
fn pattern_is_one_anchored_group_of_alternatives() {
    assert_eq!(build_pattern(&["nginx", "http", "fish"]), "^(?:nginx|http|fish)$");
}

#[test]
fn pattern_of_one_name_has_no_bar() {
    assert_eq!(build_pattern(&["proc1"]), "^(?:proc1)$");
}

#[test]
fn pattern_of_no_name_is_an_empty_group() {
    assert_eq!(build_pattern(&[]), "^(?:)$");
}

#[test]
fn pattern_escapes_what_means_something_in_an_expression() {
    assert_eq!(build_pattern(&["a.b*c", "tmux: server"]), "^(?:a\\.b\\*c|tmux: server)$");
    assert_eq!(
        build_pattern(&["\\.+*?()|[]{}^$#&-~"]),
        "^(?:\\\\\\.\\+\\*\\?\\(\\)\\|\\[\\]\\{\\}\\^\\$\\#\\&\\-\\~)$"
    );
}

#[test]
fn pattern_leaves_other_characters_alone() {
    assert_eq!(build_pattern(&["%/!\"e: _,;<>=@'`"]), "^(?:%/!\"e: _,;<>=@'`)$");
}

#[test]
fn matcher_keeps_the_pattern_it_was_compiled_from() {
    let matcher = matcher_for(&["nginx", "a.b*c"]);
    assert_eq!(matcher.pattern(), Some("^(?:nginx|a\\.b\\*c)$"));
    assert_eq!(matcher.target_count(), 2);
}

#[test]
fn a_target_name_matches() {
    let matcher = matcher_for(&["nginx", "http", "fish", "tmux: server", "server_monitor"]);
    assert!(matcher.is_match("nginx"));
    assert!(matcher.is_match("http"));
    assert!(matcher.is_match("fish"));
    assert!(matcher.is_match("tmux: server"));
    assert!(matcher.is_match("server_monitor"));
}

#[test]
fn part_of_a_name_does_not_match() {
    let matcher = matcher_for(&["http"]);
    assert!(matcher.is_match("http"));
    assert!(!matcher.is_match("http-worker"));
    assert!(!matcher.is_match("xhttp"));
    assert!(!matcher.is_match("htt"));
    assert!(!matcher.is_match(""));
    assert!(!matcher.is_match("HTTP"));
    assert!(!matcher.is_match("http\n"));
}

#[test]
fn special_characters_match_only_themselves() {
    let matcher = matcher_for(&["tmux: server", "a.b*c"]);
    assert!(matcher.is_match("tmux: server"));
    assert!(matcher.is_match("a.b*c"));
    assert!(!matcher.is_match("axbc"));
    assert!(!matcher.is_match("axbbbc"));
    assert!(!matcher.is_match("a.bc"));
    assert!(!matcher.is_match("a.b"));
    assert!(!matcher.is_match("tmux: serve"));
}

#[test]
fn an_alternation_inside_a_name_is_no_alternation() {
    let matcher = matcher_for(&["a|b", "(x)", "^y$", "[z]"]);
    assert!(matcher.is_match("a|b"));
    assert!(matcher.is_match("(x)"));
    assert!(matcher.is_match("^y$"));
    assert!(matcher.is_match("[z]"));
    assert!(!matcher.is_match("a"));
    assert!(!matcher.is_match("b"));
    assert!(!matcher.is_match("x"));
    assert!(!matcher.is_match("y"));
    assert!(!matcher.is_match("z"));
}

#[test]
fn no_target_names_match_nothing() {
    let matcher = matcher_for(&[]);
    assert!(!matcher.is_match(""));
    assert!(!matcher.is_match("nginx"));
}

#[test]
fn listed_looks_for_the_whole_name() {
    let names = vec![String::from("nginx"), String::from("http")];
    assert!(listed(&names, "http"));
    assert!(listed(&names, "nginx"));
    assert!(!listed(&names, "http-worker"));
    assert!(!listed(&names, "ngin"));
    assert!(!listed(&Vec::new(), "http"));
}

#[test]
fn confirm_needs_both_the_expression_and_the_list() {
    let names = vec![String::from("http")];
    assert!(confirm(&names, "http", true));
    assert!(!confirm(&names, "http", false));
    assert!(!confirm(&names, "http-worker", true));
    assert!(!confirm(&names, "http-worker", false));
}

fn every_name_is_told_apart(matcher: &NameMatcher, names: &[&str], others: &[&str]) {
    for name in names {
        assert!(matcher.is_match(name), "{:?}", name);
    }
    for other in others {
        assert!(!matcher.is_match(other), "{:?}", other);
    }
}

#[test]
fn an_expression_that_misses_a_target_name_is_not_used() {
    let matcher = NameMatcher::from_compiled(&["x", "abc", "def"], Regex::new("^x$"));
    assert_eq!(matcher.why_no_expression(), &Some(PatternError::MissesTarget(String::from("abc"))));
    assert_eq!(matcher.pattern(), None);
    every_name_is_told_apart(&matcher, &["x", "abc", "def"], &["", "ab", "xabc", "X"]);

    let matcher = NameMatcher::from_compiled(&["http"], Regex::new("^(?:HTTP)$"));
    assert_eq!(
        matcher.why_no_expression(),
        &Some(PatternError::MissesTarget(String::from("http")))
    );
    every_name_is_told_apart(&matcher, &["http"], &["HTTP", "http-worker"]);
}

#[test]
fn an_expression_that_finds_every_target_name_is_used() {
    let matcher = NameMatcher::from_compiled(&["x"], Regex::new("^x$"));
    assert_eq!(matcher.why_no_expression(), &None);
    assert_eq!(matcher.pattern(), Some("^x$"));
    every_name_is_told_apart(&matcher, &["x"], &["y", "", "xx"]);
    let empty = NameMatcher::from_compiled(&[], Regex::new("^x$"));
    assert_eq!(empty.pattern(), Some("^x$"));
    every_name_is_told_apart(&empty, &[], &["x", ""]);
}

#[test]
fn the_list_can_refuse_what_the_expression_finds() {
    let matcher = NameMatcher::from_compiled(&["abc"], Regex::new("b"));
    assert_eq!(matcher.pattern(), Some("b"));
    every_name_is_told_apart(&matcher, &["abc"], &["b", "abcd", "bc"]);
}

#[test]
fn a_malformed_expression_is_not_used() {
    let matcher = NameMatcher::from_compiled(&["abc", "("], Regex::new("("));
    match matcher.why_no_expression() {
        Some(PatternError::Syntax(message)) => assert!(!message.is_empty()),
        other => panic!("another reason: {:?}", other),
    }
    assert_eq!(matcher.pattern(), None);
    assert_eq!(matcher.target_count(), 2);
    every_name_is_told_apart(&matcher, &["abc", "("], &["", "ab", ")"]);
}

#[test]
fn an_oversized_expression_is_not_used() {
    let matcher = NameMatcher::from_compiled(&["abc"], Regex::new("\\w{100000}"));
    match matcher.why_no_expression() {
        Some(PatternError::CompiledTooBig(limit)) => assert!(*limit > 0),
        other => panic!("another reason: {:?}", other),
    }
    every_name_is_told_apart(&matcher, &["abc"], &["abd"]);
}

#[test]
fn a_compile_error_is_never_reported_as_a_missed_target() {
    for pattern in ["(", "a{2,1}", "\\w{100000}", "[z-a]", "(?P<n>a)(?P<n>b)"] {
        let matcher = NameMatcher::from_compiled(&["abc"], Regex::new(pattern));
        match matcher.why_no_expression() {
            Some(PatternError::MissesTarget(name)) => panic!("missed {:?} for {:?}", name, pattern),
            Some(_) => {}
            None => panic!("an expression for {:?}", pattern),
        }
    }
}

#[test]
fn names_of_any_characters_make_a_matcher() {
    let names = ["a(b", "[", "*", "+?", "{1", "\\", "a|", "(?i)x", "^$", ".", "", " ", "é(", "\n"];
    let matcher = matcher_for(&names);
    every_name_is_told_apart(&matcher, &names, &["a", "ab", "x", "X", "y", "\\\\", "e("]);
    for (i, name) in names.iter().enumerate() {
        let alone = matcher_for(&names[i..i + 1]);
        every_name_is_told_apart(&alone, &[name], &["a(b)", "[]", "**", "{1}", "never"]);
    }
}

#[test]
fn too_many_names_for_an_expression_still_make_a_matcher() {
    let owned: Vec<String> = (0..20_000).map(|i| format!("process-number-{}", i)).collect();
    let names: Vec<&str> = owned.iter().map(|s| s.as_str()).collect();
    let matcher = NameMatcher::new(&names);
    match matcher.why_no_expression() {
        Some(PatternError::CompiledTooBig(limit)) => assert!(*limit > 0),
        other => panic!("another reason: {:?}", other),
    }
    assert_eq!(matcher.pattern(), None);
    assert_eq!(matcher.target_count(), 20_000);
    every_name_is_told_apart(
        &matcher,
        &["process-number-0", "process-number-19999", "process-number-7"],
        &["process-number-20000", "process-number-", "process"],
    );
}
