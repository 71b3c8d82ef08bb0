use pagerduty_cli::filter::{
    compile, compile_all, does_policy_match, is_shown, keep_or_report, pattern_or_error,
    policy_should_be_included, select_policies, ConfigError, NamePattern, PolicyMatch,
};
use pagerduty_cli::v2::EscalationPolicy;

fn patterns(sources: &[&str]) -> Vec<NamePattern> {
    let sources: Vec<String> = sources.iter().map(|source| source.to_string()).collect();
    compile_all(&sources).unwrap()
}

#[test]
fn include_wins_over_exclude() {
    let includes = patterns(&["foo"]);
    let excludes = patterns(&[".*"]);
    let policy = EscalationPolicy::new("EP1", "foobar");
    assert!(policy_should_be_included(&includes, &excludes, &policy));
}

#[test]
fn name_that_no_include_pattern_matches_is_left_out() {
    let includes = patterns(&["foo"]);
    let excludes = patterns(&[".*"]);
    let policy = EscalationPolicy::new("EP1", "bar");
    assert!(!policy_should_be_included(&includes, &excludes, &policy));
    assert!(!policy_should_be_included(&includes, &[], &policy));
}

#[test]
fn without_patterns_every_policy_is_shown() {
    let policy = EscalationPolicy::new("EP1", "bar");
    assert!(policy_should_be_included(&[], &[], &policy));
}

#[test]
fn exclude_decides_where_there_is_no_include_pattern() {
    let excludes = patterns(&["^ba", "zzz"]);
    assert!(!policy_should_be_included(&[], &excludes, &EscalationPolicy::new("EP1", "bar")));
    assert!(policy_should_be_included(&[], &excludes, &EscalationPolicy::new("EP2", "foobar")));
}

#[test]
fn patterns_are_regular_expressions_matched_anywhere_in_the_name() {
    let inputs = patterns(&["^team-[0-9]+$", "ops"]);
    assert_eq!(does_policy_match(&inputs, &EscalationPolicy::new("1", "team-42")), PolicyMatch::Yes);
    assert_eq!(does_policy_match(&inputs, &EscalationPolicy::new("2", "devops-eu")), PolicyMatch::Yes);
    assert_eq!(does_policy_match(&inputs, &EscalationPolicy::new("3", "team-4x")), PolicyMatch::No);
    assert_eq!(does_policy_match(&inputs, &EscalationPolicy::new("4", "Ops")), PolicyMatch::No);
    assert_eq!(does_policy_match(&[], &EscalationPolicy::new("5", "ops")), PolicyMatch::NotProvided);
}

#[test]
fn pattern_is_matched_against_the_name_and_not_against_itself() {
    let inputs = patterns(&["a+b"]);
    assert_eq!(does_policy_match(&inputs, &EscalationPolicy::new("1", "a+b")), PolicyMatch::No);
    assert_eq!(does_policy_match(&inputs, &EscalationPolicy::new("2", "xaab")), PolicyMatch::Yes);
}

#[test]
fn decision_for_every_pair_of_answers() {
    assert!(is_shown(PolicyMatch::Yes, PolicyMatch::Yes));
    assert!(is_shown(PolicyMatch::Yes, PolicyMatch::No));
    assert!(is_shown(PolicyMatch::Yes, PolicyMatch::NotProvided));
    assert!(!is_shown(PolicyMatch::No, PolicyMatch::Yes));
    assert!(!is_shown(PolicyMatch::No, PolicyMatch::No));
    assert!(!is_shown(PolicyMatch::No, PolicyMatch::NotProvided));
    assert!(!is_shown(PolicyMatch::NotProvided, PolicyMatch::Yes));
    assert!(is_shown(PolicyMatch::NotProvided, PolicyMatch::No));
    assert!(is_shown(PolicyMatch::NotProvided, PolicyMatch::NotProvided));
}

#[test]
fn malformed_pattern_is_reported_with_its_text() {
    assert_eq!(compile("(").err(), Some(ConfigError::InvalidPattern("(".to_string())));
    assert!(compile("a(b)c").is_ok());
}

#[test]
fn first_malformed_pattern_ends_the_compilation() {
    let sources = vec!["fine".to_string(), "[".to_string(), "(".to_string()];
    assert_eq!(compile_all(&sources).err(), Some(ConfigError::InvalidPattern("[".to_string())));
    assert_eq!(compile_all(&[].to_vec()).map(|compiled| compiled.len()), Ok(0));
    assert_eq!(compile_all(&sources[..1].to_vec()).map(|compiled| compiled.len()), Ok(1));
}

#[test]
fn selection_keeps_the_order_of_the_policies() {
    let includes = patterns(&["o"]);
    let excludes = patterns(&["Go"]);
    let selected = select_policies(
        vec![
            EscalationPolicy::new("1", "Go"),
            EscalationPolicy::new("2", "Stop"),
            EscalationPolicy::new("3", "Connect"),
            EscalationPolicy::new("4", "Halt"),
        ],
        &includes,
        &excludes,
    );
    let ids: Vec<&str> = selected.iter().map(|policy| policy.id.as_str()).collect();
    assert_eq!(ids, vec!["1", "2", "3"]);
    let selected = select_policies(
        vec![
            EscalationPolicy::new("1", "Go"),
            EscalationPolicy::new("2", "Stop"),
            EscalationPolicy::new("3", "Goal"),
        ],
        &[],
        &excludes,
    );
    let ids: Vec<&str> = selected.iter().map(|policy| policy.id.as_str()).collect();
    assert_eq!(ids, vec!["2"]);
}

#[test]
fn error_of_the_regex_crate_becomes_the_offending_text() {
    let error = regex::Regex::new("a{").unwrap_err();
    assert_eq!(
        pattern_or_error("a{", Err(error)).err(),
        Some(ConfigError::InvalidPattern("a{".to_string()))
    );
}

#[test]
fn step_keeps_a_compiled_pattern_after_the_others() {
    let compiled = patterns(&["^a"]);
    let longer = keep_or_report(compiled, "b$", Ok(compile("b$").unwrap())).unwrap();
    assert_eq!(longer.len(), 2);
    let policy = EscalationPolicy::new("1", "xb");
    assert_eq!(does_policy_match(&longer[..1], &policy), PolicyMatch::No);
    assert_eq!(does_policy_match(&longer[1..], &policy), PolicyMatch::Yes);
}

#[test]
fn step_reports_the_text_that_did_not_compile() {
    let compiled = patterns(&["^a", "b$"]);
    let error = regex::Regex::new("[").unwrap_err();
    assert_eq!(
        keep_or_report(compiled, "[", Err(error)).err(),
        Some(ConfigError::InvalidPattern("[".to_string()))
    );
}

#[test]
fn texts_after_the_malformed_one_are_not_reported() {
    let sources = vec!["(".to_string(), "[".to_string()];
    assert_eq!(compile_all(&sources).err(), Some(ConfigError::InvalidPattern("(".to_string())));
}

#[test]
fn pattern_that_would_compile_too_large_is_reported_as_such() {
    assert_eq!(
        compile("\\w{1000}").err(),
        Some(ConfigError::PatternTooLarge("\\w{1000}".to_string()))
    );
    assert!(compile("(?-u:\\w){1000}").is_ok());
}

#[test]
fn size_error_of_the_regex_crate_becomes_the_offending_text() {
    let error = regex::Regex::new("\\w{1000}").unwrap_err();
    assert_eq!(
        pattern_or_error("\\w{1000}", Err(error)).err(),
        Some(ConfigError::PatternTooLarge("\\w{1000}".to_string()))
    );
}

#[test]
fn too_large_pattern_ends_the_compilation_before_a_malformed_one() {
    let sources = vec!["fine".to_string(), "\\w{1000}".to_string(), "(".to_string()];
    assert_eq!(
        compile_all(&sources).err(),
        Some(ConfigError::PatternTooLarge("\\w{1000}".to_string()))
    );
    let sources = vec!["fine".to_string(), "(".to_string(), "\\w{1000}".to_string()];
    assert_eq!(compile_all(&sources).err(), Some(ConfigError::InvalidPattern("(".to_string())));
}

#[test]
fn well_formed_patterns_are_all_compiled() {
    let sources = vec!["^a".to_string(), "b|c".to_string(), "".to_string(), "[0-9]+".to_string()];
    assert_eq!(compile_all(&sources).map(|compiled| compiled.len()), Ok(4));
}
