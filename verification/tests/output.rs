use pagerduty_cli::output::csv_text::csv_rows_text;
use pagerduty_cli::output::json_text::json_rows_text;
use pagerduty_cli::output::rows::{flatten_rows, OncallRow};
use pagerduty_cli::output::{
    build_csv_output, build_json_output, build_tree_output, select_levels, tree_output,
};
use pagerduty_cli::report::within_depth;
use pagerduty_cli::v2::{EscalationPolicy, PagerDutyUser, PagerDutyUserGroups};

fn user(name: &str) -> PagerDutyUser {
    PagerDutyUser {
        id: format!("U-{}", name),
        name: name.to_string(),
        email: format!("{}@example.com", name),
    }
}

fn level(depth: u8, names: &[&str]) -> PagerDutyUserGroups {
    PagerDutyUserGroups { users: names.iter().map(|name| user(name)).collect(), depth }
}

fn policy(id: &str, name: &str, oncall_groups: Vec<PagerDutyUserGroups>) -> EscalationPolicy {
    EscalationPolicy {
        id: id.to_string(),
        description: None,
        policy_name: name.to_string(),
        oncall_groups,
        services: vec![],
    }
}

fn three_levels() -> Vec<EscalationPolicy> {
    vec![policy(
        "EP1",
        "Go",
        vec![level(1, &["ann", "bob"]), level(2, &["cy"]), level(3, &["dee"])],
    )]
}

fn row(id: &str, escalation_policy: &str, depth: u8, name: &str) -> OncallRow {
    OncallRow {
        id: id.to_string(),
        escalation_policy: escalation_policy.to_string(),
        depth,
        user_name: name.to_string(),
        user_email: format!("{}@example.com", name),
    }
}

#[test]
fn tree_has_a_root_per_policy_and_a_line_per_level() {
    let policies = vec![
        policy("EP1", "Connect", vec![level(1, &["ann", "bob"]), level(2, &[])]),
        policy("EP2", "Go", vec![level(1, &["cy"])]),
    ];
    let expected = concat_lines(&[
        " ├─ Escilation Policy - Connect",
        " │  └─ Oncalls",
        " │     ├─ Level 1 - ann, bob",
        " │     └─ Level 2 - ",
        " └─ Escilation Policy - Go",
        "    └─ Oncalls",
        "       └─ Level 1 - cy",
    ]);
    assert_eq!(build_tree_output(policies, |_| true), expected);
}

#[test]
fn tree_of_a_policy_without_levels_still_has_its_two_lines() {
    let policies = vec![policy("EP1", "Go", vec![])];
    assert_eq!(
        build_tree_output(policies, |_| true),
        " └─ Escilation Policy - Go\n    └─ Oncalls\n"
    );
}

#[test]
fn tree_of_no_policies_is_empty() {
    assert_eq!(build_tree_output(vec![], |_| true), "");
}

#[test]
fn depth_cutoff_in_the_tree() {
    let expected = concat_lines(&[
        " └─ Escilation Policy - Go",
        "    └─ Oncalls",
        "       └─ Level 1 - ann, bob",
    ]);
    assert_eq!(build_tree_output(three_levels(), |group| within_depth(group, 1)), expected);
}

#[test]
fn depth_cutoff_in_json() {
    let expected = concat(&[
        "[\n",
        "  {\n",
        "    \"id\": \"EP1\",\n",
        "    \"escalationPolicy\": \"Go\",\n",
        "    \"depth\": 1,\n",
        "    \"userName\": \"ann\",\n",
        "    \"userEmail\": \"ann@example.com\"\n",
        "  },\n",
        "  {\n",
        "    \"id\": \"EP1\",\n",
        "    \"escalationPolicy\": \"Go\",\n",
        "    \"depth\": 1,\n",
        "    \"userName\": \"bob\",\n",
        "    \"userEmail\": \"bob@example.com\"\n",
        "  }\n",
        "]",
    ]);
    assert_eq!(build_json_output(three_levels(), |group| within_depth(group, 1)), expected);
}

#[test]
fn depth_cutoff_in_csv() {
    let expected = concat_lines(&[
        "Escalation Policy ID,Escalation Policy,depth,name,email",
        "EP1,Go,1,ann,ann@example.com",
        "EP1,Go,1,bob,bob@example.com",
    ]);
    assert_eq!(build_csv_output(three_levels(), |group| within_depth(group, 1)), expected);
}

#[test]
fn cutoff_of_zero_shows_no_level_and_the_highest_cutoff_shows_all() {
    let expected = "Escalation Policy ID,Escalation Policy,depth,name,email\n";
    assert_eq!(build_csv_output(three_levels(), |group| within_depth(group, 0)), expected);
    let all = build_csv_output(three_levels(), |group| within_depth(group, 255));
    assert_eq!(all.lines().count(), 5);
    assert_eq!(build_json_output(three_levels(), |group| within_depth(group, 0)), "[]");
}

#[test]
fn within_depth_compares_with_the_cutoff() {
    assert!(within_depth(&level(1, &[]), 1));
    assert!(within_depth(&level(1, &[]), 2));
    assert!(!within_depth(&level(2, &[]), 1));
    assert!(within_depth(&level(0, &[]), 0));
    assert!(within_depth(&level(255, &[]), 255));
    assert!(!within_depth(&level(255, &[]), 254));
}

#[test]
fn rows_go_policy_by_policy_level_by_level_user_by_user() {
    let policies = vec![
        policy("EP1", "Go", vec![level(1, &["ann", "bob"]), level(2, &["cy"])]),
        policy("EP2", "Connect", vec![level(1, &[]), level(2, &["dee"])]),
    ];
    let kept = select_levels(&policies, &|_: &PagerDutyUserGroups| true);
    assert_eq!(kept, vec![vec![true, true], vec![true, true]]);
    assert_eq!(
        flatten_rows(&policies, &kept),
        vec![
            row("EP1", "Go", 1, "ann"),
            row("EP1", "Go", 1, "bob"),
            row("EP1", "Go", 2, "cy"),
            row("EP2", "Connect", 2, "dee"),
        ]
    );
}

#[test]
fn rows_of_levels_that_are_not_kept_are_left_out() {
    let policies = vec![
        policy("EP1", "Go", vec![level(1, &["ann", "bob"]), level(2, &["cy"])]),
        policy("EP2", "Connect", vec![level(1, &["dee"])]),
    ];
    let kept = vec![vec![false, true], vec![true]];
    assert_eq!(
        flatten_rows(&policies, &kept),
        vec![row("EP1", "Go", 2, "cy"), row("EP2", "Connect", 1, "dee")]
    );
    assert_eq!(flatten_rows(&policies, &vec![vec![true]]), vec![
        row("EP1", "Go", 1, "ann"),
        row("EP1", "Go", 1, "bob"),
    ]);
    assert!(flatten_rows(&policies, &vec![]).is_empty());
}

#[test]
fn levels_without_an_answer_are_not_drawn() {
    let policies = vec![policy("EP1", "Go", vec![level(1, &["ann"]), level(2, &["cy"])])];
    let expected = concat_lines(&[
        " └─ Escilation Policy - Go",
        "    └─ Oncalls",
        "       └─ Level 1 - ann",
    ]);
    assert_eq!(tree_output(&policies, &vec![vec![true]]), expected);
}

#[test]
fn selection_asks_the_predicate_about_every_level() {
    let policies = vec![
        policy("EP1", "Go", vec![level(1, &[]), level(2, &[]), level(3, &[])]),
        policy("EP2", "Connect", vec![]),
        policy("EP3", "Halt", vec![level(2, &[])]),
    ];
    let kept = select_levels(&policies, &|group: &PagerDutyUserGroups| group.depth != 2);
    assert_eq!(kept, vec![vec![true, false, true], vec![], vec![false]]);
}

#[test]
fn csv_quotes_the_fields_that_need_it() {
    let rows = vec![OncallRow {
        id: "EP1".to_string(),
        escalation_policy: "Go, \"fast\"".to_string(),
        depth: 12,
        user_name: "ann\nlee".to_string(),
        user_email: "".to_string(),
    }];
    let expected = concat(&[
        "Escalation Policy ID,Escalation Policy,depth,name,email\n",
        "EP1,\"Go, \"\"fast\"\"\",12,\"ann\nlee\",\n",
    ]);
    assert_eq!(csv_rows_text(&rows), expected);
}

#[test]
fn json_escapes_what_strings_cannot_hold() {
    let rows = vec![OncallRow {
        id: "P\"1".to_string(),
        escalation_policy: "a\\b".to_string(),
        depth: 255,
        user_name: "l\u{e9}a\n".to_string(),
        user_email: "".to_string(),
    }];
    let expected = concat(&[
        "[\n",
        "  {\n",
        "    \"id\": \"P\\\"1\",\n",
        "    \"escalationPolicy\": \"a\\\\b\",\n",
        "    \"depth\": 255,\n",
        "    \"userName\": \"l\u{e9}a\\n\",\n",
        "    \"userEmail\": \"\"\n",
        "  }\n",
        "]",
    ]);
    assert_eq!(json_rows_text(&rows), expected);
}

#[test]
fn json_of_no_rows_is_an_empty_array() {
    assert_eq!(json_rows_text(&vec![]), "[]");
    assert_eq!(csv_rows_text(&vec![]), "Escalation Policy ID,Escalation Policy,depth,name,email\n");
}

fn concat(parts: &[&str]) -> String {
    let mut text = String::new();
    for part in parts {
        text.push_str(part);
    }
    text
}

fn concat_lines(lines: &[&str]) -> String {
    let mut text = String::new();
    for line in lines {
        text.push_str(line);
        text.push('\n');
    }
    text
}
