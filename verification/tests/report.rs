use pagerduty_cli::filter::compile_all;
use pagerduty_cli::report::{who_is_oncall, OutputFormat, UNLIMITED_DEPTH};
use pagerduty_cli::v2::{EscalationPolicy, PagerDutyUser, PagerDutyUserGroups};

fn user(name: &str) -> PagerDutyUser {
    PagerDutyUser {
        id: format!("U-{}", name),
        name: name.to_string(),
        email: format!("{}@example.com", name),
    }
}

fn policy(id: &str, name: &str, depths: &[u8]) -> EscalationPolicy {
    EscalationPolicy {
        id: id.to_string(),
        description: None,
        policy_name: name.to_string(),
        oncall_groups: depths
            .iter()
            .map(|depth| PagerDutyUserGroups { users: vec![user(&format!("{}{}", name, depth))], depth: *depth })
            .collect(),
        services: vec![],
    }
}

fn account() -> Vec<EscalationPolicy> {
    vec![
        policy("EP1", "Go", &[1, 2]),
        policy("EP2", "Connect", &[1]),
        policy("EP3", "Halt", &[1, 2, 3]),
    ]
}

#[test]
fn format_names() {
    assert_eq!(OutputFormat::parse("tree"), Some(OutputFormat::Tree));
    assert_eq!(OutputFormat::parse("json"), Some(OutputFormat::Json));
    assert_eq!(OutputFormat::parse("csv"), Some(OutputFormat::Csv));
    assert_eq!(OutputFormat::parse("Tree"), None);
    assert_eq!(OutputFormat::parse("tfstate"), None);
    assert_eq!(OutputFormat::parse(""), None);
}

#[test]
fn unlimited_depth_is_the_deepest_level_there_can_be() {
    assert_eq!(UNLIMITED_DEPTH, u8::MAX);
}

#[test]
fn report_is_sorted_by_name() {
    let text = who_is_oncall(account(), &[], &[], UNLIMITED_DEPTH, OutputFormat::Csv);
    let expected = "Escalation Policy ID,Escalation Policy,depth,name,email\n\
                    EP2,Connect,1,Connect1,Connect1@example.com\n\
                    EP1,Go,1,Go1,Go1@example.com\n\
                    EP1,Go,2,Go2,Go2@example.com\n\
                    EP3,Halt,1,Halt1,Halt1@example.com\n\
                    EP3,Halt,2,Halt2,Halt2@example.com\n\
                    EP3,Halt,3,Halt3,Halt3@example.com\n";
    assert_eq!(text, expected);
}

#[test]
fn report_shows_the_policies_that_pass_down_to_the_depth() {
    let includes = compile_all(&vec!["o".to_string()]).unwrap();
    let excludes = compile_all(&vec![".*".to_string()]).unwrap();
    let text = who_is_oncall(account(), &includes, &excludes, 1, OutputFormat::Tree);
    let expected = " ├─ Escilation Policy - Connect\n \
                    │  └─ Oncalls\n \
                    │     └─ Level 1 - Connect1\n \
                    └─ Escilation Policy - Go\n    \
                    └─ Oncalls\n       \
                    └─ Level 1 - Go1\n";
    assert_eq!(text, expected);
}

#[test]
fn report_as_json() {
    let excludes = compile_all(&vec!["^(Go|Halt)$".to_string()]).unwrap();
    let text = who_is_oncall(account(), &[], &excludes, UNLIMITED_DEPTH, OutputFormat::Json);
    let expected = "[\n  {\n    \"id\": \"EP2\",\n    \"escalationPolicy\": \"Connect\",\n    \
                    \"depth\": 1,\n    \"userName\": \"Connect1\",\n    \
                    \"userEmail\": \"Connect1@example.com\"\n  }\n]";
    assert_eq!(text, expected);
}
