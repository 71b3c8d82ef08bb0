use pagerduty_cli::v2::api::{
    collect_oncalls, collect_policies, collect_services, collect_users, make_escalation_policies,
    EscalationPolicyModel, ModelReference, OnCallModel, PagerDutyApi, PagerDutyObjects,
    ServiceModel, UserModel,
};
use pagerduty_cli::v2::fetch::FetchError;
use pagerduty_cli::v2::{PagerDutyUser, PagerDutyUserGroups};

fn policy(id: &str, name: &str) -> EscalationPolicyModel {
    EscalationPolicyModel { id: id.to_string(), description: None, name: name.to_string() }
}

fn user(id: &str, name: &str) -> UserModel {
    UserModel {
        name: name.to_string(),
        id: id.to_string(),
        self_ref: format!("https://api.example.com/users/{}", id),
        html_url: format!("https://example.com/users/{}", id),
        email: format!("{}@example.com", name),
    }
}

fn oncall(policy_id: &str, level: u8, user_id: &str) -> OnCallModel {
    OnCallModel {
        escalation_policy: ModelReference { id: policy_id.to_string() },
        escalation_level: level,
        user: ModelReference { id: user_id.to_string() },
    }
}

fn service(id: &str, name: &str, policy_id: &str) -> ServiceModel {
    ServiceModel {
        name: name.to_string(),
        id: id.to_string(),
        escalation_policy: ModelReference { id: policy_id.to_string() },
    }
}

fn shown(id: &str, name: &str) -> PagerDutyUser {
    PagerDutyUser {
        id: id.to_string(),
        name: name.to_string(),
        email: format!("{}@example.com", name),
    }
}

#[test]
fn levels_run_from_one_to_the_highest_level_seen() {
    let policies = make_escalation_policies(
        vec![policy("EP1", "Go")],
        vec![user("U1", "ann"), user("U2", "bob")],
        vec![oncall("EP1", 3, "U2"), oncall("EP1", 1, "U1")],
        vec![],
    );
    assert_eq!(policies.len(), 1);
    assert_eq!(
        policies[0].oncall_groups,
        vec![
            PagerDutyUserGroups { users: vec![shown("U1", "ann")], depth: 1 },
            PagerDutyUserGroups { users: vec![], depth: 2 },
            PagerDutyUserGroups { users: vec![shown("U2", "bob")], depth: 3 },
        ]
    );
}

#[test]
fn policy_without_rows_has_no_levels() {
    let policies = make_escalation_policies(
        vec![policy("EP1", "Go"), policy("EP2", "Connect")],
        vec![user("U1", "ann")],
        vec![oncall("EP2", 1, "U1")],
        vec![],
    );
    assert!(policies[0].oncall_groups.is_empty());
    assert_eq!(policies[1].oncall_groups.len(), 1);
}

#[test]
fn no_records_at_all_give_no_policies() {
    let policies = make_escalation_policies(vec![], vec![], vec![], vec![]);
    assert!(policies.is_empty());
}

#[test]
fn unknown_user_is_left_out_and_the_level_stays() {
    let policies = make_escalation_policies(
        vec![policy("EP1", "Go")],
        vec![user("U1", "ann")],
        vec![oncall("EP1", 1, "U1"), oncall("EP1", 1, "ghost"), oncall("EP1", 2, "ghost")],
        vec![],
    );
    assert_eq!(
        policies[0].oncall_groups,
        vec![
            PagerDutyUserGroups { users: vec![shown("U1", "ann")], depth: 1 },
            PagerDutyUserGroups { users: vec![], depth: 2 },
        ]
    );
}

#[test]
fn users_of_a_level_keep_the_order_of_the_rows() {
    let policies = make_escalation_policies(
        vec![policy("EP1", "Go")],
        vec![user("U1", "ann"), user("U2", "bob"), user("U3", "cy")],
        vec![
            oncall("EP1", 1, "U3"),
            oncall("EP2", 1, "U2"),
            oncall("EP1", 1, "U1"),
            oncall("EP1", 1, "U3"),
        ],
        vec![],
    );
    assert_eq!(
        policies[0].oncall_groups,
        vec![PagerDutyUserGroups {
            users: vec![shown("U3", "cy"), shown("U1", "ann"), shown("U3", "cy")],
            depth: 1,
        }]
    );
}

#[test]
fn later_user_record_replaces_an_earlier_one_with_the_same_id() {
    let policies = make_escalation_policies(
        vec![policy("EP1", "Go")],
        vec![user("U1", "old"), user("U2", "bob"), user("U1", "new")],
        vec![oncall("EP1", 1, "U1")],
        vec![],
    );
    assert_eq!(policies[0].oncall_groups[0].users, vec![shown("U1", "new")]);
}

#[test]
fn records_are_joined_by_id_and_never_by_name() {
    let policies = make_escalation_policies(
        vec![policy("EP1", "Go"), policy("Go", "EP1")],
        vec![user("ann", "U1"), user("U1", "ann")],
        vec![oncall("EP1", 1, "U1"), oncall("Go", 2, "ann")],
        vec![service("S1", "web", "EP1"), service("S2", "db", "Go")],
    );
    assert_eq!(policies[0].id, "EP1");
    assert_eq!(policies[0].policy_name, "Go");
    assert_eq!(
        policies[0].oncall_groups,
        vec![PagerDutyUserGroups { users: vec![shown("U1", "ann")], depth: 1 }]
    );
    assert_eq!(policies[0].services, vec!["web".to_string()]);
    assert_eq!(
        policies[1].oncall_groups,
        vec![
            PagerDutyUserGroups { users: vec![], depth: 1 },
            PagerDutyUserGroups { users: vec![shown("ann", "U1")], depth: 2 },
        ]
    );
    assert_eq!(policies[1].services, vec!["db".to_string()]);
}

#[test]
fn rows_of_level_zero_make_no_level() {
    let policies = make_escalation_policies(
        vec![policy("EP1", "Go")],
        vec![user("U1", "ann")],
        vec![oncall("EP1", 0, "U1")],
        vec![],
    );
    assert!(policies[0].oncall_groups.is_empty());
}

#[test]
fn highest_level_of_all_is_reached() {
    let policies = make_escalation_policies(
        vec![policy("EP1", "Go")],
        vec![user("U1", "ann")],
        vec![oncall("EP1", 255, "U1")],
        vec![],
    );
    assert_eq!(policies[0].oncall_groups.len(), 255);
    for (index, group) in policies[0].oncall_groups.iter().enumerate() {
        assert_eq!(group.depth as usize, index + 1);
    }
    assert_eq!(policies[0].oncall_groups[254].users, vec![shown("U1", "ann")]);
}

#[test]
fn policies_come_out_in_record_order_with_their_descriptions_and_services() {
    let mut described = policy("EP2", "Connect");
    described.description = Some("second line".to_string());
    let policies = make_escalation_policies(
        vec![policy("EP1", "Go"), described],
        vec![],
        vec![],
        vec![
            service("S1", "web", "EP2"),
            service("S2", "db", "EP1"),
            service("S3", "cache", "EP2"),
            service("S4", "mail", "EP9"),
        ],
    );
    assert_eq!(policies[0].policy_name, "Go");
    assert_eq!(policies[0].description, None);
    assert_eq!(policies[0].services, vec!["db".to_string()]);
    assert_eq!(policies[1].policy_name, "Connect");
    assert_eq!(policies[1].description, Some("second line".to_string()));
    assert_eq!(policies[1].services, vec!["web".to_string(), "cache".to_string()]);
}

#[test]
fn pages_are_collected_in_order_and_other_collections_are_passed_over() {
    let pages = vec![
        PagerDutyObjects::Users(vec![user("U1", "ann"), user("U2", "bob")]),
        PagerDutyObjects::Services(vec![service("S1", "web", "EP1")]),
        PagerDutyObjects::Users(vec![]),
        PagerDutyObjects::Users(vec![user("U3", "cy")]),
    ];
    let users = collect_users(Ok(pages));
    let ids: Vec<&str> = users.iter().map(|user| user.id.as_str()).collect();
    assert_eq!(ids, vec!["U1", "U2", "U3"]);
}

#[test]
fn each_collection_has_its_collector() {
    let policies = collect_policies(Ok(vec![
        PagerDutyObjects::EscalationPolicies(vec![policy("EP1", "Go")]),
        PagerDutyObjects::Oncalls(vec![oncall("EP1", 1, "U1")]),
        PagerDutyObjects::EscalationPolicies(vec![policy("EP2", "Connect")]),
    ]));
    assert_eq!(policies.len(), 2);
    assert_eq!(policies[1].id, "EP2");
    let oncalls = collect_oncalls(Ok(vec![
        PagerDutyObjects::Oncalls(vec![oncall("EP1", 1, "U1"), oncall("EP1", 2, "U2")]),
        PagerDutyObjects::Users(vec![user("U1", "ann")]),
    ]));
    assert_eq!(oncalls.len(), 2);
    assert_eq!(oncalls[1].escalation_level, 2);
    let services = collect_services(Ok(vec![
        PagerDutyObjects::EscalationPolicies(vec![policy("EP1", "Go")]),
        PagerDutyObjects::Services(vec![service("S1", "web", "EP1")]),
    ]));
    assert_eq!(services.len(), 1);
    assert_eq!(services[0].name, "web");
}

#[test]
fn failed_fetch_counts_as_an_empty_collection() {
    assert!(collect_policies(Err(FetchError::Transport)).is_empty());
    assert!(collect_oncalls(Err(FetchError::Decode)).is_empty());
    assert!(collect_users(Err(FetchError::Transport)).is_empty());
    assert!(collect_services(Err(FetchError::Decode)).is_empty());
}

#[test]
fn account_is_joined_from_what_the_fetches_brought() {
    let policies = PagerDutyApi::get_escalation_policies(
        Ok(vec![PagerDutyObjects::EscalationPolicies(vec![policy("EP1", "Go")])]),
        Ok(vec![PagerDutyObjects::Oncalls(vec![oncall("EP1", 1, "U1")])]),
        Ok(vec![PagerDutyObjects::Users(vec![user("U1", "ann")])]),
        Ok(vec![PagerDutyObjects::Services(vec![service("S1", "web", "EP1")])]),
    );
    assert_eq!(policies.len(), 1);
    assert_eq!(
        policies[0].oncall_groups,
        vec![PagerDutyUserGroups { users: vec![shown("U1", "ann")], depth: 1 }]
    );
    assert_eq!(policies[0].services, vec!["web".to_string()]);
}

#[test]
fn policies_are_still_shown_when_the_other_fetches_failed() {
    let policies = PagerDutyApi::get_escalation_policies(
        Ok(vec![PagerDutyObjects::EscalationPolicies(vec![policy("EP1", "Go")])]),
        Err(FetchError::Transport),
        Err(FetchError::Decode),
        Err(FetchError::Transport),
    );
    assert_eq!(policies.len(), 1);
    assert!(policies[0].oncall_groups.is_empty());
    assert!(policies[0].services.is_empty());
}
