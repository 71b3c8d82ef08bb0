use pagerduty_cli::v2::sort::sort_policies;
use pagerduty_cli::v2::{EscalationPolicy, PagerDutyClient, PagerDutyUser, PagerDutyUserGroups};

#[test]
fn when_different_do_not_match() {
    assert_ne!(
        EscalationPolicy::new("abc123", "policy-1"),
        EscalationPolicy::new("def456", "policy-2")
    );
}

#[test]
fn order_will_be_alpha() {
    let policy1 = EscalationPolicy::new("ABC123", "Connect");
    let policy2 = EscalationPolicy::new("DEF456", "Go");

    let mut vec = vec![policy1.clone(), policy2.clone()];
    sort_policies(&mut vec);
    assert_eq!("Connect", vec[0].policy_name);
    assert_eq!("Go", vec[1].policy_name);

    let mut vec = vec![policy2, policy1];
    sort_policies(&mut vec);
    assert_eq!("Connect", vec[0].policy_name);
    assert_eq!("Go", vec[1].policy_name);
}

#[test]
fn new_policy_has_one_placeholder_user_on_level_one() {
    let policy = EscalationPolicy::new("abc123", "policy-1");
    assert_eq!(policy.id, "abc123");
    assert_eq!(policy.policy_name, "policy-1");
    assert_eq!(policy.description, None);
    assert!(policy.services.is_empty());
    assert_eq!(
        policy.oncall_groups,
        vec![PagerDutyUserGroups {
            users: vec![PagerDutyUser {
                id: "oncall-policy-1".to_string(),
                name: "oncall-policy-1".to_string(),
                email: "oncall-policy-1".to_string(),
            }],
            depth: 1,
        }]
    );
}

#[test]
fn policies_are_equal_by_name_alone() {
    let left = EscalationPolicy::new("abc123", "same");
    let right = EscalationPolicy::new("def456", "same");
    assert_eq!(left, right);
    assert!(left <= right && right <= left);
}

#[test]
fn policies_compare_as_their_names() {
    let connect = EscalationPolicy::new("2", "Connect");
    let go = EscalationPolicy::new("1", "Go");
    assert!(connect < go);
    assert!(go > connect);
    assert!(!(go < connect));
}

#[test]
fn sort_orders_by_code_point_not_by_alphabet() {
    let mut vec = vec![
        EscalationPolicy::new("1", "alpha"),
        EscalationPolicy::new("2", "Zulu"),
        EscalationPolicy::new("3", "\u{e9}cole"),
        EscalationPolicy::new("4", "alp"),
        EscalationPolicy::new("5", ""),
    ];
    sort_policies(&mut vec);
    let names: Vec<&str> = vec.iter().map(|policy| policy.policy_name.as_str()).collect();
    assert_eq!(names, vec!["", "Zulu", "alp", "alpha", "\u{e9}cole"]);
}

#[test]
fn sort_keeps_policies_of_one_name_in_their_order() {
    let mut vec = vec![
        EscalationPolicy::new("first", "b"),
        EscalationPolicy::new("second", "a"),
        EscalationPolicy::new("third", "b"),
        EscalationPolicy::new("fourth", "a"),
        EscalationPolicy::new("fifth", "b"),
    ];
    sort_policies(&mut vec);
    let ids: Vec<&str> = vec.iter().map(|policy| policy.id.as_str()).collect();
    assert_eq!(ids, vec!["second", "fourth", "first", "third", "fifth"]);
}

#[test]
fn sort_of_nothing_is_nothing() {
    let mut vec: Vec<EscalationPolicy> = Vec::new();
    sort_policies(&mut vec);
    assert!(vec.is_empty());
}

#[test]
fn user_is_shown_by_name() {
    let user = PagerDutyUser {
        id: "U1".to_string(),
        name: "Ann".to_string(),
        email: "ann@example.com".to_string(),
    };
    assert_eq!(user.to_display(), "Ann");
}

#[test]
fn client_hands_its_token_to_every_request() {
    let client = PagerDutyClient::new("SECRET-REDACTED");
    let fetch = client.api().fetch(pagerduty_cli::v2::api::Resource::Users);
    match fetch.next() {
        pagerduty_cli::v2::fetch::FetchStep::Request { request, .. } => {
            assert_eq!(
                request.headers[1],
                ("Authorization".to_string(), "Token token=SECRET-REDACTED".to_string())
            );
        }
        pagerduty_cli::v2::fetch::FetchStep::Finished(_) => panic!("a new fetch has a page to ask for"),
    }
}
