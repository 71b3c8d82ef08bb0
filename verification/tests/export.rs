use pagerduty_cli::output::export::TfStateExportData;
use pagerduty_cli::v2::EscalationPolicy;

fn pair(name: &str, id: &str) -> (String, String) {
    (name.to_string(), id.to_string())
}

#[test]
fn second_id_for_a_name_withdraws_the_name() {
    let mut export = TfStateExportData::default();
    assert!(!export.add_escalation_policy(EscalationPolicy::new("A", "X")));
    assert!(export.add_escalation_policy(EscalationPolicy::new("B", "X")));
    assert!(export.escalation_policies().is_empty());
    assert_eq!(export.get("X"), None);
    assert_eq!(export.duplicates(), vec!["X".to_string()]);
}

#[test]
fn same_policy_twice_stays_exported() {
    let mut export = TfStateExportData::default();
    assert!(!export.add_escalation_policy(EscalationPolicy::new("A", "X")));
    assert!(!export.add_escalation_policy(EscalationPolicy::new("A", "X")));
    assert_eq!(export.escalation_policies(), vec![pair("X", "A")]);
    assert_eq!(export.get("X"), Some("A".to_string()));
    assert!(export.duplicates().is_empty());
}

#[test]
fn new_export_is_empty() {
    let export = TfStateExportData::default();
    assert!(export.escalation_policies().is_empty());
    assert!(export.duplicates().is_empty());
    assert_eq!(export.get(""), None);
}

#[test]
fn names_are_listed_in_ascending_order() {
    let export = TfStateExportData::from_policies(vec![
        EscalationPolicy::new("1", "Go"),
        EscalationPolicy::new("2", "Connect"),
        EscalationPolicy::new("3", "go"),
        EscalationPolicy::new("4", "Alpha"),
        EscalationPolicy::new("5", "Goal"),
    ]);
    assert_eq!(
        export.escalation_policies(),
        vec![
            pair("Alpha", "4"),
            pair("Connect", "2"),
            pair("Go", "1"),
            pair("Goal", "5"),
            pair("go", "3"),
        ]
    );
    assert_eq!(export.get("Goal"), Some("5".to_string()));
    assert_eq!(export.get("Gob"), None);
    assert!(export.duplicates().is_empty());
}

#[test]
fn collision_leaves_the_other_names_alone() {
    let export = TfStateExportData::from_policies(vec![
        EscalationPolicy::new("1", "a"),
        EscalationPolicy::new("2", "b"),
        EscalationPolicy::new("3", "c"),
        EscalationPolicy::new("4", "b"),
    ]);
    assert_eq!(export.escalation_policies(), vec![pair("a", "1"), pair("c", "3")]);
    assert_eq!(export.duplicates(), vec!["b".to_string()]);
}

#[test]
fn withdrawn_name_stays_withdrawn() {
    let mut export = TfStateExportData::default();
    assert!(!export.add_escalation_policy(EscalationPolicy::new("A", "X")));
    assert!(export.add_escalation_policy(EscalationPolicy::new("B", "X")));
    assert!(export.add_escalation_policy(EscalationPolicy::new("C", "X")));
    assert!(export.escalation_policies().is_empty());
    assert_eq!(export.get("X"), None);
    assert_eq!(export.duplicates(), vec!["X".to_string()]);
    assert!(export.add_escalation_policy(EscalationPolicy::new("A", "X")));
    assert!(export.escalation_policies().is_empty());
    assert_eq!(export.duplicates(), vec!["X".to_string()]);
}

#[test]
fn withdrawn_name_leaves_other_names_free() {
    let export = TfStateExportData::from_policies(vec![
        EscalationPolicy::new("A", "X"),
        EscalationPolicy::new("B", "X"),
        EscalationPolicy::new("C", "Y"),
        EscalationPolicy::new("D", "X"),
        EscalationPolicy::new("C", "Y"),
    ]);
    assert_eq!(export.escalation_policies(), vec![pair("Y", "C")]);
    assert_eq!(export.duplicates(), vec!["X".to_string()]);
}

#[test]
fn duplicates_are_listed_in_the_order_they_were_noticed() {
    let export = TfStateExportData::from_policies(vec![
        EscalationPolicy::new("1", "z"),
        EscalationPolicy::new("2", "a"),
        EscalationPolicy::new("3", "z"),
        EscalationPolicy::new("4", "a"),
    ]);
    assert!(export.escalation_policies().is_empty());
    assert_eq!(export.duplicates(), vec!["z".to_string(), "a".to_string()]);
}
