//! The aggregated view of an account: one record per escalation policy,
//! with its escalation levels, the users on call at each level and the
//! names of the services that use the policy.

pub mod api;
pub mod fetch;
pub mod order;
pub mod sort;

use vstd::prelude::*;
use vstd::string::*;
use crate::v2::api::PagerDutyApi;

verus! {

/// A user as embedded in an escalation level.
#[derive(Debug, Clone, PartialEq, Eq, PartialOrd, Ord)]
pub struct PagerDutyUser {
    pub id: String,
    pub name: String,
    pub email: String,
}

/// What a [`PagerDutyUser`] holds.
pub struct UserView {
    pub id: Seq<char>,
    pub name: Seq<char>,
    pub email: Seq<char>,
}

impl DeepView for PagerDutyUser {
    type V = UserView;

    open spec fn deep_view(&self) -> UserView {
        UserView { id: self.id@, name: self.name@, email: self.email@ }
    }
}

/// One escalation level of a policy: its depth, counted from 1, and the
/// users on call at that depth.
#[derive(Debug, Clone, PartialEq, Eq)]
pub struct PagerDutyUserGroups {
    pub users: Vec<PagerDutyUser>,
    pub depth: u8,
}

/// What a [`PagerDutyUserGroups`] holds.
pub struct GroupView {
    pub users: Seq<UserView>,
    pub depth: u8,
}

impl DeepView for PagerDutyUserGroups {
    type V = GroupView;

    open spec fn deep_view(&self) -> GroupView {
        GroupView { users: self.users.deep_view(), depth: self.depth }
    }
}

/// An escalation policy with its levels, ordered by depth, and the names
/// of its services.
#[derive(Debug, Clone)]
pub struct EscalationPolicy {
    pub id: String,
    pub description: Option<String>,
    pub policy_name: String,
    pub oncall_groups: Vec<PagerDutyUserGroups>,
    pub services: Vec<String>,
}

/// What an [`EscalationPolicy`] holds.
pub struct PolicyView {
    pub id: Seq<char>,
    pub description: Option<Seq<char>>,
    pub policy_name: Seq<char>,
    pub oncall_groups: Seq<GroupView>,
    pub services: Seq<Seq<char>>,
}

impl DeepView for EscalationPolicy {
    type V = PolicyView;

    open spec fn deep_view(&self) -> PolicyView {
        PolicyView {
            id: self.id@,
            description: self.description.deep_view(),
            policy_name: self.policy_name@,
            oncall_groups: self.oncall_groups.deep_view(),
            services: self.services.deep_view(),
        }
    }
}

/// The prefix of the placeholder user of [`EscalationPolicy::new`].
pub open spec fn placeholder_prefix() -> Seq<char> {
    seq!['o', 'n', 'c', 'a', 'l', 'l', '-']
}

impl PagerDutyUser {
    /// The name under which the user is shown.
    pub fn to_display(&self) -> (shown: String)
        ensures
            shown@ == self.name@,
    {
        self.name.clone()
    }
}

impl EscalationPolicy {
    /// A policy with one level of depth 1, on which a single placeholder
    /// user is on call whose id, name and email are all `oncall-` followed
    /// by the policy's name; no description and no services.
    pub fn new(id: &str, policy_name: &str) -> (policy: EscalationPolicy)
        ensures
            policy.deep_view() == (PolicyView {
                id: id@,
                description: None,
                policy_name: policy_name@,
                oncall_groups: seq![
                    GroupView {
                        users: seq![
                            UserView {
                                id: placeholder_prefix() + policy_name@,
                                name: placeholder_prefix() + policy_name@,
                                email: placeholder_prefix() + policy_name@,
                            },
                        ],
                        depth: 1,
                    },
                ],
                services: Seq::empty(),
            }),
    {
        let mut formatted_name = String::from_str("oncall-");
        proof {
            reveal_strlit("oncall-");
            assert("oncall-"@ =~= placeholder_prefix());
        }
        formatted_name.append(policy_name);
        let user = PagerDutyUser {
            id: formatted_name.clone(),
            name: formatted_name.clone(),
            email: formatted_name,
        };
        let mut users = Vec::new();
        users.push(user);
        let mut oncall_groups = Vec::new();
        oncall_groups.push(PagerDutyUserGroups { users, depth: 1 });
        let policy = EscalationPolicy {
            id: String::from_str(id),
            description: None,
            policy_name: String::from_str(policy_name),
            oncall_groups,
            services: Vec::new(),
        };
        proof {
            let view = policy.deep_view();
            assert(view.services =~= Seq::empty());
            assert(view.oncall_groups.len() == 1);
            assert(view.oncall_groups[0].users =~= seq![
                UserView {
                    id: placeholder_prefix() + policy_name@,
                    name: placeholder_prefix() + policy_name@,
                    email: placeholder_prefix() + policy_name@,
                },
            ]);
            assert(view.oncall_groups =~= seq![
                GroupView { users: view.oncall_groups[0].users, depth: 1 },
            ]);
        }
        policy
    }
}

/// A client for one account of the remote service.
pub struct PagerDutyClient {
    api: PagerDutyApi,
}

impl PagerDutyClient {
    /// The token that the account is read with.
    pub closed spec fn auth_token(&self) -> Seq<char> {
        self.api@
    }

    /// A client for the account that `auth_token` opens.
    pub fn new(auth_token: &str) -> (client: PagerDutyClient)
        ensures
            client.auth_token() == auth_token@,
    {
        let api = PagerDutyApi::new(String::from_str(auth_token));
        PagerDutyClient { api }
    }

    /// The access to the account.
    pub fn api(&self) -> (api: &PagerDutyApi)
        ensures
            api@ == self.auth_token(),
    {
        &self.api
    }
}

} // verus!
