//! The records of the four remote collections and their join into
//! escalation policies.

use vstd::prelude::*;
use vstd::string::*;
use crate::v2::fetch::{FetchError, FetchView, PageFetch};
use crate::v2::{EscalationPolicy, GroupView, PagerDutyUser, PagerDutyUserGroups, PolicyView, UserView};

verus! {

/// A user record.
#[derive(Clone, Debug)]
pub struct UserModel {
    pub name: String,
    pub id: String,
    pub self_ref: String,
    pub html_url: String,
    pub email: String,
}

/// What the join reads of a user record.
pub struct RawUser {
    pub id: Seq<char>,
    pub name: Seq<char>,
    pub email: Seq<char>,
}

impl DeepView for UserModel {
    type V = RawUser;

    open spec fn deep_view(&self) -> RawUser {
        RawUser { id: self.id@, name: self.name@, email: self.email@ }
    }
}

/// A reference to another record by its id.
#[derive(Debug, Clone)]
pub struct ModelReference {
    pub id: String,
}

/// A service record; it names the policy that it uses.
#[derive(Clone, Debug)]
pub struct ServiceModel {
    pub name: String,
    pub id: String,
    pub escalation_policy: ModelReference,
}

/// What the join reads of a service record.
pub struct RawService {
    pub id: Seq<char>,
    pub name: Seq<char>,
    pub policy_id: Seq<char>,
}

impl DeepView for ServiceModel {
    type V = RawService;

    open spec fn deep_view(&self) -> RawService {
        RawService { id: self.id@, name: self.name@, policy_id: self.escalation_policy.id@ }
    }
}

/// A policy record.
#[derive(Clone, Debug)]
pub struct EscalationPolicyModel {
    pub id: String,
    pub description: Option<String>,
    pub name: String,
}

/// What the join reads of a policy record.
pub struct RawPolicy {
    pub id: Seq<char>,
    pub name: Seq<char>,
    pub description: Option<Seq<char>>,
}

impl DeepView for EscalationPolicyModel {
    type V = RawPolicy;

    open spec fn deep_view(&self) -> RawPolicy {
        RawPolicy { id: self.id@, name: self.name@, description: self.description.deep_view() }
    }
}

/// An on-call row: one user on duty at one level of one policy.
#[derive(Debug, Clone)]
pub struct OnCallModel {
    pub escalation_policy: ModelReference,
    pub escalation_level: u8,
    pub user: ModelReference,
}

/// What the join reads of an on-call row.
pub struct RawOnCall {
    pub policy_id: Seq<char>,
    pub user_id: Seq<char>,
    pub escalation_level: u8,
}

impl DeepView for OnCallModel {
    type V = RawOnCall;

    open spec fn deep_view(&self) -> RawOnCall {
        RawOnCall {
            policy_id: self.escalation_policy.id@,
            user_id: self.user.id@,
            escalation_level: self.escalation_level,
        }
    }
}

/// One page of one collection.
#[derive(Debug)]
pub enum PagerDutyObjects {
    EscalationPolicies(Vec<EscalationPolicyModel>),
    Oncalls(Vec<OnCallModel>),
    Users(Vec<UserModel>),
    Services(Vec<ServiceModel>),
}

/// The envelope of a page: the page, where it stands in its collection,
/// and whether the collection goes on after it.
#[derive(Debug)]
pub struct PagerDutyResponseWrapper {
    pub obj: PagerDutyObjects,
    pub limit: u32,
    pub offset: u32,
    pub more: bool,
}

/// The record that stands for `id`: the last one with that id, since a
/// later record replaces an earlier one.
pub open spec fn find_user(users: Seq<RawUser>, id: Seq<char>) -> Option<RawUser>
    decreases users.len(),
{
    if users.len() == 0 {
        None
    } else if users.last().id == id {
        Some(users.last())
    } else {
        find_user(users.drop_last(), id)
    }
}

/// A user record as it is embedded in a level.
pub open spec fn resolved(user: RawUser) -> UserView {
    UserView { id: user.id, name: user.name, email: user.email }
}

/// The rows of one policy.
pub open spec fn belongs_to(policy_id: Seq<char>) -> spec_fn(RawOnCall) -> bool {
    |row: RawOnCall| row.policy_id == policy_id
}

/// The rows of one level whose user is known.
pub open spec fn staffed(users: Seq<RawUser>, depth: int) -> spec_fn(RawOnCall) -> bool {
    |row: RawOnCall| row.escalation_level == depth && find_user(users, row.user_id) is Some
}

/// The user of a row, as embedded in a level.
pub open spec fn user_of(users: Seq<RawUser>) -> spec_fn(RawOnCall) -> UserView {
    |row: RawOnCall| resolved(find_user(users, row.user_id)->0)
}

/// The highest level among `rows`, and 0 where there is no row.
pub open spec fn max_level(rows: Seq<RawOnCall>) -> nat
    decreases rows.len(),
{
    if rows.len() == 0 {
        0
    } else if rows.last().escalation_level > max_level(rows.drop_last()) {
        rows.last().escalation_level as nat
    } else {
        max_level(rows.drop_last())
    }
}

/// The users on call at `depth`, in row order. A row whose user is
/// unknown contributes nothing.
pub open spec fn level_users(rows: Seq<RawOnCall>, users: Seq<RawUser>, depth: int) -> Seq<
    UserView,
> {
    rows.filter(staffed(users, depth)).map_values(user_of(users))
}

/// The levels of a policy with the given rows: one for each depth from 1
/// to the highest level among the rows, none where there is no row.
pub open spec fn levels(rows: Seq<RawOnCall>, users: Seq<RawUser>) -> Seq<GroupView> {
    Seq::new(
        max_level(rows),
        |k: int| GroupView { users: level_users(rows, users, k + 1), depth: (k + 1) as u8 },
    )
}

/// The services of one policy.
pub open spec fn uses_policy(policy_id: Seq<char>) -> spec_fn(RawService) -> bool {
    |service: RawService| service.policy_id == policy_id
}

/// The names of the services that use the policy, in record order.
pub open spec fn service_names(services: Seq<RawService>, policy_id: Seq<char>) -> Seq<Seq<char>> {
    services.filter(uses_policy(policy_id)).map_values(|service: RawService| service.name)
}

/// One policy joined with its rows, users and services.
pub open spec fn aggregate_policy(
    policy: RawPolicy,
    oncalls: Seq<RawOnCall>,
    users: Seq<RawUser>,
    services: Seq<RawService>,
) -> PolicyView {
    PolicyView {
        id: policy.id,
        description: policy.description,
        policy_name: policy.name,
        oncall_groups: levels(oncalls.filter(belongs_to(policy.id)), users),
        services: service_names(services, policy.id),
    }
}

/// The join of the four collections: one policy per policy record, in
/// record order.
pub open spec fn aggregate(
    policies: Seq<RawPolicy>,
    oncalls: Seq<RawOnCall>,
    users: Seq<RawUser>,
    services: Seq<RawService>,
) -> Seq<PolicyView> {
    Seq::new(policies.len(), |i: int| aggregate_policy(policies[i], oncalls, users, services))
}

/// No row has a level above the highest, and where the highest is not 0
/// some row has it.
pub proof fn lemma_max_level_is_highest(rows: Seq<RawOnCall>)
    ensures
        max_level(rows) <= u8::MAX,
        forall|i: int| 0 <= i < rows.len() ==> (#[trigger] rows[i]).escalation_level <= max_level(rows),
        max_level(rows) > 0 ==> exists|i: int|
            0 <= i < rows.len() && (#[trigger] rows[i]).escalation_level == max_level(rows),
    decreases rows.len(),
{
    if rows.len() > 0 {
        let head = rows.drop_last();
        lemma_max_level_is_highest(head);
        assert forall|i: int| 0 <= i < rows.len() implies (#[trigger] rows[i]).escalation_level
            <= max_level(rows) by {
            if i < head.len() {
                assert(rows[i] == head[i]);
            }
        }
        if max_level(rows) > 0 {
            if rows.last().escalation_level > max_level(head) {
                assert(rows[rows.len() - 1].escalation_level == max_level(rows));
            } else {
                let i = choose|i: int|
                    0 <= i < head.len() && (#[trigger] head[i]).escalation_level == max_level(head);
                assert(rows[i] == head[i]);
            }
        }
    }
}

/// The levels of a policy have the depths 1, 2, and so on up to the
/// highest level among its rows, ascending, without a gap and without a
/// repeat. A policy without rows has no level at all.
pub proof fn lemma_levels_are_contiguous(rows: Seq<RawOnCall>, users: Seq<RawUser>)
    ensures
        levels(rows, users).len() == max_level(rows),
        forall|k: int|
            0 <= k < levels(rows, users).len() ==> (#[trigger] levels(rows, users)[k]).depth == k
                + 1,
        rows.len() == 0 ==> levels(rows, users).len() == 0,
{
    lemma_max_level_is_highest(rows);
}

/// An on-call row whose user has no record adds nothing to the users of
/// any level, wherever it stands among the rows, and the level of its
/// depth is there all the same.
pub proof fn lemma_unknown_user_is_omitted(
    rows: Seq<RawOnCall>,
    users: Seq<RawUser>,
    at: int,
    row: RawOnCall,
    depth: int,
)
    requires
        0 <= at <= rows.len(),
        find_user(users, row.user_id) is None,
    ensures
        level_users(rows.insert(at, row), users, depth) == level_users(rows, users, depth),
        levels(rows.insert(at, row), users).len() >= row.escalation_level,
{
    let keep = staffed(users, depth);
    let front = rows.subrange(0, at);
    let back = rows.subrange(at, rows.len() as int);
    front.lemma_filter_push(row, keep);
    Seq::filter_distributes_over_add(front.push(row), back, keep);
    Seq::filter_distributes_over_add(front, back, keep);
    assert(front + back =~= rows);
    let longer = rows.insert(at, row);
    lemma_max_level_is_highest(longer);
    assert(longer[at] == row);
}

/// A level none of whose rows names a known user has no users.
pub proof fn lemma_level_without_known_user_is_empty(
    rows: Seq<RawOnCall>,
    users: Seq<RawUser>,
    depth: int,
)
    requires
        forall|i: int|
            0 <= i < rows.len() && (#[trigger] rows[i]).escalation_level == depth ==> find_user(
                users,
                rows[i].user_id,
            ) is None,
    ensures
        level_users(rows, users, depth).len() == 0,
{
    let keep = staffed(users, depth);
    assert(rows.all(|row: RawOnCall| !keep(row)));
    rows.lemma_all_neg_filter_empty(keep);
}

/// Every user of a level stands for a row of that depth whose user has a
/// record, and appears as that record says.
pub proof fn lemma_level_users_are_known(
    rows: Seq<RawOnCall>,
    users: Seq<RawUser>,
    depth: int,
    k: int,
)
    requires
        0 <= k < level_users(rows, users, depth).len(),
    ensures
        exists|i: int|
            0 <= i < rows.len() && (#[trigger] rows[i]).escalation_level == depth && find_user(
                users,
                rows[i].user_id,
            ) is Some && level_users(rows, users, depth)[k] == resolved(
                find_user(users, rows[i].user_id)->0,
            ),
{
    let keep = staffed(users, depth);
    let picked = rows.filter(keep);
    rows.lemma_filter_pred(keep, k);
    assert(picked.contains(picked[k]));
    rows.lemma_filter_contains_rev(keep, picked[k]);
    let i = choose|i: int| 0 <= i < rows.len() && rows[i] == picked[k];
    assert(keep(rows[i]));
}

/// The record that stands for `id` among `users`.
fn lookup_user<'a>(users: &'a Vec<UserModel>, id: &String) -> (found: Option<&'a UserModel>)
    ensures
        found.deep_view() == find_user(users.deep_view(), id@),
{
    let mut i: usize = users.len();
    proof {
        assert(users.deep_view().take(i as int) =~= users.deep_view());
    }
    while i > 0
        invariant
            i <= users.len(),
            find_user(users.deep_view(), id@) == find_user(users.deep_view().take(i as int), id@),
        decreases i,
    {
        proof {
            let head = users.deep_view().take(i as int);
            assert(head.last() == users[i - 1].deep_view());
            assert(head.drop_last() =~= users.deep_view().take(i - 1));
        }
        if users[i - 1].id == *id {
            return Some(&users[i - 1]);
        }
        i -= 1;
    }
    proof {
        assert(users.deep_view().take(0).len() == 0);
    }
    None
}

/// The rows of the policy `policy_id`, in row order.
fn rows_of_policy<'a>(oncalls: &'a Vec<OnCallModel>, policy_id: &String) -> (rows: Vec<
    &'a OnCallModel,
>)
    ensures
        rows.deep_view() == oncalls.deep_view().filter(belongs_to(policy_id@)),
{
    let mut rows: Vec<&'a OnCallModel> = Vec::new();
    let mut i: usize = 0;
    proof {
        reveal(Seq::filter);
        assert(oncalls.deep_view().take(0).len() == 0);
        assert(rows.deep_view() =~= oncalls.deep_view().take(0).filter(belongs_to(policy_id@)));
    }
    while i < oncalls.len()
        invariant
            i <= oncalls.len(),
            rows.deep_view() == oncalls.deep_view().take(i as int).filter(belongs_to(policy_id@)),
        decreases oncalls.len() - i,
    {
        let ghost before = rows.deep_view();
        let oncall = &oncalls[i];
        proof {
            let all = oncalls.deep_view();
            assert(all.take(i + 1) =~= all.take(i as int).push(oncall.deep_view()));
            all.take(i as int).lemma_filter_push(oncall.deep_view(), belongs_to(policy_id@));
        }
        if oncall.escalation_policy.id == *policy_id {
            rows.push(oncall);
            proof {
                assert(rows.deep_view() =~= before.push(oncall.deep_view()));
            }
        }
        i += 1;
    }
    proof {
        assert(oncalls.deep_view().take(i as int) =~= oncalls.deep_view());
    }
    rows
}

/// The highest level among `rows`, and 0 where there is no row.
fn highest_level(rows: &Vec<&OnCallModel>) -> (max: u8)
    ensures
        max == max_level(rows.deep_view()),
{
    let mut max: u8 = 0;
    let mut i: usize = 0;
    proof {
        assert(rows.deep_view().take(0).len() == 0);
    }
    while i < rows.len()
        invariant
            i <= rows.len(),
            max == max_level(rows.deep_view().take(i as int)),
        decreases rows.len() - i,
    {
        proof {
            let head = rows.deep_view().take(i + 1);
            assert(head.last() == rows[i as int].deep_view());
            assert(head.drop_last() =~= rows.deep_view().take(i as int));
        }
        if rows[i].escalation_level > max {
            max = rows[i].escalation_level;
        }
        i += 1;
    }
    proof {
        assert(rows.deep_view().take(i as int) =~= rows.deep_view());
    }
    max
}

/// The users on call at `depth` among `rows`, each copied from the
/// record that stands for its id.
fn users_on_level(rows: &Vec<&OnCallModel>, users: &Vec<UserModel>, depth: u8) -> (found: Vec<
    PagerDutyUser,
>)
    ensures
        found.deep_view() == level_users(rows.deep_view(), users.deep_view(), depth as int),
{
    let mut found: Vec<PagerDutyUser> = Vec::new();
    let mut i: usize = 0;
    proof {
        reveal(Seq::filter);
        assert(rows.deep_view().take(0).len() == 0);
        assert(found.deep_view() =~= level_users(
            rows.deep_view().take(0),
            users.deep_view(),
            depth as int,
        ));
    }
    while i < rows.len()
        invariant
            i <= rows.len(),
            found.deep_view() == level_users(
                rows.deep_view().take(i as int),
                users.deep_view(),
                depth as int,
            ),
        decreases rows.len() - i,
    {
        let ghost before = found.deep_view();
        let ghost keep = staffed(users.deep_view(), depth as int);
        let oncall = rows[i];
        proof {
            let all = rows.deep_view();
            assert(all.take(i + 1) =~= all.take(i as int).push(oncall.deep_view()));
            all.take(i as int).lemma_filter_push(oncall.deep_view(), keep);
        }
        if oncall.escalation_level == depth {
            match lookup_user(users, &oncall.user.id) {
                Some(user) => {
                    found.push(
                        PagerDutyUser {
                            id: user.id.clone(),
                            name: user.name.clone(),
                            email: user.email.clone(),
                        },
                    );
                    proof {
                        let picked = rows.deep_view().take(i as int).filter(keep);
                        assert(found.deep_view() =~= before.push(
                            user_of(users.deep_view())(oncall.deep_view()),
                        ));
                        assert(picked.push(oncall.deep_view()).map_values(user_of(users.deep_view()))
                            =~= picked.map_values(user_of(users.deep_view())).push(
                            user_of(users.deep_view())(oncall.deep_view()),
                        ));
                    }
                },
                None => {},
            }
        }
        i += 1;
    }
    proof {
        assert(rows.deep_view().take(i as int) =~= rows.deep_view());
    }
    found
}

/// The levels of a policy with the given rows, from depth 1 to the
/// highest level among them.
fn policy_levels(rows: &Vec<&OnCallModel>, users: &Vec<UserModel>) -> (groups: Vec<
    PagerDutyUserGroups,
>)
    ensures
        groups.deep_view() == levels(rows.deep_view(), users.deep_view()),
{
    let max_depth = highest_level(rows);
    let mut groups: Vec<PagerDutyUserGroups> = Vec::new();
    let mut depth: u8 = 0;
    proof {
        assert(groups.deep_view() =~= levels(rows.deep_view(), users.deep_view()).take(0));
    }
    while depth < max_depth
        invariant
            depth <= max_depth,
            max_depth == max_level(rows.deep_view()),
            groups.deep_view() == levels(rows.deep_view(), users.deep_view()).take(depth as int),
        decreases max_depth - depth,
    {
        let ghost before = groups.deep_view();
        depth += 1;
        let users_for_depth = users_on_level(rows, users, depth);
        let group = PagerDutyUserGroups { users: users_for_depth, depth };
        proof {
            let all = levels(rows.deep_view(), users.deep_view());
            assert(group.deep_view() == all[depth - 1]);
            assert(all.take(depth as int) =~= all.take(depth - 1).push(all[depth - 1]));
        }
        groups.push(group);
        proof {
            assert(groups.deep_view() =~= before.push(group.deep_view()));
        }
    }
    proof {
        assert(levels(rows.deep_view(), users.deep_view()).take(depth as int) =~= levels(
            rows.deep_view(),
            users.deep_view(),
        ));
    }
    groups
}

/// The names of the services that use the policy `policy_id`.
fn policy_services(services: &Vec<ServiceModel>, policy_id: &String) -> (names: Vec<String>)
    ensures
        names.deep_view() == service_names(services.deep_view(), policy_id@),
{
    let mut names: Vec<String> = Vec::new();
    let mut i: usize = 0;
    let ghost name_of = |service: RawService| service.name;
    proof {
        reveal(Seq::filter);
        assert(services.deep_view().take(0).len() == 0);
        assert(names.deep_view() =~= service_names(services.deep_view().take(0), policy_id@));
    }
    while i < services.len()
        invariant
            i <= services.len(),
            names.deep_view() == service_names(services.deep_view().take(i as int), policy_id@),
        decreases services.len() - i,
    {
        let ghost before = names.deep_view();
        let service = &services[i];
        proof {
            let all = services.deep_view();
            assert(all.take(i + 1) =~= all.take(i as int).push(service.deep_view()));
            all.take(i as int).lemma_filter_push(service.deep_view(), uses_policy(policy_id@));
        }
        if service.escalation_policy.id == *policy_id {
            names.push(service.name.clone());
            proof {
                let picked = services.deep_view().take(i as int).filter(uses_policy(policy_id@));
                assert(names.deep_view() =~= before.push(service.name@));
                assert(picked.push(service.deep_view()).map_values(
                    |service: RawService| service.name,
                ) =~= picked.map_values(|service: RawService| service.name).push(service.name@));
            }
        }
        i += 1;
    }
    proof {
        assert(services.deep_view().take(i as int) =~= services.deep_view());
    }
    names
}

fn clone_description(description: &Option<String>) -> (copy: Option<String>)
    ensures
        copy.deep_view() == description.deep_view(),
{
    match description {
        Some(text) => Some(text.clone()),
        None => None,
    }
}

/// Joins the four collections into one policy per policy record, in
/// record order. Records are joined by id, never by name.
///
/// A policy gets one level for each depth from 1 to the highest level
/// among its on-call rows, and none where it has no row; a level holds the
/// users of the rows at its depth, in row order, without those whose id no
/// user record has.
pub fn make_escalation_policies(
    source_escalation_policies: Vec<EscalationPolicyModel>,
    source_users: Vec<UserModel>,
    source_oncalls: Vec<OnCallModel>,
    source_services: Vec<ServiceModel>,
) -> (policies: Vec<EscalationPolicy>)
    ensures
        policies.deep_view() == aggregate(
            source_escalation_policies.deep_view(),
            source_oncalls.deep_view(),
            source_users.deep_view(),
            source_services.deep_view(),
        ),
        policies.len() == source_escalation_policies.len(),
        forall|p: int, k: int|
            0 <= p < policies.len() && 0 <= k < policies[p].oncall_groups.len() ==> (
            #[trigger] policies[p].oncall_groups[k]).depth == k + 1,
{
    let mut return_policies: Vec<EscalationPolicy> = Vec::new();
    let ghost expected = aggregate(
        source_escalation_policies.deep_view(),
        source_oncalls.deep_view(),
        source_users.deep_view(),
        source_services.deep_view(),
    );
    let mut i: usize = 0;
    proof {
        assert(return_policies.deep_view() =~= expected.take(0));
    }
    while i < source_escalation_policies.len()
        invariant
            i <= source_escalation_policies.len(),
            expected == aggregate(
                source_escalation_policies.deep_view(),
                source_oncalls.deep_view(),
                source_users.deep_view(),
                source_services.deep_view(),
            ),
            return_policies.deep_view() == expected.take(i as int),
        decreases source_escalation_policies.len() - i,
    {
        let esc_model = &source_escalation_policies[i];
        let esc_id = esc_model.id.clone();
        let oncall_for_esc = rows_of_policy(&source_oncalls, &esc_id);
        let oncall_groups = policy_levels(&oncall_for_esc, &source_users);
        let services = policy_services(&source_services, &esc_id);
        let ghost before = return_policies.deep_view();
        let policy = EscalationPolicy {
            id: esc_id,
            description: clone_description(&esc_model.description),
            policy_name: esc_model.name.clone(),
            oncall_groups,
            services,
        };
        proof {
            assert(policy.deep_view() == expected[i as int]);
            assert(expected.take(i + 1) =~= expected.take(i as int).push(expected[i as int]));
        }
        return_policies.push(policy);
        proof {
            assert(return_policies.deep_view() =~= before.push(policy.deep_view()));
        }
        i += 1;
    }
    proof {
        assert(expected.take(i as int) =~= expected);
        assert forall|p: int, k: int|
            0 <= p < return_policies.len() && 0 <= k
                < return_policies[p].oncall_groups.len() implies (
        #[trigger] return_policies[p].oncall_groups[k]).depth == k + 1 by {
            let rows = source_oncalls.deep_view().filter(
                belongs_to(source_escalation_policies.deep_view()[p].id),
            );
            lemma_levels_are_contiguous(rows, source_users.deep_view());
            assert(return_policies.deep_view()[p] == expected[p]);
            assert(return_policies[p].oncall_groups.deep_view()[k] == levels(
                rows,
                source_users.deep_view(),
            )[k]);
        }
    }
    return_policies
}

/// The policy records of a page; a page of another collection has none.
pub open spec fn policies_in(page: PagerDutyObjects) -> Seq<EscalationPolicyModel> {
    match page {
        PagerDutyObjects::EscalationPolicies(records) => records@,
        _ => Seq::empty(),
    }
}

/// The policy records of the pages, page by page.
pub open spec fn all_policies(pages: Seq<PagerDutyObjects>) -> Seq<EscalationPolicyModel>
    decreases pages.len(),
{
    if pages.len() == 0 {
        Seq::empty()
    } else {
        all_policies(pages.drop_last()) + policies_in(pages.last())
    }
}

/// The policy records that a fetch brought, page by page: none where it failed.
pub open spec fn fetched_policies(fetched: Result<Vec<PagerDutyObjects>, FetchError>) -> Seq<EscalationPolicyModel> {
    match fetched {
        Ok(pages) => all_policies(pages@),
        Err(_) => Seq::empty(),
    }
}

/// Collects the policy records that a fetch brought, page by page. A fetch that
/// failed counts as one that brought none.
pub fn collect_policies(fetched: Result<Vec<PagerDutyObjects>, FetchError>) -> (records: Vec<
    EscalationPolicyModel,
>)
    ensures
        records@ == fetched_policies(fetched),
{
    let mut outputs: Vec<EscalationPolicyModel> = Vec::new();
    match fetched {
        Ok(objs) => {
            let ghost pages = objs@;
            proof {
                assert(pages.take(0).len() == 0);
            }
            for obj in pages_left: objs
                invariant
                    pages_left.seq() == pages,
                    outputs@ == all_policies(pages.take(pages_left.index() as int)),
            {
                let ghost done = outputs@;
                proof {
                    let n = pages_left.index() as int;
                    assert(pages.take(n + 1).drop_last() =~= pages.take(n));
                    assert(pages.take(n + 1).last() == obj);
                }
                if let PagerDutyObjects::EscalationPolicies(policies) = obj {
                    let ghost page = policies@;
                    proof {
                        assert(outputs@ =~= done + page.take(0));
                    }
                    for policy in records_left: policies
                        invariant
                            records_left.seq() == page,
                            outputs@ == done + page.take(records_left.index() as int),
                    {
                        outputs.push(policy);
                        proof {
                            let k = records_left.index() as int;
                            assert(page.take(k + 1) =~= page.take(k).push(policy));
                            assert(outputs@ =~= done + page.take(k + 1));
                        }
                    }
                    proof {
                        assert(page.take(page.len() as int) =~= page);
                    }
                } else {
                    proof {
                        assert(outputs@ =~= done + Seq::empty());
                    }
                }
            }
            proof {
                assert(pages.take(pages.len() as int) =~= pages);
            }
        },
        Err(_) => {},
    }
    outputs
}

/// The on-call rows of a page; a page of another collection has none.
pub open spec fn oncalls_in(page: PagerDutyObjects) -> Seq<OnCallModel> {
    match page {
        PagerDutyObjects::Oncalls(records) => records@,
        _ => Seq::empty(),
    }
}

/// The on-call rows of the pages, page by page.
pub open spec fn all_oncalls(pages: Seq<PagerDutyObjects>) -> Seq<OnCallModel>
    decreases pages.len(),
{
    if pages.len() == 0 {
        Seq::empty()
    } else {
        all_oncalls(pages.drop_last()) + oncalls_in(pages.last())
    }
}

/// The on-call rows that a fetch brought, page by page: none where it failed.
pub open spec fn fetched_oncalls(fetched: Result<Vec<PagerDutyObjects>, FetchError>) -> Seq<OnCallModel> {
    match fetched {
        Ok(pages) => all_oncalls(pages@),
        Err(_) => Seq::empty(),
    }
}

/// Collects the on-call rows that a fetch brought, page by page. A fetch that
/// failed counts as one that brought none.
pub fn collect_oncalls(fetched: Result<Vec<PagerDutyObjects>, FetchError>) -> (records: Vec<
    OnCallModel,
>)
    ensures
        records@ == fetched_oncalls(fetched),
{
    let mut outputs: Vec<OnCallModel> = Vec::new();
    match fetched {
        Ok(objs) => {
            let ghost pages = objs@;
            proof {
                assert(pages.take(0).len() == 0);
            }
            for obj in pages_left: objs
                invariant
                    pages_left.seq() == pages,
                    outputs@ == all_oncalls(pages.take(pages_left.index() as int)),
            {
                let ghost done = outputs@;
                proof {
                    let n = pages_left.index() as int;
                    assert(pages.take(n + 1).drop_last() =~= pages.take(n));
                    assert(pages.take(n + 1).last() == obj);
                }
                if let PagerDutyObjects::Oncalls(oncalls) = obj {
                    let ghost page = oncalls@;
                    proof {
                        assert(outputs@ =~= done + page.take(0));
                    }
                    for oncall in records_left: oncalls
                        invariant
                            records_left.seq() == page,
                            outputs@ == done + page.take(records_left.index() as int),
                    {
                        outputs.push(oncall);
                        proof {
                            let k = records_left.index() as int;
                            assert(page.take(k + 1) =~= page.take(k).push(oncall));
                            assert(outputs@ =~= done + page.take(k + 1));
                        }
                    }
                    proof {
                        assert(page.take(page.len() as int) =~= page);
                    }
                } else {
                    proof {
                        assert(outputs@ =~= done + Seq::empty());
                    }
                }
            }
            proof {
                assert(pages.take(pages.len() as int) =~= pages);
            }
        },
        Err(_) => {},
    }
    outputs
}

/// The user records of a page; a page of another collection has none.
pub open spec fn users_in(page: PagerDutyObjects) -> Seq<UserModel> {
    match page {
        PagerDutyObjects::Users(records) => records@,
        _ => Seq::empty(),
    }
}

/// The user records of the pages, page by page.
pub open spec fn all_users(pages: Seq<PagerDutyObjects>) -> Seq<UserModel>
    decreases pages.len(),
{
    if pages.len() == 0 {
        Seq::empty()
    } else {
        all_users(pages.drop_last()) + users_in(pages.last())
    }
}

/// The user records that a fetch brought, page by page: none where it failed.
pub open spec fn fetched_users(fetched: Result<Vec<PagerDutyObjects>, FetchError>) -> Seq<UserModel> {
    match fetched {
        Ok(pages) => all_users(pages@),
        Err(_) => Seq::empty(),
    }
}

/// Collects the user records that a fetch brought, page by page. A fetch that
/// failed counts as one that brought none.
pub fn collect_users(fetched: Result<Vec<PagerDutyObjects>, FetchError>) -> (records: Vec<
    UserModel,
>)
    ensures
        records@ == fetched_users(fetched),
{
    let mut outputs: Vec<UserModel> = Vec::new();
    match fetched {
        Ok(objs) => {
            let ghost pages = objs@;
            proof {
                assert(pages.take(0).len() == 0);
            }
            for obj in pages_left: objs
                invariant
                    pages_left.seq() == pages,
                    outputs@ == all_users(pages.take(pages_left.index() as int)),
            {
                let ghost done = outputs@;
                proof {
                    let n = pages_left.index() as int;
                    assert(pages.take(n + 1).drop_last() =~= pages.take(n));
                    assert(pages.take(n + 1).last() == obj);
                }
                if let PagerDutyObjects::Users(users) = obj {
                    let ghost page = users@;
                    proof {
                        assert(outputs@ =~= done + page.take(0));
                    }
                    for user in records_left: users
                        invariant
                            records_left.seq() == page,
                            outputs@ == done + page.take(records_left.index() as int),
                    {
                        outputs.push(user);
                        proof {
                            let k = records_left.index() as int;
                            assert(page.take(k + 1) =~= page.take(k).push(user));
                            assert(outputs@ =~= done + page.take(k + 1));
                        }
                    }
                    proof {
                        assert(page.take(page.len() as int) =~= page);
                    }
                } else {
                    proof {
                        assert(outputs@ =~= done + Seq::empty());
                    }
                }
            }
            proof {
                assert(pages.take(pages.len() as int) =~= pages);
            }
        },
        Err(_) => {},
    }
    outputs
}

/// The service records of a page; a page of another collection has none.
pub open spec fn services_in(page: PagerDutyObjects) -> Seq<ServiceModel> {
    match page {
        PagerDutyObjects::Services(records) => records@,
        _ => Seq::empty(),
    }
}

/// The service records of the pages, page by page.
pub open spec fn all_services(pages: Seq<PagerDutyObjects>) -> Seq<ServiceModel>
    decreases pages.len(),
{
    if pages.len() == 0 {
        Seq::empty()
    } else {
        all_services(pages.drop_last()) + services_in(pages.last())
    }
}

/// The service records that a fetch brought, page by page: none where it failed.
pub open spec fn fetched_services(fetched: Result<Vec<PagerDutyObjects>, FetchError>) -> Seq<ServiceModel> {
    match fetched {
        Ok(pages) => all_services(pages@),
        Err(_) => Seq::empty(),
    }
}

/// Collects the service records that a fetch brought, page by page. A fetch that
/// failed counts as one that brought none.
pub fn collect_services(fetched: Result<Vec<PagerDutyObjects>, FetchError>) -> (records: Vec<
    ServiceModel,
>)
    ensures
        records@ == fetched_services(fetched),
{
    let mut outputs: Vec<ServiceModel> = Vec::new();
    match fetched {
        Ok(objs) => {
            let ghost pages = objs@;
            proof {
                assert(pages.take(0).len() == 0);
            }
            for obj in pages_left: objs
                invariant
                    pages_left.seq() == pages,
                    outputs@ == all_services(pages.take(pages_left.index() as int)),
            {
                let ghost done = outputs@;
                proof {
                    let n = pages_left.index() as int;
                    assert(pages.take(n + 1).drop_last() =~= pages.take(n));
                    assert(pages.take(n + 1).last() == obj);
                }
                if let PagerDutyObjects::Services(services) = obj {
                    let ghost page = services@;
                    proof {
                        assert(outputs@ =~= done + page.take(0));
                    }
                    for service in records_left: services
                        invariant
                            records_left.seq() == page,
                            outputs@ == done + page.take(records_left.index() as int),
                    {
                        outputs.push(service);
                        proof {
                            let k = records_left.index() as int;
                            assert(page.take(k + 1) =~= page.take(k).push(service));
                            assert(outputs@ =~= done + page.take(k + 1));
                        }
                    }
                    proof {
                        assert(page.take(page.len() as int) =~= page);
                    }
                } else {
                    proof {
                        assert(outputs@ =~= done + Seq::empty());
                    }
                }
            }
            proof {
                assert(pages.take(pages.len() as int) =~= pages);
            }
        },
        Err(_) => {},
    }
    outputs
}

/// Access to one account of the remote service.
pub struct PagerDutyApi {
    auth_token: String,
}

impl View for PagerDutyApi {
    type V = Seq<char>;

    /// The token that the account is read with.
    closed spec fn view(&self) -> Seq<char> {
        self.auth_token@
    }
}

/// One of the four remote collections.
#[derive(Debug, Clone, Copy, PartialEq, Eq, Structural)]
pub enum Resource {
    EscalationPolicies,
    Oncalls,
    Users,
    Services,
}

impl Resource {
    /// Where the collection is fetched from.
    pub open spec fn endpoint(self) -> Seq<char> {
        match self {
            Resource::EscalationPolicies => "https://api.pagerduty.com/escalation_policies"@,
            Resource::Oncalls => "https://api.pagerduty.com/oncalls"@,
            Resource::Users => "https://api.pagerduty.com/users"@,
            Resource::Services => "https://api.pagerduty.com/services"@,
        }
    }

    /// What the collection's records are asked to be expanded with.
    pub open spec fn expansions(self) -> Seq<Seq<char>> {
        match self {
            Resource::EscalationPolicies => seq!["targets"@],
            Resource::Oncalls => seq!["targets"@],
            Resource::Users => Seq::empty(),
            Resource::Services => Seq::empty(),
        }
    }
}

impl PagerDutyApi {
    /// Access to the account that `auth_token` opens.
    pub fn new(auth_token: String) -> (api: PagerDutyApi)
        ensures
            api@ == auth_token@,
    {
        PagerDutyApi { auth_token }
    }

    /// A fetch of one collection of the account that has not asked for
    /// anything yet.
    pub fn fetch(&self, resource: Resource) -> (fetch: PageFetch)
        ensures
            fetch@ == FetchView::start(resource.endpoint(), resource.expansions(), self@),
    {
        let mut expansions: Vec<String> = Vec::new();
        let url = match resource {
            Resource::EscalationPolicies => {
                expansions.push(String::from_str("targets"));
                "https://api.pagerduty.com/escalation_policies"
            },
            Resource::Oncalls => {
                expansions.push(String::from_str("targets"));
                "https://api.pagerduty.com/oncalls"
            },
            Resource::Users => "https://api.pagerduty.com/users",
            Resource::Services => "https://api.pagerduty.com/services",
        };
        proof {
            assert(expansions.deep_view() =~= resource.expansions());
        }
        PageFetch::new(url, &expansions, self.auth_token.as_str())
    }

    /// The policies of the account, from what the four fetches brought. A
    /// collection whose fetch failed counts as empty.
    pub fn get_escalation_policies(
        policies: Result<Vec<PagerDutyObjects>, FetchError>,
        oncalls: Result<Vec<PagerDutyObjects>, FetchError>,
        users: Result<Vec<PagerDutyObjects>, FetchError>,
        services: Result<Vec<PagerDutyObjects>, FetchError>,
    ) -> (joined: Vec<EscalationPolicy>)
        ensures
            joined.deep_view() == aggregate(
                records_view(fetched_policies(policies)),
                oncalls_view(fetched_oncalls(oncalls)),
                users_view(fetched_users(users)),
                services_view(fetched_services(services)),
            ),
    {
        let policies = collect_policies(policies);
        let oncalls = collect_oncalls(oncalls);
        let users = collect_users(users);
        let services = collect_services(services);
        proof {
            assert(policies.deep_view() =~= records_view(policies@));
            assert(oncalls.deep_view() =~= oncalls_view(oncalls@));
            assert(users.deep_view() =~= users_view(users@));
            assert(services.deep_view() =~= services_view(services@));
        }
        make_escalation_policies(policies, users, oncalls, services)
    }
}

/// What the join reads of policy records.
pub open spec fn records_view(records: Seq<EscalationPolicyModel>) -> Seq<RawPolicy> {
    Seq::new(records.len(), |i: int| records[i].deep_view())
}

/// What the join reads of on-call rows.
pub open spec fn oncalls_view(records: Seq<OnCallModel>) -> Seq<RawOnCall> {
    Seq::new(records.len(), |i: int| records[i].deep_view())
}

/// What the join reads of user records.
pub open spec fn users_view(records: Seq<UserModel>) -> Seq<RawUser> {
    Seq::new(records.len(), |i: int| records[i].deep_view())
}

/// What the join reads of service records.
pub open spec fn services_view(records: Seq<ServiceModel>) -> Seq<RawService> {
    Seq::new(records.len(), |i: int| records[i].deep_view())
}

} // verus!
