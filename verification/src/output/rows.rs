//! The flat rows behind the JSON and CSV renderings: one row for every
//! user of every kept level of every policy.

use vstd::prelude::*;
use vstd::string::*;
use crate::output::keeps;
use crate::v2::{EscalationPolicy, GroupView, PolicyView, UserView};

verus! {

/// One user on call at one level of one policy.
#[derive(Debug, Clone, PartialEq, Eq)]
pub struct OncallRow {
    pub id: String,
    pub escalation_policy: String,
    pub depth: u8,
    pub user_name: String,
    pub user_email: String,
}

/// What an [`OncallRow`] holds.
pub struct RowView {
    pub id: Seq<char>,
    pub escalation_policy: Seq<char>,
    pub depth: u8,
    pub user_name: Seq<char>,
    pub user_email: Seq<char>,
}

impl DeepView for OncallRow {
    type V = RowView;

    open spec fn deep_view(&self) -> RowView {
        RowView {
            id: self.id@,
            escalation_policy: self.escalation_policy@,
            depth: self.depth,
            user_name: self.user_name@,
            user_email: self.user_email@,
        }
    }
}

/// The row of one user of a level.
pub open spec fn row_of(policy: PolicyView, group: GroupView) -> spec_fn(UserView) -> RowView {
    |user: UserView|
        RowView {
            id: policy.id,
            escalation_policy: policy.policy_name,
            depth: group.depth,
            user_name: user.name,
            user_email: user.email,
        }
}

/// The rows of one level: one per user, in the order of the users.
pub open spec fn group_rows(policy: PolicyView, group: GroupView) -> Seq<RowView> {
    group.users.map_values(row_of(policy, group))
}

/// The rows of the kept ones among the first `upto` levels of policy `p`.
pub open spec fn policy_rows(policies: Seq<PolicyView>, kept: Seq<Seq<bool>>, p: int, upto: int) -> Seq<
    RowView,
>
    decreases upto,
{
    if upto <= 0 {
        Seq::empty()
    } else if keeps(kept, p, upto - 1) {
        policy_rows(policies, kept, p, upto - 1) + group_rows(
            policies[p],
            policies[p].oncall_groups[upto - 1],
        )
    } else {
        policy_rows(policies, kept, p, upto - 1)
    }
}

/// The rows of the first `upto` policies: policy by policy, level by
/// level, user by user.
pub open spec fn oncall_rows(policies: Seq<PolicyView>, kept: Seq<Seq<bool>>, upto: int) -> Seq<
    RowView,
>
    decreases upto,
{
    if upto <= 0 {
        Seq::empty()
    } else {
        oncall_rows(policies, kept, upto - 1) + policy_rows(
            policies,
            kept,
            upto - 1,
            policies[upto - 1].oncall_groups.len() as int,
        )
    }
}

/// All rows of the policies.
pub open spec fn all_rows(policies: Seq<PolicyView>, kept: Seq<Seq<bool>>) -> Seq<RowView> {
    oncall_rows(policies, kept, policies.len() as int)
}

/// Flattens the policies into rows: one row for every user of every level
/// that `kept` keeps, in the order of the policies, levels and users.
pub fn flatten_rows(policies: &Vec<EscalationPolicy>, kept: &Vec<Vec<bool>>) -> (rows: Vec<
    OncallRow,
>)
    ensures
        rows.deep_view() == all_rows(policies.deep_view(), kept.deep_view()),
{
    let mut rows: Vec<OncallRow> = Vec::new();
    let mut p: usize = 0;
    proof {
        assert(rows.deep_view() =~= oncall_rows(policies.deep_view(), kept.deep_view(), 0));
    }
    while p < policies.len()
        invariant
            p <= policies.len(),
            rows.deep_view() == oncall_rows(policies.deep_view(), kept.deep_view(), p as int),
        decreases policies.len() - p,
    {
        let policy = &policies[p];
        let ghost done = rows.deep_view();
        let mut k: usize = 0;
        proof {
            assert(rows.deep_view() =~= done + policy_rows(
                policies.deep_view(),
                kept.deep_view(),
                p as int,
                0,
            ));
        }
        while k < policy.oncall_groups.len()
            invariant
                k <= policy.oncall_groups.len(),
                p < policies.len(),
                policy == &policies[p as int],
                rows.deep_view() == done + policy_rows(
                    policies.deep_view(),
                    kept.deep_view(),
                    p as int,
                    k as int,
                ),
            decreases policy.oncall_groups.len() - k,
        {
            let ghost before = policy_rows(policies.deep_view(), kept.deep_view(), p as int, k as int);
            if p < kept.len() && k < kept[p].len() && kept[p][k] {
                let group = &policy.oncall_groups[k];
                let ghost level = group_rows(policy.deep_view(), group.deep_view());
                let mut u: usize = 0;
                proof {
                    assert(rows.deep_view() =~= done + before + level.take(0));
                }
                while u < group.users.len()
                    invariant
                        u <= group.users.len(),
                        level == group_rows(policy.deep_view(), group.deep_view()),
                        rows.deep_view() == done + before + level.take(u as int),
                    decreases group.users.len() - u,
                {
                    let user = &group.users[u];
                    let ghost sofar = rows.deep_view();
                    let row = OncallRow {
                        id: policy.id.clone(),
                        escalation_policy: policy.policy_name.clone(),
                        depth: group.depth,
                        user_name: user.name.clone(),
                        user_email: user.email.clone(),
                    };
                    proof {
                        assert(row.deep_view() == level[u as int]);
                        assert(level.take(u + 1) =~= level.take(u as int).push(level[u as int]));
                    }
                    rows.push(row);
                    proof {
                        assert(rows.deep_view() =~= sofar.push(row.deep_view()));
                        assert(rows.deep_view() =~= done + before + level.take(u + 1));
                    }
                    u += 1;
                }
                proof {
                    assert(level.take(u as int) =~= level);
                    assert(policies.deep_view()[p as int] == policy.deep_view());
                    assert(policy.deep_view().oncall_groups[k as int] == group.deep_view());
                    assert(rows.deep_view() =~= done + (before + level));
                }
            }
            k += 1;
        }
        proof {
            assert(policies.deep_view()[p as int].oncall_groups.len() == policy.oncall_groups.len());
        }
        p += 1;
    }
    rows
}

/// Where `kept` keeps no level deeper than `max_depth`, no row is deeper
/// than `max_depth`.
pub proof fn lemma_rows_within_depth(policies: Seq<PolicyView>, kept: Seq<Seq<bool>>, max_depth: int)
    requires
        forall|p: int, k: int|
            0 <= p < policies.len() && 0 <= k < policies[p].oncall_groups.len() && keeps(kept, p, k)
                ==> (#[trigger] policies[p].oncall_groups[k]).depth <= max_depth,
    ensures
        forall|i: int|
            0 <= i < all_rows(policies, kept).len() ==> (#[trigger] all_rows(policies, kept)[i]).depth
                <= max_depth,
{
    lemma_rows_within_depth_upto(policies, kept, max_depth, policies.len() as int);
}

proof fn lemma_policy_rows_within_depth(
    policies: Seq<PolicyView>,
    kept: Seq<Seq<bool>>,
    max_depth: int,
    p: int,
    upto: int,
)
    requires
        0 <= p < policies.len(),
        upto <= policies[p].oncall_groups.len(),
        forall|q: int, k: int|
            0 <= q < policies.len() && 0 <= k < policies[q].oncall_groups.len() && keeps(kept, q, k)
                ==> (#[trigger] policies[q].oncall_groups[k]).depth <= max_depth,
    ensures
        forall|i: int|
            0 <= i < policy_rows(policies, kept, p, upto).len() ==> (#[trigger] policy_rows(
                policies,
                kept,
                p,
                upto,
            )[i]).depth <= max_depth,
    decreases upto,
{
    if upto > 0 {
        lemma_policy_rows_within_depth(policies, kept, max_depth, p, upto - 1);
        let before = policy_rows(policies, kept, p, upto - 1);
        let all = policy_rows(policies, kept, p, upto);
        assert forall|i: int| 0 <= i < all.len() implies (#[trigger] all[i]).depth <= max_depth by {
            if i < before.len() {
                assert(all[i] == before[i]);
            } else {
                assert(keeps(kept, p, upto - 1));
                assert(policies[p].oncall_groups[upto - 1].depth <= max_depth);
                let level = group_rows(policies[p], policies[p].oncall_groups[upto - 1]);
                assert(all[i] == level[i - before.len()]);
            }
        }
    }
}

proof fn lemma_rows_within_depth_upto(
    policies: Seq<PolicyView>,
    kept: Seq<Seq<bool>>,
    max_depth: int,
    upto: int,
)
    requires
        upto <= policies.len(),
        forall|p: int, k: int|
            0 <= p < policies.len() && 0 <= k < policies[p].oncall_groups.len() && keeps(kept, p, k)
                ==> (#[trigger] policies[p].oncall_groups[k]).depth <= max_depth,
    ensures
        forall|i: int|
            0 <= i < oncall_rows(policies, kept, upto).len() ==> (#[trigger] oncall_rows(
                policies,
                kept,
                upto,
            )[i]).depth <= max_depth,
    decreases upto,
{
    if upto > 0 {
        lemma_rows_within_depth_upto(policies, kept, max_depth, upto - 1);
        lemma_policy_rows_within_depth(
            policies,
            kept,
            max_depth,
            upto - 1,
            policies[upto - 1].oncall_groups.len() as int,
        );
        let before = oncall_rows(policies, kept, upto - 1);
        let added = policy_rows(
            policies,
            kept,
            upto - 1,
            policies[upto - 1].oncall_groups.len() as int,
        );
        let all = oncall_rows(policies, kept, upto);
        assert forall|i: int| 0 <= i < all.len() implies (#[trigger] all[i]).depth <= max_depth by {
            if i < before.len() {
                assert(all[i] == before[i]);
            } else {
                assert(all[i] == added[i - before.len()]);
            }
        }
    }
}

} // verus!
