//! Renderings of the aggregated policies: a tree, JSON rows and CSV rows.
//!
//! Each rendering shows, of every policy, the levels that a caller's
//! predicate keeps.

pub mod csv_text;
pub mod export;
pub mod json_text;
pub mod rows;
pub mod tree;
pub mod tree_text;

use vstd::prelude::*;
use vstd::string::*;
use crate::output::csv_text::{csv_rows_text, csv_table, csv_text};
use crate::output::json_text::{json_pretty, json_records, json_rows_text};
use crate::output::rows::{all_rows, flatten_rows};
use crate::output::tree::{TreePrinter, TreeView};
use crate::output::tree_text::{lemma_tree_text, tree_text};
use crate::text::{decimal, join, joined, push_decimal};
use crate::v2::{EscalationPolicy, GroupView, PagerDutyUserGroups, PolicyView, UserView};

verus! {

/// `kept` records, for every level of every policy, an answer that
/// `filter` gave for that level.
pub open spec fn is_selection<P: Fn(&PagerDutyUserGroups) -> bool>(
    filter: P,
    policies: Seq<EscalationPolicy>,
    kept: Seq<Seq<bool>>,
) -> bool {
    &&& kept.len() == policies.len()
    &&& forall|p: int|
        0 <= p < policies.len() ==> (#[trigger] kept[p]).len() == policies[p].oncall_groups.len()
    &&& forall|p: int, k: int|
        0 <= p < policies.len() && 0 <= k < policies[p].oncall_groups.len() ==> call_ensures(
            filter,
            (&policies[p].oncall_groups[k],),
            #[trigger] kept[p][k],
        )
}

/// Asks `filter` about every level of every policy, policy by policy and
/// level by level.
pub fn select_levels<P: Fn(&PagerDutyUserGroups) -> bool>(
    policies: &Vec<EscalationPolicy>,
    filter: &P,
) -> (kept: Vec<Vec<bool>>)
    requires
        forall|group: &PagerDutyUserGroups| call_requires(*filter, (group,)),
    ensures
        is_selection(*filter, policies@, kept.deep_view()),
{
    let mut kept: Vec<Vec<bool>> = Vec::new();
    let mut p: usize = 0;
    while p < policies.len()
        invariant
            p <= policies.len(),
            forall|group: &PagerDutyUserGroups| call_requires(*filter, (group,)),
            is_selection(*filter, policies@.take(p as int), kept.deep_view()),
        decreases policies.len() - p,
    {
        let groups = &policies[p].oncall_groups;
        let mut answers: Vec<bool> = Vec::new();
        let mut k: usize = 0;
        while k < groups.len()
            invariant
                k <= groups.len(),
                forall|group: &PagerDutyUserGroups| call_requires(*filter, (group,)),
                answers.len() == k,
                forall|j: int| 0 <= j < k ==> call_ensures(*filter, (&groups[j],), #[trigger] answers[j]),
            decreases groups.len() - k,
        {
            let answer = filter(&groups[k]);
            answers.push(answer);
            k += 1;
        }
        let ghost before = kept.deep_view();
        kept.push(answers);
        proof {
            assert(kept.deep_view() =~~= before.push(answers@));
            assert(policies@.take(p + 1) =~= policies@.take(p as int).push(policies[p as int]));
            assert forall|q: int, j: int|
                0 <= q < p + 1 && 0 <= j < policies@.take(p + 1)[q].oncall_groups.len() implies call_ensures(
                *filter,
                (&policies@.take(p + 1)[q].oncall_groups[j],),
                #[trigger] kept.deep_view()[q][j],
            ) by {
                if q < p {
                    assert(kept.deep_view()[q] == before[q]);
                    assert(policies@.take(p as int)[q] == policies@.take(p + 1)[q]);
                }
            }
        }
        p += 1;
    }
    proof {
        assert(policies@.take(p as int) =~= policies@);
    }
    kept
}

/// Whether `kept` keeps level `k` of policy `p`. A level for which
/// `kept` has no answer is not kept.
pub open spec fn keeps(kept: Seq<Seq<bool>>, p: int, k: int) -> bool {
    0 <= p < kept.len() && 0 <= k < kept[p].len() && kept[p][k]
}

fn is_kept(kept: &Vec<Vec<bool>>, p: usize, k: usize) -> (yes: bool)
    ensures
        yes == keeps(kept.deep_view(), p as int, k as int),
{
    p < kept.len() && k < kept[p].len() && kept[p][k]
}

/// The names under which the users of a level are shown.
pub open spec fn display_names(users: Seq<UserView>) -> Seq<Seq<char>> {
    users.map_values(|user: UserView| user.name)
}

/// The label of a policy's root line.
pub open spec fn policy_label(name: Seq<char>) -> Seq<char> {
    "Escilation Policy - "@ + name
}

/// The label of the line under which a policy's levels hang.
pub open spec fn oncalls_label() -> Seq<char> {
    "Oncalls"@
}

/// The label of a level: its depth and the names of its users, separated
/// by a comma and a space.
pub open spec fn level_label(group: GroupView) -> Seq<char> {
    "Level "@ + decimal(group.depth as nat) + " - "@ + joined(display_names(group.users), ", "@)
}

/// The forest after the first `upto` levels of a policy were offered:
/// each kept level is one more child of `parent`.
pub open spec fn with_levels(
    tree: TreeView,
    parent: int,
    groups: Seq<GroupView>,
    kept: Seq<Seq<bool>>,
    p: int,
    upto: int,
) -> TreeView
    decreases upto,
{
    if upto <= 0 {
        tree
    } else {
        let before = with_levels(tree, parent, groups, kept, p, upto - 1);
        if keeps(kept, p, upto - 1) {
            before.with_child(parent, level_label(groups[upto - 1]))
        } else {
            before
        }
    }
}

/// The forest after the first `upto` policies were added: each policy is
/// one more root, with a single child under which its kept levels hang.
pub open spec fn policy_tree(policies: Seq<PolicyView>, kept: Seq<Seq<bool>>, upto: int) -> TreeView
    decreases upto,
{
    if upto <= 0 {
        TreeView::empty()
    } else {
        let before = policy_tree(policies, kept, upto - 1);
        let policy = policies[upto - 1];
        let root = before.graph.labels.len() as int;
        with_levels(
            before.with_root(policy_label(policy.policy_name)).with_child(root, oncalls_label()),
            root + 1,
            policy.oncall_groups,
            kept,
            upto - 1,
            policy.oncall_groups.len() as int,
        )
    }
}

fn level_text(group: &PagerDutyUserGroups) -> (label: String)
    ensures
        label@ == level_label(group.deep_view()),
{
    let mut names: Vec<String> = Vec::new();
    let mut i: usize = 0;
    while i < group.users.len()
        invariant
            i <= group.users.len(),
            names.deep_view() == display_names(group.users.deep_view().take(i as int)),
        decreases group.users.len() - i,
    {
        let ghost before = names.deep_view();
        names.push(group.users[i].to_display());
        proof {
            let all = group.users.deep_view();
            assert(all.take(i + 1) =~= all.take(i as int).push(all[i as int]));
            assert(names.deep_view() =~= before.push(all[i as int].name));
            assert(names.deep_view() =~= display_names(all.take(i + 1)));
        }
        i += 1;
    }
    proof {
        assert(group.users.deep_view().take(i as int) =~= group.users.deep_view());
    }
    let mut label = String::from_str("Level ");
    push_decimal(&mut label, group.depth as u32);
    label.append(" - ");
    let shown = join(&names, ", ");
    label.append(shown.as_str());
    proof {
        assert(label@ =~= level_label(group.deep_view()));
    }
    label
}

/// Draws the policies as a forest: one root per policy, labelled with the
/// policy's name, one child under it, and under that one line per level
/// that `kept` keeps.
pub fn tree_output(policies: &Vec<EscalationPolicy>, kept: &Vec<Vec<bool>>) -> (text: String)
    ensures
        text@ == tree_text(policies.deep_view(), kept.deep_view(), 0),
{
    let mut tree = TreePrinter::default();
    let mut p: usize = 0;
    while p < policies.len()
        invariant
            p <= policies.len(),
            tree.wf(),
            tree@ == policy_tree(policies.deep_view(), kept.deep_view(), p as int),
        decreases policies.len() - p,
    {
        let policy = &policies[p];
        let mut label = String::from_str("Escilation Policy - ");
        label.append(policy.policy_name.as_str());
        let root = tree.add_line(label);
        let oncalls = root.add_line(&mut tree, String::from_str("Oncalls"));
        let ghost start = tree@;
        let mut k: usize = 0;
        while k < policy.oncall_groups.len()
            invariant
                k <= policy.oncall_groups.len(),
                tree.wf(),
                tree@.has_line(oncalls@),
                tree@ == with_levels(
                    start,
                    oncalls@,
                    policy.oncall_groups.deep_view(),
                    kept.deep_view(),
                    p as int,
                    k as int,
                ),
            decreases policy.oncall_groups.len() - k,
        {
            if is_kept(kept, p, k) {
                let group = &policy.oncall_groups[k];
                oncalls.add_line(&mut tree, level_text(group));
            }
            k += 1;
        }
        p += 1;
    }
    proof {
        lemma_tree_text(policies.deep_view(), kept.deep_view());
    }
    tree.render()
}

/// Draws the policies as a forest, with the levels for which `filter`
/// answers yes.
pub fn build_tree_output<P: Fn(&PagerDutyUserGroups) -> bool>(
    policies: Vec<EscalationPolicy>,
    filter: P,
) -> (text: String)
    requires
        forall|group: &PagerDutyUserGroups| call_requires(filter, (group,)),
    ensures
        exists|kept: Seq<Seq<bool>>|
            is_selection(filter, policies@, kept) && text@ == #[trigger] tree_text(
                policies.deep_view(),
                kept,
                0,
            ),
{
    let kept = select_levels(&policies, &filter);
    tree_output(&policies, &kept)
}

/// The policies as JSON: one flat object per user of every level for
/// which `filter` answers yes.
pub fn build_json_output<P: Fn(&PagerDutyUserGroups) -> bool>(
    policies: Vec<EscalationPolicy>,
    filter: P,
) -> (text: String)
    requires
        forall|group: &PagerDutyUserGroups| call_requires(filter, (group,)),
    ensures
        exists|kept: Seq<Seq<bool>>|
            is_selection(filter, policies@, kept) && text@ == json_pretty(
                json_records(#[trigger] all_rows(policies.deep_view(), kept)),
                2,
            ),
{
    let kept = select_levels(&policies, &filter);
    let rows = flatten_rows(&policies, &kept);
    json_rows_text(&rows)
}

/// The policies as CSV: a header record, then one record per user of
/// every level for which `filter` answers yes.
pub fn build_csv_output<P: Fn(&PagerDutyUserGroups) -> bool>(
    policies: Vec<EscalationPolicy>,
    filter: P,
) -> (text: String)
    requires
        forall|group: &PagerDutyUserGroups| call_requires(filter, (group,)),
    ensures
        exists|kept: Seq<Seq<bool>>|
            is_selection(filter, policies@, kept) && text@ == csv_text(
                csv_table(#[trigger] all_rows(policies.deep_view(), kept)),
            ),
{
    let kept = select_levels(&policies, &filter);
    let rows = flatten_rows(&policies, &kept);
    csv_rows_text(&rows)
}

} // verus!
