//! What the drawing of the policies reads, line by line, and the proof
//! that the forest built from the policies is drawn so.

use vstd::prelude::*;
use crate::output::tree::{child_prefix, line_text, GraphView, TreeView};
use crate::output::{keeps, level_label, oncalls_label, policy_label, policy_tree, with_levels};
use crate::v2::{GroupView, PolicyView};

verus! {

/// The labels of the kept ones among the first `upto` levels of policy
/// `p`, in the order of the levels.
pub open spec fn kept_labels(groups: Seq<GroupView>, kept: Seq<Seq<bool>>, p: int, upto: int) -> Seq<
    Seq<char>,
>
    decreases upto,
{
    if upto <= 0 {
        Seq::empty()
    } else if keeps(kept, p, upto - 1) {
        kept_labels(groups, kept, p, upto - 1).push(level_label(groups[upto - 1]))
    } else {
        kept_labels(groups, kept, p, upto - 1)
    }
}

/// Every kept label is the label of a kept level.
pub proof fn lemma_kept_labels_are_kept(
    groups: Seq<GroupView>,
    kept: Seq<Seq<bool>>,
    p: int,
    upto: int,
    j: int,
)
    requires
        upto <= groups.len(),
        0 <= j < kept_labels(groups, kept, p, upto).len(),
    ensures
        exists|k: int|
            0 <= k < upto && keeps(kept, p, k) && kept_labels(groups, kept, p, upto)[j]
                == level_label(#[trigger] groups[k]),
    decreases upto,
{
    if upto > 0 {
        let shorter = kept_labels(groups, kept, p, upto - 1);
        if j < shorter.len() {
            lemma_kept_labels_are_kept(groups, kept, p, upto - 1, j);
            let k = choose|k: int|
                0 <= k < upto - 1 && keeps(kept, p, k) && shorter[j] == level_label(
                    #[trigger] groups[k],
                );
            assert(kept_labels(groups, kept, p, upto)[j] == level_label(groups[k]));
        } else {
            assert(kept_labels(groups, kept, p, upto)[j] == level_label(groups[upto - 1]));
        }
    }
}

/// One line for each label from position `from` on, all with the same
/// indent; the final one is drawn as last.
pub open spec fn leaf_lines(labels: Seq<Seq<char>>, prefix: Seq<char>, from: int) -> Seq<char>
    decreases labels.len() - from,
{
    if 0 <= from < labels.len() {
        line_text(prefix, from == labels.len() - 1, labels[from]) + leaf_lines(
            labels,
            prefix,
            from + 1,
        )
    } else {
        Seq::empty()
    }
}

/// The lines of one policy: its name, the line under which its levels
/// hang, which is always the last under the name, and one line for each
/// kept level.
pub open spec fn policy_text(policy: PolicyView, kept: Seq<Seq<bool>>, p: int, is_last: bool) -> Seq<
    char,
> {
    let under_name = child_prefix(Seq::empty(), is_last);
    line_text(Seq::empty(), is_last, policy_label(policy.policy_name)) + (line_text(
        under_name,
        true,
        oncalls_label(),
    ) + leaf_lines(
        kept_labels(policy.oncall_groups, kept, p, policy.oncall_groups.len() as int),
        child_prefix(under_name, true),
        0,
    ))
}

/// The lines of the policies from position `from` on; the final policy is
/// drawn as last.
pub open spec fn tree_text(policies: Seq<PolicyView>, kept: Seq<Seq<bool>>, from: int) -> Seq<char>
    decreases policies.len() - from,
{
    if 0 <= from < policies.len() {
        policy_text(policies[from], kept, from, from == policies.len() - 1) + tree_text(
            policies,
            kept,
            from + 1,
        )
    } else {
        Seq::empty()
    }
}

/// The lines at `root` and after it are those of one policy: the name,
/// under it the line for the levels, under that one childless line for
/// each label.
pub open spec fn is_policy_subtree(
    graph: GraphView,
    root: int,
    name: Seq<char>,
    labels: Seq<Seq<char>>,
) -> bool {
    &&& 0 <= root
    &&& root + 2 + labels.len() <= graph.labels.len()
    &&& graph.labels[root] == name
    &&& graph.children[root] == seq![root + 1]
    &&& graph.labels[root + 1] == oncalls_label()
    &&& graph.children[root + 1] == Seq::new(labels.len(), |j: int| root + 2 + j)
    &&& forall|j: int|
        0 <= j < labels.len() ==> #[trigger] graph.labels[root + 2 + j] == labels[j]
            && graph.children[root + 2 + j] == Seq::<int>::empty()
}

proof fn lemma_leaves_drawn(
    graph: GraphView,
    root: int,
    name: Seq<char>,
    labels: Seq<Seq<char>>,
    prefix: Seq<char>,
    from: int,
)
    requires
        graph.wf(),
        is_policy_subtree(graph, root, name, labels),
        0 <= from <= labels.len(),
    ensures
        graph.render_children(root + 1, from, prefix) == leaf_lines(labels, prefix, from),
    decreases labels.len() - from,
{
    if from < labels.len() {
        let leaf = root + 2 + from;
        let is_last = from == labels.len() - 1;
        lemma_leaves_drawn(graph, root, name, labels, prefix, from + 1);
        assert(graph.children[root + 1][from] == leaf);
        assert(graph.labels[root + 2 + from] == labels[from]);
        assert(graph.children[leaf].len() == 0);
        assert(graph.render_children(leaf, 0, child_prefix(prefix, is_last)) == Seq::<
            char,
        >::empty());
        assert(graph.render_line(leaf, prefix, is_last) =~= line_text(
            prefix,
            is_last,
            labels[from],
        ));
    }
}

proof fn lemma_policy_drawn(
    graph: GraphView,
    root: int,
    policy: PolicyView,
    kept: Seq<Seq<bool>>,
    p: int,
    is_last: bool,
)
    requires
        graph.wf(),
        is_policy_subtree(
            graph,
            root,
            policy_label(policy.policy_name),
            kept_labels(policy.oncall_groups, kept, p, policy.oncall_groups.len() as int),
        ),
    ensures
        graph.render_line(root, Seq::empty(), is_last) == policy_text(policy, kept, p, is_last),
{
    let labels = kept_labels(policy.oncall_groups, kept, p, policy.oncall_groups.len() as int);
    let under_name = child_prefix(Seq::empty(), is_last);
    let under_levels = child_prefix(under_name, true);
    lemma_leaves_drawn(graph, root, policy_label(policy.policy_name), labels, under_levels, 0);
    assert(graph.children[root][0] == root + 1);
    assert(graph.render_children(root, 1, under_name) == Seq::<char>::empty());
    assert(graph.render_line(root + 1, under_name, true) == line_text(
        under_name,
        true,
        oncalls_label(),
    ) + leaf_lines(labels, under_levels, 0));
    assert(graph.render_children(root, 0, under_name) =~= graph.render_line(
        root + 1,
        under_name,
        true,
    ));
}

/// The forest after the levels of one policy were offered: the new lines
/// are those of the policy, and all lines before them are as they were.
proof fn lemma_levels_added(
    before: TreeView,
    name: Seq<char>,
    groups: Seq<GroupView>,
    kept: Seq<Seq<bool>>,
    p: int,
    upto: int,
)
    requires
        before.wf(),
        0 <= upto <= groups.len(),
    ensures
        ({
            let root = before.graph.labels.len() as int;
            let after = with_levels(
                before.with_root(name).with_child(root, oncalls_label()),
                root + 1,
                groups,
                kept,
                p,
                upto,
            );
            &&& after.wf()
            &&& after.roots == before.roots.push(root)
            &&& after.graph.labels.len() == root + 2 + kept_labels(groups, kept, p, upto).len()
            &&& is_policy_subtree(after.graph, root, name, kept_labels(groups, kept, p, upto))
            &&& forall|j: int|
                0 <= j < root ==> #[trigger] after.graph.labels[j] == before.graph.labels[j]
                    && after.graph.children[j] == before.graph.children[j]
        }),
    decreases upto,
{
    let root = before.graph.labels.len() as int;
    let base = before.with_root(name).with_child(root, oncalls_label());
    let after = with_levels(base, root + 1, groups, kept, p, upto);
    let labels = kept_labels(groups, kept, p, upto);
    if upto == 0 {
        assert(base.graph.children[root] =~= seq![root + 1]);
        assert(base.graph.children[root + 1] =~= Seq::new(0nat, |j: int| root + 2 + j));
        assert(base.graph.wf());
        assert(base.wf());
    } else {
        lemma_levels_added(before, name, groups, kept, p, upto - 1);
        let earlier = with_levels(base, root + 1, groups, kept, p, upto - 1);
        let shorter = kept_labels(groups, kept, p, upto - 1);
        if keeps(kept, p, upto - 1) {
            let leaf = earlier.graph.labels.len() as int;
            let label = level_label(groups[upto - 1]);
            assert(after == earlier.with_child(root + 1, label));
            assert(leaf == root + 2 + shorter.len());
            assert(after.graph.children[root + 1] =~= Seq::new(
                labels.len(),
                |j: int| root + 2 + j,
            ));
            assert forall|j: int| 0 <= j < labels.len() implies #[trigger] after.graph.labels[root
                + 2 + j] == labels[j] && after.graph.children[root + 2 + j] == Seq::<
                int,
            >::empty() by {
                if j < shorter.len() {
                    assert(earlier.graph.labels[root + 2 + j] == shorter[j]);
                }
            }
            assert forall|q: int, k: int|
                0 <= q < after.graph.children.len() && 0 <= k
                    < after.graph.children[q].len() implies q
                < #[trigger] after.graph.children[q][k] < after.graph.labels.len() by {
                if q == root + 1 {
                    if k < shorter.len() {
                        assert(after.graph.children[q][k] == earlier.graph.children[q][k]);
                    }
                } else if q < earlier.graph.children.len() {
                    assert(after.graph.children[q] == earlier.graph.children[q]);
                    assert(q < earlier.graph.children[q][k] < earlier.graph.labels.len());
                }
            }
            assert forall|j: int| 0 <= j < root implies #[trigger] after.graph.labels[j]
                == before.graph.labels[j] && after.graph.children[j]
                == before.graph.children[j] by {
                assert(earlier.graph.labels[j] == before.graph.labels[j]);
            }
            assert(after.wf());
        }
    }
}

/// The forest of the first `upto` policies: one root per policy, and at
/// each root the lines of its policy.
proof fn lemma_policy_tree_shape(policies: Seq<PolicyView>, kept: Seq<Seq<bool>>, upto: int)
    requires
        0 <= upto <= policies.len(),
    ensures
        policy_tree(policies, kept, upto).wf(),
        policy_tree(policies, kept, upto).roots.len() == upto,
        forall|i: int|
            0 <= i < upto ==> is_policy_subtree(
                policy_tree(policies, kept, upto).graph,
                #[trigger] policy_tree(policies, kept, upto).roots[i],
                policy_label(policies[i].policy_name),
                kept_labels(
                    policies[i].oncall_groups,
                    kept,
                    i,
                    policies[i].oncall_groups.len() as int,
                ),
            ),
    decreases upto,
{
    if upto > 0 {
        lemma_policy_tree_shape(policies, kept, upto - 1);
        let before = policy_tree(policies, kept, upto - 1);
        let after = policy_tree(policies, kept, upto);
        let policy = policies[upto - 1];
        let root = before.graph.labels.len() as int;
        lemma_levels_added(
            before,
            policy_label(policy.policy_name),
            policy.oncall_groups,
            kept,
            upto - 1,
            policy.oncall_groups.len() as int,
        );
        assert forall|i: int| 0 <= i < upto implies is_policy_subtree(
            after.graph,
            #[trigger] after.roots[i],
            policy_label(policies[i].policy_name),
            kept_labels(policies[i].oncall_groups, kept, i, policies[i].oncall_groups.len() as int),
        ) by {
            if i < upto - 1 {
                let at = before.roots[i];
                let labels = kept_labels(
                    policies[i].oncall_groups,
                    kept,
                    i,
                    policies[i].oncall_groups.len() as int,
                );
                assert(after.roots[i] == at);
                assert(is_policy_subtree(
                    before.graph,
                    at,
                    policy_label(policies[i].policy_name),
                    labels,
                ));
                assert(after.graph.labels[at] == before.graph.labels[at]);
                assert(after.graph.labels[at + 1] == before.graph.labels[at + 1]);
                assert forall|j: int| 0 <= j < labels.len() implies #[trigger] after.graph.labels[at
                    + 2 + j] == labels[j] && after.graph.children[at + 2 + j] == Seq::<
                    int,
                >::empty() by {
                    assert(before.graph.labels[at + 2 + j] == labels[j]);
                    assert(after.graph.labels[at + 2 + j] == before.graph.labels[at + 2 + j]);
                }
            } else {
                assert(after.roots[i] == root);
            }
        }
    } else {
        assert(policy_tree(policies, kept, 0).graph.wf());
    }
}

proof fn lemma_roots_drawn(policies: Seq<PolicyView>, kept: Seq<Seq<bool>>, from: int)
    requires
        0 <= from <= policies.len(),
    ensures
        policy_tree(policies, kept, policies.len() as int).render_roots(from) == tree_text(
            policies,
            kept,
            from,
        ),
    decreases policies.len() - from,
{
    let tree = policy_tree(policies, kept, policies.len() as int);
    lemma_policy_tree_shape(policies, kept, policies.len() as int);
    if from < policies.len() {
        lemma_roots_drawn(policies, kept, from + 1);
        lemma_policy_drawn(
            tree.graph,
            tree.roots[from],
            policies[from],
            kept,
            from,
            from == policies.len() - 1,
        );
    }
}

/// The forest built from the policies is drawn as [`tree_text`] says: for
/// each policy its name, under it one line, and under that one line for
/// each kept level. A line is drawn as last exactly when no sibling comes
/// after it, and a bar runs down under every policy but the last.
pub proof fn lemma_tree_text(policies: Seq<PolicyView>, kept: Seq<Seq<bool>>)
    ensures
        policy_tree(policies, kept, policies.len() as int).wf(),
        policy_tree(policies, kept, policies.len() as int).render() == tree_text(policies, kept, 0),
{
    lemma_policy_tree_shape(policies, kept, policies.len() as int);
    lemma_roots_drawn(policies, kept, 0);
}

} // verus!
