//! The on-call report: the policies that pass the name patterns, sorted by
//! name, with their levels down to a depth, rendered in one of three
//! formats.

use vstd::prelude::*;
use vstd::string::*;
use crate::filter::{passes, select_policies, sources_of, NamePattern};
use crate::output::csv_text::{csv_table, csv_text};
use crate::output::json_text::{json_pretty, json_records};
use crate::output::rows::{all_rows, lemma_rows_within_depth};
use crate::output::tree_text::{kept_labels, lemma_kept_labels_are_kept, tree_text};
use crate::output::{build_csv_output, build_json_output, build_tree_output, is_selection, keeps, level_label};
use crate::v2::sort::{is_stable_rearrangement, name_ordered, sort_policies};
use crate::v2::{EscalationPolicy, PagerDutyUserGroups, PolicyView};

verus! {

/// The depth down to which levels are shown when no depth is asked for:
/// every level.
pub const UNLIMITED_DEPTH: u8 = 255;

/// How the report is rendered.
#[derive(Debug, Clone, Copy, PartialEq, Eq, Structural)]
pub enum OutputFormat {
    Tree,
    Json,
    Csv,
}

impl OutputFormat {
    /// The format of the given name: `tree`, `json` or `csv`.
    pub fn parse(name: &str) -> (format: Option<OutputFormat>)
        ensures
            format == (if name@ == "tree"@ {
                Some(OutputFormat::Tree)
            } else if name@ == "json"@ {
                Some(OutputFormat::Json)
            } else if name@ == "csv"@ {
                Some(OutputFormat::Csv)
            } else {
                None
            }),
    {
        let name = String::from_str(name);
        if name == String::from_str("tree") {
            Some(OutputFormat::Tree)
        } else if name == String::from_str("json") {
            Some(OutputFormat::Json)
        } else if name == String::from_str("csv") {
            Some(OutputFormat::Csv)
        } else {
            None
        }
    }
}

/// Whether a level is shown when levels are shown down to `max_depth`.
pub fn within_depth(group: &PagerDutyUserGroups, max_depth: u8) -> (shown: bool)
    ensures
        shown == (group.depth <= max_depth),
{
    if group.depth > max_depth {
        return false;
    }
    true
}

/// For every level of every policy, whether it is no deeper than
/// `max_depth`.
pub open spec fn depth_selection(policies: Seq<PolicyView>, max_depth: u8) -> Seq<Seq<bool>> {
    Seq::new(
        policies.len(),
        |p: int|
            Seq::new(
                policies[p].oncall_groups.len(),
                |k: int| policies[p].oncall_groups[k].depth <= max_depth,
            ),
    )
}

/// With a depth cutoff no row of the JSON and CSV renderings is deeper
/// than the cutoff.
pub proof fn lemma_depth_cutoff_of_rows(policies: Seq<PolicyView>, max_depth: u8)
    ensures
        forall|i: int|
            0 <= i < all_rows(policies, depth_selection(policies, max_depth)).len() ==> (
            #[trigger] all_rows(policies, depth_selection(policies, max_depth))[i]).depth
                <= max_depth,
{
    lemma_rows_within_depth(policies, depth_selection(policies, max_depth), max_depth as int);
}

/// The labels of the level lines that the tree shows under policy `p`
/// with a depth cutoff.
pub open spec fn shown_labels(policies: Seq<PolicyView>, max_depth: u8, p: int) -> Seq<Seq<char>> {
    kept_labels(
        policies[p].oncall_groups,
        depth_selection(policies, max_depth),
        p,
        policies[p].oncall_groups.len() as int,
    )
}

/// With a depth cutoff every level line of the tree is the line of a level
/// that is no deeper than the cutoff.
pub proof fn lemma_depth_cutoff_of_tree(policies: Seq<PolicyView>, max_depth: u8, p: int, j: int)
    requires
        0 <= p < policies.len(),
        0 <= j < shown_labels(policies, max_depth, p).len(),
    ensures
        exists|k: int|
            0 <= k < policies[p].oncall_groups.len() && (
            #[trigger] policies[p].oncall_groups[k]).depth <= max_depth && shown_labels(
                policies,
                max_depth,
                p,
            )[j] == level_label(policies[p].oncall_groups[k]),
{
    let kept = depth_selection(policies, max_depth);
    let groups = policies[p].oncall_groups;
    lemma_kept_labels_are_kept(groups, kept, p, groups.len() as int, j);
    let k = choose|k: int|
        0 <= k < groups.len() && keeps(kept, p, k) && kept_labels(
            groups,
            kept,
            p,
            groups.len() as int,
        )[j] == level_label(#[trigger] groups[k]);
    assert(groups[k].depth <= max_depth);
}

/// The text of the given policies and levels in the given format.
pub open spec fn rendering(format: OutputFormat, policies: Seq<PolicyView>, kept: Seq<Seq<bool>>) -> Seq<
    char,
> {
    match format {
        OutputFormat::Tree => tree_text(policies, kept, 0),
        OutputFormat::Json => json_pretty(json_records(all_rows(policies, kept)), 2),
        OutputFormat::Csv => csv_text(csv_table(all_rows(policies, kept))),
    }
}

/// What the policies hold.
pub open spec fn views_of(policies: Seq<EscalationPolicy>) -> Seq<PolicyView> {
    Seq::new(policies.len(), |i: int| policies[i].deep_view())
}

/// `shown` holds the policies that pass the patterns, sorted by name, with
/// policies of the same name in the order in which they came.
pub open spec fn is_report_order(
    policies: Seq<EscalationPolicy>,
    includes: Seq<Seq<char>>,
    excludes: Seq<Seq<char>>,
    shown: Seq<EscalationPolicy>,
) -> bool {
    let passing = policies.filter(
        |policy: EscalationPolicy| passes(includes, excludes, policy.policy_name@),
    );
    &&& name_ordered(shown)
    &&& exists|from: Seq<int>| is_stable_rearrangement(passing, shown, from)
}

/// The on-call report: of the policies that pass the patterns, sorted by
/// name, the levels no deeper than `max_depth`, in the given format.
pub fn who_is_oncall(
    policies: Vec<EscalationPolicy>,
    includes_vec: &[NamePattern],
    excludes_vec: &[NamePattern],
    max_depth: u8,
    format: OutputFormat,
) -> (text: String)
    ensures
        exists|shown: Seq<EscalationPolicy>| #[trigger]
            is_report_order(
                policies@,
                sources_of(includes_vec@),
                sources_of(excludes_vec@),
                shown,
            ) && text@ == rendering(
                format,
                views_of(shown),
                depth_selection(views_of(shown), max_depth),
            ),
{
    let mut selected = select_policies(policies, includes_vec, excludes_vec);
    sort_policies(&mut selected);
    let ghost shown = selected@;
    let ghost views = selected.deep_view();
    proof {
        assert(views =~= views_of(shown));
    }
    let usergroup_filter = |usergroup: &PagerDutyUserGroups| -> (keep: bool)
        ensures
            keep == (usergroup.depth <= max_depth),
        { within_depth(usergroup, max_depth) };
    let text = match format {
        OutputFormat::Tree => build_tree_output(selected, usergroup_filter),
        OutputFormat::Json => build_json_output(selected, usergroup_filter),
        OutputFormat::Csv => build_csv_output(selected, usergroup_filter),
    };
    proof {
        assert forall|kept: Seq<Seq<bool>>| is_selection(usergroup_filter, shown, kept) implies kept
            == depth_selection(views, max_depth) by {
            let expected = depth_selection(views, max_depth);
            assert forall|p: int| 0 <= p < kept.len() implies #[trigger] kept[p] == expected[p] by {
                assert(kept[p].len() == shown[p].oncall_groups.len());
                assert forall|k: int| 0 <= k < kept[p].len() implies #[trigger] kept[p][k]
                    == expected[p][k] by {
                    assert(call_ensures(usergroup_filter, (&shown[p].oncall_groups[k],), kept[p][k]));
                    assert(views[p].oncall_groups[k] == shown[p].oncall_groups[k].deep_view());
                }
                assert(kept[p] =~= expected[p]);
            }
            assert(kept =~= expected);
        }
        assert(is_report_order(
            policies@,
            sources_of(includes_vec@),
            sources_of(excludes_vec@),
            shown,
        ));
    }
    text
}

} // verus!
