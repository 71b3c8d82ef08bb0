//! Sorting policies by name.

use vstd::prelude::*;
use vstd::string::*;
use crate::text::{lemma_text_lt_asymmetric, lemma_text_lt_irreflexive, lemma_text_lt_le, str_lt, text_le, text_lt};
use crate::v2::EscalationPolicy;

verus! {

/// No policy stands before one whose name comes before its own.
pub open spec fn name_ordered(policies: Seq<EscalationPolicy>) -> bool {
    forall|i: int, j: int|
        0 <= i < j < policies.len() ==> text_le(
            (#[trigger] policies[i]).policy_name@,
            (#[trigger] policies[j]).policy_name@,
        )
}

/// `output` holds the policies of `input` in another order, of which
/// `from` keeps the record: the policy at place `k` of `output` stood at
/// place `from[k]` of `input`. Policies of the same name stand in the
/// order in which they stood in `input`.
pub open spec fn is_stable_rearrangement(
    input: Seq<EscalationPolicy>,
    output: Seq<EscalationPolicy>,
    from: Seq<int>,
) -> bool {
    &&& from.len() == input.len()
    &&& output.len() == input.len()
    &&& forall|k: int|
        0 <= k < from.len() ==> 0 <= #[trigger] from[k] < input.len() && output[k] == input[from[k]]
    &&& forall|k1: int, k2: int|
        0 <= k1 < k2 < from.len() ==> #[trigger] from[k1] != #[trigger] from[k2]
    &&& forall|k1: int, k2: int|
        0 <= k1 < k2 < from.len() && output[k1].policy_name@ == output[k2].policy_name@
            ==> #[trigger] from[k1] < #[trigger] from[k2]
}

/// Sorts the policies by name, ascending in the order of texts. The sort
/// is stable: policies of the same name keep their order.
pub fn sort_policies(policies: &mut Vec<EscalationPolicy>)
    ensures
        name_ordered(final(policies)@),
        exists|from: Seq<int>| is_stable_rearrangement(old(policies)@, final(policies)@, from),
{
    let mut rest: Vec<EscalationPolicy> = Vec::new();
    std::mem::swap(policies, &mut rest);
    let ghost input = rest@;
    let ghost mut from: Seq<int> = Seq::empty();
    while rest.len() > 0
        invariant
            rest@ == input.take(rest@.len() as int),
            rest@.len() <= input.len(),
            policies@.len() + rest@.len() == input.len(),
            from.len() == policies@.len(),
            name_ordered(policies@),
            forall|k: int|
                0 <= k < from.len() ==> rest@.len() <= #[trigger] from[k] < input.len()
                    && policies@[k] == input[from[k]],
            forall|k1: int, k2: int|
                0 <= k1 < k2 < from.len() ==> #[trigger] from[k1] != #[trigger] from[k2],
            forall|k1: int, k2: int|
                0 <= k1 < k2 < from.len() && policies@[k1].policy_name@
                    == policies@[k2].policy_name@ ==> #[trigger] from[k1] < #[trigger] from[k2],
        decreases rest@.len(),
    {
        let ghost place = rest@.len() - 1;
        let ghost sorted = policies@;
        let ghost origin = from;
        let policy = match rest.pop() {
            Some(policy) => policy,
            None => {
                return ;
            },
        };
        assert(policy == input[place]);
        let mut pos: usize = 0;
        while pos < policies.len() && str_lt(
            policies[pos].policy_name.as_str(),
            policy.policy_name.as_str(),
        )
            invariant
                pos <= policies@.len(),
                forall|j: int|
                    0 <= j < pos ==> text_lt(
                        (#[trigger] policies@[j]).policy_name@,
                        policy.policy_name@,
                    ),
            decreases policies@.len() - pos,
        {
            pos += 1;
        }
        policies.insert(pos, policy);
        proof {
            from = origin.insert(pos as int, place);
            let name = policy.policy_name@;
            assert forall|j: int| pos <= j < sorted.len() implies text_le(
                name,
                (#[trigger] sorted[j]).policy_name@,
            ) by {
                if text_lt(sorted[j].policy_name@, name) {
                    if j > pos {
                        lemma_text_lt_le(sorted[j].policy_name@, name, sorted[pos as int].policy_name@);
                    }
                }
            }
            assert forall|i: int, j: int| 0 <= i < j < policies@.len() implies text_le(
                (#[trigger] policies@[i]).policy_name@,
                (#[trigger] policies@[j]).policy_name@,
            ) by {
                if j == pos {
                    assert(policies@[i] == sorted[i]);
                    lemma_text_lt_asymmetric(sorted[i].policy_name@, name);
                } else if i == pos {
                    assert(policies@[j] == sorted[j - 1]);
                } else if j < pos {
                    assert(policies@[i] == sorted[i] && policies@[j] == sorted[j]);
                } else if i < pos {
                    assert(policies@[i] == sorted[i] && policies@[j] == sorted[j - 1]);
                } else {
                    assert(policies@[i] == sorted[i - 1] && policies@[j] == sorted[j - 1]);
                }
            }
            assert forall|k: int| 0 <= k < from.len() implies rest@.len() <= #[trigger] from[k]
                < input.len() && policies@[k] == input[from[k]] by {
                if k < pos {
                    assert(from[k] == origin[k] && policies@[k] == sorted[k]);
                } else if k > pos {
                    assert(from[k] == origin[k - 1] && policies@[k] == sorted[k - 1]);
                }
            }
            assert forall|k1: int, k2: int| 0 <= k1 < k2 < from.len() implies #[trigger] from[k1]
                != #[trigger] from[k2] by {
                let o1 = if k1 < pos {
                    k1
                } else {
                    k1 - 1
                };
                let o2 = if k2 < pos {
                    k2
                } else {
                    k2 - 1
                };
                if k1 != pos && k2 != pos {
                    assert(from[k1] == origin[o1] && from[k2] == origin[o2]);
                } else if k1 == pos {
                    assert(from[k2] == origin[o2]);
                } else {
                    assert(from[k1] == origin[o1]);
                }
            }
            assert forall|k1: int, k2: int|
                0 <= k1 < k2 < from.len() && policies@[k1].policy_name@
                    == policies@[k2].policy_name@ implies #[trigger] from[k1] < #[trigger] from[k2] by {
                let o1 = if k1 < pos {
                    k1
                } else {
                    k1 - 1
                };
                let o2 = if k2 < pos {
                    k2
                } else {
                    k2 - 1
                };
                if k1 != pos && k2 != pos {
                    assert(from[k1] == origin[o1] && from[k2] == origin[o2]);
                    assert(policies@[k1] == sorted[o1] && policies@[k2] == sorted[o2]);
                } else if k1 == pos {
                    assert(from[k2] == origin[o2]);
                } else {
                    assert(policies@[k1] == sorted[k1]);
                    lemma_text_lt_irreflexive(name);
                }
            }
            assert(rest@ =~= input.take(rest@.len() as int));
        }
    }
    proof {
        assert(is_stable_rearrangement(input, policies@, from));
    }
}

} // verus!
