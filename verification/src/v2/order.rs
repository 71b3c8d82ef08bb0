//! The order of policies: by name alone, in the order of texts.

use std::cmp::Ordering;
use vstd::prelude::*;
use vstd::std_specs::cmp::{PartialEqSpec, PartialEqSpecImpl, PartialOrdSpec, PartialOrdSpecImpl};
use vstd::string::*;
use crate::text::{lemma_text_lt_connected, lemma_text_lt_irreflexive, str_lt, text_lt};
use crate::v2::EscalationPolicy;

verus! {

impl PartialEq for EscalationPolicy {
    /// Two policies are equal when they have the same name.
    fn eq(&self, other: &EscalationPolicy) -> (same: bool) {
        self.policy_name == other.policy_name
    }
}

impl PartialEqSpecImpl for EscalationPolicy {
    open spec fn obeys_eq_spec() -> bool {
        true
    }

    open spec fn eq_spec(&self, other: &EscalationPolicy) -> bool {
        self.policy_name@ == other.policy_name@
    }
}

impl Eq for EscalationPolicy {

}

impl PartialOrd for EscalationPolicy {
    /// Policies are ordered as their names are.
    fn partial_cmp(&self, other: &EscalationPolicy) -> (order: Option<Ordering>) {
        if str_lt(self.policy_name.as_str(), other.policy_name.as_str()) {
            Some(Ordering::Less)
        } else if str_lt(other.policy_name.as_str(), self.policy_name.as_str()) {
            Some(Ordering::Greater)
        } else {
            Some(Ordering::Equal)
        }
    }
}

impl PartialOrdSpecImpl for EscalationPolicy {
    open spec fn obeys_partial_cmp_spec() -> bool {
        true
    }

    open spec fn partial_cmp_spec(&self, other: &EscalationPolicy) -> Option<Ordering> {
        if text_lt(self.policy_name@, other.policy_name@) {
            Some(Ordering::Less)
        } else if text_lt(other.policy_name@, self.policy_name@) {
            Some(Ordering::Greater)
        } else {
            Some(Ordering::Equal)
        }
    }
}

/// The order of policies agrees with their equality: two policies compare
/// as equal exactly when they have the same name.
pub proof fn lemma_order_agrees_with_equality(left: EscalationPolicy, right: EscalationPolicy)
    ensures
        PartialOrdSpec::partial_cmp_spec(&left, &right) == Some(Ordering::Equal)
            <==> PartialEqSpec::eq_spec(&left, &right),
{
    if left.policy_name@ == right.policy_name@ {
        lemma_text_lt_irreflexive(left.policy_name@);
    }
    if !text_lt(left.policy_name@, right.policy_name@) && !text_lt(
        right.policy_name@,
        left.policy_name@,
    ) {
        lemma_text_lt_connected(left.policy_name@, right.policy_name@);
    }
}

} // verus!
