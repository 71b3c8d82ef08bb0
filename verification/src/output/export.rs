//! The export of policy ids by policy name.
//!
//! A name maps to one id. When a name is met again with another id the
//! mapping for that name is withdrawn and the name is listed as a
//! duplicate, so that the export never picks one of two ids in silence. A
//! name that was withdrawn stays withdrawn: whatever policy comes under it
//! later is not exported either.

use vstd::prelude::*;
use vstd::string::*;
use crate::text::{lemma_text_lt_asymmetric, lemma_text_lt_connected, lemma_text_lt_irreflexive, lemma_text_lt_le, lemma_text_lt_transitive, str_lt, text_le, text_lt};
use crate::v2::EscalationPolicy;

verus! {

/// What an export holds: the id of each exported name, and the names that
/// were met with two different ids, each once, in the order in which that
/// was noticed.
pub struct ExportView {
    pub escalation_policies: Map<Seq<char>, Seq<char>>,
    pub duplicates: Seq<Seq<char>>,
}

impl ExportView {
    /// The export without names.
    pub open spec fn empty() -> ExportView {
        ExportView { escalation_policies: Map::empty(), duplicates: Seq::empty() }
    }

    /// No duplicate is exported, and no name is listed as a duplicate
    /// twice.
    pub open spec fn wf(self) -> bool {
        &&& forall|i: int|
            0 <= i < self.duplicates.len() ==> !self.escalation_policies.contains_key(
                #[trigger] self.duplicates[i],
            )
        &&& forall|i: int, j: int|
            0 <= i < j < self.duplicates.len() ==> #[trigger] self.duplicates[i]
                != #[trigger] self.duplicates[j]
    }

    /// Whether `name` was met with two different ids.
    pub open spec fn withdrawn(self, name: Seq<char>) -> bool {
        self.duplicates.contains(name)
    }

    /// Whether a policy of the given name and id cannot be exported: its
    /// name was withdrawn, or is exported with another id.
    pub open spec fn collides(self, name: Seq<char>, id: Seq<char>) -> bool {
        self.withdrawn(name) || (self.escalation_policies.contains_key(name)
            && self.escalation_policies[name] != id)
    }

    /// The export after a policy of the given name and id was recorded.
    ///
    /// Under a name that was withdrawn nothing changes: the name stays out
    /// of the mapping and is not listed a second time. Where the name is
    /// exported with another id, the name is withdrawn and listed as a
    /// duplicate. Otherwise the name maps to `id`.
    pub open spec fn with_policy(self, name: Seq<char>, id: Seq<char>) -> ExportView {
        if self.withdrawn(name) {
            self
        } else if self.escalation_policies.contains_key(name) && self.escalation_policies[name]
            != id {
            ExportView {
                escalation_policies: self.escalation_policies.remove(name),
                duplicates: self.duplicates.push(name),
            }
        } else {
            ExportView {
                escalation_policies: self.escalation_policies.insert(name, id),
                duplicates: self.duplicates,
            }
        }
    }
}

/// Recording a policy keeps the export well-formed: no duplicate is ever
/// exported.
pub proof fn lemma_with_policy_keeps_wf(export: ExportView, name: Seq<char>, id: Seq<char>)
    requires
        export.wf(),
    ensures
        export.with_policy(name, id).wf(),
{
    let after = export.with_policy(name, id);
    if !export.withdrawn(name) {
        assert forall|i: int| 0 <= i < after.duplicates.len() implies !after.escalation_policies.contains_key(
            #[trigger] after.duplicates[i],
        ) by {
            if i < export.duplicates.len() {
                assert(after.duplicates[i] == export.duplicates[i]);
                assert(export.duplicates.contains(export.duplicates[i]));
            }
        }
        assert forall|i: int, j: int| 0 <= i < j < after.duplicates.len() implies #[trigger] after.duplicates[i]
            != #[trigger] after.duplicates[j] by {
            assert(after.duplicates[i] == export.duplicates[i]);
            assert(export.duplicates.contains(export.duplicates[i]));
            if j < export.duplicates.len() {
                assert(after.duplicates[j] == export.duplicates[j]);
            }
        }
    }
}

/// Two policies of one name with different ids, recorded one after the
/// other in an export that has not met the name: the name is exported
/// with neither id, the rest of the mapping is as it was, and the name is
/// the newest duplicate.
pub proof fn lemma_collision_withdraws_name(
    export: ExportView,
    name: Seq<char>,
    first: Seq<char>,
    second: Seq<char>,
)
    requires
        !export.escalation_policies.contains_key(name),
        !export.withdrawn(name),
        first != second,
    ensures
        export.with_policy(name, first).collides(name, second),
        !export.with_policy(name, first).with_policy(name, second).escalation_policies.contains_key(
            name,
        ),
        export.with_policy(name, first).with_policy(name, second).escalation_policies
            == export.escalation_policies,
        export.with_policy(name, first).with_policy(name, second).duplicates
            == export.duplicates.push(name),
{
    let once = export.with_policy(name, first);
    let after = once.with_policy(name, second);
    assert(once.duplicates == export.duplicates);
    assert(after.escalation_policies =~= export.escalation_policies);
}

/// A name that was withdrawn stays withdrawn: a policy that comes under
/// it later, whatever its id, collides and leaves the export as it is.
pub proof fn lemma_withdrawn_name_stays_withdrawn(export: ExportView, name: Seq<char>, id: Seq<char>)
    requires
        export.wf(),
        export.withdrawn(name),
    ensures
        export.collides(name, id),
        export.with_policy(name, id) == export,
        !export.with_policy(name, id).escalation_policies.contains_key(name),
{
    let i = choose|i: int| 0 <= i < export.duplicates.len() && export.duplicates[i] == name;
    assert(!export.escalation_policies.contains_key(export.duplicates[i]));
}

/// Three policies of one name, of which the first two have different ids,
/// recorded in an export that has not met the name: the name is exported
/// with none of the three ids, and it is listed as a duplicate once.
pub proof fn lemma_third_policy_is_not_exported(
    export: ExportView,
    name: Seq<char>,
    first: Seq<char>,
    second: Seq<char>,
    third: Seq<char>,
)
    requires
        !export.escalation_policies.contains_key(name),
        !export.withdrawn(name),
        first != second,
    ensures
        export.with_policy(name, first).with_policy(name, second).collides(name, third),
        export.with_policy(name, first).with_policy(name, second).with_policy(name, third)
            == export.with_policy(name, first).with_policy(name, second),
        !export.with_policy(name, first).with_policy(name, second).with_policy(
            name,
            third,
        ).escalation_policies.contains_key(name),
{
    lemma_collision_withdraws_name(export, name, first, second);
    let twice = export.with_policy(name, first).with_policy(name, second);
    assert(twice.duplicates[export.duplicates.len() as int] == name);
    assert(twice.withdrawn(name));
}

/// A policy recorded a second time changes nothing: its name still maps
/// to its id, and no duplicate is listed for it.
pub proof fn lemma_same_policy_twice(export: ExportView, name: Seq<char>, id: Seq<char>)
    requires
        !export.collides(name, id),
    ensures
        export.with_policy(name, id).escalation_policies[name] == id,
        !export.with_policy(name, id).collides(name, id),
        export.with_policy(name, id).with_policy(name, id).escalation_policies == export.with_policy(
            name,
            id,
        ).escalation_policies,
        export.with_policy(name, id).with_policy(name, id).duplicates == export.duplicates,
{
    let once = export.with_policy(name, id);
    assert(once.with_policy(name, id).escalation_policies =~= once.escalation_policies);
}

/// The export of any policies, recorded in order, is well-formed.
pub proof fn lemma_exported_is_wf(policies: Seq<(Seq<char>, Seq<char>)>, upto: int)
    ensures
        exported(policies, upto).wf(),
    decreases upto,
{
    if upto > 0 {
        lemma_exported_is_wf(policies, upto - 1);
        lemma_with_policy_keeps_wf(
            exported(policies, upto - 1),
            policies[upto - 1].0,
            policies[upto - 1].1,
        );
    }
}

/// The export after the first `upto` policies were recorded in order.
pub open spec fn exported(policies: Seq<(Seq<char>, Seq<char>)>, upto: int) -> ExportView
    decreases upto,
{
    if upto <= 0 {
        ExportView::empty()
    } else {
        exported(policies, upto - 1).with_policy(policies[upto - 1].0, policies[upto - 1].1)
    }
}

/// The name and the id of each policy.
pub open spec fn names_and_ids(policies: Seq<EscalationPolicy>) -> Seq<(Seq<char>, Seq<char>)> {
    Seq::new(policies.len(), |i: int| (policies[i].policy_name@, policies[i].id@))
}

/// Whether one of `entries` has the name `name`.
pub open spec fn has_name(entries: Seq<(Seq<char>, Seq<char>)>, name: Seq<char>) -> bool {
    exists|i: int| 0 <= i < entries.len() && (#[trigger] entries[i]).0 == name
}

/// The place of an entry with the name `name`.
pub open spec fn place_of(entries: Seq<(Seq<char>, Seq<char>)>, name: Seq<char>) -> int {
    choose|i: int| 0 <= i < entries.len() && (#[trigger] entries[i]).0 == name
}

/// The mapping that a list of entries stands for.
pub open spec fn as_map(entries: Seq<(Seq<char>, Seq<char>)>) -> Map<Seq<char>, Seq<char>> {
    Map::new(
        |name: Seq<char>| has_name(entries, name),
        |name: Seq<char>| entries[place_of(entries, name)].1,
    )
}

/// The names of the entries ascend strictly in the order of texts.
pub open spec fn ascending(entries: Seq<(Seq<char>, Seq<char>)>) -> bool {
    forall|i: int, j: int|
        0 <= i < j < entries.len() ==> text_lt((#[trigger] entries[i]).0, (#[trigger] entries[j]).0)
}

/// In an ascending list every name stands at one place only, and the
/// mapping gives each name the id that stands with it.
pub proof fn lemma_ascending_entries(entries: Seq<(Seq<char>, Seq<char>)>)
    requires
        ascending(entries),
    ensures
        forall|i: int, j: int|
            0 <= i < entries.len() && 0 <= j < entries.len() && (#[trigger] entries[i]).0 == (
            #[trigger] entries[j]).0 ==> i == j,
        forall|i: int|
            0 <= i < entries.len() ==> as_map(entries).contains_key((#[trigger] entries[i]).0)
                && as_map(entries)[entries[i].0] == entries[i].1,
{
    assert forall|i: int, j: int|
        0 <= i < entries.len() && 0 <= j < entries.len() && (#[trigger] entries[i]).0 == (
        #[trigger] entries[j]).0 implies i == j by {
        lemma_text_lt_irreflexive(entries[i].0);
    }
    assert forall|i: int| 0 <= i < entries.len() implies as_map(entries).contains_key(
        (#[trigger] entries[i]).0,
    ) && as_map(entries)[entries[i].0] == entries[i].1 by {
        let at = place_of(entries, entries[i].0);
        assert(entries[at].0 == entries[i].0);
    }
}

proof fn lemma_insert_entry(
    entries: Seq<(Seq<char>, Seq<char>)>,
    pos: int,
    name: Seq<char>,
    id: Seq<char>,
)
    requires
        ascending(entries),
        0 <= pos <= entries.len(),
        forall|j: int| 0 <= j < pos ==> text_lt((#[trigger] entries[j]).0, name),
        forall|j: int| pos <= j < entries.len() ==> text_lt(name, (#[trigger] entries[j]).0),
    ensures
        ascending(entries.insert(pos, (name, id))),
        as_map(entries.insert(pos, (name, id))) == as_map(entries).insert(name, id),
        !has_name(entries, name),
{
    let longer = entries.insert(pos, (name, id));
    assert forall|i: int, j: int| 0 <= i < j < longer.len() implies text_lt(
        (#[trigger] longer[i]).0,
        (#[trigger] longer[j]).0,
    ) by {
        if j == pos {
            assert(longer[i] == entries[i]);
        } else if i == pos {
            assert(longer[j] == entries[j - 1]);
        } else if j < pos {
            assert(longer[i] == entries[i] && longer[j] == entries[j]);
        } else if i < pos {
            assert(longer[i] == entries[i] && longer[j] == entries[j - 1]);
        } else {
            assert(longer[i] == entries[i - 1] && longer[j] == entries[j - 1]);
        }
    }
    lemma_text_lt_irreflexive(name);
    lemma_ascending_entries(entries);
    lemma_ascending_entries(longer);
    assert(longer[pos] == (name, id));
    assert forall|key: Seq<char>| has_name(longer, key) <==> (key == name || has_name(
        entries,
        key,
    )) by {
        if has_name(longer, key) && key != name {
            let i = place_of(longer, key);
            if i < pos {
                assert(entries[i] == longer[i]);
            } else {
                assert(entries[i - 1] == longer[i]);
            }
        }
        if has_name(entries, key) {
            let i = place_of(entries, key);
            if i < pos {
                assert(longer[i] == entries[i]);
            } else {
                assert(longer[i + 1] == entries[i]);
            }
        }
    }
    assert forall|key: Seq<char>| has_name(entries, key) && key != name implies as_map(
        longer,
    )[key] == as_map(entries)[key] by {
        let i = place_of(entries, key);
        if i < pos {
            assert(longer[i] == entries[i]);
        } else {
            assert(longer[i + 1] == entries[i]);
        }
    }
    assert(as_map(longer) =~= as_map(entries).insert(name, id));
}

proof fn lemma_remove_entry(entries: Seq<(Seq<char>, Seq<char>)>, pos: int)
    requires
        ascending(entries),
        0 <= pos < entries.len(),
    ensures
        ascending(entries.remove(pos)),
        as_map(entries.remove(pos)) == as_map(entries).remove(entries[pos].0),
{
    let shorter = entries.remove(pos);
    let name = entries[pos].0;
    assert forall|i: int, j: int| 0 <= i < j < shorter.len() implies text_lt(
        (#[trigger] shorter[i]).0,
        (#[trigger] shorter[j]).0,
    ) by {
        let oi = if i < pos {
            i
        } else {
            i + 1
        };
        let oj = if j < pos {
            j
        } else {
            j + 1
        };
        assert(shorter[i] == entries[oi] && shorter[j] == entries[oj]);
    }
    lemma_ascending_entries(entries);
    lemma_ascending_entries(shorter);
    assert forall|key: Seq<char>| has_name(shorter, key) <==> (key != name && has_name(
        entries,
        key,
    )) by {
        if has_name(shorter, key) {
            let i = place_of(shorter, key);
            let oi = if i < pos {
                i
            } else {
                i + 1
            };
            assert(entries[oi] == shorter[i]);
        }
        if has_name(entries, key) && key != name {
            let i = place_of(entries, key);
            if i < pos {
                assert(shorter[i] == entries[i]);
            } else {
                assert(shorter[i - 1] == entries[i]);
            }
        }
    }
    assert forall|key: Seq<char>| has_name(shorter, key) implies as_map(shorter)[key] == as_map(
        entries,
    )[key] by {
        let i = place_of(shorter, key);
        let oi = if i < pos {
            i
        } else {
            i + 1
        };
        assert(entries[oi] == shorter[i]);
    }
    assert(as_map(shorter) =~= as_map(entries).remove(name));
}

/// The names of exported policies with their ids, and the names that
/// are not exported because policies of different ids share them.
#[derive(Debug)]
pub struct TfStateExportData {
    escalation_policies: Vec<(String, String)>,
    duplicates: Vec<String>,
}

impl TfStateExportData {
    /// The entries of the mapping, ascending by name.
    pub closed spec fn entries(&self) -> Seq<(Seq<char>, Seq<char>)> {
        Seq::new(
            self.escalation_policies@.len(),
            |i: int| (self.escalation_policies@[i].0@, self.escalation_policies@[i].1@),
        )
    }

    /// The export's own invariant: its entries ascend by name, no
    /// duplicate is exported, and no name is listed as a duplicate twice.
    pub closed spec fn wf(&self) -> bool {
        &&& ascending(self.entries())
        &&& self@.wf()
    }

    /// What a well-formed export holds is well-formed: no name among its
    /// duplicates is exported.
    pub proof fn lemma_view_wf(&self)
        requires
            self.wf(),
        ensures
            self@.wf(),
            forall|name: Seq<char>|
                self@.withdrawn(name) ==> !#[trigger] self@.escalation_policies.contains_key(name),
    {
        assert forall|name: Seq<char>| self@.withdrawn(name) implies !#[trigger] self@.escalation_policies.contains_key(
            name,
        ) by {
            let i = choose|i: int| 0 <= i < self@.duplicates.len() && self@.duplicates[i] == name;
            assert(!self@.escalation_policies.contains_key(self@.duplicates[i]));
        }
    }

}

impl View for TfStateExportData {
    type V = ExportView;

    closed spec fn view(&self) -> ExportView {
        ExportView {
            escalation_policies: as_map(self.entries()),
            duplicates: self.duplicates.deep_view(),
        }
    }
}

impl Default for TfStateExportData {
    /// An export without names.
    fn default() -> (export: TfStateExportData)
        ensures
            export.wf(),
            export@ == ExportView::empty(),
    {
        let export = TfStateExportData { escalation_policies: Vec::new(), duplicates: Vec::new() };
        proof {
            assert(export@.escalation_policies =~= Map::<Seq<char>, Seq<char>>::empty());
            assert(export@.duplicates =~= Seq::<Seq<char>>::empty());
        }
        export
    }
}

impl TfStateExportData {
    /// The first place whose name does not come before `name`.
    fn position(&self, name: &str) -> (pos: usize)
        requires
            self.wf(),
        ensures
            pos <= self.entries().len(),
            forall|j: int| 0 <= j < pos ==> text_lt((#[trigger] self.entries()[j]).0, name@),
            forall|j: int|
                pos <= j < self.entries().len() ==> text_le(name@, (#[trigger] self.entries()[j]).0),
    {
        let mut pos: usize = 0;
        while pos < self.escalation_policies.len() && str_lt(
            self.escalation_policies[pos].0.as_str(),
            name,
        )
            invariant
                pos <= self.entries().len(),
                forall|j: int| 0 <= j < pos ==> text_lt((#[trigger] self.entries()[j]).0, name@),
            decreases self.entries().len() - pos,
        {
            pos += 1;
        }
        proof {
            let entries = self.entries();
            assert forall|j: int| pos <= j < entries.len() implies text_le(
                name@,
                (#[trigger] entries[j]).0,
            ) by {
                if text_lt(entries[j].0, name@) {
                    assert(!text_lt(entries[pos as int].0, name@));
                    if j > pos {
                        lemma_text_lt_le(entries[j].0, name@, entries[pos as int].0);
                        lemma_text_lt_asymmetric(entries[pos as int].0, entries[j].0);
                    }
                }
            }
        }
        pos
    }

    /// Whether `name` is listed as a duplicate.
    fn is_withdrawn(&self, name: &String) -> (yes: bool)
        ensures
            yes == self@.withdrawn(name@),
    {
        let mut i: usize = 0;
        while i < self.duplicates.len()
            invariant
                i <= self.duplicates.len(),
                forall|j: int| 0 <= j < i ==> #[trigger] self@.duplicates[j] != name@,
            decreases self.duplicates.len() - i,
        {
            if self.duplicates[i] == *name {
                assert(self@.duplicates[i as int] == name@);
                return true;
            }
            i += 1;
        }
        false
    }

    /// Records a policy under its name.
    ///
    /// The result is `true` where the policy cannot be exported, and the
    /// caller has a warning to give. That is so where the name maps to
    /// another id: the mapping for the name is then withdrawn and the name
    /// is appended to the duplicates. It is also so where the name was
    /// withdrawn before: nothing changes then, and the name is not listed a
    /// second time. Otherwise the name maps to the policy's id from now on.
    pub fn add_escalation_policy(&mut self, policy: EscalationPolicy) -> (collision: bool)
        requires
            old(self).wf(),
        ensures
            final(self).wf(),
            collision == old(self)@.collides(policy.policy_name@, policy.id@),
            final(self)@ == old(self)@.with_policy(policy.policy_name@, policy.id@),
    {
        let ghost before = self.entries();
        let ghost name = policy.policy_name@;
        proof {
            lemma_with_policy_keeps_wf(self@, name, policy.id@);
        }
        if self.is_withdrawn(&policy.policy_name) {
            return true;
        }
        let pos = self.position(policy.policy_name.as_str());
        proof {
            lemma_ascending_entries(before);
        }
        if pos < self.escalation_policies.len() && self.escalation_policies[pos].0
            == policy.policy_name {
            assert(before[pos as int].0 == name);
            if self.escalation_policies[pos].1 != policy.id {
                let _ = self.escalation_policies.remove(pos);
                let ghost listed = self.duplicates.deep_view();
                self.duplicates.push(policy.policy_name);
                proof {
                    assert(self.entries() =~= before.remove(pos as int));
                    lemma_remove_entry(before, pos as int);
                    assert(self.duplicates.deep_view() =~= listed.push(name));
                }
                return true;
            }
            proof {
                assert(as_map(before) =~= as_map(before).insert(name, policy.id@));
            }
            return false;
        }
        proof {
            assert forall|j: int| pos <= j < before.len() implies text_lt(
                name,
                (#[trigger] before[j]).0,
            ) by {
                if !text_lt(name, before[j].0) {
                    if j == pos {
                        assert(before[j].0 != name);
                        lemma_text_lt_connected(name, before[j].0);
                    } else {
                        if !text_lt(name, before[pos as int].0) {
                            lemma_text_lt_connected(name, before[pos as int].0);
                        }
                        lemma_text_lt_transitive(name, before[pos as int].0, before[j].0);
                    }
                }
            }
            lemma_insert_entry(before, pos as int, name, policy.id@);
        }
        self.escalation_policies.insert(pos, (policy.policy_name, policy.id));
        proof {
            assert(self.entries() =~= before.insert(pos as int, (name, policy.id@)));
        }
        false
    }

    /// The export of the policies, recorded in order.
    pub fn from_policies(policies: Vec<EscalationPolicy>) -> (export: TfStateExportData)
        ensures
            export.wf(),
            export@ == exported(names_and_ids(policies@), policies.len() as int),
    {
        let mut export = TfStateExportData::default();
        let ghost input = policies@;
        for policy in it: policies
            invariant
                it.seq() == input,
                export.wf(),
                export@ == exported(names_and_ids(input), it.index() as int),
        {
            let _ = export.add_escalation_policy(policy);
        }
        export
    }

    /// The id under which `name` is exported, if it is.
    pub fn get(&self, name: &str) -> (id: Option<String>)
        requires
            self.wf(),
        ensures
            id.deep_view() == (if self@.escalation_policies.contains_key(name@) {
                Some(self@.escalation_policies[name@])
            } else {
                None
            }),
    {
        let pos = self.position(name);
        proof {
            lemma_ascending_entries(self.entries());
        }
        if pos < self.escalation_policies.len() {
            let found = String::from_str(name) == self.escalation_policies[pos].0;
            if found {
                assert(self.entries()[pos as int].0 == name@);
                return Some(self.escalation_policies[pos].1.clone());
            }
        }
        proof {
            let entries = self.entries();
            if has_name(entries, name@) {
                let i = place_of(entries, name@);
                lemma_text_lt_irreflexive(name@);
                if i > pos {
                    if !text_lt(name@, entries[pos as int].0) {
                        lemma_text_lt_connected(name@, entries[pos as int].0);
                    }
                    assert(text_lt(entries[pos as int].0, entries[i].0));
                }
            }
        }
        None
    }

    /// The exported names with their ids, ascending by name.
    pub fn escalation_policies(&self) -> (listed: Vec<(String, String)>)
        requires
            self.wf(),
        ensures
            listed.len() == self@.escalation_policies.dom().len(),
            forall|i: int|
                0 <= i < listed.len() ==> self@.escalation_policies.contains_key(
                    (#[trigger] listed[i]).0@,
                ) && self@.escalation_policies[listed[i].0@] == listed[i].1@,
            forall|i: int, j: int|
                0 <= i < j < listed.len() ==> text_lt(
                    (#[trigger] listed[i]).0@,
                    (#[trigger] listed[j]).0@,
                ),
    {
        let mut listed: Vec<(String, String)> = Vec::new();
        let mut i: usize = 0;
        while i < self.escalation_policies.len()
            invariant
                i <= self.escalation_policies.len(),
                listed.len() == i,
                forall|j: int|
                    0 <= j < i ==> (#[trigger] listed[j]).0@ == self.entries()[j].0 && listed[j].1@
                        == self.entries()[j].1,
            decreases self.escalation_policies.len() - i,
        {
            let entry = &self.escalation_policies[i];
            listed.push((entry.0.clone(), entry.1.clone()));
            i += 1;
        }
        proof {
            lemma_ascending_entries(self.entries());
            lemma_domain_size(self.entries());
        }
        listed
    }

    /// The names that were met with two different ids, in the order in
    /// which that was noticed.
    pub fn duplicates(&self) -> (listed: Vec<String>)
        ensures
            listed.deep_view() == self@.duplicates,
    {
        let mut listed: Vec<String> = Vec::new();
        let mut i: usize = 0;
        while i < self.duplicates.len()
            invariant
                i <= self.duplicates.len(),
                listed.deep_view() == self.duplicates.deep_view().take(i as int),
            decreases self.duplicates.len() - i,
        {
            let ghost before = listed.deep_view();
            listed.push(self.duplicates[i].clone());
            proof {
                let all = self.duplicates.deep_view();
                assert(listed.deep_view() =~= before.push(all[i as int]));
                assert(all.take(i + 1) =~= all.take(i as int).push(all[i as int]));
            }
            i += 1;
        }
        proof {
            assert(self.duplicates.deep_view().take(i as int) =~= self.duplicates.deep_view());
        }
        listed
    }
}

/// The mapping of an ascending list has as many names as the list has
/// entries.
proof fn lemma_domain_size(entries: Seq<(Seq<char>, Seq<char>)>)
    requires
        ascending(entries),
    ensures
        as_map(entries).dom().finite(),
        as_map(entries).dom().len() == entries.len(),
    decreases entries.len(),
{
    if entries.len() == 0 {
        assert(as_map(entries).dom() =~= Set::<Seq<char>>::empty());
    } else {
        let last = entries.len() - 1;
        let head = entries.remove(last);
        lemma_remove_entry(entries, last);
        lemma_domain_size(head);
        lemma_ascending_entries(entries);
        assert(as_map(entries).dom() =~= as_map(head).dom().insert(entries[last].0));
    }
}

} // verus!
