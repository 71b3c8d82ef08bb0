//! JSON text of flat records, written by the `json` crate.

use vstd::prelude::*;
use vstd::string::*;
use crate::output::rows::{OncallRow, RowView};

verus! {

/// `json::object::Object`: a JSON object. The verifier sees nothing inside
/// it; [`object_entries`] names what it holds.
#[verifier::external_type_specification]
#[verifier::external_body]
pub struct ExObject(json::object::Object);

/// The value of one field of a flat record.
pub enum FieldValue {
    Text(Seq<char>),
    Number(u8),
}

/// The entries of a JSON object, in the order in which they are written
/// out: the order in which their keys were first inserted.
pub uninterp spec fn object_entries(object: json::object::Object) -> Seq<(Seq<char>, FieldValue)>;

/// The text that `json::stringify_pretty` gives for an array of flat
/// objects, indented by `spaces`.
pub uninterp spec fn json_pretty(records: Seq<Seq<(Seq<char>, FieldValue)>>, spaces: u16) -> Seq<
    char,
>;

/// Whether `key` is the key of one of `entries`.
pub open spec fn has_key(entries: Seq<(Seq<char>, FieldValue)>, key: Seq<char>) -> bool {
    exists|i: int| 0 <= i < entries.len() && (#[trigger] entries[i]).0 == key
}

/// `json::object::Object::new`: an object without entries.
#[verifier::external_body]
fn new_object() -> (object: json::object::Object)
    ensures
        object_entries(object) == Seq::<(Seq<char>, FieldValue)>::empty(),
{
    json::object::Object::new()
}

/// `json::object::Object::insert` with a string value under a key that
/// the object does not have yet: one more entry at the end.
#[verifier::external_body]
fn insert_text(object: &mut json::object::Object, key: &str, value: String)
    requires
        !has_key(object_entries(*old(object)), key@),
    ensures
        object_entries(*final(object)) == object_entries(*old(object)).push(
            (key@, FieldValue::Text(value@)),
        ),
{
    object.insert(key, value.into())
}

/// `json::object::Object::insert` with a number under a key that the
/// object does not have yet: one more entry at the end.
#[verifier::external_body]
fn insert_number(object: &mut json::object::Object, key: &str, value: u8)
    requires
        !has_key(object_entries(*old(object)), key@),
    ensures
        object_entries(*final(object)) == object_entries(*old(object)).push(
            (key@, FieldValue::Number(value)),
        ),
{
    object.insert(key, value.into())
}

/// `json::stringify_pretty` on an array of objects. The crate counts the
/// indent of the innermost line, twice `spaces`, in 16 bits; `requires`
/// keeps it there.
#[verifier::external_body]
fn stringify_objects(objects: Vec<json::object::Object>, spaces: u16) -> (text: String)
    requires
        2 * spaces <= u16::MAX,
    ensures
        text@ == json_pretty(objects@.map_values(|object| object_entries(object)), spaces),
{
    json::stringify_pretty(objects, spaces)
}

/// The JSON object of one row: its five entries, in this order.
pub open spec fn record_of(row: RowView) -> Seq<(Seq<char>, FieldValue)> {
    seq![
        ("id"@, FieldValue::Text(row.id)),
        ("escalationPolicy"@, FieldValue::Text(row.escalation_policy)),
        ("depth"@, FieldValue::Number(row.depth)),
        ("userName"@, FieldValue::Text(row.user_name)),
        ("userEmail"@, FieldValue::Text(row.user_email)),
    ]
}

/// The JSON objects of the rows, in the order of the rows.
pub open spec fn json_records(rows: Seq<RowView>) -> Seq<Seq<(Seq<char>, FieldValue)>> {
    rows.map_values(|row: RowView| record_of(row))
}

fn row_object(row: &OncallRow) -> (object: json::object::Object)
    ensures
        object_entries(object) == record_of(row.deep_view()),
{
    proof {
        reveal_strlit("id");
        reveal_strlit("escalationPolicy");
        reveal_strlit("depth");
        reveal_strlit("userName");
        reveal_strlit("userEmail");
    }
    let ghost expected = record_of(row.deep_view());
    let mut object = new_object();
    insert_text(&mut object, "id", row.id.clone());
    assert(object_entries(object) =~= expected.take(1));
    assert("escalationPolicy"@.len() != "id"@.len());
    insert_text(&mut object, "escalationPolicy", row.escalation_policy.clone());
    assert(object_entries(object) =~= expected.take(2));
    assert("depth"@.len() != "id"@.len() && "depth"@.len() != "escalationPolicy"@.len());
    insert_number(&mut object, "depth", row.depth);
    assert(object_entries(object) =~= expected.take(3));
    assert("userName"@.len() != "id"@.len() && "userName"@.len() != "escalationPolicy"@.len()
        && "userName"@.len() != "depth"@.len());
    insert_text(&mut object, "userName", row.user_name.clone());
    assert(object_entries(object) =~= expected.take(4));
    assert("userEmail"@.len() != "id"@.len() && "userEmail"@.len() != "escalationPolicy"@.len()
        && "userEmail"@.len() != "depth"@.len() && "userEmail"@.len() != "userName"@.len());
    insert_text(&mut object, "userEmail", row.user_email.clone());
    assert(object_entries(object) =~= expected);
    object
}

/// The rows as a JSON array of one flat object per row, pretty-printed
/// with an indent of two spaces.
pub fn json_rows_text(rows: &Vec<OncallRow>) -> (text: String)
    ensures
        text@ == json_pretty(json_records(rows.deep_view()), 2),
{
    let mut outputs: Vec<json::object::Object> = Vec::new();
    let mut i: usize = 0;
    let ghost entries = |object: json::object::Object| object_entries(object);
    while i < rows.len()
        invariant
            i <= rows.len(),
            entries == |object: json::object::Object| object_entries(object),
            outputs@.map_values(entries) == json_records(rows.deep_view().take(i as int)),
        decreases rows.len() - i,
    {
        let ghost before = outputs@;
        let object = row_object(&rows[i]);
        outputs.push(object);
        proof {
            let all = rows.deep_view();
            assert(all.take(i + 1) =~= all.take(i as int).push(all[i as int]));
            assert(outputs@.map_values(entries) =~= before.map_values(entries).push(
                object_entries(object),
            ));
            assert(json_records(all.take(i + 1)) =~= json_records(all.take(i as int)).push(
                record_of(all[i as int]),
            ));
        }
        i += 1;
    }
    proof {
        assert(rows.deep_view().take(i as int) =~= rows.deep_view());
    }
    stringify_objects(outputs, 2)
}

} // verus!
