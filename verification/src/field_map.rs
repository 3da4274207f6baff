use vstd::prelude::*;
use indexmap::IndexMap;
use crate::pairs::{has_key, insert_entry};

verus! {

#[verifier::external_type_specification]
#[verifier::external_body]
#[verifier::reject_recursive_types(K)]
#[verifier::reject_recursive_types(V)]
#[verifier::reject_recursive_types(S)]
pub struct ExIndexMap<K, V, S>(IndexMap<K, V, S>);

/// What an `IndexMap<String, String>` holds: its key-value pairs, in the map's order.
pub uninterp spec fn field_map_entries(m: IndexMap<String, String>) -> Seq<(Seq<char>, Seq<char>)>;

/// Calls `IndexMap::new`, which makes a map that holds nothing.
#[verifier::external_body]
pub fn field_map_new() -> (m: IndexMap<String, String>)
    ensures
        field_map_entries(m) == Seq::<(Seq<char>, Seq<char>)>::empty(),
{
    IndexMap::new()
}

/// Calls `IndexMap::insert`. Its documentation: a key already in the map keeps its place
/// and takes the new value; a new key-value pair goes last in the order.
#[verifier::external_body]
pub fn field_map_insert(m: &mut IndexMap<String, String>, k: String, v: String)
    ensures
        field_map_entries(*final(m)) == insert_entry(field_map_entries(*old(m)), k@, v@),
{
    m.insert(k, v);
}

/// Calls `IndexMap::get`, which gives the value stored for the key, or `None` where the
/// map has no such key.
#[verifier::external_body]
pub fn field_map_get<'a>(m: &'a IndexMap<String, String>, k: &String) -> (r: Option<&'a String>)
    ensures
        r is None <==> !has_key(field_map_entries(*m), k@),
        r matches Some(v) ==> exists|i: int|
            0 <= i < field_map_entries(*m).len() && #[trigger] field_map_entries(*m)[i] == (k@, v@),
{
    m.get(k)
}

/// Calls `IndexMap::len`, the number of key-value pairs.
#[verifier::external_body]
pub fn field_map_len(m: &IndexMap<String, String>) -> (r: usize)
    ensures
        r == field_map_entries(*m).len(),
{
    m.len()
}

/// Calls `IndexMap::get_index`, which gives the key-value pair at place `i` in the order.
#[verifier::external_body]
pub fn field_map_get_index(m: &IndexMap<String, String>, i: usize) -> (r: Option<(&String, &String)>)
    ensures
        r is Some == (i < field_map_entries(*m).len()),
        r matches Some((k, v)) ==> field_map_entries(*m)[i as int] == (k@, v@),
{
    m.get_index(i)
}

} // verus!
