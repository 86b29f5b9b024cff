//! The insertion-ordered tag-to-keyboards map the enable flow builds.
//!
//! The map itself comes from the indexmap crate; these are the trusted
//! declarations through which the verified reconciler uses it. Its contents
//! are named by [`map_entries`]: the key-value pairs in the map's order,
//! which indexmap documents as insertion order, an existing key keeping its
//! place.

use vstd::prelude::*;

use crate::state::{first_match, string_views};

verus! {

#[verifier::external_type_specification]
#[verifier::external_body]
#[verifier::reject_recursive_types(K)]
#[verifier::reject_recursive_types(V)]
#[verifier::reject_recursive_types(S)]
pub struct ExIndexMap<K, V, S>(indexmap::IndexMap<K, V, S>);

/// What the map holds: its key-value pairs, in order, as views.
pub uninterp spec fn map_entries(
    m: indexmap::IndexMap<String, Vec<String>, std::collections::hash_map::RandomState>,
) -> Seq<(Seq<char>, Seq<Seq<char>>)>;

/// The predicate an entry's key is matched by.
pub open spec fn entry_key_is(k: Seq<char>) -> spec_fn((Seq<char>, Seq<Seq<char>>)) -> bool {
    |e: (Seq<char>, Seq<Seq<char>>)| e.0 == k
}

/// Relies on indexmap::IndexMap::new: a new map holds nothing.
#[verifier::external_body]
pub(crate) fn tip_map_new() -> (r: indexmap::IndexMap<
    String,
    Vec<String>,
    std::collections::hash_map::RandomState,
>)
    ensures
        map_entries(r) == Seq::<(Seq<char>, Seq<Seq<char>>)>::empty(),
{
    indexmap::IndexMap::new()
}

/// Relies on indexmap::IndexMap::insert: an existing key keeps its place in
/// the order and its value is replaced; a new key goes last.
#[verifier::external_body]
pub(crate) fn tip_map_insert(
    m: &mut indexmap::IndexMap<String, Vec<String>, std::collections::hash_map::RandomState>,
    key: String,
    value: Vec<String>,
)
    ensures
        ({
            let j = first_match(map_entries(*old(m)), entry_key_is(key@));
            if j >= 0 {
                map_entries(*final(m)) == map_entries(*old(m)).update(
                    j,
                    (key@, string_views(value@)),
                )
            } else {
                map_entries(*final(m)) == map_entries(*old(m)).push((key@, string_views(value@)))
            }
        }),
{
    m.insert(key, value);
}

/// Relies on indexmap::IndexMap::get: the value stored under an equal key,
/// or nothing when the key is absent.
#[verifier::external_body]
pub(crate) fn tip_map_get<'a>(
    m: &'a indexmap::IndexMap<String, Vec<String>, std::collections::hash_map::RandomState>,
    key: &String,
) -> (r: Option<&'a Vec<String>>)
    ensures
        ({
            let j = first_match(map_entries(*m), entry_key_is(key@));
            if j >= 0 {
                r matches Some(v) && string_views(v@) == map_entries(*m)[j].1
            } else {
                r is None
            }
        }),
{
    m.get(key)
}

/// Relies on indexmap::IndexMap::len: the number of key-value pairs.
#[verifier::external_body]
pub(crate) fn tip_map_len(
    m: &indexmap::IndexMap<String, Vec<String>, std::collections::hash_map::RandomState>,
) -> (r: usize)
    ensures
        r == map_entries(*m).len(),
{
    m.len()
}

/// Relies on indexmap::IndexMap::get_index: the pair at one position of the
/// order, or nothing past the end.
#[verifier::external_body]
pub(crate) fn tip_map_get_index<'a>(
    m: &'a indexmap::IndexMap<String, Vec<String>, std::collections::hash_map::RandomState>,
    i: usize,
) -> (r: Option<(&'a String, &'a Vec<String>)>)
    ensures
        ({
            if i < map_entries(*m).len() {
                r matches Some(p) && p.0@ == map_entries(*m)[i as int].0 && string_views(p.1@)
                    == map_entries(*m)[i as int].1
            } else {
                r is None
            }
        }),
{
    m.get_index(i)
}

} // verus!
