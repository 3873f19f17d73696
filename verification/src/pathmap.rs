//! The table of registered source files: paths mapped to slots.
//!
//! The parser keys its per-file lexers by path, so re-parsing the same path
//! replaces the earlier lexer instead of adding a second one.  The table is
//! a hash map from the `ahash` crate, used through a small trusted surface:
//! its contents are named by [`path_entries`], and each operation's contract
//! says what it does to those contents.

use vstd::prelude::*;

verus! {

#[verifier::external_type_specification]
#[verifier::external_body]
#[verifier::reject_recursive_types(K)]
#[verifier::reject_recursive_types(V)]
#[verifier::reject_recursive_types(S)]
pub struct ExAHashMap<K, V, S>(ahash::AHashMap<K, V, S>);

#[verifier::external_type_specification]
#[verifier::external_body]
pub struct ExRandomState(ahash::RandomState);

/// What the table holds: each registered path's text mapped to its slot.
pub uninterp spec fn path_entries(m: ahash::AHashMap<String, usize>) -> Map<Seq<char>, usize>;

/// An empty table.
///
/// Relies on `AHashMap::new`: it creates a map with no entries.
#[verifier::external_body]
pub(crate) fn path_map_new() -> (r: ahash::AHashMap<String, usize>)
    ensures
        forall|k: Seq<char>| !path_entries(r).contains_key(k),
{
    ahash::AHashMap::new()
}

/// The slot registered for a path, if any.
///
/// Relies on `AHashMap::get`, with `String` keys equal exactly when their
/// text is equal: it returns the value stored at the key, or nothing.
#[verifier::external_body]
pub(crate) fn path_map_get(m: &ahash::AHashMap<String, usize>, k: &str) -> (r: Option<usize>)
    ensures
        r == (if path_entries(*m).contains_key(k@) {
            Some(path_entries(*m)[k@])
        } else {
            None::<usize>
        }),
{
    m.get(k).copied()
}

/// Register a path at a slot, replacing any earlier entry for the same path
/// and leaving every other entry unchanged.
///
/// Relies on `AHashMap::insert`.
#[verifier::external_body]
pub(crate) fn path_map_insert(m: &mut ahash::AHashMap<String, usize>, k: String, v: usize)
    ensures
        path_entries(*final(m)) == path_entries(*old(m)).insert(k@, v),
{
    m.insert(k, v);
}

} // verus!
