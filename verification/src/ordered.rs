//! Insertion-ordered maps (`indexmap::IndexMap`) as the configuration schema uses them. Verus sees
//! an `IndexMap` only through the entry sequences named below, read in insertion order.
use vstd::prelude::*;
use indexmap::IndexMap;

verus! {

#[verifier::external_type_specification]
#[verifier::external_body]
#[verifier::reject_recursive_types(K)]
#[verifier::reject_recursive_types(V)]
#[verifier::reject_recursive_types(S)]
pub struct ExIndexMap<K, V, S>(IndexMap<K, V, S>);

/// The entries of a matrix-axes map (axis name, declared values), in insertion order.
pub uninterp spec fn axes_entries(m: IndexMap<String, Vec<String>>) -> Seq<(Seq<char>, Seq<Seq<char>>)>;

/// The entries of a cell-selector map (axis name, pinned value), in insertion order.
pub uninterp spec fn pin_entries(m: IndexMap<String, String>) -> Seq<(Seq<char>, Seq<char>)>;

/// Keys of an entry sequence are pairwise distinct.
pub open spec fn distinct_keys<V>(entries: Seq<(Seq<char>, V)>) -> bool {
    forall|i: int, j: int| 0 <= i < j < entries.len() ==> entries[i].0 != entries[j].0
}

pub open spec fn axis_view(e: (String, Vec<String>)) -> (Seq<char>, Seq<Seq<char>>) {
    (e.0@, e.1@.map_values(|s: String| s@))
}

pub open spec fn pin_view(e: (String, String)) -> (Seq<char>, Seq<char>) {
    (e.0@, e.1@)
}

/// The entries of an axes map in insertion order (`IndexMap::iter`, each entry cloned). An
/// `IndexMap` holds each key at most once.
#[verifier::external_body]
pub(crate) fn axes_to_vec(m: &IndexMap<String, Vec<String>>) -> (out: Vec<(String, Vec<String>)>)
    ensures
        out@.map_values(|e: (String, Vec<String>)| axis_view(e)) == axes_entries(*m),
        distinct_keys(out@.map_values(|e: (String, Vec<String>)| axis_view(e))),
{
    m.iter().map(|(k, v)| (k.clone(), v.clone())).collect()
}

/// The entries of a selector map in insertion order (`IndexMap::iter`, each entry cloned). An
/// `IndexMap` holds each key at most once.
#[verifier::external_body]
pub(crate) fn pins_to_vec(m: &IndexMap<String, String>) -> (out: Vec<(String, String)>)
    ensures
        out@.map_values(|e: (String, String)| pin_view(e)) == pin_entries(*m),
        distinct_keys(out@.map_values(|e: (String, String)| pin_view(e))),
{
    m.iter().map(|(k, v)| (k.clone(), v.clone())).collect()
}

} // verus!
