//! The multiset of the values seen in a column, kept in a `HashMultiSet`.
//!
//! Verus does not look inside a `HashMultiSet`. What it holds is named by
//! three functions, and each method that the library calls is given a
//! contract over them.

use vstd::prelude::*;
use vstd::multiset::Multiset;
use multiset::HashMultiSet;

verus! {

/// Makes `HashMultiSet` known to the verifier, as a type it cannot look into.
#[verifier::external_type_specification]
#[verifier::external_body]
#[verifier::reject_recursive_types(K)]
pub struct ExHashMultiSet<K>(HashMultiSet<K>);

/// How often each text is counted in `m`.
pub uninterp spec fn multiset_counts(m: HashMultiSet<String>) -> Multiset<Seq<char>>;

/// The texts that `m` keeps a count for.
pub uninterp spec fn multiset_keys(m: HashMultiSet<String>) -> Set<Seq<char>>;

/// The total that `m` keeps of all its counts.
pub uninterp spec fn multiset_size(m: HashMultiSet<String>) -> nat;

/// The texts behind a sequence of string references.
pub open spec fn ref_texts(v: Seq<&String>) -> Seq<Seq<char>> {
    Seq::new(v.len(), |i: int| v[i]@)
}

/// An empty multiset.
///
/// Trusted: `HashMultiSet::new` builds the multiset from an empty map and a
/// total of 0.
#[verifier::external_body]
pub(crate) fn counts_new() -> (m: HashMultiSet<String>)
    ensures
        multiset_counts(m) == Multiset::<Seq<char>>::empty(),
        multiset_keys(m) == Set::<Seq<char>>::empty(),
        multiset_size(m) == 0,
{
    HashMultiSet::new()
}

/// Counts `value` once more.
///
/// Trusted: `HashMultiSet::insert` adds 1 to the total, which must not
/// overflow, and adds 1 to the count of the value, which it starts at 1 if it
/// kept none. Strings are keyed by their text.
#[verifier::external_body]
pub(crate) fn counts_insert(m: &mut HashMultiSet<String>, value: String)
    requires
        multiset_size(*old(m)) < usize::MAX,
    ensures
        multiset_counts(*final(m)) == multiset_counts(*old(m)).insert(value@),
        multiset_keys(*final(m)) == multiset_keys(*old(m)).insert(value@),
        multiset_size(*final(m)) == multiset_size(*old(m)) + 1,
{
    m.insert(value)
}

/// How often `value` is counted.
///
/// Trusted: `HashMultiSet::count_of` returns the count kept for the value,
/// or 0 if none is kept.
#[verifier::external_body]
pub(crate) fn counts_of(m: &HashMultiSet<String>, value: &String) -> (count: usize)
    ensures
        count == multiset_counts(*m).count(value@),
{
    m.count_of(value)
}

/// The values that a count is kept for, each once, in no particular order.
///
/// Trusted: `HashMultiSet::distinct_elements` walks the keys of the map of
/// counts, which holds each key once; the order of the walk is not fixed.
#[verifier::external_body]
pub(crate) fn counts_distinct(m: &HashMultiSet<String>) -> (values: Vec<&String>)
    ensures
        ref_texts(values@).no_duplicates(),
        ref_texts(values@).to_set() == multiset_keys(*m),
{
    m.distinct_elements().collect()
}

} // verus!
