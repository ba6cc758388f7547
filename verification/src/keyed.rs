//! Name-keyed entry sequences.
//!
//! Registries and per-store field maps are vectors of `(name, value)` pairs
//! with pairwise-distinct names, kept in insertion order.  The spec functions
//! here describe lookup by name over the view of such a vector.

use vstd::prelude::*;

verus! {

/// Whether some entry's name reads `k`.
pub open spec fn has_key<T>(s: Seq<(String, T)>, k: Seq<char>) -> bool {
    exists|i: int| 0 <= i < s.len() && #[trigger] s[i].0@ == k
}

/// Entry names are pairwise distinct.
pub open spec fn unique_keys<T>(s: Seq<(String, T)>) -> bool {
    forall|i: int, j: int| 0 <= i < j < s.len() ==> #[trigger] s[i].0@ != #[trigger] s[j].0@
}

/// The index of the entry named `k` (meaningful when `has_key` holds and the
/// names are distinct).
pub open spec fn key_index<T>(s: Seq<(String, T)>, k: Seq<char>) -> int {
    choose|i: int| 0 <= i < s.len() && #[trigger] s[i].0@ == k
}

/// The value of the entry named `k`.
pub open spec fn value_at<T>(s: Seq<(String, T)>, k: Seq<char>) -> T {
    s[key_index(s, k)].1
}

/// With distinct names, the entry at any index whose name reads `k` is the
/// entry `key_index` denotes.
pub proof fn lemma_key_index_agrees<T>(s: Seq<(String, T)>, k: Seq<char>, i: int)
    requires
        unique_keys(s),
        0 <= i < s.len(),
        s[i].0@ == k,
    ensures
        has_key(s, k),
        key_index(s, k) == i,
        value_at(s, k) == s[i].1,
{
    assert(has_key(s, k));
    let j = key_index(s, k);
    assert(0 <= j < s.len() && s[j].0@ == k);
    if i < j {
        assert(s[i].0@ != s[j].0@);
    } else if j < i {
        assert(s[j].0@ != s[i].0@);
    }
}

/// Finds the entry named `key`, scanning in insertion order.
pub fn find_entry<T>(entries: &Vec<(String, T)>, key: &str) -> (r: Option<usize>)
    ensures
        match r {
            Some(i) => i < entries@.len() && entries@[i as int].0@ == key@ && has_key(
                entries@,
                key@,
            ),
            None => !has_key(entries@, key@),
        },
{
    let mut i: usize = 0;
    while i < entries.len()
        invariant
            i <= entries@.len(),
            forall|j: int| 0 <= j < i ==> #[trigger] entries@[j].0@ != key@,
        decreases entries@.len() - i,
    {
        if entries[i].0.as_str().eq(key) {
            return Some(i);
        }
        i += 1;
    }
    None
}

/// The names of all entries, in insertion order.
pub fn entry_names<T>(entries: &Vec<(String, T)>) -> (r: Vec<String>)
    ensures
        r@.len() == entries@.len(),
        forall|i: int| 0 <= i < r@.len() ==> #[trigger] r@[i]@ == entries@[i].0@,
{
    let mut names: Vec<String> = Vec::new();
    let mut i: usize = 0;
    while i < entries.len()
        invariant
            i <= entries@.len(),
            names@.len() == i,
            forall|j: int| 0 <= j < i ==> #[trigger] names@[j]@ == entries@[j].0@,
        decreases entries@.len() - i,
    {
        names.push(entries[i].0.clone());
        i += 1;
    }
    names
}

} // verus!
