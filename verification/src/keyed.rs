//! Lookup in vectors of `(name, value)` pairs, the library's stand-in for a
//! map keyed by strings.
use vstd::prelude::*;

verus! {

/// The index of the first entry of `s` from `i` on whose name is `k`, or -1.
pub open spec fn key_index_from<V>(s: Seq<(String, V)>, k: Seq<char>, i: int) -> int
    decreases s.len() - i,
{
    if i < 0 || i >= s.len() {
        -1
    } else if s[i].0@ == k {
        i
    } else {
        key_index_from(s, k, i + 1)
    }
}

/// The index of the first entry of `s` whose name is `k`, or -1.
pub open spec fn key_index<V>(s: Seq<(String, V)>, k: Seq<char>) -> int {
    key_index_from(s, k, 0)
}

/// What `key_index_from` finds is an entry named `k`, at or after `i`, and no
/// earlier entry from `i` on is named `k`.
pub proof fn lemma_key_index_from<V>(s: Seq<(String, V)>, k: Seq<char>, i: int)
    requires
        0 <= i,
    ensures
        key_index_from(s, k, i) == -1 || (i <= key_index_from(s, k, i) < s.len() && s[key_index_from(
            s,
            k,
            i,
        )].0@ == k),
        forall|j: int|
            i <= j < s.len() && (key_index_from(s, k, i) == -1 || j < key_index_from(s, k, i))
                ==> s[j].0@ != k,
    decreases s.len() - i,
{
    if i < s.len() && s[i].0@ != k {
        lemma_key_index_from(s, k, i + 1);
    }
}

/// The index of the first entry of `v` whose name is `k`.
pub fn find_key<V>(v: &Vec<(String, V)>, k: &str) -> (r: Option<usize>)
    ensures
        r matches Some(i) ==> i == key_index(v@, k@) && i < v.len(),
        r is None ==> key_index(v@, k@) == -1,
{
    let key = String::from_str(k);
    let mut i: usize = 0;
    while i < v.len()
        invariant
            i <= v.len(),
            key@ == k@,
            key_index(v@, k@) == key_index_from(v@, k@, i as int),
        decreases v.len() - i,
    {
        if v[i].0 == key {
            return Some(i);
        }
        i = i + 1;
    }
    None
}


/// The index of the first entry of `s` from `i` on whose name is `k`, or -1
/// (on names already taken as character sequences).
pub open spec fn vkey_index_from<V>(s: Seq<(Seq<char>, V)>, k: Seq<char>, i: int) -> int
    decreases s.len() - i,
{
    if i < 0 || i >= s.len() {
        -1
    } else if s[i].0 == k {
        i
    } else {
        vkey_index_from(s, k, i + 1)
    }
}

/// The index of the first entry of `s` whose name is `k`, or -1.
pub open spec fn vkey_index<V>(s: Seq<(Seq<char>, V)>, k: Seq<char>) -> int {
    vkey_index_from(s, k, 0)
}

/// The names of `s` as character sequences.
pub open spec fn names_view<V>(s: Seq<(String, V)>) -> Seq<(Seq<char>, V)> {
    s.map_values(|e: (String, V)| (e.0@, e.1))
}

/// Looking up a name gives the same index before and after taking views.
pub proof fn lemma_key_index_view<V>(s: Seq<(String, V)>, k: Seq<char>, i: int)
    requires
        0 <= i,
    ensures
        key_index_from(s, k, i) == vkey_index_from(names_view(s), k, i),
    decreases s.len() - i,
{
    if i < s.len() {
        assert(names_view(s)[i] == (s[i].0@, s[i].1));
        lemma_key_index_view(s, k, i + 1);
    }
}

/// What `vkey_index_from` finds is an entry named `k`, and no earlier entry
/// from `i` on is named `k`.
pub proof fn lemma_vkey_index_from<V>(s: Seq<(Seq<char>, V)>, k: Seq<char>, i: int)
    requires
        0 <= i,
    ensures
        vkey_index_from(s, k, i) == -1 || (i <= vkey_index_from(s, k, i) < s.len() && s[vkey_index_from(s, k, i)].0 == k),
        forall|j: int|
            i <= j < s.len() && (vkey_index_from(s, k, i) == -1 || j < vkey_index_from(s, k, i))
                ==> #[trigger] s[j].0 != k,
    decreases s.len() - i,
{
    if i < s.len() && s[i].0 != k {
        lemma_vkey_index_from(s, k, i + 1);
    }
}

/// Entries with distinct names.
pub open spec fn unique_names<V>(s: Seq<(Seq<char>, V)>) -> bool {
    forall|i: int, j: int| 0 <= i < s.len() && 0 <= j < s.len() && i != j ==> #[trigger] s[i].0 != #[trigger] s[j].0
}

/// In entries with distinct names, the entry named like entry `i` is entry `i`.
pub proof fn lemma_unique_index<V>(s: Seq<(Seq<char>, V)>, i: int)
    requires
        unique_names(s),
        0 <= i < s.len(),
    ensures
        vkey_index(s, s[i].0) == i,
{
    lemma_vkey_index_from(s, s[i].0, 0);
}

} // verus!
