//! Lists of named values, in the order in which they were written down.
//!
//! A name is looked up from the front, so where a name stands twice the
//! first entry counts. Lists that are built with [`with_entry`] hold every
//! name once.

use vstd::prelude::*;

verus! {

/// The names of the entries of a list, in order.
pub open spec fn keys<V>(entries: Seq<(String, V)>) -> Seq<Seq<char>> {
    Seq::new(entries.len(), |i: int| entries[i].0@)
}

/// The names of the entries of the model of a list, in order.
pub open spec fn names<W>(entries: Seq<(Seq<char>, W)>) -> Seq<Seq<char>> {
    Seq::new(entries.len(), |i: int| entries[i].0)
}

/// Whether `k` is the first position at which `names` holds `name`.
pub open spec fn is_first(names: Seq<Seq<char>>, name: Seq<char>, k: int) -> bool {
    &&& 0 <= k < names.len()
    &&& names[k] == name
    &&& forall|j: int| 0 <= j < k ==> names[j] != name
}

/// The first position at which `names` holds `name`, if it holds it at all.
pub open spec fn position(names: Seq<Seq<char>>, name: Seq<char>) -> Option<int> {
    if exists|k: int| is_first(names, name, k) {
        Some(choose|k: int| is_first(names, name, k))
    } else {
        None
    }
}

/// The value that stands with `key`: that of the first entry under this
/// name, if there is one.
pub open spec fn value_of<V>(entries: Seq<(String, V)>, key: Seq<char>) -> Option<V> {
    match position(keys(entries), key) {
        Some(k) => Some(entries[k].1),
        None => None,
    }
}

/// Whether some entry stands under the name `key`.
pub open spec fn has_key<V>(entries: Seq<(String, V)>, key: Seq<char>) -> bool {
    exists|i: int| 0 <= i < entries.len() && (#[trigger] entries[i]).0@ == key
}

/// The list with `value` under `name`: in the place of the entry that
/// stood under this name, or at the end where none did.
pub open spec fn with_entry<W>(entries: Seq<(Seq<char>, W)>, name: Seq<char>, value: W) -> Seq<
    (Seq<char>, W),
> {
    match position(names(entries), name) {
        Some(k) => entries.update(k, (name, value)),
        None => entries.push((name, value)),
    }
}

/// Whether no name stands twice in the list.
pub open spec fn distinct_names<W>(entries: Seq<(Seq<char>, W)>) -> bool {
    names(entries).no_duplicates()
}

/// Where a name stands at a position, there is a first position at which it
/// stands.
proof fn lemma_first_exists(names: Seq<Seq<char>>, name: Seq<char>, i: int) -> (k: int)
    requires
        0 <= i < names.len(),
        names[i] == name,
    ensures
        is_first(names, name, k),
        k <= i,
    decreases i,
{
    if forall|j: int| 0 <= j < i ==> names[j] != name {
        i
    } else {
        let j = choose|j: int| 0 <= j < i && names[j] == name;
        lemma_first_exists(names, name, j)
    }
}

/// What `position` finds is the first position of the name, and it finds
/// none only where the name stands nowhere.
pub proof fn lemma_position(names: Seq<Seq<char>>, name: Seq<char>)
    ensures
        match position(names, name) {
            Some(k) => is_first(names, name, k),
            None => forall|j: int| 0 <= j < names.len() ==> names[j] != name,
        },
{
    if position(names, name) is None {
        assert forall|j: int| 0 <= j < names.len() implies names[j] != name by {
            if names[j] == name {
                let k = lemma_first_exists(names, name, j);
            }
        }
    }
}

/// The first position of a name is what `position` finds.
pub proof fn lemma_position_is(names: Seq<Seq<char>>, name: Seq<char>, k: int)
    requires
        is_first(names, name, k),
    ensures
        position(names, name) == Some(k),
{
    lemma_position(names, name);
}

/// A name has a value where some entry stands under it, and only there.
pub proof fn lemma_value_of<V>(entries: Seq<(String, V)>, key: Seq<char>)
    ensures
        value_of(entries, key) is Some <==> has_key(entries, key),
{
    lemma_position(keys(entries), key);
    if has_key(entries, key) {
        let i = choose|i: int| 0 <= i < entries.len() && (#[trigger] entries[i]).0@ == key;
        assert(keys(entries)[i] == key);
    }
    if let Some(k) = position(keys(entries), key) {
        assert(entries[k].0@ == key);
    }
}

/// Putting a value under a name keeps a list free of names that stand
/// twice, and the value is then what stands under the name.
pub proof fn lemma_with_entry<W>(entries: Seq<(Seq<char>, W)>, name: Seq<char>, value: W)
    requires
        distinct_names(entries),
    ensures
        distinct_names(with_entry(entries, name, value)),
        exists|k: int|
            is_first(names(with_entry(entries, name, value)), name, k) && with_entry(
                entries,
                name,
                value,
            )[k].1 == value,
{
    let after = with_entry(entries, name, value);
    lemma_position(names(entries), name);
    match position(names(entries), name) {
        Some(k) => {
            assert(names(after) =~= names(entries));
            assert(is_first(names(after), name, k) && after[k].1 == value);
        },
        None => {
            let k = entries.len() as int;
            assert forall|i: int, j: int|
                0 <= i < after.len() && 0 <= j < after.len() && i != j implies names(after)[i]
                != names(after)[j] by {
                if i < k {
                    assert(names(entries)[i] == names(after)[i]);
                }
                if j < k {
                    assert(names(entries)[j] == names(after)[j]);
                }
            }
            assert forall|j: int| 0 <= j < k implies names(after)[j] != name by {
                assert(names(entries)[j] == names(after)[j]);
            }
            assert(is_first(names(after), name, k) && after[k].1 == value);
        },
    }
}

/// The first position at which an entry stands under `key`.
pub(crate) fn find_index<V>(entries: &Vec<(String, V)>, key: &str) -> (at: Option<usize>)
    ensures
        match at {
            Some(k) => position(keys(entries@), key@) == Some(k as int) && k < entries.len(),
            None => position(keys(entries@), key@) is None,
        },
{
    let wanted = key.to_owned();
    let mut i: usize = 0;
    while i < entries.len()
        invariant
            i <= entries.len(),
            wanted@ == key@,
            forall|j: int| 0 <= j < i ==> keys(entries@)[j] != key@,
        decreases entries.len() - i,
    {
        if entries[i].0 == wanted {
            proof {
                lemma_position_is(keys(entries@), key@, i as int);
            }
            return Some(i);
        }
        i += 1;
    }
    proof {
        lemma_position(keys(entries@), key@);
    }
    None
}

/// Looks up the value that stands with `key`.
pub(crate) fn find_value<'a, V>(entries: &'a Vec<(String, V)>, key: &str) -> (value: Option<&'a V>)
    ensures
        match value {
            Some(v) => value_of(entries@, key@) == Some(*v),
            None => value_of(entries@, key@) is None,
        },
{
    match find_index(entries, key) {
        Some(k) => Some(&entries[k].1),
        None => None,
    }
}

} // verus!
