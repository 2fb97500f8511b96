use vstd::prelude::*;

verus! {

/// The first index at which `keys` holds `key`, if any.
pub open spec fn first_index<K>(keys: Seq<K>, key: K) -> Option<int>
    decreases keys.len(),
{
    if keys.len() == 0 {
        None
    } else {
        match first_index(keys.drop_last(), key) {
            Some(i) => Some(i),
            None => if keys.last() == key {
                Some(keys.len() - 1)
            } else {
                None
            },
        }
    }
}

pub proof fn lemma_first_index_bounds<K>(keys: Seq<K>, key: K)
    ensures
        first_index(keys, key) matches Some(i) ==> 0 <= i < keys.len() && keys[i] == key && (
        forall|j: int| 0 <= j < i ==> keys[j] != key),
        first_index(keys, key) is None ==> forall|j: int| 0 <= j < keys.len() ==> keys[j] != key,
    decreases keys.len(),
{
    if keys.len() > 0 {
        let d = keys.drop_last();
        lemma_first_index_bounds(d, key);
        assert(forall|j: int| 0 <= j < d.len() ==> d[j] == keys[j]);
    }
}

/// `first_index` is characterised by: `keys[i] == key` and no earlier index holds `key`.
pub proof fn lemma_first_index_char<K>(keys: Seq<K>, key: K, i: int)
    requires
        0 <= i < keys.len(),
        keys[i] == key,
        forall|j: int| 0 <= j < i ==> keys[j] != key,
    ensures
        first_index(keys, key) == Some(i),
{
    lemma_first_index_bounds(keys, key);
    match first_index(keys, key) {
        Some(k) => {
            if k < i {
            } else if k > i {
            }
        },
        None => {},
    }
}

pub proof fn lemma_first_index_absent<K>(keys: Seq<K>, key: K)
    requires
        forall|j: int| 0 <= j < keys.len() ==> keys[j] != key,
    ensures
        first_index(keys, key) is None,
{
    lemma_first_index_bounds(keys, key);
}

pub proof fn lemma_first_index_push<K>(keys: Seq<K>, key: K, new_key: K)
    ensures
        first_index(keys.push(new_key), key) == (match first_index(keys, key) {
            Some(i) => Some(i),
            None => if new_key == key {
                Some(keys.len() as int)
            } else {
                None
            },
        }),
{
    assert(keys.push(new_key).drop_last() =~= keys);
}

} // verus!
