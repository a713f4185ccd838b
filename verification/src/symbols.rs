//! Looking a symbol up in a short list: the first entry under a name is the
//! entry for that name.

use vstd::prelude::*;

verus! {

/// What a vector of strings says.
pub open spec fn texts(v: Seq<String>) -> Seq<Seq<char>> {
    Seq::new(v.len(), |i: int| v[i]@)
}

/// Index of the first occurrence of `key` in `keys`, or the length of `keys`
/// where it does not occur.
pub open spec fn first_index(keys: Seq<Seq<char>>, key: Seq<char>) -> int
    decreases keys.len(),
{
    if keys.len() == 0 || keys[0] == key {
        0
    } else {
        1 + first_index(keys.drop_first(), key)
    }
}

/// No name occurs twice.
pub open spec fn all_distinct(keys: Seq<Seq<char>>) -> bool {
    forall|i: int, j: int| 0 <= i < j < keys.len() ==> keys[i] != keys[j]
}

/// What `first_index` finds: no occurrence before it, and one at it unless
/// it is the end.
pub proof fn lemma_first_index(keys: Seq<Seq<char>>, key: Seq<char>)
    ensures
        0 <= first_index(keys, key) <= keys.len(),
        forall|j: int| 0 <= j < first_index(keys, key) ==> keys[j] != key,
        first_index(keys, key) < keys.len() ==> keys[first_index(keys, key)] == key,
    decreases keys.len(),
{
    if keys.len() == 0 || keys[0] == key {
    } else {
        let rest = keys.drop_first();
        lemma_first_index(rest, key);
        assert forall|j: int| 0 <= j < first_index(keys, key) implies keys[j] != key by {
            if j > 0 {
                assert(keys[j] == rest[j - 1]);
            }
        }
        if first_index(keys, key) < keys.len() {
            assert(keys[first_index(keys, key)] == rest[first_index(rest, key)]);
        }
    }
}

/// The first occurrence is the only index with nothing equal before it.
pub proof fn lemma_first_index_is(keys: Seq<Seq<char>>, key: Seq<char>, i: int)
    requires
        0 <= i <= keys.len(),
        forall|j: int| 0 <= j < i ==> keys[j] != key,
        i < keys.len() ==> keys[i] == key,
    ensures
        first_index(keys, key) == i,
{
    lemma_first_index(keys, key);
    let f = first_index(keys, key);
    if f < i {
        assert(keys[f] != key);
    } else if i < f {
        assert(keys[i] != key);
    }
}

/// Whether two strings hold the same text.
pub fn same_text(a: &String, b: &String) -> (r: bool)
    ensures
        r == (a@ == b@),
{
    *a == *b
}

} // verus!
