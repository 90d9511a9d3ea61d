//! Vectors of entries that carry a text key, kept with distinct keys and read
//! as maps from key to entry: the storage behind the project index.
use vstd::prelude::*;
use crate::text::str_eq;

verus! {

/// An entry that is found by a text key.
pub trait Keyed {
    /// The entry's key.
    spec fn key(&self) -> Seq<char>;

    /// The entry's key, as a string.
    fn key_text(&self) -> (res: &String)
        ensures
            res@ == self.key(),
    ;
}

/// Some entry of `s` has key `k`.
pub open spec fn has_key<T: Keyed>(s: Seq<T>, k: Seq<char>) -> bool {
    exists|i: int| 0 <= i < s.len() && (#[trigger] s[i]).key() == k
}

/// The position of an entry of `s` with key `k`, where there is one.
pub open spec fn index_of_key<T: Keyed>(s: Seq<T>, k: Seq<char>) -> int {
    choose|i: int| 0 <= i < s.len() && (#[trigger] s[i]).key() == k
}

/// No two entries of `s` have the same key.
pub open spec fn keys_distinct<T: Keyed>(s: Seq<T>) -> bool {
    forall|i: int, j: int|
        0 <= i < s.len() && 0 <= j < s.len() && i != j ==> (#[trigger] s[i]).key() != (
        #[trigger] s[j]).key()
}

/// `s` read as a map from each key to the entry that carries it.
pub open spec fn keyed_map<T: Keyed>(s: Seq<T>) -> Map<Seq<char>, T> {
    Map::new(|k: Seq<char>| has_key(s, k), |k: Seq<char>| s[index_of_key(s, k)])
}

/// In a sequence with distinct keys, the entry at `i` is what its key maps to.
pub proof fn lemma_keyed_map_at<T: Keyed>(s: Seq<T>, i: int)
    requires
        keys_distinct(s),
        0 <= i < s.len(),
    ensures
        keyed_map(s).contains_key(s[i].key()),
        keyed_map(s)[s[i].key()] == s[i],
        index_of_key(s, s[i].key()) == i,
{
    assert(has_key(s, s[i].key()));
    let j = index_of_key(s, s[i].key());
    assert(s[j].key() == s[i].key());
}

/// Replacing an entry by one with the same key updates the map at that key.
pub proof fn lemma_keyed_map_update<T: Keyed>(s: Seq<T>, i: int, x: T)
    requires
        keys_distinct(s),
        0 <= i < s.len(),
        x.key() == s[i].key(),
    ensures
        keys_distinct(s.update(i, x)),
        keyed_map(s.update(i, x)) == keyed_map(s).insert(x.key(), x),
{
    let t = s.update(i, x);
    assert forall|a: int, b: int|
        0 <= a < t.len() && 0 <= b < t.len() && a != b implies (#[trigger] t[a]).key() != (
        #[trigger] t[b]).key() by {
        assert(t[a].key() == s[a].key());
        assert(t[b].key() == s[b].key());
    }
    lemma_keyed_map_at(t, i);
    assert forall|k: Seq<char>| k != x.key() implies (has_key(t, k) == has_key(s, k)) && (has_key(
        s,
        k,
    ) ==> t[index_of_key(t, k)] == s[index_of_key(s, k)]) by {
        if has_key(s, k) {
            let j = index_of_key(s, k);
            assert(t[j].key() == k);
            lemma_keyed_map_at(s, j);
            lemma_keyed_map_at(t, j);
        }
        if has_key(t, k) {
            let j = index_of_key(t, k);
            assert(s[j].key() == k);
        }
    }
    assert(keyed_map(t) =~= keyed_map(s).insert(x.key(), x));
}

/// Appending an entry with a new key adds that key to the map.
pub proof fn lemma_keyed_map_push<T: Keyed>(s: Seq<T>, x: T)
    requires
        keys_distinct(s),
        !has_key(s, x.key()),
    ensures
        keys_distinct(s.push(x)),
        keyed_map(s.push(x)) == keyed_map(s).insert(x.key(), x),
{
    let t = s.push(x);
    assert forall|a: int, b: int|
        0 <= a < t.len() && 0 <= b < t.len() && a != b implies (#[trigger] t[a]).key() != (
        #[trigger] t[b]).key() by {
        if a == s.len() {
            assert(s[b] == t[b]);
        } else if b == s.len() {
            assert(s[a] == t[a]);
        }
    }
    lemma_keyed_map_at(t, s.len() as int);
    assert forall|k: Seq<char>| k != x.key() implies (has_key(t, k) == has_key(s, k)) && (has_key(
        s,
        k,
    ) ==> t[index_of_key(t, k)] == s[index_of_key(s, k)]) by {
        if has_key(s, k) {
            let j = index_of_key(s, k);
            assert(t[j] == s[j]);
            lemma_keyed_map_at(s, j);
            lemma_keyed_map_at(t, j);
        }
        if has_key(t, k) {
            let j = index_of_key(t, k);
            assert(j < s.len());
            assert(s[j] == t[j]);
        }
    }
    assert(keyed_map(t) =~= keyed_map(s).insert(x.key(), x));
}

/// Removing the entry at `i` removes its key from the map.
pub proof fn lemma_keyed_map_remove<T: Keyed>(s: Seq<T>, i: int)
    requires
        keys_distinct(s),
        0 <= i < s.len(),
    ensures
        keys_distinct(s.remove(i)),
        keyed_map(s.remove(i)) == keyed_map(s).remove(s[i].key()),
{
    let t = s.remove(i);
    let gone = s[i].key();
    assert forall|a: int, b: int|
        0 <= a < t.len() && 0 <= b < t.len() && a != b implies (#[trigger] t[a]).key() != (
        #[trigger] t[b]).key() by {
        let a2 = if a < i { a } else { a + 1 };
        let b2 = if b < i { b } else { b + 1 };
        assert(t[a] == s[a2]);
        assert(t[b] == s[b2]);
    }
    assert forall|k: Seq<char>| k != gone implies (has_key(t, k) == has_key(s, k)) && (has_key(
        s,
        k,
    ) ==> t[index_of_key(t, k)] == s[index_of_key(s, k)]) by {
        if has_key(s, k) {
            let j = index_of_key(s, k);
            assert(j != i);
            let j2 = if j < i { j } else { j - 1 };
            assert(t[j2] == s[j]);
            lemma_keyed_map_at(s, j);
            lemma_keyed_map_at(t, j2);
        }
        if has_key(t, k) {
            let j = index_of_key(t, k);
            let j2 = if j < i { j } else { j + 1 };
            assert(s[j2] == t[j]);
        }
    }
    assert forall|j: int| 0 <= j < t.len() implies (#[trigger] t[j]).key() != gone by {
        let j2 = if j < i { j } else { j + 1 };
        assert(s[j2] == t[j]);
    }
    assert(!has_key(t, gone));
    assert(keyed_map(t) =~= keyed_map(s).remove(gone));
}

/// The position of the entry with key `k`, if there is one.
pub fn find_key<T: Keyed>(v: &Vec<T>, k: &str) -> (res: Option<usize>)
    ensures
        match res {
            Some(i) => i < v@.len() && v@[i as int].key() == k@,
            None => !has_key(v@, k@),
        },
{
    let n = v.len();
    let mut i: usize = 0;
    while i < n
        invariant
            n == v@.len(),
            i <= n,
            forall|j: int| 0 <= j < i ==> (#[trigger] v@[j]).key() != k@,
        decreases n - i,
    {
        if str_eq(v[i].key_text().as_str(), k) {
            return Some(i);
        }
        i += 1;
    }
    None
}

} // verus!
