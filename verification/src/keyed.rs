//! Lists of entries keyed by unit tag, each tag at most once: the bot's
//! tables of miners, resources and counts.
use vstd::prelude::*;

verus! {

/// No tag occurs twice.
pub open spec fn keys_distinct<K, V>(s: Seq<(K, V)>) -> bool {
    forall|i: int, j: int| 0 <= i < s.len() && 0 <= j < s.len() && i != j ==> #[trigger] s[i].0 != #[trigger] s[j].0
}

/// Whether some entry has tag `k`.
pub open spec fn has_key<K, V>(s: Seq<(K, V)>, k: K) -> bool {
    exists|i: int| 0 <= i < s.len() && #[trigger] s[i].0 == k
}

/// The value filed under `k`, if any.
pub open spec fn lookup<K, V>(s: Seq<(K, V)>, k: K) -> Option<V> {
    if has_key(s, k) {
        Some(s[choose|i: int| 0 <= i < s.len() && #[trigger] s[i].0 == k].1)
    } else {
        None
    }
}

/// The value filed under `k`, or zero.
pub open spec fn count_of<K>(s: Seq<(K, usize)>, k: K) -> usize {
    match lookup(s, k) {
        Some(c) => c,
        None => 0,
    }
}

/// The entry at position `i` is what the list files under its tag.
pub proof fn lemma_lookup_index<K, V>(s: Seq<(K, V)>, i: int)
    requires
        keys_distinct(s),
        0 <= i < s.len(),
    ensures
        has_key(s, s[i].0),
        lookup(s, s[i].0) == Some(s[i].1),
{
    assert(has_key(s, s[i].0));
    let j = choose|j: int| 0 <= j < s.len() && #[trigger] s[j].0 == s[i].0;
    assert(j == i);
}

/// Changing the value at position `i` changes only what is filed under its tag.
pub proof fn lemma_lookup_set<K, V>(s: Seq<(K, V)>, i: int, v: V)
    requires
        keys_distinct(s),
        0 <= i < s.len(),
    ensures
        keys_distinct(s.update(i, (s[i].0, v))),
        forall|k: K| #[trigger] lookup(s.update(i, (s[i].0, v)), k) == if k == s[i].0 { Some(v) } else { lookup(s, k) },
{
    let t = s.update(i, (s[i].0, v));
    assert(keys_distinct(t)) by {
        assert forall|a: int, b: int| 0 <= a < t.len() && 0 <= b < t.len() && a != b implies #[trigger] t[a].0 != #[trigger] t[b].0 by {
            assert(t[a].0 == s[a].0 && t[b].0 == s[b].0);
        }
    }
    assert forall|k: K| #[trigger] lookup(t, k) == if k == s[i].0 { Some(v) } else { lookup(s, k) } by {
        if k == s[i].0 {
            lemma_lookup_index(t, i);
        } else {
            if has_key(s, k) {
                let j = choose|j: int| 0 <= j < s.len() && #[trigger] s[j].0 == k;
                lemma_lookup_index(s, j);
                lemma_lookup_index(t, j);
            }
            if has_key(t, k) {
                let j = choose|j: int| 0 <= j < t.len() && #[trigger] t[j].0 == k;
                assert(s[j].0 == k);
            }
        }
    }
}

/// Adding an entry under a new tag files it there and changes nothing else.
pub proof fn lemma_lookup_push<K, V>(s: Seq<(K, V)>, k: K, v: V)
    requires
        keys_distinct(s),
        !has_key(s, k),
    ensures
        keys_distinct(s.push((k, v))),
        forall|q: K| #[trigger] lookup(s.push((k, v)), q) == if q == k { Some(v) } else { lookup(s, q) },
{
    let t = s.push((k, v));
    assert(keys_distinct(t)) by {
        assert forall|a: int, b: int| 0 <= a < t.len() && 0 <= b < t.len() && a != b implies #[trigger] t[a].0 != #[trigger] t[b].0 by {
            if a == s.len() {
                assert(s[b].0 == t[b].0);
            } else if b == s.len() {
                assert(s[a].0 == t[a].0);
            }
        }
    }
    assert forall|q: K| #[trigger] lookup(t, q) == if q == k { Some(v) } else { lookup(s, q) } by {
        if q == k {
            lemma_lookup_index(t, s.len() as int);
        } else {
            if has_key(s, q) {
                let j = choose|j: int| 0 <= j < s.len() && #[trigger] s[j].0 == q;
                lemma_lookup_index(s, j);
                lemma_lookup_index(t, j);
            }
            if has_key(t, q) {
                let j = choose|j: int| 0 <= j < t.len() && #[trigger] t[j].0 == q;
                assert(s[j].0 == q);
            }
        }
    }
}

/// Dropping the entry at position `i` removes its tag and changes nothing else.
pub proof fn lemma_lookup_remove<K, V>(s: Seq<(K, V)>, i: int)
    requires
        keys_distinct(s),
        0 <= i < s.len(),
    ensures
        keys_distinct(s.remove(i)),
        forall|q: K| #[trigger] lookup(s.remove(i), q) == if q == s[i].0 { None } else { lookup(s, q) },
{
    let t = s.remove(i);
    assert(keys_distinct(t)) by {
        assert forall|a: int, b: int| 0 <= a < t.len() && 0 <= b < t.len() && a != b implies #[trigger] t[a].0 != #[trigger] t[b].0 by {
            let sa = if a < i { a } else { a + 1 };
            let sb = if b < i { b } else { b + 1 };
            assert(t[a] == s[sa] && t[b] == s[sb]);
        }
    }
    assert forall|q: K| #[trigger] lookup(t, q) == if q == s[i].0 { None } else { lookup(s, q) } by {
        if has_key(t, q) {
            let j = choose|j: int| 0 <= j < t.len() && #[trigger] t[j].0 == q;
            let sj = if j < i { j } else { j + 1 };
            assert(t[j] == s[sj]);
            lemma_lookup_index(t, j);
            lemma_lookup_index(s, sj);
        } else if q != s[i].0 && has_key(s, q) {
            let j = choose|j: int| 0 <= j < s.len() && #[trigger] s[j].0 == q;
            let tj = if j < i { j } else { j - 1 };
            assert(t[tj] == s[j]);
        }
    }
}

/// The position of the entry with tag `k`, if any.
pub fn find_key<V>(v: &Vec<(u64, V)>, k: u64) -> (r: Option<usize>)
    requires
        keys_distinct(v@),
    ensures
        r matches Some(i) ==> i < v@.len() && v@[i as int].0 == k && lookup(v@, k) == Some(v@[i as int].1),
        r is None ==> !has_key(v@, k) && lookup(v@, k) is None,
{
    let mut i: usize = 0;
    while i < v.len()
        invariant
            keys_distinct(v@),
            i <= v@.len(),
            forall|j: int| 0 <= j < i ==> #[trigger] v@[j].0 != k,
        decreases v@.len() - i,
    {
        if v[i].0 == k {
            proof { lemma_lookup_index(v@, i as int); }
            return Some(i);
        }
        i = i + 1;
    }
    None
}

/// The list without the entry filed under `k`.
pub open spec fn without_key<V>(s: Seq<(u64, V)>, k: u64) -> Seq<(u64, V)> {
    if has_key(s, k) {
        s.remove(choose|i: int| 0 <= i < s.len() && #[trigger] s[i].0 == k)
    } else {
        s
    }
}

/// Drops the entry filed under `k`, if any.
pub fn remove_key<V>(v: &mut Vec<(u64, V)>, k: u64)
    requires
        keys_distinct(old(v)@),
    ensures
        final(v)@ == without_key(old(v)@, k),
        keys_distinct(final(v)@),
        forall|q: u64| #[trigger] lookup(final(v)@, q) == if q == k { None } else { lookup(old(v)@, q) },
{
    match find_key(v, k) {
        Some(i) => {
            proof {
                lemma_lookup_remove(v@, i as int);
                let j = choose|j: int| 0 <= j < v@.len() && #[trigger] v@[j].0 == k;
                assert(j == i as int);
            }
            v.remove(i);
        },
        None => {},
    }
}

/// The list read as a map from tag to entry.
pub open spec fn as_map<K, V>(s: Seq<(K, V)>) -> Map<K, V> {
    Map::new(|k: K| has_key(s, k), |k: K| lookup(s, k).unwrap())
}

/// A list whose lookups agree with `m` on every tag reads as `m`.
pub proof fn lemma_as_map_equal<K, V>(t: Seq<(K, V)>, m: Map<K, V>)
    requires
        forall|k: K| #[trigger] lookup(t, k) == if m.dom().contains(k) { Some(m[k]) } else { None },
    ensures
        as_map(t) == m,
{
    assert forall|k: K| #[trigger] as_map(t).dom().contains(k) <==> m.dom().contains(k) by {
        assert(lookup(t, k) == if m.dom().contains(k) { Some(m[k]) } else { None });
    }
    assert forall|k: K| #[trigger] as_map(t).dom().contains(k) implies as_map(t)[k] == m[k] by {
        assert(lookup(t, k) == if m.dom().contains(k) { Some(m[k]) } else { None });
    }
    assert(as_map(t) =~= m);
}

/// A key that can be told apart from another at run time.
pub trait Key: Copy + Sized {
    /// Whether the two keys are the same.
    fn same_key(&self, other: &Self) -> (b: bool)
        ensures
            b == (*self == *other),
    ;
}

impl Key for u64 {
    fn same_key(&self, other: &Self) -> (b: bool) {
        *self == *other
    }
}

/// The position of the entry filed under `k`, if any.
pub fn position<K: Key, V>(v: &Vec<(K, V)>, k: &K) -> (r: Option<usize>)
    requires
        keys_distinct(v@),
    ensures
        r matches Some(i) ==> i < v@.len() && v@[i as int].0 == *k && lookup(v@, *k) == Some(v@[i as int].1),
        r is None ==> !has_key(v@, *k) && lookup(v@, *k) is None,
{
    let mut i: usize = 0;
    while i < v.len()
        invariant
            keys_distinct(v@),
            i <= v@.len(),
            forall|j: int| 0 <= j < i ==> #[trigger] v@[j].0 != *k,
        decreases v@.len() - i,
    {
        if v[i].0.same_key(k) {
            proof { lemma_lookup_index(v@, i as int); }
            return Some(i);
        }
        i = i + 1;
    }
    None
}

/// Adding an entry under a new tag adds it to the map.
pub proof fn lemma_as_map_push<K, V>(s: Seq<(K, V)>, k: K, v: V)
    requires
        keys_distinct(s),
        !has_key(s, k),
    ensures
        keys_distinct(s.push((k, v))),
        as_map(s.push((k, v))) == as_map(s).insert(k, v),
{
    lemma_lookup_push(s, k, v);
    lemma_as_map_equal(s.push((k, v)), as_map(s).insert(k, v));
}

/// Changing the value at position `i` changes the map at its tag.
pub proof fn lemma_as_map_set<K, V>(s: Seq<(K, V)>, i: int, v: V)
    requires
        keys_distinct(s),
        0 <= i < s.len(),
    ensures
        keys_distinct(s.update(i, (s[i].0, v))),
        as_map(s.update(i, (s[i].0, v))) == as_map(s).insert(s[i].0, v),
{
    lemma_lookup_set(s, i, v);
    lemma_as_map_equal(s.update(i, (s[i].0, v)), as_map(s).insert(s[i].0, v));
}

/// Dropping the entry at position `i` drops its tag from the map.
pub proof fn lemma_as_map_remove<K, V>(s: Seq<(K, V)>, i: int)
    requires
        keys_distinct(s),
        0 <= i < s.len(),
    ensures
        keys_distinct(s.remove(i)),
        as_map(s.remove(i)) == as_map(s).remove(s[i].0),
{
    lemma_lookup_remove(s, i);
    lemma_as_map_equal(s.remove(i), as_map(s).remove(s[i].0));
}

/// The entry at position `i` is in the map.
pub proof fn lemma_as_map_index<K, V>(s: Seq<(K, V)>, i: int)
    requires
        keys_distinct(s),
        0 <= i < s.len(),
    ensures
        as_map(s).dom().contains(s[i].0),
        as_map(s)[s[i].0] == s[i].1,
{
    lemma_lookup_index(s, i);
}

impl Key for u32 {
    fn same_key(&self, other: &Self) -> (b: bool) {
        *self == *other
    }
}

/// With each tag filed once, dropping an entry leaves its tag unfiled.
pub proof fn lemma_removed_key_absent<K, V>(s: Seq<(K, V)>, i: int)
    requires
        keys_distinct(s),
        0 <= i < s.len(),
    ensures
        !has_key(s.remove(i), s[i].0),
{
    if has_key(s.remove(i), s[i].0) {
        let j = choose|j: int| 0 <= j < s.remove(i).len() && #[trigger] s.remove(i)[j].0 == s[i].0;
        let o = if j < i { j } else { j + 1 };
        assert(s.remove(i)[j] == s[o]);
    }
}

/// A tag filed in a list stays filed in any list that extends it.
pub proof fn lemma_has_key_extended<K, V>(s: Seq<(K, V)>, t: Seq<(K, V)>, k: K)
    requires
        has_key(s, k),
        s.len() <= t.len(),
        forall|i: int| 0 <= i < s.len() ==> #[trigger] t[i] == s[i],
    ensures
        has_key(t, k),
{
    let i = choose|i: int| 0 <= i < s.len() && #[trigger] s[i].0 == k;
    assert(t[i] == s[i]);
}

} // verus!
