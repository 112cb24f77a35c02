//! Association lists keyed by strings: a sequence of (key, value) pairs whose
//! keys are distinct, kept in the order in which keys were first inserted.
use vstd::prelude::*;
use vstd::string::*;

verus! {

/// No key occurs twice.
pub open spec fn unique_keys<V>(s: Seq<(Seq<char>, V)>) -> bool {
    forall|i: int, j: int| 0 <= i < j < s.len() ==> s[i].0 != s[j].0
}

/// Some pair has key `k`.
pub open spec fn has_key<V>(s: Seq<(Seq<char>, V)>, k: Seq<char>) -> bool {
    exists|i: int| 0 <= i < s.len() && s[i].0 == k
}

/// The position of the pair with key `k`, where there is one.
pub open spec fn key_pos<V>(s: Seq<(Seq<char>, V)>, k: Seq<char>) -> int {
    choose|i: int| 0 <= i < s.len() && s[i].0 == k
}

/// The value under key `k`, where there is one.
pub open spec fn assoc_get<V>(s: Seq<(Seq<char>, V)>, k: Seq<char>) -> V {
    s[key_pos(s, k)].1
}

/// `s` with `v` under `k`: the pair of `k` replaced in place where there is
/// one, else a new pair at the end.
pub open spec fn assoc_put<V>(s: Seq<(Seq<char>, V)>, k: Seq<char>, v: V) -> Seq<(Seq<char>, V)> {
    if has_key(s, k) {
        s.update(key_pos(s, k), (k, v))
    } else {
        s.push((k, v))
    }
}

/// The keys in order.
pub open spec fn keys_of<V>(s: Seq<(Seq<char>, V)>) -> Seq<Seq<char>> {
    s.map_values(|e: (Seq<char>, V)| e.0)
}

/// With distinct keys, the position of a key is the one position that holds it.
pub proof fn lemma_key_pos<V>(s: Seq<(Seq<char>, V)>, i: int)
    requires
        unique_keys(s),
        0 <= i < s.len(),
    ensures
        has_key(s, s[i].0),
        key_pos(s, s[i].0) == i,
{
    assert(s[i].0 == s[i].0);
    let p = key_pos(s, s[i].0);
    assert(s[p].0 == s[i].0);
}

/// `assoc_put` keeps the keys distinct.
pub proof fn lemma_assoc_put_unique<V>(s: Seq<(Seq<char>, V)>, k: Seq<char>, v: V)
    requires
        unique_keys(s),
    ensures
        unique_keys(assoc_put(s, k, v)),
        has_key(assoc_put(s, k, v), k),
        forall|j: Seq<char>| has_key(s, j) ==> has_key(assoc_put(s, k, v), j),
        forall|j: Seq<char>| #[trigger]
            has_key(assoc_put(s, k, v), j) ==> has_key(s, j) || j == k,
{
    let r = assoc_put(s, k, v);
    if has_key(s, k) {
        let p = key_pos(s, k);
        assert(r[p].0 == k);
        assert forall|j: Seq<char>| has_key(s, j) implies has_key(r, j) by {
            let q = key_pos(s, j);
            assert(r[q].0 == j);
        }
        assert forall|j: Seq<char>| #[trigger] has_key(r, j) implies has_key(s, j) || j == k by {
            let q = key_pos(r, j);
            assert(s[q].0 == j);
        }
    } else {
        assert(r[s.len() as int].0 == k);
        assert forall|j: Seq<char>| has_key(s, j) implies has_key(r, j) by {
            let q = key_pos(s, j);
            assert(r[q].0 == j);
        }
        assert forall|j: Seq<char>| #[trigger] has_key(r, j) implies has_key(s, j) || j == k by {
            let q = key_pos(r, j);
            if q < s.len() {
                assert(s[q].0 == j);
            }
        }
    }
}

/// Two lists with the same key at every position have the same keys.
pub proof fn lemma_same_keys<V, W>(a: Seq<(Seq<char>, V)>, b: Seq<(Seq<char>, W)>)
    requires
        a.len() == b.len(),
        forall|i: int| 0 <= i < a.len() ==> a[i].0 == b[i].0,
    ensures
        unique_keys(a) ==> unique_keys(b),
        forall|k: Seq<char>| has_key(a, k) <==> has_key(b, k),
        forall|k: Seq<char>| has_key(a, k) ==> key_pos(a, k) == key_pos(b, k) || !unique_keys(a),
{
    assert forall|k: Seq<char>| has_key(a, k) implies has_key(b, k) by {
        let p = key_pos(a, k);
        assert(b[p].0 == k);
    }
    assert forall|k: Seq<char>| has_key(b, k) implies has_key(a, k) by {
        let p = key_pos(b, k);
        assert(a[p].0 == k);
    }
    assert forall|k: Seq<char>| has_key(a, k) && unique_keys(a) implies key_pos(a, k) == key_pos(
        b,
        k,
    ) by {
        let p = key_pos(a, k);
        let q = key_pos(b, k);
        assert(a[q].0 == k);
    }
}

/// The position in `v` of the pair whose key is `k`.
pub fn find_key<T>(v: &Vec<(String, T)>, k: &str) -> (r: Option<usize>)
    ensures
        match r {
            Some(i) => i < v@.len() && v@[i as int].0@ == k@,
            None => forall|i: int| 0 <= i < v@.len() ==> v@[i].0@ != k@,
        },
{
    let mut i: usize = 0;
    while i < v.len()
        invariant
            i <= v@.len(),
            forall|j: int| 0 <= j < i ==> v@[j].0@ != k@,
        decreases v@.len() - i,
    {
        if str_eq(v[i].0.as_str(), k) {
            return Some(i);
        }
        i = i + 1;
    }
    None
}

/// Whether `a` and `b` hold the same characters.
pub fn str_eq(a: &str, b: &str) -> (r: bool)
    ensures
        r == (a@ == b@),
{
    let n = a.unicode_len();
    if n != b.unicode_len() {
        return false;
    }
    let mut i: usize = 0;
    while i < n
        invariant
            n == a@.len() == b@.len(),
            i <= n,
            forall|j: int| 0 <= j < i ==> a@[j] == b@[j],
        decreases n - i,
    {
        if a.get_char(i) != b.get_char(i) {
            return false;
        }
        i = i + 1;
    }
    assert(a@ =~= b@);
    true
}

} // verus!
