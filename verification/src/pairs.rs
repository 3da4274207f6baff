use vstd::prelude::*;

verus! {

/// Some pair of `e` has the key `k`.
pub open spec fn has_key<V>(e: Seq<(Seq<char>, V)>, k: Seq<char>) -> bool {
    exists|i: int| 0 <= i < e.len() && #[trigger] e[i].0 == k
}

/// No two pairs of `e` have the same key.
pub open spec fn distinct_keys<V>(e: Seq<(Seq<char>, V)>) -> bool {
    forall|i: int, j: int| 0 <= i < e.len() && 0 <= j < e.len() && i != j ==> #[trigger] e[i].0 != #[trigger] e[j].0
}

/// The place of the key `k` in `e`.
pub open spec fn key_index<V>(e: Seq<(Seq<char>, V)>, k: Seq<char>) -> int {
    choose|i: int| 0 <= i < e.len() && #[trigger] e[i].0 == k
}

/// The value that `e` pairs with the key `k`.
pub open spec fn lookup<V>(e: Seq<(Seq<char>, V)>, k: Seq<char>) -> Option<V> {
    if has_key(e, k) {
        Some(e[key_index(e, k)].1)
    } else {
        None
    }
}

/// `e` after an insertion in the manner of an insertion-ordered map: a key already present
/// keeps its place and takes the new value; a new key goes last.
pub open spec fn insert_entry<V>(e: Seq<(Seq<char>, V)>, k: Seq<char>, v: V) -> Seq<(Seq<char>, V)> {
    if has_key(e, k) {
        e.update(key_index(e, k), (k, v))
    } else {
        e.push((k, v))
    }
}

/// The keys of `e`, in order.
pub open spec fn keys<V>(e: Seq<(Seq<char>, V)>) -> Seq<Seq<char>> {
    e.map_values(|p: (Seq<char>, V)| p.0)
}

/// The views of pairs of strings.
pub open spec fn string_pairs(v: Seq<(String, String)>) -> Seq<(Seq<char>, Seq<char>)> {
    v.map_values(|p: (String, String)| (p.0@, p.1@))
}

pub proof fn lemma_key_index_unique<V>(e: Seq<(Seq<char>, V)>, j: int)
    requires
        distinct_keys(e),
        0 <= j < e.len(),
    ensures
        has_key(e, e[j].0),
        key_index(e, e[j].0) == j,
        lookup(e, e[j].0) == Some(e[j].1),
{
    assert(e[j].0 == e[j].0);
}

pub proof fn lemma_insert_keeps_distinct<V>(e: Seq<(Seq<char>, V)>, k: Seq<char>, v: V)
    requires
        distinct_keys(e),
    ensures
        distinct_keys(insert_entry(e, k, v)),
        insert_entry(e, k, v).len() > 0,
        has_key(insert_entry(e, k, v), k),
{
    let r = insert_entry(e, k, v);
    if has_key(e, k) {
        let i = key_index(e, k);
        assert(r[i].0 == k);
    } else {
        assert(r[r.len() - 1].0 == k);
    }
}

/// `i` is the first place of the key `k` in `e`.
pub open spec fn is_first_key<V>(e: Seq<(Seq<char>, V)>, k: Seq<char>, i: int) -> bool {
    &&& 0 <= i < e.len()
    &&& e[i].0 == k
    &&& forall|j: int| 0 <= j < i ==> #[trigger] e[j].0 != k
}

/// The value paired with the first occurrence of the key `k` in `e`.
pub open spec fn lookup_first<V>(e: Seq<(Seq<char>, V)>, k: Seq<char>) -> Option<V> {
    if exists|i: int| is_first_key(e, k, i) {
        Some(e[choose|i: int| is_first_key(e, k, i)].1)
    } else {
        None
    }
}

pub proof fn lemma_lookup_first_at<V>(e: Seq<(Seq<char>, V)>, k: Seq<char>, i: int)
    requires
        is_first_key(e, k, i),
    ensures
        lookup_first(e, k) == Some(e[i].1),
{
    let c = choose|j: int| is_first_key(e, k, j);
    assert(is_first_key(e, k, c));
    if c < i {
        assert(e[c].0 != k);
    } else if c > i {
        assert(e[i].0 != k);
    }
}

pub proof fn lemma_lookup_first_none<V>(e: Seq<(Seq<char>, V)>, k: Seq<char>)
    requires
        !has_key(e, k),
    ensures
        lookup_first(e, k) is None,
{
    if exists|i: int| is_first_key(e, k, i) {
        let c = choose|j: int| is_first_key(e, k, j);
        assert(e[c].0 == k);
    }
}

/// The place of the first pair whose key is `k`, if there is one.
pub fn find_key(m: &Vec<(String, String)>, k: &str) -> (r: Option<usize>)
    ensures
        match r {
            Some(j) => j < m@.len() && m@[j as int].0@ == k@ && is_first_key(string_pairs(m@), k@, j as int),
            None => !has_key(string_pairs(m@), k@),
        },
{
    let n = m.len();
    let mut j: usize = 0;
    while j < n
        invariant
            n == m@.len(),
            j <= n,
            forall|i: int| 0 <= i < j ==> m@[i].0@ != k@,
        decreases n - j,
    {
        if crate::text::same_text(m[j].0.as_str(), k) {
            assert forall|i: int| 0 <= i < j implies #[trigger] string_pairs(m@)[i].0 != k@ by {
                assert(string_pairs(m@)[i].0 == m@[i].0@);
            }
            return Some(j);
        }
        j = j + 1;
    }
    assert(!has_key(string_pairs(m@), k@)) by {
        if has_key(string_pairs(m@), k@) {
            let i = key_index(string_pairs(m@), k@);
            assert(string_pairs(m@)[i].0 == m@[i].0@);
        }
    }
    None
}

/// Puts `(k, v)` into the insertion-ordered pairs `m`.
pub fn insert_pair(m: &mut Vec<(String, String)>, k: String, v: String)
    requires
        distinct_keys(string_pairs(old(m)@)),
    ensures
        string_pairs(final(m)@) == insert_entry(string_pairs(old(m)@), k@, v@),
        distinct_keys(string_pairs(final(m)@)),
{
    let ghost e = string_pairs(m@);
    proof {
        lemma_insert_keeps_distinct(e, k@, v@);
    }
    match find_key(m, k.as_str()) {
        Some(j) => {
            proof {
                assert(e[j as int].0 == k@);
                lemma_key_index_unique(e, j as int);
            }
            m.set(j, (k, v));
            assert(string_pairs(m@) =~= e.update(j as int, (k@, v@)));
        },
        None => {
            m.push((k, v));
            assert(string_pairs(m@) =~= e.push((k@, v@)));
        },
    }
}

} // verus!
