use vstd::prelude::*;

verus! {

/// The index of the first element of `s` equal to `x`, if any.
pub open spec fn first_pos<A>(s: Seq<A>, x: A) -> Option<int>
    decreases s.len(),
{
    if s.len() == 0 {
        None
    } else {
        match first_pos(s.drop_last(), x) {
            Some(i) => Some(i),
            None => if s.last() == x {
                Some(s.len() - 1)
            } else {
                None
            },
        }
    }
}

/// `first_pos` finds the first occurrence, and only misses when there is none.
pub proof fn lemma_first_pos<A>(s: Seq<A>, x: A)
    ensures
        first_pos(s, x) matches Some(i) ==> 0 <= i < s.len() && s[i] == x && forall|j: int|
            0 <= j < i ==> s[j] != x,
        first_pos(s, x) is None ==> forall|j: int| 0 <= j < s.len() ==> s[j] != x,
    decreases s.len(),
{
    if s.len() > 0 {
        lemma_first_pos(s.drop_last(), x);
        assert forall|j: int| 0 <= j < s.len() - 1 implies s.drop_last()[j] == s[j] by {}
    }
}

/// Scanning one more element of a prefix without a match.
pub proof fn lemma_first_pos_step<A>(s: Seq<A>, x: A, i: int)
    requires
        0 <= i < s.len(),
        first_pos(s.take(i), x) is None,
    ensures
        first_pos(s.take(i + 1), x) == (if s[i] == x {
            Some(i)
        } else {
            None
        }),
{
    assert(s.take(i + 1).drop_last() =~= s.take(i));
}

/// A match found in a prefix is the first match of the whole sequence.
pub proof fn lemma_first_pos_prefix<A>(s: Seq<A>, x: A, n: int)
    requires
        0 <= n <= s.len(),
        first_pos(s.take(n), x) is Some,
    ensures
        first_pos(s, x) == first_pos(s.take(n), x),
    decreases s.len(),
{
    if n == s.len() {
        lemma_take_all(s);
    } else {
        assert(s.drop_last().take(n) =~= s.take(n));
        lemma_first_pos_prefix(s.drop_last(), x, n);
    }
}

pub proof fn lemma_take_all<A>(s: Seq<A>)
    ensures
        s.take(s.len() as int) == s,
{
    assert(s.take(s.len() as int) =~= s);
}

/// Characterises `first_pos` from the other side.
pub proof fn lemma_first_pos_at<A>(s: Seq<A>, x: A, k: int)
    requires
        0 <= k < s.len(),
        s[k] == x,
        forall|j: int| 0 <= j < k ==> s[j] != x,
    ensures
        first_pos(s, x) == Some(k),
{
    lemma_first_pos(s, x);
}

/// Appending an element keeps an earlier match and may add one at the end.
pub proof fn lemma_first_pos_push<A>(s: Seq<A>, y: A, x: A)
    ensures
        first_pos(s.push(y), x) == (match first_pos(s, x) {
            Some(i) => Some(i),
            None => if y == x {
                Some(s.len() as int)
            } else {
                None
            },
        }),
{
    assert(s.push(y).drop_last() =~= s);
}

/// The keys of an association list, in order.
pub open spec fn keys_of_entries<V>(es: Seq<(String, V)>) -> Seq<Seq<char>> {
    es.map_values(|e: (String, V)| e.0@)
}

/// What an association list holds under `key`: the value of its first entry there.
pub open spec fn entry_get<V>(es: Seq<(String, V)>, key: Seq<char>) -> Option<V> {
    match first_pos(keys_of_entries(es), key) {
        Some(j) => Some(es[j].1),
        None => None,
    }
}

/// The position of the first entry of `es` under `key`.
pub fn find_key<V>(es: &Vec<(String, V)>, key: &str) -> (r: Option<usize>)
    ensures
        r is None <==> first_pos(keys_of_entries(es@), key@) is None,
        r matches Some(j) ==> first_pos(keys_of_entries(es@), key@) == Some(j as int) && j
            < es.len(),
{
    let mut i: usize = 0;
    while i < es.len()
        invariant
            i <= es.len(),
            first_pos(keys_of_entries(es@).take(i as int), key@) is None,
        decreases es.len() - i,
    {
        proof {
            lemma_first_pos_step(keys_of_entries(es@), key@, i as int);
        }
        if str_eq(es[i].0.as_str(), key) {
            proof {
                lemma_first_pos_prefix(keys_of_entries(es@), key@, i + 1);
            }
            return Some(i);
        }
        i = i + 1;
    }
    proof {
        lemma_take_all(keys_of_entries(es@));
    }
    None
}

/// Stores `value` under `key`, in place of what was there.
pub fn insert_entry<V>(es: &mut Vec<(String, V)>, key: String, value: V)
    ensures
        forall|k: Seq<char>| #[trigger]
            entry_get(final(es)@, k) == if k == key@ {
                Some(value)
            } else {
                entry_get(old(es)@, k)
            },
        unique_keys(old(es)@) ==> unique_keys(final(es)@),
        final(es)@ == match first_pos(keys_of_entries(old(es)@), key@) {
            Some(j) => old(es)@.update(j, (key, value)),
            None => old(es)@.push((key, value)),
        },
{
    match find_key(es, key.as_str()) {
        Some(i) => {
            let ghost before = es@;
            proof {
                lemma_first_pos(keys_of_entries(before), key@);
            }
            es.set(i, (key, value));
            proof {
                assert(keys_of_entries(es@) =~= keys_of_entries(before));
                assert(forall|j: int| 0 <= j < es.len() ==> es@[j].0@ == #[trigger] keys_of_entries(es@)[j]);
                assert(forall|j: int| 0 <= j < before.len() ==> before[j].0@ == #[trigger] keys_of_entries(before)[j]);
                if unique_keys(before) {
                    assert forall|a: int, b: int| 0 <= a < b < es.len() implies es@[a].0@
                        != es@[b].0@ by {
                        assert(keys_of_entries(es@)[a] == keys_of_entries(before)[a]);
                        assert(keys_of_entries(es@)[b] == keys_of_entries(before)[b]);
                    }
                }
                assert forall|k: Seq<char>| #[trigger]
                    entry_get(es@, k) == if k == key@ {
                        Some(value)
                    } else {
                        entry_get(before, k)
                    } by {
                    lemma_first_pos(keys_of_entries(before), k);
                }
            }
        },
        None => {
            let ghost before = es@;
            es.push((key, value));
            proof {
                lemma_first_pos(keys_of_entries(before), key@);
                assert(keys_of_entries(es@) =~= keys_of_entries(before).push(key@));
                assert(keys_of_entries(es@)[before.len() as int] == key@);
                if unique_keys(before) {
                    assert forall|a: int, b: int| 0 <= a < b < es.len() implies es@[a].0@
                        != es@[b].0@ by {
                        assert(es@[a] == before[a]);
                        assert(keys_of_entries(before)[a] == before[a].0@);
                    }
                }
                assert forall|k: Seq<char>| #[trigger]
                    entry_get(es@, k) == if k == key@ {
                        Some(value)
                    } else {
                        entry_get(before, k)
                    } by {
                    lemma_first_pos_push(keys_of_entries(before), key@, k);
                    if let Some(j) = first_pos(keys_of_entries(before), k) {
                        lemma_first_pos(keys_of_entries(before), k);
                    }
                }
            }
        },
    }
}

/// Taking out an entry under another key leaves what `k` looks up.
proof fn lemma_remove_other<V>(s: Seq<(String, V)>, i: int, k: Seq<char>)
    requires
        0 <= i < s.len(),
        s[i].0@ != k,
    ensures
        entry_get(s.remove(i), k) == entry_get(s, k),
{
    let t = s.remove(i);
    let ks = keys_of_entries(s);
    let kt = keys_of_entries(t);
    lemma_first_pos(ks, k);
    match first_pos(ks, k) {
        Some(j) => {
            if j < i {
                assert forall|m: int| 0 <= m < j implies kt[m] != k by {
                    assert(kt[m] == ks[m]);
                }
                lemma_first_pos_at(kt, k, j);
            } else {
                assert(kt[j - 1] == ks[j]);
                assert forall|m: int| 0 <= m < j - 1 implies kt[m] != k by {
                    if m >= i {
                        assert(kt[m] == ks[m + 1]);
                    } else {
                        assert(kt[m] == ks[m]);
                    }
                }
                lemma_first_pos_at(kt, k, j - 1);
            }
        },
        None => {
            lemma_first_pos(kt, k);
            if let Some(m) = first_pos(kt, k) {
                if m >= i {
                    assert(kt[m] == ks[m + 1]);
                } else {
                    assert(kt[m] == ks[m]);
                }
            }
        },
    }
}

/// Takes out every entry under `key`, and returns what `key` looked up.
pub fn remove_entries<V>(es: &mut Vec<(String, V)>, key: &str) -> (r: Option<V>)
    ensures
        r == entry_get(old(es)@, key@),
        forall|k: Seq<char>| #[trigger]
            entry_get(final(es)@, k) == if k == key@ {
                None
            } else {
                entry_get(old(es)@, k)
            },
        unique_keys(old(es)@) ==> unique_keys(final(es)@),
{
    let ghost original = es@;
    let mut removed: Option<V> = None;
    let mut first = true;
    loop
        invariant
            original == old(es)@,
            unique_keys(original) ==> unique_keys(es@),
            forall|k: Seq<char>| k != key@ ==> #[trigger] entry_get(es@, k) == entry_get(original, k),
            first ==> es@ == original && removed is None,
            !first ==> removed == entry_get(original, key@),
        decreases es.len(),
    {
        match find_key(es, key) {
            Some(i) => {
                let ghost before = es@;
                proof {
                    lemma_first_pos(keys_of_entries(before), key@);
                    assert forall|k: Seq<char>| k != key@ implies #[trigger] entry_get(
                        before.remove(i as int),
                        k,
                    ) == entry_get(before, k) by {
                        lemma_remove_other(before, i as int, k);
                    }
                }
                let entry = es.remove(i);
                proof {
                    if unique_keys(before) {
                        assert forall|a: int, b: int| 0 <= a < b < es.len() implies es@[a].0@
                            != es@[b].0@ by {
                            let a0 = if a < i { a } else { a + 1 };
                            let b0 = if b < i { b } else { b + 1 };
                            assert(es@[a] == before[a0]);
                            assert(es@[b] == before[b0]);
                        }
                    }
                }
                if first {
                    removed = Some(entry.1);
                    first = false;
                }
            },
            None => {
                assert(entry_get(es@, key@) is None);
                return removed;
            },
        }
    }
}

/// No two entries share a key.
pub open spec fn unique_keys<V>(es: Seq<(String, V)>) -> bool {
    forall|i: int, j: int| 0 <= i < j < es.len() ==> es[i].0@ != es[j].0@
}

/// What the last of `maps` that holds `key` holds there.
pub open spec fn last_defined<V>(maps: Seq<Seq<(String, V)>>, key: Seq<char>) -> Option<V>
    decreases maps.len(),
{
    if maps.len() == 0 {
        None
    } else {
        match entry_get(maps.last(), key) {
            Some(v) => Some(v),
            None => last_defined(maps.drop_last(), key),
        }
    }
}

/// The elements of `v` in reverse order, so that popping yields them first to last.
pub fn reversed_vec<T>(v: Vec<T>) -> (r: Vec<T>)
    ensures
        r.len() == v.len(),
        forall|j: int| 0 <= j < r.len() ==> #[trigger] r@[j] == v@[v.len() - 1 - j],
{
    let ghost original = v@;
    let n = v.len();
    let mut v = v;
    let mut reversed: Vec<T> = Vec::new();
    while v.len() > 0
        invariant
            v.len() + reversed.len() == n == original.len(),
            v@ == original.take(v.len() as int),
            forall|j: int| 0 <= j < reversed.len() ==> #[trigger] reversed@[j] == original[n - 1 - j],
        decreases v.len(),
    {
        let e = v.pop().unwrap();
        reversed.push(e);
        proof {
            assert(v@ =~= original.take(v.len() as int));
        }
    }
    reversed
}

/// Stores every entry of `src` into `dst`, in place of what `dst` held under its key.
pub fn merge_entries<V>(dst: &mut Vec<(String, V)>, src: Vec<(String, V)>)
    requires
        unique_keys(src@),
    ensures
        forall|k: Seq<char>| #[trigger]
            entry_get(final(dst)@, k) == match entry_get(src@, k) {
                Some(v) => Some(v),
                None => entry_get(old(dst)@, k),
            },
        unique_keys(old(dst)@) ==> unique_keys(final(dst)@),
{
    let ghost original = src@;
    let n = src.len();
    let mut reversed = reversed_vec(src);
    let mut i: usize = 0;
    while reversed.len() > 0
        invariant
            i + reversed.len() == n == original.len(),
            unique_keys(original),
            forall|j: int| 0 <= j < reversed.len() ==> #[trigger] reversed@[j] == original[n - 1 - j],
            forall|k: Seq<char>| #[trigger]
                entry_get(dst@, k) == match entry_get(original.take(i as int), k) {
                    Some(v) => Some(v),
                    None => entry_get(old(dst)@, k),
                },
            unique_keys(old(dst)@) ==> unique_keys(dst@),
        decreases reversed.len(),
    {
        let ghost before = dst@;
        let e = reversed.pop().unwrap();
        assert(e == original[i as int]);
        proof {
            let prefix = original.take(i as int);
            assert(original.take(i + 1) =~= prefix.push(e));
            assert(keys_of_entries(original.take(i + 1)) =~= keys_of_entries(prefix).push(e.0@));
            assert forall|k: Seq<char>| #[trigger] entry_get(original.take(i + 1), k) == if k
                == e.0@ {
                Some(e.1)
            } else {
                entry_get(prefix, k)
            } by {
                lemma_first_pos_push(keys_of_entries(prefix), e.0@, k);
                lemma_first_pos(keys_of_entries(prefix), k);
                if k == e.0@ {
                    assert forall|j: int| 0 <= j < prefix.len() implies keys_of_entries(prefix)[j]
                        != k by {
                        assert(original[j].0@ != original[i as int].0@);
                    }
                }
            }
        }
        insert_entry(dst, e.0, e.1);
        i = i + 1;
    }
    proof {
        assert(original.take(n as int) =~= original);
    }
}

/// Looking up in a list with one more entry at the end.
pub proof fn lemma_entry_get_push<V>(s: Seq<(String, V)>, e: (String, V), k: Seq<char>)
    ensures
        entry_get(s.push(e), k) == match entry_get(s, k) {
            Some(v) => Some(v),
            None => if e.0@ == k {
                Some(e.1)
            } else {
                None
            },
        },
{
    assert(keys_of_entries(s.push(e)) =~= keys_of_entries(s).push(e.0@));
    lemma_first_pos_push(keys_of_entries(s), e.0@, k);
    lemma_first_pos(keys_of_entries(s), k);
}

/// With unique keys, the key of a later entry is not found before it.
pub proof fn lemma_unique_not_before<V>(s: Seq<(String, V)>, i: int)
    requires
        unique_keys(s),
        0 <= i < s.len(),
    ensures
        entry_get(s.take(i), s[i].0@) is None,
{
    let t = s.take(i);
    lemma_first_pos(keys_of_entries(t), s[i].0@);
    if let Some(j) = first_pos(keys_of_entries(t), s[i].0@) {
        assert(keys_of_entries(t)[j] == s[j].0@);
    }
}

/// Whether no two entries of `es` share a key.
pub fn has_unique_keys<V>(es: &Vec<(String, V)>) -> (r: bool)
    ensures
        r == unique_keys(es@),
{
    let mut j: usize = 0;
    while j < es.len()
        invariant
            j <= es.len(),
            forall|a: int, b: int| 0 <= a < b < j ==> es@[a].0@ != es@[b].0@,
        decreases es.len() - j,
    {
        let mut i: usize = 0;
        while i < j
            invariant
                i <= j < es.len(),
                forall|a: int| 0 <= a < i ==> es@[a].0@ != es@[j as int].0@,
            decreases j - i,
        {
            if es[i].0 == es[j].0 {
                return false;
            }
            i = i + 1;
        }
        j = j + 1;
    }
    true
}

/// Relies on `str`'s `==`: equal exactly when the characters are.
#[verifier::external_body]
pub fn str_eq(a: &str, b: &str) -> (r: bool)
    ensures
        r == (a@ == b@),
{
    a == b
}

} // verus!
