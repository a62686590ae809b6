//! Lists keyed by a category: each element carries a key, the list is kept
//! strictly sorted by key, and so each key appears at most once. The spell
//! card's overview list (keyed by overview category) and roll-outcome list
//! (keyed by degree of success) both follow this discipline.

use vstd::prelude::*;

verus! {

/// The first element of the list whose key is `k`, if any.
pub open spec fn find_by_key<T>(s: Seq<T>, key: spec_fn(T) -> int, k: int) -> Option<T>
    decreases s.len(),
{
    if s.len() == 0 {
        None
    } else if key(s[0]) == k {
        Some(s[0])
    } else {
        find_by_key(s.drop_first(), key, k)
    }
}

/// Whether the list is strictly sorted by key; strictness makes every key
/// appear at most once.
pub open spec fn sorted_by_key<T>(s: Seq<T>, key: spec_fn(T) -> int) -> bool {
    forall|i: int, j: int| 0 <= i < j < s.len() ==> key(#[trigger] s[i]) < key(#[trigger] s[j])
}

/// No element has key `k` exactly when the search for `k` finds nothing.
pub proof fn lemma_find_none<T>(s: Seq<T>, key: spec_fn(T) -> int, k: int)
    ensures
        find_by_key(s, key, k) is None <==> forall|i: int| 0 <= i < s.len() ==> key(
            #[trigger] s[i],
        ) != k,
    decreases s.len(),
{
    if s.len() != 0 {
        lemma_find_none(s.drop_first(), key, k);
        assert forall|i: int| 1 <= i < s.len() implies s.drop_first()[i - 1] == #[trigger] s[i] by {}
    }
}

/// Whatever the search returns is an element of the list with key `k`.
pub proof fn lemma_find_some<T>(s: Seq<T>, key: spec_fn(T) -> int, k: int)
    requires
        find_by_key(s, key, k) is Some,
    ensures
        exists|i: int|
            0 <= i < s.len() && s[i] == find_by_key(s, key, k)->0 && key(#[trigger] s[i]) == k,
    decreases s.len(),
{
    if key(s[0]) != k {
        lemma_find_some(s.drop_first(), key, k);
        let i = choose|i: int|
            0 <= i < s.drop_first().len() && s.drop_first()[i] == find_by_key(s, key, k)->0 && key(
                #[trigger] s.drop_first()[i],
            ) == k;
        assert(s[i + 1] == s.drop_first()[i]);
    }
}

/// In a list sorted by key, the search for the key of any element returns
/// exactly that element.
pub proof fn lemma_find_witness<T>(s: Seq<T>, key: spec_fn(T) -> int, i: int)
    requires
        sorted_by_key(s, key),
        0 <= i < s.len(),
    ensures
        find_by_key(s, key, key(s[i])) == Some(s[i]),
    decreases s.len(),
{
    let k = key(s[i]);
    if i == 0 {
    } else {
        assert(key(s[0]) < k);
        let t = s.drop_first();
        assert forall|p: int, q: int| 0 <= p < q < t.len() implies key(#[trigger] t[p]) < key(
            #[trigger] t[q],
        ) by {
            assert(t[p] == s[p + 1] && t[q] == s[q + 1]);
        }
        assert(t[i - 1] == s[i]);
        lemma_find_witness(t, key, i - 1);
    }
}

proof fn lemma_key_chain<T>(s: Seq<T>, key: spec_fn(T) -> int, i: int, j: int)
    requires
        forall|p: int| 0 <= p < s.len() - 1 ==> key(#[trigger] s[p]) < key(s[p + 1]),
        0 <= i < j < s.len(),
    ensures
        key(s[i]) < key(s[j]),
    decreases j - i,
{
    if j > i + 1 {
        lemma_key_chain(s, key, i, j - 1);
        assert(key(s[j - 1]) < key(s[j]));
    }
}

/// A list each of whose elements has a smaller key than the next is sorted.
pub proof fn lemma_sorted_from_adjacent<T>(s: Seq<T>, key: spec_fn(T) -> int)
    requires
        forall|p: int| 0 <= p < s.len() - 1 ==> key(#[trigger] s[p]) < key(s[p + 1]),
    ensures
        sorted_by_key(s, key),
{
    assert forall|i: int, j: int| 0 <= i < j < s.len() implies key(#[trigger] s[i]) < key(
        #[trigger] s[j],
    ) by {
        lemma_key_chain(s, key, i, j);
    }
}

/// The search for a key returns the first element that carries it.
pub proof fn lemma_find_first<T>(s: Seq<T>, key: spec_fn(T) -> int, i: int)
    requires
        0 <= i < s.len(),
        forall|j: int| 0 <= j < i ==> key(#[trigger] s[j]) != key(s[i]),
    ensures
        find_by_key(s, key, key(s[i])) == Some(s[i]),
    decreases s.len(),
{
    if i > 0 {
        let t = s.drop_first();
        assert forall|j: int| 0 <= j < i - 1 implies key(#[trigger] t[j]) != key(t[i - 1]) by {
            assert(t[j] == s[j + 1] && t[i - 1] == s[i]);
        }
        assert(t[i - 1] == s[i]);
        lemma_find_first(t, key, i - 1);
    }
}

/// Removing the element at one position of a sorted keyed list keeps the
/// list sorted, empties that element's key, and leaves every other key's
/// entry unchanged.
pub proof fn lemma_remove_keyed<T>(s: Seq<T>, key: spec_fn(T) -> int, i: int)
    requires
        sorted_by_key(s, key),
        0 <= i < s.len(),
    ensures
        sorted_by_key(s.remove(i), key),
        find_by_key(s.remove(i), key, key(s[i])) is None,
        forall|k: int|
            k != key(s[i]) ==> find_by_key(s.remove(i), key, k) == find_by_key(s, key, k),
{
    let t = s.remove(i);
    assert(t.len() == s.len() - 1);
    assert forall|j: int| 0 <= j < t.len() implies t[j] == (if j < i {
        s[j]
    } else {
        s[j + 1]
    }) by {}
    assert forall|p: int, q: int| 0 <= p < q < t.len() implies key(#[trigger] t[p]) < key(
        #[trigger] t[q],
    ) by {
        let p0 = if p < i { p } else { p + 1 };
        let q0 = if q < i { q } else { q + 1 };
        assert(t[p] == s[p0] && t[q] == s[q0]);
    }
    assert forall|j: int| 0 <= j < t.len() implies key(#[trigger] t[j]) != key(s[i]) by {
        if j < i {
            assert(key(s[j]) < key(s[i]));
        } else {
            assert(key(s[i]) < key(s[j + 1]));
        }
    }
    lemma_find_none(t, key, key(s[i]));
    assert forall|k: int| k != key(s[i]) implies find_by_key(t, key, k) == find_by_key(
        s,
        key,
        k,
    ) by {
        if find_by_key(s, key, k) is Some {
            lemma_find_some(s, key, k);
            let j = choose|j: int|
                0 <= j < s.len() && s[j] == find_by_key(s, key, k)->0 && key(#[trigger] s[j]) == k;
            let j1 = if j < i {
                j
            } else {
                j - 1
            };
            assert(t[j1] == s[j]);
            lemma_find_witness(t, key, j1);
        } else {
            lemma_find_none(s, key, k);
            assert forall|j: int| 0 <= j < t.len() implies key(#[trigger] t[j]) != k by {
                if j < i {
                    assert(t[j] == s[j]);
                } else {
                    assert(t[j] == s[j + 1]);
                }
            }
            lemma_find_none(t, key, k);
        }
    }
}

/// Inserting an element at its sorted position in a keyed list whose keys
/// all differ from the element's keeps the list sorted, makes the element
/// its key's entry, and leaves every other key's entry unchanged.
pub proof fn lemma_insert_keyed<T>(s: Seq<T>, key: spec_fn(T) -> int, i: int, x: T)
    requires
        sorted_by_key(s, key),
        0 <= i <= s.len(),
        forall|j: int| 0 <= j < i ==> key(#[trigger] s[j]) < key(x),
        forall|j: int| i <= j < s.len() ==> key(#[trigger] s[j]) > key(x),
    ensures
        sorted_by_key(s.insert(i, x), key),
        find_by_key(s.insert(i, x), key, key(x)) == Some(x),
        forall|k: int| k != key(x) ==> find_by_key(s.insert(i, x), key, k) == find_by_key(s, key, k),
{
    let t = s.insert(i, x);
    assert(t.len() == s.len() + 1);
    assert forall|j: int| 0 <= j < t.len() implies t[j] == (if j < i {
        s[j]
    } else if j == i {
        x
    } else {
        s[j - 1]
    }) by {}
    assert forall|p: int, q: int| 0 <= p < q < t.len() implies key(#[trigger] t[p]) < key(
        #[trigger] t[q],
    ) by {
        if p < i {
            assert(t[p] == s[p]);
        }
        if q > i {
            assert(t[q] == s[q - 1]);
        }
    }
    lemma_find_witness(t, key, i);
    assert forall|k: int| k != key(x) implies find_by_key(t, key, k) == find_by_key(s, key, k) by {
        if find_by_key(s, key, k) is Some {
            lemma_find_some(s, key, k);
            let j = choose|j: int|
                0 <= j < s.len() && s[j] == find_by_key(s, key, k)->0 && key(#[trigger] s[j]) == k;
            let j1 = if j < i {
                j
            } else {
                j + 1
            };
            assert(t[j1] == s[j]);
            lemma_find_witness(t, key, j1);
        } else {
            lemma_find_none(s, key, k);
            assert forall|j: int| 0 <= j < t.len() implies key(#[trigger] t[j]) != k by {
                if j < i {
                    assert(t[j] == s[j]);
                } else if j > i {
                    assert(t[j] == s[j - 1]);
                }
            }
            lemma_find_none(t, key, k);
        }
    }
}

/// Two lists sorted by key that hold the same element (or none) for every
/// key are the same list. A keyed list is therefore fully determined by
/// what each category's entry is.
pub proof fn lemma_sorted_same_find_equal<T>(s1: Seq<T>, s2: Seq<T>, key: spec_fn(T) -> int)
    requires
        sorted_by_key(s1, key),
        sorted_by_key(s2, key),
        forall|k: int| find_by_key(s1, key, k) == find_by_key(s2, key, k),
    ensures
        s1 == s2,
    decreases s1.len(),
{
    if s1.len() == 0 {
        if s2.len() != 0 {
            lemma_find_witness(s2, key, 0);
            lemma_find_none(s1, key, key(s2[0]));
        }
        assert(s1 =~= s2);
    } else if s2.len() == 0 {
        lemma_find_witness(s1, key, 0);
        lemma_find_none(s2, key, key(s1[0]));
    } else {
        let k0 = key(s1[0]);
        lemma_find_witness(s1, key, 0);
        lemma_find_some(s2, key, k0);
        let j = choose|j: int|
            0 <= j < s2.len() && s2[j] == find_by_key(s2, key, k0)->0 && key(#[trigger] s2[j])
                == k0;
        if j != 0 {
            // s2[0] has a key below k0, yet it also occurs in s1, where
            // every key is at least k0: impossible.
            assert(key(s2[0]) < k0);
            lemma_find_witness(s2, key, 0);
            lemma_find_some(s1, key, key(s2[0]));
            let i = choose|i: int|
                0 <= i < s1.len() && s1[i] == find_by_key(s1, key, key(s2[0]))->0 && key(
                    #[trigger] s1[i],
                ) == key(s2[0]);
            assert(i > 0 ==> key(s1[0]) < key(s1[i]));
        }
        assert(s1[0] == s2[0]);
        let t1 = s1.drop_first();
        let t2 = s2.drop_first();
        assert forall|p: int, q: int| 0 <= p < q < t1.len() implies key(#[trigger] t1[p]) < key(
            #[trigger] t1[q],
        ) by {
            assert(t1[p] == s1[p + 1] && t1[q] == s1[q + 1]);
        }
        assert forall|p: int, q: int| 0 <= p < q < t2.len() implies key(#[trigger] t2[p]) < key(
            #[trigger] t2[q],
        ) by {
            assert(t2[p] == s2[p + 1] && t2[q] == s2[q + 1]);
        }
        assert forall|k: int| find_by_key(t1, key, k) == find_by_key(t2, key, k) by {
            if k == k0 {
                assert forall|i: int| 0 <= i < t1.len() implies key(#[trigger] t1[i]) != k by {
                    assert(t1[i] == s1[i + 1]);
                    assert(key(s1[0]) < key(s1[i + 1]));
                }
                assert forall|i: int| 0 <= i < t2.len() implies key(#[trigger] t2[i]) != k by {
                    assert(t2[i] == s2[i + 1]);
                    assert(key(s2[0]) < key(s2[i + 1]));
                }
                lemma_find_none(t1, key, k);
                lemma_find_none(t2, key, k);
            } else {
                assert(find_by_key(s1, key, k) == find_by_key(t1, key, k));
                assert(find_by_key(s2, key, k) == find_by_key(t2, key, k));
            }
        }
        lemma_sorted_same_find_equal(t1, t2, key);
        assert(s1.len() == s2.len());
        assert forall|i: int| 0 <= i < s1.len() implies s1[i] == #[trigger] s2[i] by {
            if i > 0 {
                assert(s1[i] == t1[i - 1]);
                assert(s2[i] == t2[i - 1]);
            }
        }
        assert(s1 =~= s2);
    }
}

} // verus!
