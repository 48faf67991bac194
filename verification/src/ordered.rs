//! Maps from names to values, kept as lists of entries in the order of the
//! names, each name once.
//!
//! The order is that of the characters: a name comes before another if, at
//! the first position where they differ, it has ended or has the smaller
//! character.
use vstd::prelude::*;
use vstd::string::*;
use crate::text::{
    comes_before, lemma_precedes_total, lemma_precedes_transitive, precedes,
};

verus! {

/// The entries, each name and value by its view.
pub open spec fn keyed<T: View>(es: Seq<(String, T)>) -> Seq<(Seq<char>, T::V)> {
    Seq::new(es.len(), |i: int| (es[i].0@, es[i].1@))
}

/// Position of the first entry with the key `key`.
pub open spec fn index_of<V>(es: Seq<(Seq<char>, V)>, key: Seq<char>) -> Option<int>
    decreases es.len(),
{
    if es.len() == 0 {
        None
    } else if es[0].0 == key {
        Some(0)
    } else {
        match index_of(es.skip(1), key) {
            Some(i) => Some(i + 1),
            None => None,
        }
    }
}

/// Number of entries at the front whose keys come before `key`.
pub open spec fn rank<V>(es: Seq<(Seq<char>, V)>, key: Seq<char>) -> int
    decreases es.len(),
{
    if es.len() > 0 && precedes(es[0].0, key) {
        1 + rank(es.skip(1), key)
    } else {
        0
    }
}

/// The entries with `key` bound to `value`: in place of the entry that has
/// the key, or else in front of the first entry whose key does not come
/// before it.
pub open spec fn put<V>(es: Seq<(Seq<char>, V)>, key: Seq<char>, value: V) -> Seq<(Seq<char>, V)> {
    match index_of(es, key) {
        Some(i) => es.update(i, (key, value)),
        None => es.insert(rank(es, key), (key, value)),
    }
}

/// The keys strictly ascend, so that none occurs twice.
pub open spec fn ascending<V>(es: Seq<(Seq<char>, V)>) -> bool {
    forall|i: int, j: int| 0 <= i < j < es.len() ==> precedes(#[trigger] es[i].0, #[trigger] es[j].0)
}

/// A position before which no entry has the key, and which has it or is the end, is what
/// `index_of` gives.
pub proof fn lemma_index_of_exact<V>(es: Seq<(Seq<char>, V)>, key: Seq<char>, k: int)
    requires
        0 <= k <= es.len(),
        forall|j: int| 0 <= j < k ==> (#[trigger] es[j]).0 != key,
        k < es.len() ==> es[k].0 == key,
    ensures
        index_of(es, key) == if k < es.len() {
            Some(k)
        } else {
            None
        },
    decreases k,
{
    if k > 0 {
        lemma_index_of_exact(es.skip(1), key, k - 1);
    }
}

/// What `index_of` gives is the first entry with the key; it gives none only where no
/// entry has it.
pub proof fn lemma_index_of<V>(es: Seq<(Seq<char>, V)>, key: Seq<char>)
    ensures
        match index_of(es, key) {
            Some(i) => 0 <= i < es.len() && es[i].0 == key && forall|j: int|
                0 <= j < i ==> (#[trigger] es[j]).0 != key,
            None => forall|j: int| 0 <= j < es.len() ==> (#[trigger] es[j]).0 != key,
        },
    decreases es.len(),
{
    if es.len() > 0 && es[0].0 != key {
        lemma_index_of(es.skip(1), key);
        match index_of(es.skip(1), key) {
            Some(i) => {
                assert forall|j: int| 0 <= j < i + 1 implies (#[trigger] es[j]).0 != key by {
                    if j > 0 {
                        assert(es.skip(1)[j - 1] == es[j]);
                    }
                }
            },
            None => {
                assert forall|j: int| 0 <= j < es.len() implies (#[trigger] es[j]).0 != key by {
                    if j > 0 {
                        assert(es.skip(1)[j - 1] == es[j]);
                    }
                }
            },
        }
    }
}

/// A position before which every key precedes the given one, and whose own key does not,
/// is what `rank` gives.
pub proof fn lemma_rank_exact<V>(es: Seq<(Seq<char>, V)>, key: Seq<char>, k: int)
    requires
        0 <= k <= es.len(),
        forall|j: int| 0 <= j < k ==> precedes((#[trigger] es[j]).0, key),
        k < es.len() ==> !precedes(es[k].0, key),
    ensures
        rank(es, key) == k,
    decreases k,
{
    if k > 0 {
        lemma_rank_exact(es.skip(1), key, k - 1);
    }
}

/// `rank` is the length of the longest run of leading entries whose keys precede the key.
pub proof fn lemma_rank<V>(es: Seq<(Seq<char>, V)>, key: Seq<char>)
    ensures
        0 <= rank(es, key) <= es.len(),
        forall|j: int| 0 <= j < rank(es, key) ==> precedes((#[trigger] es[j]).0, key),
        rank(es, key) < es.len() ==> !precedes(es[rank(es, key)].0, key),
    decreases es.len(),
{
    if es.len() > 0 && precedes(es[0].0, key) {
        lemma_rank(es.skip(1), key);
        let r = rank(es.skip(1), key);
        assert forall|j: int| 0 <= j < r + 1 implies precedes((#[trigger] es[j]).0, key) by {
            if j > 0 {
                assert(es.skip(1)[j - 1] == es[j]);
            }
        }
        if r + 1 < es.len() {
            assert(es.skip(1)[r] == es[r + 1]);
        }
    }
}

/// Binding a key keeps the keys ascending.
pub proof fn lemma_put_ascending<V>(es: Seq<(Seq<char>, V)>, key: Seq<char>, value: V)
    requires
        ascending(es),
    ensures
        ascending(put(es, key, value)),
{
    lemma_index_of(es, key);
    lemma_rank(es, key);
    let out = put(es, key, value);
    match index_of(es, key) {
        Some(i) => {
            assert forall|a: int, b: int| 0 <= a < b < out.len() implies precedes(
                #[trigger] out[a].0,
                #[trigger] out[b].0,
            ) by {
                assert(out[a].0 == es[a].0);
                assert(out[b].0 == es[b].0);
            }
        },
        None => {
            let r = rank(es, key);
            assert forall|a: int, b: int| 0 <= a < b < out.len() implies precedes(
                #[trigger] out[a].0,
                #[trigger] out[b].0,
            ) by {
                if b == r {
                    assert(out[a] == es[a]);
                } else if a == r {
                    assert(out[b] == es[b - 1]);
                    assert(es[r].0 != key);
                    lemma_precedes_total(es[r].0, key);
                    if b - 1 > r {
                        assert(precedes(es[r].0, es[b - 1].0));
                        lemma_precedes_transitive(key, es[r].0, es[b - 1].0);
                    }
                } else {
                    let a0 = if a < r {
                        a
                    } else {
                        a - 1
                    };
                    let b0 = if b < r {
                        b
                    } else {
                        b - 1
                    };
                    assert(out[a] == es[a0]);
                    assert(out[b] == es[b0]);
                }
            }
        },
    }
}

/// A key that was bound is found, with what it was bound to.
pub proof fn lemma_put_is_found<V>(es: Seq<(Seq<char>, V)>, key: Seq<char>, value: V)
    ensures
        index_of(put(es, key, value), key) is Some,
        put(es, key, value)[index_of(put(es, key, value), key)->0] == (key, value),
{
    lemma_index_of(es, key);
    lemma_rank(es, key);
    let out = put(es, key, value);
    match index_of(es, key) {
        Some(i) => {
            assert forall|j: int| 0 <= j < i implies (#[trigger] out[j]).0 != key by {
                assert(out[j] == es[j]);
            }
            lemma_index_of_exact(out, key, i);
        },
        None => {
            let r = rank(es, key);
            assert forall|j: int| 0 <= j < r implies (#[trigger] out[j]).0 != key by {
                assert(out[j] == es[j]);
            }
            lemma_index_of_exact(out, key, r);
        },
    }
}

/// Binding a key leaves every other key bound to what it was bound to.
pub proof fn lemma_put_keeps_others<V>(
    es: Seq<(Seq<char>, V)>,
    key: Seq<char>,
    value: V,
    other: Seq<char>,
)
    requires
        other != key,
    ensures
        match index_of(es, other) {
            Some(i) => index_of(put(es, key, value), other) matches Some(j) && put(
                es,
                key,
                value,
            )[j] == es[i],
            None => index_of(put(es, key, value), other) is None,
        },
{
    lemma_index_of(es, key);
    lemma_rank(es, key);
    lemma_index_of(es, other);
    let out = put(es, key, value);
    match index_of(es, key) {
        Some(i) => {
            assert forall|j: int| 0 <= j < out.len() implies (#[trigger] out[j]).0 == es[j].0 by {
                if j != i {
                    assert(out[j] == es[j]);
                }
            }
            match index_of(es, other) {
                Some(k) => {
                    assert(out[k] == es[k]);
                    lemma_index_of_exact(out, other, k);
                },
                None => {
                    lemma_index_of_exact(out, other, out.len() as int);
                },
            }
        },
        None => {
            let r = rank(es, key);
            assert forall|j: int| 0 <= j < out.len() implies (#[trigger] out[j]) == (if j < r {
                es[j]
            } else if j == r {
                (key, value)
            } else {
                es[j - 1]
            }) by {}
            match index_of(es, other) {
                Some(k) => {
                    let at = if k < r {
                        k
                    } else {
                        k + 1
                    };
                    assert forall|j: int| 0 <= j < at implies (#[trigger] out[j]).0 != other by {
                        if j < r {
                            assert(out[j] == es[j]);
                        } else if j > r {
                            assert(out[j] == es[j - 1]);
                        }
                    }
                    assert(out[at] == es[k]);
                    lemma_index_of_exact(out, other, at);
                },
                None => {
                    assert forall|j: int| 0 <= j < out.len() implies (#[trigger] out[j]).0
                        != other by {
                        if j < r {
                            assert(out[j] == es[j]);
                        } else if j > r {
                            assert(out[j] == es[j - 1]);
                        }
                    }
                    lemma_index_of_exact(out, other, out.len() as int);
                },
            }
        },
    }
}

/// Replacing what a key is bound to leaves every key where it is.
pub proof fn lemma_update_keeps_keys<V>(es: Seq<(Seq<char>, V)>, i: int, value: V, key: Seq<char>)
    requires
        0 <= i < es.len(),
    ensures
        index_of(es.update(i, (es[i].0, value)), key) == index_of(es, key),
{
    let out = es.update(i, (es[i].0, value));
    lemma_index_of(es, key);
    match index_of(es, key) {
        Some(k) => {
            assert forall|j: int| 0 <= j < k implies (#[trigger] out[j]).0 != key by {
                assert(out[j].0 == es[j].0);
            }
            assert(out[k].0 == es[k].0);
            lemma_index_of_exact(out, key, k);
        },
        None => {
            assert forall|j: int| 0 <= j < out.len() implies (#[trigger] out[j]).0 != key by {
                assert(out[j].0 == es[j].0);
            }
            lemma_index_of_exact(out, key, out.len() as int);
        },
    }
}

/// Replacing what a key is bound to keeps the keys ascending.
pub proof fn lemma_update_ascending<V>(es: Seq<(Seq<char>, V)>, i: int, value: V)
    requires
        0 <= i < es.len(),
        ascending(es),
    ensures
        ascending(es.update(i, (es[i].0, value))),
{
    let out = es.update(i, (es[i].0, value));
    assert forall|a: int, b: int| 0 <= a < b < out.len() implies precedes(
        #[trigger] out[a].0,
        #[trigger] out[b].0,
    ) by {
        assert(out[a].0 == es[a].0);
        assert(out[b].0 == es[b].0);
    }
}

/// Position of the entry named `key`.
pub fn position<T: View>(entries: &Vec<(String, T)>, key: &String) -> (r: Option<usize>)
    ensures
        match r {
            Some(i) => index_of(keyed(entries@), key@) == Some(i as int) && i < entries.len(),
            None => index_of(keyed(entries@), key@) is None,
        },
{
    let mut i: usize = 0;
    while i < entries.len()
        invariant
            i <= entries.len(),
            forall|j: int| 0 <= j < i ==> (#[trigger] keyed(entries@)[j]).0 != key@,
        decreases entries.len() - i,
    {
        if entries[i].0 == *key {
            proof {
                lemma_index_of_exact(keyed(entries@), key@, i as int);
            }
            return Some(i);
        }
        i += 1;
    }
    proof {
        lemma_index_of_exact(keyed(entries@), key@, i as int);
    }
    None
}

/// Binds `key` to `value`, in place of what was bound to it before.
pub fn insert<T: View>(entries: &mut Vec<(String, T)>, key: String, value: T)
    ensures
        keyed(final(entries)@) == put(keyed(old(entries)@), key@, value@),
{
    let ghost before = entries@;
    match position(entries, &key) {
        Some(i) => {
            entries[i] = (key, value);
            assert(keyed(entries@) =~= put(keyed(before), key@, value@));
        },
        None => {
            let mut r: usize = 0;
            while r < entries.len() && comes_before(entries[r].0.as_str(), key.as_str())
                invariant
                    r <= entries.len(),
                    entries@ == before,
                    forall|j: int| 0 <= j < r ==> precedes((#[trigger] keyed(entries@)[j]).0, key@),
                decreases entries.len() - r,
            {
                r += 1;
            }
            proof {
                lemma_rank_exact(keyed(entries@), key@, r as int);
            }
            entries.insert(r, (key, value));
            assert(keyed(entries@) =~= put(keyed(before), key@, value@));
        },
    }
}

} // verus!
