//! Association lists: sequences of named values, searched from the front.

use vstd::prelude::*;
use crate::text::{lex_lt, lemma_lex_irreflexive, lemma_lex_transitive};

verus! {

/// The value of the first pair named `key`.
pub open spec fn find<V>(pairs: Seq<(Seq<char>, V)>, key: Seq<char>) -> Option<V>
    decreases pairs.len(),
{
    if pairs.len() == 0 {
        None
    } else if pairs[0].0 == key {
        Some(pairs[0].1)
    } else {
        find(pairs.drop_first(), key)
    }
}

/// Whether some pair is named `key`.
pub open spec fn has_key<V>(pairs: Seq<(Seq<char>, V)>, key: Seq<char>) -> bool {
    exists|i: int| 0 <= i < pairs.len() && (#[trigger] pairs[i]).0 == key
}

/// Whether the names are in strictly increasing lexicographic order.
pub open spec fn strictly_sorted<V>(pairs: Seq<(Seq<char>, V)>) -> bool {
    forall|i: int, j: int|
        0 <= i < j < pairs.len() ==> lex_lt((#[trigger] pairs[i]).0, (#[trigger] pairs[j]).0)
}

/// Whether no two pairs have the same name.
pub open spec fn distinct_keys<V>(pairs: Seq<(Seq<char>, V)>) -> bool {
    forall|i: int, j: int|
        0 <= i < j < pairs.len() ==> (#[trigger] pairs[i]).0 != (#[trigger] pairs[j]).0
}

/// Pairs that the search passes over leave its result as it is.
pub proof fn lemma_find_skip<V>(pairs: Seq<(Seq<char>, V)>, key: Seq<char>, k: int)
    requires
        0 <= k <= pairs.len(),
        forall|i: int| 0 <= i < k ==> (#[trigger] pairs[i]).0 != key,
    ensures
        find(pairs, key) == find(pairs.skip(k), key),
    decreases k,
{
    if k > 0 {
        assert(pairs.drop_first().skip(k - 1) == pairs.skip(k));
        assert forall|i: int| 0 <= i < k - 1 implies (#[trigger] pairs.drop_first()[i]).0
            != key by {
            assert(pairs.drop_first()[i] == pairs[i + 1]);
        }
        lemma_find_skip(pairs.drop_first(), key, k - 1);
    } else {
        assert(pairs.skip(0) == pairs);
    }
}

/// The search finds the first pair of the name.
pub proof fn lemma_find_at<V>(pairs: Seq<(Seq<char>, V)>, key: Seq<char>, k: int)
    requires
        0 <= k < pairs.len(),
        pairs[k].0 == key,
        forall|i: int| 0 <= i < k ==> (#[trigger] pairs[i]).0 != key,
    ensures
        find(pairs, key) == Some(pairs[k].1),
{
    lemma_find_skip(pairs, key, k);
    assert(pairs.skip(k)[0] == pairs[k]);
}

/// The search finds nothing where no pair has the name.
pub proof fn lemma_find_none<V>(pairs: Seq<(Seq<char>, V)>, key: Seq<char>)
    requires
        !has_key(pairs, key),
    ensures
        find(pairs, key) is None,
{
    assert forall|i: int| 0 <= i < pairs.len() implies (#[trigger] pairs[i]).0 != key by {}
    lemma_find_skip(pairs, key, pairs.len() as int);
    assert(pairs.skip(pairs.len() as int).len() == 0);
}

/// What the search finds is the value of the first pair of the name, at
/// the index that this proof returns.
pub proof fn lemma_find_index<V>(pairs: Seq<(Seq<char>, V)>, key: Seq<char>) -> (k: int)
    requires
        find(pairs, key) is Some,
    ensures
        0 <= k < pairs.len(),
        pairs[k].0 == key,
        forall|i: int| 0 <= i < k ==> (#[trigger] pairs[i]).0 != key,
        find(pairs, key) == Some(pairs[k].1),
    decreases pairs.len(),
{
    if pairs[0].0 == key {
        0
    } else {
        let k = lemma_find_index(pairs.drop_first(), key);
        assert(pairs.drop_first()[k] == pairs[k + 1]);
        assert forall|i: int| 0 <= i < k + 1 implies (#[trigger] pairs[i]).0 != key by {
            if i > 0 {
                assert(pairs.drop_first()[i - 1] == pairs[i]);
            }
        }
        k + 1
    }
}

/// The search succeeds exactly where some pair has the name.
pub proof fn lemma_find_has_key<V>(pairs: Seq<(Seq<char>, V)>, key: Seq<char>)
    ensures
        find(pairs, key) is Some <==> has_key(pairs, key),
{
    if find(pairs, key) is Some {
        let k = lemma_find_index(pairs, key);
        assert(pairs[k].0 == key);
    } else if has_key(pairs, key) {
        let k = choose|i: int| 0 <= i < pairs.len() && (#[trigger] pairs[i]).0 == key;
        let first = first_index(pairs, key, k);
        lemma_find_at(pairs, key, first);
    }
}

/// The least index of a pair named `key`, given one index `k` of such a pair.
pub proof fn first_index<V>(pairs: Seq<(Seq<char>, V)>, key: Seq<char>, k: int) -> (first: int)
    requires
        0 <= k < pairs.len(),
        pairs[k].0 == key,
    ensures
        0 <= first <= k,
        pairs[first].0 == key,
        forall|i: int| 0 <= i < first ==> (#[trigger] pairs[i]).0 != key,
    decreases k,
{
    if exists|i: int| 0 <= i < k && (#[trigger] pairs[i]).0 == key {
        let j = choose|i: int| 0 <= i < k && (#[trigger] pairs[i]).0 == key;
        first_index(pairs, key, j)
    } else {
        k
    }
}

/// A pair added at the end is found only where no earlier pair has its
/// name.
pub proof fn lemma_find_push<V>(pairs: Seq<(Seq<char>, V)>, pair: (Seq<char>, V), key: Seq<char>)
    ensures
        find(pairs.push(pair), key) == (match find(pairs, key) {
            Some(v) => Some(v),
            None => if pair.0 == key {
                Some(pair.1)
            } else {
                None
            },
        }),
    decreases pairs.len(),
{
    let all = pairs.push(pair);
    if pairs.len() == 0 {
        assert(all[0] == pair);
        assert(all.drop_first().len() == 0);
        assert(find(all.drop_first(), key) is None);
    } else {
        assert(all[0] == pairs[0]);
        assert(all.drop_first() =~= pairs.drop_first().push(pair));
        if pairs[0].0 != key {
            lemma_find_push(pairs.drop_first(), pair, key);
        }
    }
}

/// Names in strictly increasing order are distinct.
pub proof fn lemma_sorted_distinct<V>(pairs: Seq<(Seq<char>, V)>)
    requires
        strictly_sorted(pairs),
    ensures
        distinct_keys(pairs),
{
    assert forall|i: int, j: int| 0 <= i < j < pairs.len() implies (#[trigger] pairs[i]).0 != (
    #[trigger] pairs[j]).0 by {
        lemma_lex_irreflexive(pairs[i].0);
    }
}

/// Putting a pair between the names below it and the names above it keeps
/// the order.
pub proof fn lemma_sorted_insert<V>(pairs: Seq<(Seq<char>, V)>, k: int, pair: (Seq<char>, V))
    requires
        strictly_sorted(pairs),
        0 <= k <= pairs.len(),
        forall|i: int| 0 <= i < k ==> lex_lt((#[trigger] pairs[i]).0, pair.0),
        k < pairs.len() ==> lex_lt(pair.0, pairs[k].0),
    ensures
        strictly_sorted(pairs.insert(k, pair)),
{
    let out = pairs.insert(k, pair);
    assert forall|i: int, j: int| 0 <= i < j < out.len() implies lex_lt(
        (#[trigger] out[i]).0,
        (#[trigger] out[j]).0,
    ) by {
        if j < k {
            assert(out[i] == pairs[i] && out[j] == pairs[j]);
        } else if j == k {
            assert(out[i] == pairs[i]);
        } else if i < k {
            assert(out[i] == pairs[i] && out[j] == pairs[j - 1]);
            if i < j - 1 {
            } else {
            }
            if k < j - 1 {
                lemma_lex_transitive(pairs[i].0, pair.0, pairs[k].0);
                lemma_lex_transitive(pairs[i].0, pairs[k].0, pairs[j - 1].0);
            } else {
                lemma_lex_transitive(pairs[i].0, pair.0, pairs[k].0);
            }
        } else if i == k {
            assert(out[j] == pairs[j - 1]);
            if k < j - 1 {
                lemma_lex_transitive(pair.0, pairs[k].0, pairs[j - 1].0);
            }
        } else {
            assert(out[i] == pairs[i - 1] && out[j] == pairs[j - 1]);
        }
    }
}

} // verus!
