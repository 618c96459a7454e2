//! Lists of entries with keys, and lists that are filtered: what the stores
//! that keep their entries in order rely on.

use vstd::prelude::*;

verus! {

/// No key stands twice among `entries`.
pub open spec fn distinct_keys<K, V>(entries: Seq<(K, V)>) -> bool {
    forall|i: int, j: int|
        0 <= i < entries.len() && 0 <= j < entries.len() && i != j ==> entries[i].0
            != entries[j].0
}

/// Whether an entry of `entries` has the key `key`.
pub open spec fn has_key<K, V>(entries: Seq<(K, V)>, key: K) -> bool {
    exists|i: int| 0 <= i < entries.len() && entries[i].0 == key
}

/// Appending an entry with a new key keeps the keys distinct.
pub proof fn lemma_push_distinct<K, V>(entries: Seq<(K, V)>, entry: (K, V))
    requires
        distinct_keys(entries),
        !has_key(entries, entry.0),
    ensures
        distinct_keys(entries.push(entry)),
{
    let after = entries.push(entry);
    assert forall|i: int, j: int|
        0 <= i < after.len() && 0 <= j < after.len() && i != j implies after[i].0
        != after[j].0 by {
        if i < entries.len() && j < entries.len() {
        } else if i < entries.len() {
            assert(entries[i].0 != entry.0);
        } else {
            assert(entries[j].0 != entry.0);
        }
    }
}

/// Filtering entries keeps their keys distinct.
pub proof fn lemma_filter_distinct<K, V>(entries: Seq<(K, V)>, pred: spec_fn((K, V)) -> bool)
    requires
        distinct_keys(entries),
    ensures
        distinct_keys(entries.filter(pred)),
    decreases entries.len(),
{
    reveal(Seq::filter);
    if entries.len() > 0 {
        let rest = entries.drop_last();
        let last = entries.last();
        assert(distinct_keys(rest));
        lemma_filter_distinct(rest, pred);
        if pred(last) {
            let kept = rest.filter(pred);
            assert forall|i: int| 0 <= i < kept.len() implies kept[i].0 != last.0 by {
                assert(kept.contains(kept[i]));
                rest.lemma_filter_contains_rev(pred, kept[i]);
                let j = choose|j: int| 0 <= j < rest.len() && rest[j] == kept[i];
                assert(entries[j].0 != entries[entries.len() - 1].0);
            }
        }
    }
}

/// An entry of the filtered list is an entry of the list, and it meets
/// the predicate.
pub proof fn lemma_filter_member<T>(s: Seq<T>, pred: spec_fn(T) -> bool, x: T)
    ensures
        s.filter(pred).contains(x) <==> (s.contains(x) && pred(x)),
    decreases s.len(),
{
    reveal(Seq::filter);
    if s.len() > 0 {
        let rest = s.drop_last();
        let last = s.last();
        lemma_filter_member(rest, pred, x);
        let kept = rest.filter(pred);
        if s.contains(x) {
            let j = choose|j: int| 0 <= j < s.len() && s[j] == x;
            if j < rest.len() {
                assert(rest[j] == x);
            }
        }
        if rest.contains(x) {
            let j = choose|j: int| 0 <= j < rest.len() && rest[j] == x;
            assert(s[j] == x);
        }
        if last == x {
            assert(s[s.len() - 1] == x);
        }
        if pred(last) {
            let out = kept.push(last);
            if out.contains(x) {
                let j = choose|j: int| 0 <= j < out.len() && out[j] == x;
                if j < kept.len() {
                    assert(kept[j] == x);
                }
            }
            if kept.contains(x) {
                let j = choose|j: int| 0 <= j < kept.len() && kept[j] == x;
                assert(out[j] == x);
            }
            if last == x {
                assert(out[kept.len() as int] == x);
            }
        }
    }
}

/// Filtering a list without duplicates leaves none.
pub proof fn lemma_filter_no_duplicates<T>(s: Seq<T>, pred: spec_fn(T) -> bool)
    requires
        s.no_duplicates(),
    ensures
        s.filter(pred).no_duplicates(),
    decreases s.len(),
{
    reveal(Seq::filter);
    if s.len() > 0 {
        let rest = s.drop_last();
        let last = s.last();
        lemma_filter_no_duplicates(rest, pred);
        if pred(last) {
            lemma_filter_member(rest, pred, last);
            if rest.contains(last) {
                let j = choose|j: int| 0 <= j < rest.len() && rest[j] == last;
                assert(s[j] == s[s.len() - 1]);
            }
        }
    }
}

/// What a sequence contains after one more item was appended, and that an
/// item which was not there before leaves it free of duplicates.
pub proof fn lemma_pushed_contains<T>(s: Seq<T>, item: T, x: T)
    ensures
        s.push(item).contains(x) <==> (s.contains(x) || x == item),
        s.no_duplicates() && !s.contains(item) ==> s.push(item).no_duplicates(),
{
    let after = s.push(item);
    if after.contains(x) {
        let j = choose|j: int| 0 <= j < after.len() && after[j] == x;
        if j < s.len() {
            assert(s[j] == x);
        }
    }
    if s.contains(x) {
        let j = choose|j: int| 0 <= j < s.len() && s[j] == x;
        assert(after[j] == x);
    }
    if x == item {
        assert(after[s.len() as int] == x);
    }
}

} // verus!
