//! Removing repeated items from a sequence while keeping the first of each.

use vstd::prelude::*;
use crate::text::texts;

verus! {

/// Whether some item of `s` has the key `k`.
pub open spec fn has_key<A, K>(s: Seq<A>, key: spec_fn(A) -> K, k: K) -> bool {
    exists|j: int| 0 <= j < s.len() && #[trigger] key(s[j]) == k
}

/// The items of `s` whose key no earlier item of `s` has, in the order of `s`.
pub open spec fn first_by_key<A, K>(s: Seq<A>, key: spec_fn(A) -> K) -> Seq<A>
    decreases s.len(),
{
    if s.len() == 0 {
        Seq::empty()
    } else {
        let kept = first_by_key(s.drop_last(), key);
        if has_key(s.drop_last(), key, key(s.last())) {
            kept
        } else {
            kept.push(s.last())
        }
    }
}

/// The strings of `s` that no earlier string of `s` equals, in the order of
/// `s`.
pub open spec fn first_occurrences(s: Seq<Seq<char>>) -> Seq<Seq<char>> {
    first_by_key(s, whole_string())
}

/// The key under which a string is compared as a whole.
pub open spec fn whole_string() -> spec_fn(Seq<char>) -> Seq<char> {
    |x: Seq<char>| x
}

/// Whether no two items of `s` have the same key.
pub open spec fn keys_distinct<A, K>(s: Seq<A>, key: spec_fn(A) -> K) -> bool {
    forall|i: int, j: int| 0 <= i < j < s.len() ==> key(#[trigger] s[i]) != key(#[trigger] s[j])
}

/// What adding one item at the end of `s` does to the items kept.
pub proof fn first_by_key_push<A, K>(s: Seq<A>, key: spec_fn(A) -> K, x: A)
    ensures
        first_by_key(s.push(x), key) == if has_key(s, key, key(x)) {
            first_by_key(s, key)
        } else {
            first_by_key(s, key).push(x)
        },
{
    assert(s.push(x).drop_last() =~= s);
}

/// The items kept carry the same keys as the sequence they come from.
pub proof fn first_by_key_same_keys<A, K>(s: Seq<A>, key: spec_fn(A) -> K, k: K)
    ensures
        has_key(first_by_key(s, key), key, k) <==> has_key(s, key, k),
    decreases s.len(),
{
    if s.len() > 0 {
        let front = s.drop_last();
        let kept = first_by_key(front, key);
        let out = first_by_key(s, key);
        first_by_key_same_keys(front, key, k);
        first_by_key_same_keys(front, key, key(s.last()));
        if has_key(out, key, k) {
            let j = choose|j: int| 0 <= j < out.len() && #[trigger] key(out[j]) == k;
            if j < kept.len() {
                assert(key(kept[j]) == k);
                let i = choose|i: int| 0 <= i < front.len() && #[trigger] key(front[i]) == k;
                assert(key(s[i]) == k);
            } else {
                assert(key(s[s.len() - 1]) == k);
            }
        }
        if has_key(s, key, k) {
            let i = choose|i: int| 0 <= i < s.len() && #[trigger] key(s[i]) == k;
            if i < front.len() {
                assert(key(front[i]) == k);
                let j = choose|j: int| 0 <= j < kept.len() && #[trigger] key(kept[j]) == k;
                assert(key(out[j]) == k);
            } else if has_key(front, key, key(s.last())) {
                let j = choose|j: int| 0 <= j < kept.len() && #[trigger] key(kept[j]) == k;
                assert(key(out[j]) == k);
            } else {
                assert(key(out[out.len() - 1]) == k);
            }
        }
    }
}

/// No two of the items kept have the same key.
pub proof fn first_by_key_distinct<A, K>(s: Seq<A>, key: spec_fn(A) -> K)
    ensures
        keys_distinct(first_by_key(s, key), key),
    decreases s.len(),
{
    if s.len() > 0 {
        let front = s.drop_last();
        let kept = first_by_key(front, key);
        let out = first_by_key(s, key);
        first_by_key_distinct(front, key);
        first_by_key_same_keys(front, key, key(s.last()));
        assert forall|i: int, j: int| 0 <= i < j < out.len() implies key(#[trigger] out[i]) != key(
            #[trigger] out[j],
        ) by {
            if j < kept.len() {
                assert(out[i] == kept[i] && out[j] == kept[j]);
            } else {
                assert(out[i] == kept[i]);
                if key(kept[i]) == key(s.last()) {
                    assert(has_key(kept, key, key(s.last())));
                }
            }
        }
    }
}

/// Each item kept is the first item of `s` with its key: the result is the
/// place in `s` of the `j`-th item kept, and nothing before that place has
/// its key.
pub proof fn first_by_key_is_first<A, K>(s: Seq<A>, key: spec_fn(A) -> K, j: int) -> (i: int)
    requires
        0 <= j < first_by_key(s, key).len(),
    ensures
        0 <= i < s.len(),
        s[i] == first_by_key(s, key)[j],
        forall|h: int| 0 <= h < i ==> key(#[trigger] s[h]) != key(s[i]),
        j <= i,
    decreases s.len(),
{
    let front = s.drop_last();
    let kept = first_by_key(front, key);
    if j < kept.len() {
        let i = first_by_key_is_first(front, key, j);
        assert(forall|h: int| 0 <= h < i ==> front[h] == s[h]);
        i
    } else {
        let i = s.len() - 1;
        first_by_key_length(front, key);
        assert forall|h: int| 0 <= h < i implies key(#[trigger] s[h]) != key(s[i]) by {
            if key(s[h]) == key(s[i]) {
                assert(key(front[h]) == key(s.last()));
            }
        }
        i
    }
}

/// No more items are kept than there were.
pub proof fn first_by_key_length<A, K>(s: Seq<A>, key: spec_fn(A) -> K)
    ensures
        first_by_key(s, key).len() <= s.len(),
    decreases s.len(),
{
    if s.len() > 0 {
        first_by_key_length(s.drop_last(), key);
    }
}

/// Under the key of whole strings, to have a key is to contain the string.
pub proof fn has_whole_string(s: Seq<Seq<char>>, k: Seq<char>)
    ensures
        has_key(s, whole_string(), k) <==> s.contains(k),
{
    if has_key(s, whole_string(), k) {
        let j = choose|j: int| 0 <= j < s.len() && #[trigger] whole_string()(s[j]) == k;
        assert(s[j] == k);
    }
    if s.contains(k) {
        let j = choose|j: int| 0 <= j < s.len() && s[j] == k;
        assert(whole_string()(s[j]) == k);
    }
}

/// Whether one of `items` equals `s`.
pub fn contains_string(items: &Vec<String>, s: &String) -> (b: bool)
    ensures
        b == has_key(texts(items@), whole_string(), s@),
{
    let ghost t = texts(items@);
    let mut i: usize = 0;
    while i < items.len()
        invariant
            i <= items@.len(),
            t == texts(items@),
            forall|j: int| 0 <= j < i ==> t[j] != s@,
        decreases items@.len() - i,
    {
        if items[i] == *s {
            proof {
                assert(whole_string()(t[i as int]) == s@);
            }
            return true;
        }
        i = i + 1;
    }
    false
}

/// The strings of `items` without repeats: of equal strings the first stays.
pub fn unique_strings(items: &Vec<String>) -> (out: Vec<String>)
    ensures
        texts(out@) == first_occurrences(texts(items@)),
{
    let ghost t = texts(items@);
    let mut out: Vec<String> = Vec::new();
    let mut i: usize = 0;
    proof {
        assert(t.subrange(0, 0) =~= Seq::<Seq<char>>::empty());
        assert(texts(out@) =~= Seq::<Seq<char>>::empty());
    }
    while i < items.len()
        invariant
            i <= items@.len(),
            t == texts(items@),
            texts(out@) == first_occurrences(t.subrange(0, i as int)),
        decreases items@.len() - i,
    {
        let ghost seen = t.subrange(0, i as int);
        let ghost kept = texts(out@);
        proof {
            first_by_key_push(seen, whole_string(), t[i as int]);
            first_by_key_same_keys(seen, whole_string(), t[i as int]);
            assert(seen.push(t[i as int]) =~= t.subrange(0, i + 1));
        }
        if !contains_string(&out, &items[i]) {
            out.push(items[i].clone());
            proof {
                assert(texts(out@) =~= kept.push(t[i as int]));
            }
        }
        i = i + 1;
    }
    proof {
        assert(t.subrange(0, i as int) =~= t);
    }
    out
}

} // verus!
