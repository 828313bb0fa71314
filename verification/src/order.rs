//! The lexicographic order of strings, and sorting by it.

use vstd::prelude::*;
use crate::text::{chars_of, texts};

verus! {

/// Whether `a` comes before `b` in lexicographic order: at the first place
/// where they differ `a` has the smaller character, or `a` ends there and
/// `b` goes on.
pub open spec fn lex_lt(a: Seq<char>, b: Seq<char>) -> bool
    decreases a.len(),
{
    if b.len() == 0 {
        false
    } else if a.len() == 0 {
        true
    } else if a[0] != b[0] {
        a[0] < b[0]
    } else {
        lex_lt(a.drop_first(), b.drop_first())
    }
}

/// Whether no string of `s` comes before an earlier one.
pub open spec fn is_sorted(s: Seq<Seq<char>>) -> bool {
    forall|i: int, j: int| 0 <= i < j < s.len() ==> !lex_lt(#[trigger] s[j], #[trigger] s[i])
}

/// Whether each string of `s` comes before every later one.
pub open spec fn is_strictly_sorted(s: Seq<Seq<char>>) -> bool {
    forall|i: int, j: int| 0 <= i < j < s.len() ==> lex_lt(#[trigger] s[i], #[trigger] s[j])
}

/// No string comes before itself.
pub proof fn lex_lt_irreflexive(a: Seq<char>)
    ensures
        !lex_lt(a, a),
    decreases a.len(),
{
    if a.len() > 0 {
        lex_lt_irreflexive(a.drop_first());
    }
}

/// What comes before a string comes before all that the string comes before.
pub proof fn lex_lt_transitive(a: Seq<char>, b: Seq<char>, c: Seq<char>)
    requires
        lex_lt(a, b),
        lex_lt(b, c),
    ensures
        lex_lt(a, c),
    decreases a.len(),
{
    if a.len() > 0 && b.len() > 0 && c.len() > 0 && a[0] == b[0] && b[0] == c[0] {
        lex_lt_transitive(a.drop_first(), b.drop_first(), c.drop_first());
    }
}

/// Of two different strings one comes before the other.
pub proof fn lex_lt_total(a: Seq<char>, b: Seq<char>)
    requires
        a != b,
    ensures
        lex_lt(a, b) || lex_lt(b, a),
    decreases a.len(),
{
    if a.len() > 0 && b.len() > 0 && a[0] == b[0] {
        if a.drop_first() == b.drop_first() {
            assert(a =~= seq![a[0]] + a.drop_first());
            assert(b =~= seq![b[0]] + b.drop_first());
        }
        lex_lt_total(a.drop_first(), b.drop_first());
    } else if a.len() == 0 && b.len() == 0 {
        assert(a =~= b);
    }
}

/// A common beginning does not change the order of two strings.
pub proof fn lex_lt_common_prefix(p: Seq<char>, a: Seq<char>, b: Seq<char>)
    ensures
        lex_lt(p + a, p + b) == lex_lt(a, b),
    decreases p.len(),
{
    if p.len() == 0 {
        assert(p + a =~= a);
        assert(p + b =~= b);
    } else {
        assert((p + a).drop_first() =~= p.drop_first() + a);
        assert((p + b).drop_first() =~= p.drop_first() + b);
        lex_lt_common_prefix(p.drop_first(), a, b);
    }
}

/// Whether `a` comes before `b` in lexicographic order.
pub fn chars_less(a: &Vec<char>, b: &Vec<char>) -> (less: bool)
    ensures
        less == lex_lt(a@, b@),
{
    let n: usize = a.len();
    let m: usize = b.len();
    let mut i: usize = 0;
    proof {
        assert(a@.subrange(0, n as int) =~= a@);
        assert(b@.subrange(0, m as int) =~= b@);
    }
    while i < n && i < m
        invariant
            n == a@.len(),
            m == b@.len(),
            i <= n,
            i <= m,
            lex_lt(a@, b@) == lex_lt(a@.subrange(i as int, n as int), b@.subrange(i as int, m as int)),
        decreases n - i,
    {
        let ghost ra = a@.subrange(i as int, n as int);
        let ghost rb = b@.subrange(i as int, m as int);
        proof {
            assert(ra[0] == a@[i as int]);
            assert(rb[0] == b@[i as int]);
            assert(ra.drop_first() =~= a@.subrange(i + 1, n as int));
            assert(rb.drop_first() =~= b@.subrange(i + 1, m as int));
        }
        if a[i] != b[i] {
            return a[i] < b[i];
        }
        i = i + 1;
    }
    i < m
}

/// Whether `a` comes before `b` in lexicographic order.
pub fn text_less(a: &str, b: &str) -> (less: bool)
    ensures
        less == lex_lt(a@, b@),
{
    let ca = chars_of(a);
    let cb = chars_of(b);
    chars_less(&ca, &cb)
}

/// Putting `x` into a sorted sequence, behind all that do not come after it
/// and before one that does, leaves the sequence sorted.
pub proof fn insert_keeps_sorted(s: Seq<Seq<char>>, p: int, x: Seq<char>)
    requires
        is_sorted(s),
        0 <= p <= s.len(),
        forall|k: int| 0 <= k < p ==> !lex_lt(x, #[trigger] s[k]),
        p < s.len() ==> lex_lt(x, s[p]),
    ensures
        is_sorted(s.insert(p, x)),
{
    let t = s.insert(p, x);
    assert forall|i: int, j: int| 0 <= i < j < t.len() implies !lex_lt(
        #[trigger] t[j],
        #[trigger] t[i],
    ) by {
        if j == p {
            assert(t[i] == s[i]);
        } else if i == p {
            assert(t[j] == s[j - 1]);
            if lex_lt(s[j - 1], x) {
                lex_lt_transitive(s[j - 1], x, s[p]);
                if j - 1 == p {
                    lex_lt_irreflexive(s[p]);
                } else {
                    assert(!lex_lt(s[j - 1], s[p]));
                }
            }
        } else {
            let oi = if i < p {
                i
            } else {
                i - 1
            };
            let oj = if j < p {
                j
            } else {
                j - 1
            };
            assert(t[i] == s[oi] && t[j] == s[oj]);
            assert(!lex_lt(s[oj], s[oi]));
        }
    }
}

/// Putting `x` into a sequence adds `x` to what the sequence holds.
pub proof fn insert_adds_one(s: Seq<Seq<char>>, p: int, x: Seq<char>)
    requires
        0 <= p <= s.len(),
    ensures
        s.insert(p, x).to_multiset() == s.to_multiset().insert(x),
{
    let t = s.insert(p, x);
    assert(t.remove(p) =~= s);
    assert(t[p] == x);
    vstd::seq_lib::to_multiset_remove(t, p);
    t.to_multiset_ensures();
    assert(t.contains(x));
    assert(t.to_multiset() =~= s.to_multiset().insert(x));
}

/// Two sorted sequences that hold the same strings, each as often, are the
/// same sequence: sorting has one result.
pub proof fn sorted_is_unique(a: Seq<Seq<char>>, b: Seq<Seq<char>>)
    requires
        is_sorted(a),
        is_sorted(b),
        a.to_multiset() == b.to_multiset(),
    ensures
        a == b,
    decreases a.len(),
{
    a.to_multiset_ensures();
    b.to_multiset_ensures();
    assert(a.len() == b.len());
    if a.len() == 0 {
        assert(a =~= b);
    } else {
        assert(a.contains(a[0]));
        assert(b.contains(b[0]));
        assert(b.to_multiset().count(a[0]) > 0);
        assert(a.to_multiset().count(b[0]) > 0);
        assert(b.contains(a[0]));
        assert(a.contains(b[0]));
        let i = choose|i: int| 0 <= i < a.len() && a[i] == b[0];
        let j = choose|j: int| 0 <= j < b.len() && b[j] == a[0];
        if i > 0 {
            assert(!lex_lt(a[i], a[0]));
        } else {
            lex_lt_irreflexive(a[0]);
        }
        if j > 0 {
            assert(!lex_lt(b[j], b[0]));
        } else {
            lex_lt_irreflexive(b[0]);
        }
        if a[0] != b[0] {
            lex_lt_total(a[0], b[0]);
        }
        assert(a[0] == b[0]);
        vstd::seq_lib::to_multiset_remove(a, 0);
        vstd::seq_lib::to_multiset_remove(b, 0);
        assert(a.remove(0) =~= a.drop_first());
        assert(b.remove(0) =~= b.drop_first());
        assert(is_sorted(a.drop_first())) by {
            assert forall|x: int, y: int| 0 <= x < y < a.drop_first().len() implies !lex_lt(
                #[trigger] a.drop_first()[y],
                #[trigger] a.drop_first()[x],
            ) by {
                assert(!lex_lt(a[y + 1], a[x + 1]));
            }
        }
        assert(is_sorted(b.drop_first())) by {
            assert forall|x: int, y: int| 0 <= x < y < b.drop_first().len() implies !lex_lt(
                #[trigger] b.drop_first()[y],
                #[trigger] b.drop_first()[x],
            ) by {
                assert(!lex_lt(b[y + 1], b[x + 1]));
            }
        }
        sorted_is_unique(a.drop_first(), b.drop_first());
        assert(a =~= seq![a[0]] + a.drop_first());
        assert(b =~= seq![b[0]] + b.drop_first());
    }
}

/// A sorted sequence in which no string stands twice ascends strictly.
pub proof fn sorted_distinct_is_strict(s: Seq<Seq<char>>)
    requires
        is_sorted(s),
        s.no_duplicates(),
    ensures
        is_strictly_sorted(s),
{
    assert forall|i: int, j: int| 0 <= i < j < s.len() implies lex_lt(
        #[trigger] s[i],
        #[trigger] s[j],
    ) by {
        assert(!lex_lt(s[j], s[i]));
        lex_lt_total(s[i], s[j]);
    }
}

/// The strings of `items` in lexicographic order: the result is sorted and
/// holds each string as often as `items` does.
pub fn sort_strings(items: &Vec<String>) -> (out: Vec<String>)
    ensures
        is_sorted(texts(out@)),
        texts(out@).to_multiset() == texts(items@).to_multiset(),
{
    let ghost all = texts(items@);
    let mut out: Vec<String> = Vec::new();
    let mut keys: Vec<Vec<char>> = Vec::new();
    let mut i: usize = 0;
    proof {
        assert(texts(out@) =~= all.subrange(0, 0));
    }
    while i < items.len()
        invariant
            i <= items@.len(),
            all == texts(items@),
            keys@.len() == out@.len(),
            forall|k: int| 0 <= k < keys@.len() ==> (#[trigger] keys@[k])@ == out@[k]@,
            is_sorted(texts(out@)),
            texts(out@).to_multiset() == all.subrange(0, i as int).to_multiset(),
        decreases items@.len() - i,
    {
        let key = chars_of(items[i].as_str());
        let mut p: usize = 0;
        while p < keys.len() && !chars_less(&key, &keys[p])
            invariant
                p <= keys@.len(),
                forall|k: int| 0 <= k < p ==> !lex_lt(key@, (#[trigger] keys@[k])@),
            decreases keys@.len() - p,
        {
            p = p + 1;
        }
        let ghost before = texts(out@);
        let ghost old_keys = keys@;
        proof {
            assert forall|k: int| 0 <= k < p implies !lex_lt(key@, #[trigger] before[k]) by {
                assert(keys@[k]@ == out@[k]@);
            }
            if p < keys@.len() {
                assert(keys@[p as int]@ == before[p as int]);
            }
            insert_keeps_sorted(before, p as int, key@);
            insert_adds_one(before, p as int, key@);
            vstd::seq_lib::to_multiset_build(all.subrange(0, i as int), all[i as int]);
            assert(all.subrange(0, i as int).push(all[i as int]) =~= all.subrange(0, i + 1));
        }
        out.insert(p, items[i].clone());
        keys.insert(p, key);
        proof {
            assert(texts(out@) =~= before.insert(p as int, key@));
            assert forall|k: int| 0 <= k < keys@.len() implies (#[trigger] keys@[k])@
                == out@[k]@ by {
                if k < p {
                    assert(keys@[k] == old_keys[k]);
                } else if k > p {
                    assert(keys@[k] == old_keys[k - 1]);
                }
            }
        }
        i = i + 1;
    }
    proof {
        assert(all.subrange(0, i as int) =~= all);
    }
    out
}

} // verus!
