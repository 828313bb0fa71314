//! Small verified helpers over strings viewed as sequences of characters.

use vstd::prelude::*;

verus! {

/// `s` begins with `p`.
pub open spec fn has_prefix(s: Seq<char>, p: Seq<char>) -> bool {
    p.len() <= s.len() && s.subrange(0, p.len() as int) == p
}

/// `s` ends with `p`.
pub open spec fn has_suffix(s: Seq<char>, p: Seq<char>) -> bool {
    p.len() <= s.len() && s.subrange(s.len() - p.len(), s.len() as int) == p
}

/// The texts of a sequence of strings.
pub open spec fn texts(v: Seq<String>) -> Seq<Seq<char>> {
    v.map_values(|s: String| s@)
}

/// The characters of `s`, one by one, as a vector.
pub fn chars_of(s: &str) -> (v: Vec<char>)
    ensures
        v@ == s@,
{
    broadcast use vstd::string::group_string_axioms;

    let mut v: Vec<char> = Vec::new();
    for c in it: s.chars()
        invariant
            it.seq() == s@,
            v@ == it.seq().subrange(0, it.index() as int),
    {
        v.push(c);
        proof {
            assert(v@ =~= it.seq().subrange(0, it.index() + 1));
        }
    }
    proof {
        assert(s@.subrange(0, s@.len() as int) =~= s@);
    }
    v
}

/// Adds a copy of each of `items` at the end of `out`.
pub fn append_strings(out: &mut Vec<String>, items: &Vec<String>)
    ensures
        texts(final(out)@) == texts(old(out)@) + texts(items@),
{
    let ghost before = texts(out@);
    let ghost added = texts(items@);
    let mut i: usize = 0;
    proof {
        assert(texts(out@) =~= before + added.subrange(0, 0));
    }
    while i < items.len()
        invariant
            i <= items@.len(),
            added == texts(items@),
            texts(out@) == before + added.subrange(0, i as int),
        decreases items@.len() - i,
    {
        let ghost prev = texts(out@);
        out.push(items[i].clone());
        proof {
            assert(texts(out@) =~= prev.push(added[i as int]));
            assert(texts(out@) =~= before + added.subrange(0, i + 1));
        }
        i = i + 1;
    }
    proof {
        assert(added.subrange(0, i as int) =~= added);
    }
}

/// Whether the window `v[start..end]` begins with `pat`.
pub fn window_has_prefix(v: &Vec<char>, start: usize, end: usize, pat: &Vec<char>) -> (b: bool)
    requires
        start <= end <= v@.len(),
    ensures
        b == has_prefix(v@.subrange(start as int, end as int), pat@),
{
    let m: usize = pat.len();
    if m > end - start {
        return false;
    }
    let ghost w = v@.subrange(start as int, end as int);
    let mut k: usize = 0;
    while k < m
        invariant
            start <= end <= v@.len(),
            m == pat@.len(),
            m <= end - start,
            k <= m,
            w == v@.subrange(start as int, end as int),
            forall|j: int| 0 <= j < k ==> w[j] == pat@[j],
        decreases m - k,
    {
        if v[start + k] != pat[k] {
            proof {
                assert(w.subrange(0, m as int)[k as int] == w[k as int]);
            }
            return false;
        }
        k = k + 1;
    }
    proof {
        assert(w.subrange(0, m as int) =~= pat@);
    }
    true
}

/// Whether the window `v[start..end]` ends with `pat`.
pub fn window_has_suffix(v: &Vec<char>, start: usize, end: usize, pat: &Vec<char>) -> (b: bool)
    requires
        start <= end <= v@.len(),
    ensures
        b == has_suffix(v@.subrange(start as int, end as int), pat@),
{
    let m: usize = pat.len();
    if m > end - start {
        return false;
    }
    let base: usize = end - m;
    let ghost w = v@.subrange(start as int, end as int);
    let mut k: usize = 0;
    while k < m
        invariant
            start <= end <= v@.len(),
            m == pat@.len(),
            m <= end - start,
            base == end - m,
            k <= m,
            w == v@.subrange(start as int, end as int),
            forall|j: int| 0 <= j < k ==> w[w.len() - m + j] == pat@[j],
        decreases m - k,
    {
        if v[base + k] != pat[k] {
            proof {
                assert(w.subrange(w.len() - m, w.len() as int)[k as int] == w[w.len() - m + k]);
            }
            return false;
        }
        k = k + 1;
    }
    proof {
        assert(w.subrange(w.len() - m, w.len() as int) =~= pat@);
    }
    true
}

} // verus!
