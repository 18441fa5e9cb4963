//! The identifiers of an ordered map, handed out as a rising list.

use std::collections::BTreeMap;
use vstd::prelude::*;
use vstd::std_specs::btree::increasing_seq;
use vstd::std_specs::cmp::OrdSpec;
use vstd::std_specs::iter::IteratorSpec;

verus! {

/// Whether each element of `s` is smaller than every later one.
pub open spec fn rising(s: Seq<usize>) -> bool {
    forall|i: int, j: int| 0 <= i < j < s.len() ==> s[i] < s[j]
}

/// Whether the list `s` holds just the elements of `of`.
pub open spec fn lists(s: Seq<usize>, of: Set<usize>) -> bool {
    forall|k: usize| s.contains(k) <==> of.contains(k)
}

/// The elements of a finite set, smallest first.
pub open spec fn ascending(of: Set<usize>) -> Seq<usize> {
    choose|s: Seq<usize>| rising(s) && lists(s, of)
}

/// Two rising lists of the same elements are one list.
pub proof fn lemma_rising_unique(s: Seq<usize>, t: Seq<usize>, of: Set<usize>)
    requires
        rising(s),
        rising(t),
        lists(s, of),
        lists(t, of),
    ensures
        s == t,
    decreases s.len(),
{
    if s.len() == 0 {
        if t.len() > 0 {
            assert(t.contains(t[0]));
        }
        assert(s =~= t);
    } else {
        let top = s.last();
        assert(s.contains(top));
        assert(t.contains(top));
        let j = choose|j: int| 0 <= j < t.len() && t[j] == top;
        if j < t.len() - 1 {
            assert(t.contains(t.last()));
            let i = choose|i: int| 0 <= i < s.len() && s[i] == t.last();
            assert(s[i] <= top);
        }
        let rest = of.remove(top);
        assert forall|k: usize| s.drop_last().contains(k) <==> rest.contains(k) by {
            if s.drop_last().contains(k) {
                let i = choose|i: int| 0 <= i < s.drop_last().len() && s.drop_last()[i] == k;
                assert(s[i] == k);
                assert(s.contains(k));
            }
            if rest.contains(k) {
                assert(s.contains(k));
                let i = choose|i: int| 0 <= i < s.len() && s[i] == k;
                assert(s.drop_last()[i] == k);
            }
        }
        assert forall|k: usize| t.drop_last().contains(k) <==> rest.contains(k) by {
            if t.drop_last().contains(k) {
                let i = choose|i: int| 0 <= i < t.drop_last().len() && t.drop_last()[i] == k;
                assert(t[i] == k);
                assert(t.contains(k));
            }
            if rest.contains(k) {
                assert(t.contains(k));
                let i = choose|i: int| 0 <= i < t.len() && t[i] == k;
                assert(t.drop_last()[i] == k);
            }
        }
        lemma_rising_unique(s.drop_last(), t.drop_last(), rest);
        assert(s =~= s.drop_last().push(top));
        assert(t =~= t.drop_last().push(top));
    }
}

/// A rising list of the elements of a set is the set's ascending list.
pub proof fn lemma_rising_is_ascending(s: Seq<usize>, of: Set<usize>)
    requires
        rising(s),
        lists(s, of),
    ensures
        s == ascending(of),
{
    lemma_rising_unique(s, ascending(of), of);
}

/// The ascending list of a finite set is rising and holds just the elements
/// of the set.
pub proof fn lemma_ascending_lists(of: Set<usize>)
    requires
        of.finite(),
    ensures
        rising(ascending(of)),
        lists(ascending(of), of),
    decreases of.len(),
{
    if of.len() == 0 {
        let none = Seq::<usize>::empty();
        assert forall|k: usize| none.contains(k) <==> of.contains(k) by {
            if of.contains(k) {
                vstd::set::axiom_set_remove_len(of, k);
            }
        }
        assert(rising(none) && lists(none, of));
    } else {
        let least = |a: usize, b: usize| a <= b;
        assert(vstd::relations::total_ordering(least));
        of.find_unique_maximal_ensures(least);
        let top = of.find_unique_maximal(least);
        assert(of.contains(top));
        let rest = of.remove(top);
        vstd::set::axiom_set_remove_len(of, top);
        lemma_ascending_lists(rest);
        let below = ascending(rest);
        let s = below.push(top);
        lemma_push_fresh(below, top);
        assert forall|i: int, j: int| 0 <= i < j < s.len() implies s[i] < s[j] by {
            if j == s.len() - 1 {
                assert(below.contains(s[i]));
                assert(of.contains(s[i]) && s[i] != top);
                assert(least(s[i], top) || !least(top, s[i]));
            } else {
                assert(below[i] < below[j]);
            }
        }
        assert(rising(s) && lists(s, of));
    }
}

/// A list with one more element at its end holds what it held and that
/// element. If it had no element twice and not the new one, it has none
/// twice now.
pub proof fn lemma_push_fresh(s: Seq<usize>, x: usize)
    ensures
        forall|k: usize| s.push(x).contains(k) <==> s.contains(k) || k == x,
        s.no_duplicates() && !s.contains(x) ==> s.push(x).no_duplicates(),
{
    let t = s.push(x);
    assert forall|k: usize| t.contains(k) implies s.contains(k) || k == x by {
        let j = choose|j: int| 0 <= j < t.len() && t[j] == k;
        if j < s.len() {
            assert(s[j] == k);
        }
    }
    assert forall|k: usize| s.contains(k) || k == x implies t.contains(k) by {
        if s.contains(k) {
            let j = choose|j: int| 0 <= j < s.len() && s[j] == k;
            assert(t[j] == k);
        } else {
            assert(t[s.len() as int] == k);
        }
    }
    if s.no_duplicates() && !s.contains(x) {
        assert forall|a: int, b: int| 0 <= a < b < t.len() implies t[a] != t[b] by {
            if b == s.len() {
                assert(s[a] == t[a]);
                assert(s.contains(t[a]));
            } else {
                assert(s[a] != s[b]);
            }
        }
    }
}

/// A list made of two holds what either holds.
pub proof fn lemma_joined_contains(s: Seq<usize>, t: Seq<usize>)
    ensures
        forall|k: usize| (s + t).contains(k) <==> s.contains(k) || t.contains(k),
{
    let st = s + t;
    assert forall|k: usize| st.contains(k) implies s.contains(k) || t.contains(k) by {
        let j = choose|j: int| 0 <= j < st.len() && st[j] == k;
        if j < s.len() {
            assert(s[j] == k);
        } else {
            assert(t[j - s.len()] == k);
        }
    }
    assert forall|k: usize| s.contains(k) || t.contains(k) implies st.contains(k) by {
        if s.contains(k) {
            let j = choose|j: int| 0 <= j < s.len() && s[j] == k;
            assert(st[j] == k);
        } else {
            let j = choose|j: int| 0 <= j < t.len() && t[j] == k;
            assert(st[s.len() + j] == k);
        }
    }
}

/// The first `i + 1` elements of a list hold what the first `i` hold, and the
/// element at `i`. In a rising list that element is not among the first `i`.
pub proof fn lemma_take_next(s: Seq<usize>, i: int)
    requires
        0 <= i < s.len(),
    ensures
        forall|k: usize| s.take(i + 1).contains(k) <==> s.take(i).contains(k) || k == s[i],
        rising(s) ==> !s.take(i).contains(s[i]),
        s.contains(s[i]),
{
    let shorter = s.take(i);
    let longer = s.take(i + 1);
    assert forall|k: usize| longer.contains(k) implies shorter.contains(k) || k == s[i] by {
        let j = choose|j: int| 0 <= j < longer.len() && longer[j] == k;
        if j < i {
            assert(shorter[j] == k);
        }
    }
    assert forall|k: usize| shorter.contains(k) || k == s[i] implies longer.contains(k) by {
        if shorter.contains(k) {
            let j = choose|j: int| 0 <= j < shorter.len() && shorter[j] == k;
            assert(longer[j] == k);
        } else {
            assert(longer[i] == k);
        }
    }
    if rising(s) && shorter.contains(s[i]) {
        let j = choose|j: int| 0 <= j < shorter.len() && shorter[j] == s[i];
        assert(s[j] < s[i]);
    }
    assert(s[i] == s[i]);
}

/// The keys of `m`, smallest first.
pub(crate) fn sorted_keys<V>(m: &BTreeMap<usize, V>) -> (keys: Vec<usize>)
    ensures
        keys@ == ascending(m@.dom()),
        rising(keys@),
        forall|k: usize| keys@.contains(k) <==> m@.contains_key(k),
        keys@.len() == m@.dom().len(),
{
    let mut keys: Vec<usize> = Vec::new();
    for kv in it: m.iter()
        invariant
            keys@.len() == it.index(),
            it.seq() == m.iter().remaining(),
            increasing_seq(it.seq().map_values(|kv: (&usize, &V)| *kv.0)),
            forall|i: int| 0 <= i < keys@.len() ==> keys@[i] == *it.seq()[i].0,
    {
        keys.push(*kv.0);
    }
    proof {
        let pairs = m.iter().remaining();
        let firsts = pairs.map_values(|kv: (&usize, &V)| *kv.0);
        assert(keys@ =~= firsts);
        assert(increasing_seq(firsts));
        assert(rising(keys@)) by {
            broadcast use vstd::laws_cmp::group_laws_cmp;
            vstd::std_specs::btree::axiom_increasing_seq_meaning(firsts);
            assert forall|i: int, j: int| 0 <= i < j < firsts.len() implies firsts[i] < firsts[j] by {
                assert(firsts[i].cmp_spec(&firsts[j]) is Less);
            }
        }
        assert forall|k: usize| m@.contains_key(k) implies keys@.contains(k) by {
            assert(pairs.contains((&k, &m@[k])));
            let i = choose|i: int| 0 <= i < pairs.len() && pairs[i] == (&k, &m@[k]);
            assert(keys@[i] == k);
        }
        assert forall|k: usize| keys@.contains(k) implies m@.contains_key(k) by {
            let i = choose|i: int| 0 <= i < keys@.len() && keys@[i] == k;
            assert(m@.contains_key(*pairs[i].0));
        }
        lemma_rising_is_ascending(keys@, m@.dom());
    }
    keys
}

} // verus!
