//! An insertion sort on `(name, value)` pairs, ordered by name the way
//! `str`'s `Ord` orders them.

use vstd::prelude::*;

use crate::text::{chars_lt, chars_of, lemma_seq_lt_asym, lemma_seq_lt_total, lemma_seq_lt_trans, seq_le, seq_lt};

verus! {

broadcast use vstd::seq_lib::group_to_multiset_ensures;

/// Names never decrease along `s`.
pub open spec fn sorted_by_name<V>(s: Seq<(String, V)>) -> bool {
    forall|i: int, j: int| 0 <= i < j < s.len() ==> seq_le(#[trigger] s[i].0@, #[trigger] s[j].0@)
}

/// The pairs named `k`.
pub open spec fn named<V>(k: Seq<char>) -> spec_fn((String, V)) -> bool {
    |e: (String, V)| e.0@ == k
}

/// Inserting `x` at `p` adds it to the filtered sequence at its end when it
/// passes the filter and nothing from `p` on does, and changes nothing when
/// it does not pass.
proof fn lemma_filter_insert<A>(s: Seq<A>, p: int, x: A, f: spec_fn(A) -> bool)
    requires
        0 <= p <= s.len(),
        f(x) ==> forall|i: int| p <= i < s.len() ==> !f(#[trigger] s[i]),
    ensures
        s.insert(p, x).filter(f) == if f(x) {
            s.filter(f).push(x)
        } else {
            s.filter(f)
        },
{
    let a = s.take(p);
    let b = s.skip(p);
    assert(s =~= a + b);
    assert(s.insert(p, x) =~= a.push(x) + b);
    Seq::filter_distributes_over_add(a, b, f);
    Seq::filter_distributes_over_add(a.push(x), b, f);
    a.lemma_filter_push(x, f);
    if f(x) {
        assert(b.all(|y: A| !f(y))) by {
            assert forall|i: int| 0 <= i < b.len() implies !f(#[trigger] b[i]) by {
                assert(b[i] == s[p + i]);
            }
        }
        b.lemma_all_neg_filter_empty(f);
        assert(b.filter(f) =~= Seq::<A>::empty());
        assert(a.filter(f) + b.filter(f) =~= a.filter(f));
        assert(a.filter(f).push(x) + b.filter(f) =~= a.filter(f).push(x));
    } else {
        assert((a.filter(f) + b.filter(f)) =~= a.filter(f) + b.filter(f));
    }
}

/// Sorts pairs by name, stably. The result holds exactly the input's pairs,
/// names in non-decreasing order, and the pairs of each name in their input
/// order.
pub fn sort_by_name<V>(v: Vec<(String, V)>) -> (r: Vec<(String, V)>)
    ensures
        sorted_by_name(r@),
        r@.to_multiset() == v@.to_multiset(),
        forall|k: Seq<char>| #[trigger] r@.filter(named::<V>(k)) == v@.filter(named::<V>(k)),
{
    let mut rest = v;
    let mut out: Vec<(String, V)> = Vec::new();
    let ghost whole = rest@;
    proof {
        assert(whole.skip(0) =~= whole);
    }
    let ghost mut taken: int = 0;
    while rest.len() > 0
        invariant
            sorted_by_name(out@),
            0 <= taken <= whole.len(),
            rest@ == whole.skip(taken),
            out@.to_multiset() == whole.take(taken).to_multiset(),
            forall|k: Seq<char>|
                #[trigger] out@.filter(named::<V>(k)) == whole.take(taken).filter(named::<V>(k)),
        decreases rest.len(),
    {
        let x = rest.remove(0);
        let key = chars_of(x.0.as_str());
        // Insert after every element whose name is not greater than `key`.
        let mut p: usize = 0;
        while p < out.len() && !chars_lt(key.as_slice(), chars_of(out[p].0.as_str()).as_slice())
            invariant
                p <= out@.len(),
                key@ == x.0@,
                sorted_by_name(out@),
                forall|i: int| 0 <= i < p ==> seq_le(#[trigger] out@[i].0@, key@),
            decreases out.len() - p,
        {
            proof {
                lemma_seq_lt_total(key@, out@[p as int].0@);
            }
            p = p + 1;
        }
        let ghost before = out@;
        proof {
            assert forall|i: int| p <= i < before.len() implies (#[trigger] before[i]).0@ != key@ by {
                lemma_seq_lt_asym(key@, key@);
                assert(seq_lt(key@, before[p as int].0@));
                if i > p && before[p as int].0@ != before[i].0@ {
                    lemma_seq_lt_trans(key@, before[p as int].0@, before[i].0@);
                }
            }
        }
        out.insert(p, x);
        proof {
            assert forall|k: Seq<char>| #[trigger] out@.filter(named::<V>(k)) == whole.take(
                taken + 1,
            ).filter(named::<V>(k)) by {
                lemma_filter_insert(before, p as int, x, named::<V>(k));
                whole.take(taken).lemma_filter_push(x, named::<V>(k));
                assert(whole.take(taken + 1) =~= whole.take(taken).push(x));
            }
            assert forall|i: int, j: int| 0 <= i < j < out@.len() implies seq_le(
                #[trigger] out@[i].0@,
                #[trigger] out@[j].0@,
            ) by {
                if j < p {
                } else if j == p {
                    assert(out@[i] == before[i]);
                } else if i < p {
                    assert(out@[i] == before[i]);
                    assert(out@[j] == before[j - 1]);
                    assert(seq_le(before[i].0@, key@));
                    assert(seq_lt(key@, before[p as int].0@));
                    if i < p {
                        assert(seq_le(before[p as int].0@, before[j - 1].0@) || p == j - 1);
                    }
                    if seq_lt(before[i].0@, key@) {
                        lemma_seq_lt_trans(before[i].0@, key@, before[p as int].0@);
                    }
                    if p < j - 1 && seq_lt(before[p as int].0@, before[j - 1].0@) {
                        lemma_seq_lt_trans(before[i].0@, before[p as int].0@, before[j - 1].0@);
                    }
                } else if i == p {
                    assert(out@[j] == before[j - 1]);
                    assert(seq_lt(key@, before[p as int].0@));
                    if p < j - 1 && seq_lt(before[p as int].0@, before[j - 1].0@) {
                        lemma_seq_lt_trans(key@, before[p as int].0@, before[j - 1].0@);
                    }
                } else {
                    assert(out@[i] == before[i - 1]);
                    assert(out@[j] == before[j - 1]);
                }
            }
            vstd::seq_lib::to_multiset_insert(before, p as int, x);
            assert(whole.take(taken + 1) =~= whole.take(taken).push(x));
            assert(rest@ =~= whole.skip(taken + 1));
            taken = taken + 1;
        }
    }
    proof {
        assert(whole.take(taken) =~= whole);
    }
    out
}

/// Mapping preserves multiset equality: two sequences with the same
/// elements still have the same elements after the same map.
pub proof fn lemma_map_multiset<A, B>(s1: Seq<A>, s2: Seq<A>, f: spec_fn(A) -> B)
    requires
        s1.to_multiset() == s2.to_multiset(),
    ensures
        s1.map_values(f).to_multiset() == s2.map_values(f).to_multiset(),
    decreases s1.len(),
{
    if s1.len() == 0 {
        assert(s2.len() == s2.to_multiset().len());
        assert(s1.map_values(f) =~= Seq::<B>::empty());
        assert(s2.map_values(f) =~= Seq::<B>::empty());
    } else {
        let x = s1.last();
        let s1p = s1.drop_last();
        assert(s1 =~= s1p.push(x));
        assert(s1.contains(x)) by {
            assert(s1[s1.len() - 1] == x);
        }
        assert(s1.to_multiset().count(x) > 0);
        assert(s2.contains(x));
        let i = choose|i: int| 0 <= i < s2.len() && s2[i] == x;
        let s2p = s2.remove(i);
        assert(s2p.to_multiset() =~= s2.to_multiset().remove(x));
        assert(s1.to_multiset() =~= s1p.to_multiset().insert(x));
        assert(s1p.to_multiset() =~= s1.to_multiset().remove(x));
        lemma_map_multiset(s1p, s2p, f);
        assert(s1.map_values(f) =~= s1p.map_values(f).push(f(x)));
        assert(s2.map_values(f).remove(i) =~= s2p.map_values(f));
        assert(s2.map_values(f)[i] == f(x));
        assert(s2.map_values(f).remove(i).to_multiset() =~= s2.map_values(f).to_multiset().remove(
            f(x),
        ));
        assert(s2.map_values(f).contains(f(x)));
        assert(s2.map_values(f).to_multiset().count(f(x)) > 0);
        assert(s2.map_values(f).to_multiset() =~= s2p.map_values(f).to_multiset().insert(f(x)));
        assert(s1.map_values(f).to_multiset() =~= s1p.map_values(f).to_multiset().insert(f(x)));
    }
}

} // verus!
