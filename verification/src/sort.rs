//! Sorting strings in the order of `str`'s `Ord`: lexicographic by
//! character (the same as by UTF-8 byte).

use vstd::prelude::*;

use crate::text::chars_of;

verus! {

broadcast use vstd::seq_lib::group_to_multiset_ensures;

/// `a` comes before `b` or equals it, comparing character by character;
/// a proper prefix comes first.
pub open spec fn str_le(a: Seq<char>, b: Seq<char>) -> bool
    decreases a.len(),
{
    if a.len() == 0 {
        true
    } else if b.len() == 0 {
        false
    } else if a[0] != b[0] {
        a[0] < b[0]
    } else {
        str_le(a.drop_first(), b.drop_first())
    }
}

/// Each string is at most the next one.
pub open spec fn sorted(s: Seq<Seq<char>>) -> bool {
    forall|i: int| 0 <= i < s.len() - 1 ==> #[trigger] str_le(s[i], s[i + 1])
}

pub proof fn lemma_str_le_total(a: Seq<char>, b: Seq<char>)
    ensures
        str_le(a, b) || str_le(b, a),
    decreases a.len(),
{
    if a.len() > 0 && b.len() > 0 && a[0] == b[0] {
        lemma_str_le_total(a.drop_first(), b.drop_first());
    }
}

pub proof fn lemma_str_le_trans(a: Seq<char>, b: Seq<char>, c: Seq<char>)
    requires
        str_le(a, b),
        str_le(b, c),
    ensures
        str_le(a, c),
    decreases a.len(),
{
    if a.len() > 0 && b.len() > 0 && c.len() > 0 && a[0] == b[0] && b[0] == c[0] {
        lemma_str_le_trans(a.drop_first(), b.drop_first(), c.drop_first());
    }
}

pub proof fn lemma_str_le_antisym(a: Seq<char>, b: Seq<char>)
    requires
        str_le(a, b),
        str_le(b, a),
    ensures
        a == b,
    decreases a.len(),
{
    if a.len() > 0 && b.len() > 0 {
        lemma_str_le_antisym(a.drop_first(), b.drop_first());
        assert(a =~= seq![a[0]] + a.drop_first());
        assert(b =~= seq![b[0]] + b.drop_first());
    } else {
        assert(a =~= b);
    }
}

/// In a sorted sequence each string is at most every later one.
pub proof fn lemma_sorted_le(s: Seq<Seq<char>>, i: int, j: int)
    requires
        sorted(s),
        0 <= i <= j < s.len(),
    ensures
        str_le(s[i], s[j]),
    decreases j - i,
{
    if i == j {
        lemma_str_le_total(s[i], s[i]);
    } else {
        lemma_sorted_le(s, i, j - 1);
        let p = j - 1;
        assert(str_le(s[p], s[p + 1]));
        lemma_str_le_trans(s[i], s[j - 1], s[j]);
    }
}

/// A sequence has only one sorted arrangement.
pub proof fn lemma_sorted_unique(s: Seq<Seq<char>>, t: Seq<Seq<char>>)
    requires
        sorted(s),
        sorted(t),
        s.to_multiset() == t.to_multiset(),
    ensures
        s == t,
    decreases s.len(),
{
    broadcast use vstd::seq_lib::group_to_multiset_ensures;

    assert(s.len() == t.len()) by {
        vstd::seq_lib::to_multiset_len(s);
        vstd::seq_lib::to_multiset_len(t);
    }
    if s.len() > 0 {
        assert(t.to_multiset().count(s[0]) > 0);
        let j = choose|j: int| 0 <= j < t.len() && t[j] == s[0];
        lemma_sorted_le(t, 0, j);
        assert(s.to_multiset().count(t[0]) > 0);
        let i = choose|i: int| 0 <= i < s.len() && s[i] == t[0];
        lemma_sorted_le(s, 0, i);
        lemma_str_le_antisym(s[0], t[0]);
        vstd::seq_lib::to_multiset_remove(s, 0);
        vstd::seq_lib::to_multiset_remove(t, 0);
        assert(s.remove(0) =~= s.drop_first());
        assert(t.remove(0) =~= t.drop_first());
        let s1 = s.drop_first();
        let t1 = t.drop_first();
        assert(sorted(s1)) by {
            assert forall|k: int| 0 <= k < s1.len() - 1 implies #[trigger] str_le(s1[k], s1[k + 1]) by {
                let q = k + 1;
                assert(str_le(s[q], s[q + 1]));
            }
        }
        assert(sorted(t1)) by {
            assert forall|k: int| 0 <= k < t1.len() - 1 implies #[trigger] str_le(t1[k], t1[k + 1]) by {
                let q = k + 1;
                assert(str_le(t[q], t[q + 1]));
            }
        }
        lemma_sorted_unique(s1, t1);
        assert(s =~= seq![s[0]] + s1);
        assert(t =~= seq![t[0]] + t1);
    } else {
        assert(s =~= t);
    }
}

/// The sorted arrangement of `s`.
pub open spec fn sort_spec(s: Seq<Seq<char>>) -> Seq<Seq<char>> {
    choose|t: Seq<Seq<char>>| sorted(t) && t.to_multiset() == s.to_multiset()
}

/// Every sequence of strings has a sorted arrangement, so `sort_spec`
/// is sorted and holds the same strings as its argument.
pub proof fn lemma_sort_spec(s: Seq<Seq<char>>)
    ensures
        sorted(sort_spec(s)),
        sort_spec(s).to_multiset() == s.to_multiset(),
{
    let leq = |a: Seq<char>, b: Seq<char>| str_le(a, b);
    assert(vstd::relations::total_ordering(leq)) by {
        assert forall|x: Seq<char>| #[trigger] leq(x, x) by {
            lemma_str_le_total(x, x);
        }
        assert forall|x: Seq<char>, y: Seq<char>| #[trigger] leq(x, y) && #[trigger] leq(y, x) implies x
            == y by {
            lemma_str_le_antisym(x, y);
        }
        assert forall|x: Seq<char>, y: Seq<char>, z: Seq<char>| #[trigger] leq(x, y) && #[trigger] leq(
            y,
            z,
        ) implies leq(x, z) by {
            lemma_str_le_trans(x, y, z);
        }
        assert forall|x: Seq<char>, y: Seq<char>| #[trigger] leq(x, y) || #[trigger] leq(y, x) by {
            lemma_str_le_total(x, y);
        }
    }
    s.lemma_sort_by_ensures(leq);
    let t = s.sort_by(leq);
    assert(sorted(t)) by {
        assert forall|i: int| 0 <= i < t.len() - 1 implies #[trigger] str_le(t[i], t[i + 1]) by {
            assert(leq(t[i], t[i + 1]));
        }
    }
    assert(sorted(t) && t.to_multiset() == s.to_multiset());
}

/// Every string of `s` appears in `sort_spec(s)` and the other way round.
pub proof fn lemma_sort_spec_contains(s: Seq<Seq<char>>, x: Seq<char>)
    ensures
        sort_spec(s).contains(x) <==> s.contains(x),
{
    lemma_sort_spec(s);
    vstd::seq_lib::to_multiset_contains(s, x);
    vstd::seq_lib::to_multiset_contains(sort_spec(s), x);
    s.to_multiset_ensures();
    sort_spec(s).to_multiset_ensures();
}

/// Whether `a` is at most `b` in string order.
pub fn string_le(a: &String, b: &String) -> (r: bool)
    ensures
        r == str_le(a@, b@),
{
    let ac = chars_of(a.as_str());
    let bc = chars_of(b.as_str());
    let mut i: usize = 0;
    assert(a@.skip(0) =~= a@);
    assert(b@.skip(0) =~= b@);
    while i < ac.len() && i < bc.len() && ac[i] == bc[i]
        invariant
            i <= ac@.len(),
            i <= bc@.len(),
            ac@ == a@,
            bc@ == b@,
            str_le(a@, b@) == str_le(a@.skip(i as int), b@.skip(i as int)),
        decreases ac@.len() - i,
    {
        assert(a@.skip(i as int).drop_first() =~= a@.skip(i + 1));
        assert(b@.skip(i as int).drop_first() =~= b@.skip(i + 1));
        i = i + 1;
    }
    if i == ac.len() {
        assert(a@.skip(i as int).len() == 0);
        true
    } else if i == bc.len() {
        false
    } else {
        assert(a@.skip(i as int)[0] == ac@[i as int]);
        assert(b@.skip(i as int)[0] == bc@[i as int]);
        ac[i] < bc[i]
    }
}

/// Sorts `v` in string order.
pub fn sort_strings(v: &mut Vec<String>)
    ensures
        sorted(final(v).deep_view()),
        final(v).deep_view().to_multiset() == old(v).deep_view().to_multiset(),
        final(v).deep_view() == sort_spec(old(v).deep_view()),
        final(v)@.len() == old(v)@.len(),
{
    let mut rest: Vec<String> = Vec::new();
    std::mem::swap(&mut rest, v);
    let ghost orig = rest.deep_view();
    let ghost total = rest@.len();
    assert(total == rest.len());
    assert(v.deep_view() =~= Seq::<Seq<char>>::empty());
    assert(orig.skip(0) =~= orig);
    let mut k: usize = 0;
    while rest.len() > 0
        invariant
            total == orig.len(),
            k + rest@.len() == total,
            total <= usize::MAX,
            rest.deep_view() == orig.skip(k as int),
            v@.len() == k,
            sorted(v.deep_view()),
            v.deep_view().to_multiset() == orig.take(k as int).to_multiset(),
        decreases rest@.len(),
    {
        let ghost old_rest = rest.deep_view();
        let x = rest.remove(0);
        assert(rest.deep_view() =~= old_rest.drop_first());
        assert(orig.skip(k + 1) =~= orig.skip(k as int).drop_first());
        let ghost xv = x@;
        assert(xv == orig[k as int]) by {
            assert(orig.skip(k as int)[0] == orig[k as int]);
        }
        assert(rest.deep_view() =~= orig.skip(k + 1));
        let mut j = v.len();
        while j > 0 && !string_le(&v[j - 1], &x)
            invariant
                j <= v@.len(),
                xv == x@,
                forall|m: int| j <= m < v@.len() ==> !str_le(#[trigger] v@[m]@, xv),
            decreases j,
        {
            j = j - 1;
        }
        let ghost before = v.deep_view();
        proof {
            if j < v@.len() {
                lemma_str_le_total(v@[j as int]@, xv);
            }
        }
        v.insert(j, x);
        proof {
            assert(v.deep_view() =~= before.insert(j as int, xv));
            vstd::seq_lib::to_multiset_insert(before, j as int, xv);
            assert(orig.take(k + 1) =~= orig.take(k as int).push(xv));
            vstd::seq_lib::to_multiset_build(orig.take(k as int), xv);
            let s = v.deep_view();
            assert forall|i: int| 0 <= i < s.len() - 1 implies #[trigger] str_le(s[i], s[i + 1]) by {
                if i < j - 1 {
                    assert(s[i] == before[i] && s[i + 1] == before[i + 1]);
                    assert(str_le(before[i], before[i + 1]));
                } else if i == j - 1 {
                    assert(s[i] == before[i] && s[i + 1] == xv);
                } else if i == j {
                    assert(s[i] == xv && s[i + 1] == before[i]);
                } else {
                    assert(s[i] == before[i - 1] && s[i + 1] == before[i]);
                    let p = i - 1;
                    assert(str_le(before[p], before[p + 1]));
                }
            }
        }
        k = k + 1;
    }
    assert(orig.take(k as int) =~= orig);
    proof {
        let t = sort_spec(orig);
        lemma_sorted_unique(v.deep_view(), t);
    }
}

} // verus!
