//! The order of `String`s (that of `BTreeSet<String>`), and sorted lists of distinct names.
use vstd::prelude::*;

use crate::text::to_chars;

use crate::text::views;

verus! {

/// `a < b` in the order of `str`: by code point, a proper prefix first.
pub open spec fn lex_lt(a: Seq<char>, b: Seq<char>) -> bool
    decreases a.len(),
{
    if a.len() == 0 {
        b.len() > 0
    } else if b.len() == 0 {
        false
    } else if a[0] != b[0] {
        a[0] < b[0]
    } else {
        lex_lt(a.drop_first(), b.drop_first())
    }
}

/// Each name comes before the next one.
pub open spec fn strictly_sorted(l: Seq<Seq<char>>) -> bool {
    forall|i: int, j: int| 0 <= i < j < l.len() ==> lex_lt(#[trigger] l[i], #[trigger] l[j])
}

/// The names of `s` in increasing order.
pub open spec fn sorted_list(s: Set<Seq<char>>) -> Seq<Seq<char>> {
    choose|l: Seq<Seq<char>>| strictly_sorted(l) && l.to_set() == s
}

pub proof fn lemma_lex_irreflexive(a: Seq<char>)
    ensures
        !lex_lt(a, a),
    decreases a.len(),
{
    if a.len() > 0 {
        lemma_lex_irreflexive(a.drop_first());
    }
}

pub proof fn lemma_lex_transitive(a: Seq<char>, b: Seq<char>, c: Seq<char>)
    requires
        lex_lt(a, b),
        lex_lt(b, c),
    ensures
        lex_lt(a, c),
    decreases a.len(),
{
    if a.len() > 0 && b.len() > 0 && c.len() > 0 {
        if a[0] == b[0] && b[0] == c[0] {
            lemma_lex_transitive(a.drop_first(), b.drop_first(), c.drop_first());
        }
    }
}

pub proof fn lemma_lex_total(a: Seq<char>, b: Seq<char>)
    requires
        a != b,
    ensures
        lex_lt(a, b) || lex_lt(b, a),
    decreases a.len(),
{
    if a.len() > 0 && b.len() > 0 && a[0] == b[0] {
        if a.drop_first() == b.drop_first() {
            assert(a =~= seq![a[0]] + a.drop_first());
            assert(b =~= seq![b[0]] + b.drop_first());
        }
        lemma_lex_total(a.drop_first(), b.drop_first());
    } else if a.len() == 0 && b.len() == 0 {
        assert(a =~= b);
    }
}

proof fn lemma_sorted_tail(l: Seq<Seq<char>>)
    requires
        strictly_sorted(l),
        l.len() > 0,
    ensures
        strictly_sorted(l.drop_first()),
        l.drop_first().to_set() == l.to_set().remove(l[0]),
{
    assert forall|i: int, j: int| 0 <= i < j < l.drop_first().len() implies lex_lt(
        #[trigger] l.drop_first()[i],
        #[trigger] l.drop_first()[j],
    ) by {
        assert(l.drop_first()[i] == l[i + 1]);
        assert(l.drop_first()[j] == l[j + 1]);
    }
    assert forall|x: Seq<char>| l.drop_first().to_set().contains(x) <==> l.to_set().remove(
        l[0],
    ).contains(x) by {
        if l.drop_first().to_set().contains(x) {
            let k = choose|k: int| 0 <= k < l.drop_first().len() && l.drop_first()[k] == x;
            assert(l[k + 1] == x);
            assert(lex_lt(l[0], l[k + 1]));
            lemma_lex_irreflexive(x);
            assert(l.contains(x));
        }
        if l.to_set().remove(l[0]).contains(x) {
            let k = choose|k: int| 0 <= k < l.len() && l[k] == x;
            assert(k != 0);
            assert(l.drop_first()[k - 1] == x);
        }
    }
    assert(l.drop_first().to_set() =~= l.to_set().remove(l[0]));
}

/// A set has one sorted list of its elements.
pub proof fn lemma_sorted_unique(l1: Seq<Seq<char>>, l2: Seq<Seq<char>>)
    requires
        strictly_sorted(l1),
        strictly_sorted(l2),
        l1.to_set() == l2.to_set(),
    ensures
        l1 == l2,
    decreases l1.len(),
{
    if l1.len() == 0 {
        if l2.len() > 0 {
            assert(l2.to_set().contains(l2[0]));
            assert(!l1.to_set().contains(l2[0]));
        }
        assert(l1 =~= l2);
    } else {
        if l2.len() == 0 {
            assert(l1.to_set().contains(l1[0]));
            assert(!l2.to_set().contains(l1[0]));
        }
        assert(l1.to_set().contains(l1[0]));
        assert(l2.to_set().contains(l2[0]));
        let k = choose|k: int| 0 <= k < l2.len() && l2[k] == l1[0];
        let k2 = choose|k2: int| 0 <= k2 < l1.len() && l1[k2] == l2[0];
        if l1[0] != l2[0] {
            assert(k != 0);
            assert(k2 != 0);
            assert(lex_lt(l2[0], l2[k]));
            assert(lex_lt(l1[0], l1[k2]));
            lemma_lex_transitive(l1[0], l2[0], l1[0]);
            lemma_lex_irreflexive(l1[0]);
        }
        lemma_sorted_tail(l1);
        lemma_sorted_tail(l2);
        lemma_sorted_unique(l1.drop_first(), l2.drop_first());
        assert(l1 =~= seq![l1[0]] + l1.drop_first());
        assert(l2 =~= seq![l2[0]] + l2.drop_first());
    }
}

/// A strictly sorted list of the elements of `s` is `sorted_list(s)`.
pub proof fn lemma_sorted_list(l: Seq<Seq<char>>, s: Set<Seq<char>>)
    requires
        strictly_sorted(l),
        l.to_set() == s,
    ensures
        sorted_list(s) == l,
{
    let m = sorted_list(s);
    assert(strictly_sorted(m) && m.to_set() == s);
    lemma_sorted_unique(l, m);
}

pub proof fn lemma_to_set_push<A>(s: Seq<A>, x: A)
    ensures
        s.push(x).to_set() == s.to_set().insert(x),
{
    assert forall|y: A| s.push(x).to_set().contains(y) <==> s.to_set().insert(x).contains(y) by {
        if s.push(x).contains(y) {
            let j = choose|j: int| 0 <= j < s.push(x).len() && #[trigger] s.push(x)[j] == y;
            if j < s.len() {
                assert(s[j] == y);
            }
        }
        if s.contains(y) {
            let j = choose|j: int| 0 <= j < s.len() && #[trigger] s[j] == y;
            assert(s.push(x)[j] == y);
        }
        if y == x {
            assert(s.push(x)[s.len() as int] == y);
        }
    }
    assert(s.push(x).to_set() =~= s.to_set().insert(x));
}

pub proof fn lemma_to_set_empty<A>(s: Seq<A>)
    requires
        s.len() == 0,
    ensures
        s.to_set() == Set::<A>::empty(),
{
    assert(s.to_set() =~= Set::<A>::empty());
}

/// `a < b` in the order of `str`.
pub fn lex_less(a: &str, b: &str) -> (r: bool)
    ensures
        r == lex_lt(a@, b@),
{
    let va = to_chars(a);
    let vb = to_chars(b);
    let mut i: usize = 0;
    assert(va@.skip(0) =~= va@);
    assert(vb@.skip(0) =~= vb@);
    while i < va.len() && i < vb.len() && va[i] == vb[i]
        invariant
            0 <= i <= va@.len(),
            i <= vb@.len(),
            lex_lt(a@, b@) == lex_lt(va@.skip(i as int), vb@.skip(i as int)),
            va@ == a@,
            vb@ == b@,
        decreases va@.len() - i,
    {
        assert(va@.skip(i as int).drop_first() =~= va@.skip(i + 1));
        assert(vb@.skip(i as int).drop_first() =~= vb@.skip(i + 1));
        i = i + 1;
    }
    if i == va.len() {
        i < vb.len()
    } else if i == vb.len() {
        false
    } else {
        va[i] < vb[i]
    }
}

/// Adds `name` to the sorted list `list` unless it is there already.
pub fn insert_sorted(list: &mut Vec<String>, name: String)
    requires
        strictly_sorted(views(old(list)@)),
    ensures
        strictly_sorted(views(final(list)@)),
        views(final(list)@).to_set() == views(old(list)@).to_set().insert(name@),
{
    let ghost before = views(list@);
    let mut p: usize = 0;
    while p < list.len() && lex_less(list[p].as_str(), name.as_str())
        invariant
            0 <= p <= list@.len(),
            list@ == old(list)@,
            before == views(list@),
            forall|j: int| 0 <= j < p ==> lex_lt(#[trigger] before[j], name@),
        decreases list@.len() - p,
    {
        p = p + 1;
    }
    if p < list.len() && crate::text::str_eq(list[p].as_str(), name.as_str()) {
        assert(before[p as int] == name@);
        assert(before.to_set().insert(name@) =~= before.to_set());
        return ;
    }
    proof {
        if p < before.len() {
            assert(!lex_lt(before[p as int], name@));
            assert(before[p as int] != name@);
            lemma_lex_total(before[p as int], name@);
        }
    }
    let ghost nv = name@;
    list.insert(p, name);
    let ghost after = views(list@);
    assert(after =~= before.insert(p as int, nv));
    assert forall|i: int, j: int| 0 <= i < j < after.len() implies lex_lt(
        #[trigger] after[i],
        #[trigger] after[j],
    ) by {
        if j < p {
        } else if j == p {
        } else if i < p {
            assert(after[j] == before[j - 1]);
            if j - 1 > p {
                assert(lex_lt(before[p as int], before[j - 1]));
                lemma_lex_transitive(nv, before[p as int], before[j - 1]);
            }
            lemma_lex_transitive(before[i], nv, before[j - 1]);
        } else if i == p {
            assert(after[j] == before[j - 1]);
            if j - 1 > p {
                assert(lex_lt(before[p as int], before[j - 1]));
                lemma_lex_transitive(nv, before[p as int], before[j - 1]);
            }
        } else {
            assert(after[i] == before[i - 1]);
            assert(after[j] == before[j - 1]);
        }
    }
    assert forall|x: Seq<char>| after.to_set().contains(x) <==> before.to_set().insert(
        nv,
    ).contains(x) by {
        if after.to_set().contains(x) {
            let k = choose|k: int| 0 <= k < after.len() && after[k] == x;
            if k < p {
                assert(before[k] == x);
            } else if k > p {
                assert(before[k - 1] == x);
            }
        }
        if before.to_set().contains(x) {
            let k = choose|k: int| 0 <= k < before.len() && before[k] == x;
            if k < p {
                assert(after[k] == x);
            } else {
                assert(after[k + 1] == x);
            }
        }
        if x == nv {
            assert(after[p as int] == x);
        }
    }
    assert(after.to_set() =~= before.to_set().insert(nv));
}

} // verus!
