//! A stable sort whose result is pinned down by its order alone.
use vstd::prelude::*;

verus! {

/// The abstract values of a list of items.
pub open spec fn views<T: View>(s: Seq<T>) -> Seq<T::V> {
    Seq::new(s.len(), |i: int| s[i]@)
}

/// An order on the abstract values of `T`.
pub trait Order<T: View> {
    /// Whether `a` may stand before `b`.
    spec fn leq(a: T::V, b: T::V) -> bool;

    /// The order is total.
    proof fn total(a: T::V, b: T::V)
        ensures
            Self::leq(a, b) || Self::leq(b, a),
    ;

    /// The order is transitive.
    proof fn transitive(a: T::V, b: T::V, c: T::V)
        requires
            Self::leq(a, b),
            Self::leq(b, c),
        ensures
            Self::leq(a, c),
    ;

    /// What an item must satisfy to be compared.
    spec fn fits(a: T::V) -> bool;

    fn le(a: &T, b: &T) -> (r: bool)
        requires
            Self::fits(a@),
            Self::fits(b@),
        ensures
            r == Self::leq(a@, b@),
    ;
}

/// Lexicographic order; a list stands before every longer one that begins with
/// it.
pub open spec fn lex_leq(a: Seq<int>, b: Seq<int>) -> bool
    decreases a.len(),
{
    if a.len() == 0 {
        true
    } else if b.len() == 0 {
        false
    } else if a[0] != b[0] {
        a[0] < b[0]
    } else {
        lex_leq(a.skip(1), b.skip(1))
    }
}

/// The lexicographic order is total, transitive and antisymmetric.
pub proof fn lemma_lex_order(a: Seq<int>, b: Seq<int>, c: Seq<int>)
    ensures
        lex_leq(a, b) || lex_leq(b, a),
        lex_leq(a, b) && lex_leq(b, c) ==> lex_leq(a, c),
        lex_leq(a, b) && lex_leq(b, a) ==> a == b,
    decreases a.len() + b.len() + c.len(),
{
    if a.len() == 0 {
        if b.len() == 0 {
            assert(a =~= b);
        }
    } else if b.len() == 0 {
    } else if c.len() == 0 {
        lemma_lex_order(a.skip(1), b.skip(1), c);
        if a[0] == b[0] && lex_leq(a, b) && lex_leq(b, a) {
            assert(a =~= seq![a[0]] + a.skip(1));
            assert(b =~= seq![b[0]] + b.skip(1));
        }
    } else {
        lemma_lex_order(a.skip(1), b.skip(1), c.skip(1));
        if a[0] == b[0] && lex_leq(a, b) && lex_leq(b, a) {
            assert(a =~= seq![a[0]] + a.skip(1));
            assert(b =~= seq![b[0]] + b.skip(1));
        }
    }
}

/// The numbers of a list.
pub open spec fn ints(s: Seq<u64>) -> Seq<int> {
    Seq::new(s.len(), |i: int| s[i] as int)
}

/// Compares two lists lexicographically.
pub fn lex_le(a: &Vec<u64>, b: &Vec<u64>) -> (r: bool)
    ensures
        r == lex_leq(ints(a@), ints(b@)),
{
    let mut i: usize = 0;
    let ghost ia = ints(a@);
    let ghost ib = ints(b@);
    assert(ia.skip(0) =~= ia);
    assert(ib.skip(0) =~= ib);
    while i < a.len()
        invariant
            i <= a@.len(),
            i <= b@.len(),
            ia == ints(a@),
            ib == ints(b@),
            lex_leq(ia, ib) == lex_leq(ia.skip(i as int), ib.skip(i as int)),
        decreases a@.len() - i,
    {
        assert(ia.skip(i as int)[0] == a@[i as int]);
        if i >= b.len() {
            return false;
        }
        assert(ib.skip(i as int)[0] == b@[i as int]);
        if a[i] != b[i] {
            return a[i] < b[i];
        }
        assert(ia.skip(i as int).skip(1) =~= ia.skip(i + 1));
        assert(ib.skip(i as int).skip(1) =~= ib.skip(i + 1));
        i = i + 1;
    }
    true
}

pub open spec fn all_fit<T: View, O: Order<T>>(s: Seq<T::V>) -> bool {
    forall|i: int| 0 <= i < s.len() ==> O::fits(#[trigger] s[i])
}

/// Every item of the sorted list is one of the list's, and the other way round.
pub proof fn lemma_sorted_same_items<T: View, O: Order<T>>(s: Seq<T::V>)
    ensures
        sorted::<T, O>(s).len() == s.len(),
        forall|i: int|
            0 <= i < s.len() ==> exists|j: int|
                0 <= j < s.len() && sorted::<T, O>(s)[j] == #[trigger] s[i],
        forall|i: int|
            0 <= i < s.len() ==> exists|j: int|
                0 <= j < s.len() && s[j] == #[trigger] sorted::<T, O>(s)[i],
{
    lemma_sorted::<T, O>(s);
    let r = sorted::<T, O>(s);
    broadcast use vstd::seq_lib::group_to_multiset_ensures;
    assert forall|x: T::V| r.contains(x) <==> s.contains(x) by {
        assert(r.contains(x) <==> r.to_multiset().count(x) > 0);
        assert(s.contains(x) <==> s.to_multiset().count(x) > 0);
    }
    assert forall|i: int| 0 <= i < s.len() implies exists|j: int|
        0 <= j < r.len() && r[j] == #[trigger] s[i] by {
        assert(s.contains(s[i]));
        assert(r.contains(s[i]));
    }
    assert forall|i: int| 0 <= i < r.len() implies exists|j: int|
        0 <= j < s.len() && s[j] == #[trigger] r[i] by {
        assert(r.contains(r[i]));
        assert(s.contains(r[i]));
    }
}

/// Where `x` goes in `s`: behind every item at the end of `s` that may stand
/// before it.
pub open spec fn place<T: View, O: Order<T>>(s: Seq<T::V>, x: T::V) -> nat
    decreases s.len(),
{
    if s.len() == 0 || O::leq(s.last(), x) {
        s.len()
    } else {
        place::<T, O>(s.drop_last(), x)
    }
}

/// The items of `s` in order, equal ones in the order in which they came.
pub open spec fn sorted<T: View, O: Order<T>>(s: Seq<T::V>) -> Seq<T::V>
    decreases s.len(),
{
    if s.len() == 0 {
        s
    } else {
        let head = sorted::<T, O>(s.drop_last());
        head.insert(place::<T, O>(head, s.last()) as int, s.last())
    }
}

pub open spec fn is_ordered<T: View, O: Order<T>>(s: Seq<T::V>) -> bool {
    forall|i: int, j: int| 0 <= i < j < s.len() ==> O::leq(#[trigger] s[i], #[trigger] s[j])
}

proof fn lemma_place_bound<T: View, O: Order<T>>(s: Seq<T::V>, x: T::V)
    ensures
        place::<T, O>(s, x) <= s.len(),
    decreases s.len(),
{
    if s.len() > 0 && !O::leq(s.last(), x) {
        lemma_place_bound::<T, O>(s.drop_last(), x);
    }
}

proof fn lemma_place<T: View, O: Order<T>>(s: Seq<T::V>, x: T::V)
    requires
        is_ordered::<T, O>(s),
    ensures
        place::<T, O>(s, x) <= s.len(),
        forall|i: int| 0 <= i < place::<T, O>(s, x) ==> O::leq(s[i], x),
        forall|i: int| place::<T, O>(s, x) <= i < s.len() ==> O::leq(x, s[i]),
    decreases s.len(),
{
    if s.len() == 0 {
    } else if O::leq(s.last(), x) {
        assert forall|i: int| 0 <= i < s.len() implies O::leq(s[i], x) by {
            if i < s.len() - 1 {
                O::transitive(s[i], s.last(), x);
            }
        }
    } else {
        let t = s.drop_last();
        assert(is_ordered::<T, O>(t)) by {
            assert forall|i: int, j: int| 0 <= i < j < t.len() implies O::leq(
                #[trigger] t[i],
                #[trigger] t[j],
            ) by {
                assert(O::leq(s[i], s[j]));
            }
        }
        lemma_place::<T, O>(t, x);
        O::total(s.last(), x);
        assert forall|i: int| place::<T, O>(s, x) <= i < s.len() implies O::leq(x, s[i]) by {
            if i < s.len() - 1 {
                assert(s[i] == t[i]);
            }
        }
        assert forall|i: int| 0 <= i < place::<T, O>(s, x) implies O::leq(s[i], x) by {
            assert(s[i] == t[i]);
        }
    }
}

/// Sorting yields the same items, in order.
pub proof fn lemma_sorted<T: View, O: Order<T>>(s: Seq<T::V>)
    ensures
        is_ordered::<T, O>(sorted::<T, O>(s)),
        sorted::<T, O>(s).to_multiset() == s.to_multiset(),
        sorted::<T, O>(s).len() == s.len(),
    decreases s.len(),
{
    if s.len() > 0 {
        let t = s.drop_last();
        lemma_sorted::<T, O>(t);
        let head = sorted::<T, O>(t);
        let x = s.last();
        lemma_place::<T, O>(head, x);
        let p = place::<T, O>(head, x) as int;
        let r = head.insert(p, x);
        assert forall|i: int, j: int| 0 <= i < j < r.len() implies O::leq(
            #[trigger] r[i],
            #[trigger] r[j],
        ) by {
            if i < p && j > p {
                assert(r[i] == head[i] && r[j] == head[j - 1]);
            } else if i == p {
                assert(r[j] == head[j - 1]);
            } else if j == p {
                assert(r[i] == head[i]);
            } else if j < p {
                assert(r[i] == head[i] && r[j] == head[j]);
            } else {
                assert(r[i] == head[i - 1] && r[j] == head[j - 1]);
            }
        }
        assert(r.to_multiset() =~= head.to_multiset().insert(x)) by {
            vstd::seq_lib::to_multiset_insert(head, p, x);
        }
        assert(s =~= t.push(x));
        broadcast use vstd::seq_lib::group_to_multiset_ensures;
        assert(s.to_multiset() =~= t.to_multiset().insert(x));
    }
}

/// A list that is in order already stays as it is.
pub proof fn lemma_sorted_keeps_order<T: View, O: Order<T>>(s: Seq<T::V>)
    requires
        is_ordered::<T, O>(s),
    ensures
        sorted::<T, O>(s) == s,
    decreases s.len(),
{
    if s.len() > 0 {
        let t = s.drop_last();
        assert(is_ordered::<T, O>(t)) by {
            assert forall|i: int, j: int| 0 <= i < j < t.len() implies O::leq(
                #[trigger] t[i],
                #[trigger] t[j],
            ) by {
                assert(O::leq(s[i], s[j]));
            }
        }
        lemma_sorted_keeps_order::<T, O>(t);
        if t.len() > 0 {
            assert(O::leq(s[t.len() - 1], s[t.len() as int]));
        }
        assert(t.insert(t.len() as int, s.last()) =~= s);
    }
}

fn is_le<T: View, O: Order<T>>(v: &Vec<T>, i: usize, x: &T) -> (r: bool)
    requires
        i < v@.len(),
        all_fit::<T, O>(views(v@)),
        O::fits(x@),
    ensures
        r == O::leq(v@[i as int]@, x@),
{
    assert(O::fits(views(v@)[i as int]));
    O::le(&v[i], x)
}

/// Sorts `v` by the order `O`; equal items keep their places.
pub fn stable_sort<T: View, O: Order<T>>(v: Vec<T>) -> (out: Vec<T>)
    requires
        all_fit::<T, O>(views(v@)),
    ensures
        views(out@) == sorted::<T, O>(views(v@)),
        all_fit::<T, O>(views(out@)),
        out@.len() == v@.len(),
{
    let mut rest: Vec<T> = v;
    let mut out: Vec<T> = Vec::new();
    let ghost all = views(rest@);
    let ghost mut done: int = 0;
    assert(all.take(0) =~= Seq::empty());
    assert(views(out@) =~= Seq::empty());
    assert(all.skip(0) =~= all);
    while rest.len() > 0
        invariant
            0 <= done <= all.len(),
            views(rest@) == all.skip(done),
            views(out@) == sorted::<T, O>(all.take(done)),
            all_fit::<T, O>(all),
            all_fit::<T, O>(views(out@)),
            out@.len() == done,
        decreases rest@.len(),
    {
        let ghost before = rest@;
        let x: T = rest.remove(0);
        assert(before[0]@ == views(before)[0]);
        assert(views(before).len() == all.len() - done);
        assert(x@ == all[done]);
        assert(O::fits(all[done]));
        assert(all.take(done + 1).drop_last() =~= all.take(done));
        assert(all.take(done + 1).last() == x@);
        assert forall|i: int| 0 <= i < rest@.len() implies views(rest@)[i] == #[trigger] all.skip(
            done + 1,
        )[i] by {
            assert(rest@[i] == before[i + 1]);
            assert(views(before)[i + 1] == all.skip(done)[i + 1]);
        }
        assert(views(rest@) =~= all.skip(done + 1));
        let mut p: usize = out.len();
        let ghost head = views(out@);
        assert(head.take(head.len() as int) =~= head);
        while p > 0 && !is_le::<T, O>(&out, p - 1, &x)
            invariant
                p <= out@.len(),
                head == views(out@),
                O::fits(x@),
                all_fit::<T, O>(head),
                place::<T, O>(head.take(p as int), x@) == place::<T, O>(head, x@),
            decreases p,
        {
            assert(head.take(p as int).last() == out@[p - 1]@);
            assert(head.take(p as int).drop_last() =~= head.take(p - 1));
            p = p - 1;
        }
        proof {
            if p > 0 {
                assert(head.take(p as int).last() == out@[p - 1]@);
            }
            assert(place::<T, O>(head, x@) == p);
        }
        out.insert(p, x);
        assert(views(out@) =~= head.insert(p as int, x@));
        assert forall|i: int| 0 <= i < out@.len() implies O::fits(#[trigger] views(out@)[i]) by {
            if i < p {
                assert(O::fits(head[i]));
            } else if i > p {
                assert(O::fits(head[i - 1]));
            }
        }
        proof {
            done = done + 1;
        }
    }
    assert(all.take(done) =~= all);
    out
}

/// Ascending order of `u32`.
pub struct Ascending;

impl Order<u32> for Ascending {
    open spec fn leq(a: u32, b: u32) -> bool {
        a <= b
    }

    proof fn total(a: u32, b: u32) {
    }

    proof fn transitive(a: u32, b: u32, c: u32) {
    }

    open spec fn fits(a: u32) -> bool {
        true
    }

    fn le(a: &u32, b: &u32) -> (r: bool) {
        *a <= *b
    }
}

/// `s` without the items that equal their predecessor.
pub open spec fn without_repeats(s: Seq<u32>) -> Seq<u32>
    decreases s.len(),
{
    if s.len() == 0 {
        s
    } else {
        let head = without_repeats(s.drop_last());
        if s.len() > 1 && s[s.len() - 2] == s.last() {
            head
        } else {
            head.push(s.last())
        }
    }
}

/// The distinct values of `s`, ascending.
pub open spec fn distinct_ascending(s: Seq<u32>) -> Seq<u32> {
    without_repeats(sorted::<u32, Ascending>(s))
}

pub open spec fn strictly_ascending(s: Seq<u32>) -> bool {
    forall|i: int, j: int| 0 <= i < j < s.len() ==> s[i] < s[j]
}

proof fn lemma_without_repeats(s: Seq<u32>)
    requires
        is_ordered::<u32, Ascending>(s),
    ensures
        strictly_ascending(without_repeats(s)),
        forall|x: u32| without_repeats(s).contains(x) <==> s.contains(x),
        s.len() > 0 ==> without_repeats(s).len() > 0 && without_repeats(s).last() == s.last(),
        without_repeats(s).len() <= s.len(),
    decreases s.len(),
{
    if s.len() > 0 {
        let t = s.drop_last();
        assert(is_ordered::<u32, Ascending>(t)) by {
            assert forall|i: int, j: int| 0 <= i < j < t.len() implies Ascending::leq(
                #[trigger] t[i],
                #[trigger] t[j],
            ) by {
                assert(Ascending::leq(s[i], s[j]));
            }
        }
        lemma_without_repeats(t);
        let head = without_repeats(t);
        let r = without_repeats(s);
        if t.len() > 0 {
            assert(t.last() == s[s.len() - 2]);
            assert(Ascending::leq(s[s.len() - 2], s[s.len() - 1]));
        }
        if !(s.len() > 1 && s[s.len() - 2] == s.last()) {
            assert(r == head.push(s.last()));
            assert forall|i: int, j: int| 0 <= i < j < r.len() implies r[i] < r[j] by {
                if j == head.len() {
                    assert(head[i] <= head.last());
                }
            }
            assert(r[r.len() - 1] == s.last());
        }
        assert forall|x: u32| r.contains(x) <==> s.contains(x) by {
            if r.contains(x) {
                let i = choose|i: int| 0 <= i < r.len() && r[i] == x;
                if i < head.len() {
                    assert(head[i] == x);
                    assert(t.contains(x));
                    let k = choose|k: int| 0 <= k < t.len() && t[k] == x;
                    assert(s[k] == x);
                } else {
                    assert(s[s.len() - 1] == x);
                }
            }
            if s.contains(x) {
                let k = choose|k: int| 0 <= k < s.len() && s[k] == x;
                if k < t.len() {
                    assert(t[k] == x);
                    assert(t.contains(x));
                    assert(head.contains(x));
                    let i = choose|i: int| 0 <= i < head.len() && head[i] == x;
                    assert(r[i] == x);
                } else {
                    assert(r[r.len() - 1] == x);
                }
            }
        }
    }
}

/// The distinct values come in strictly ascending order and are exactly the
/// values of the list.
pub proof fn lemma_distinct_ascending(s: Seq<u32>)
    ensures
        strictly_ascending(distinct_ascending(s)),
        forall|x: u32| distinct_ascending(s).contains(x) <==> s.contains(x),
        s.len() > 0 ==> distinct_ascending(s).len() > 0,
        distinct_ascending(s).len() <= s.len(),
{
    lemma_sorted::<u32, Ascending>(s);
    let r = sorted::<u32, Ascending>(s);
    lemma_without_repeats(r);
    broadcast use vstd::seq_lib::group_to_multiset_ensures;
    assert forall|x: u32| r.contains(x) <==> s.contains(x) by {
        assert(r.contains(x) <==> r.to_multiset().count(x) > 0);
        assert(s.contains(x) <==> s.to_multiset().count(x) > 0);
    }
}

/// The distinct values of `v`, ascending.
pub fn sort_distinct(v: Vec<u32>) -> (out: Vec<u32>)
    ensures
        out@ == distinct_ascending(v@),
{
    let ghost s = v@;
    assert(views(s) =~= s);
    let list: Vec<u32> = stable_sort::<u32, Ascending>(v);
    assert(views(list@) =~= list@);
    let mut out: Vec<u32> = Vec::new();
    let mut i: usize = 0;
    while i < list.len()
        invariant
            i <= list@.len(),
            out@ == without_repeats(list@.take(i as int)),
        decreases list@.len() - i,
    {
        let ghost upto = list@.take(i + 1);
        assert(upto.drop_last() =~= list@.take(i as int));
        assert(upto.last() == list@[i as int]);
        if i > 0 {
            assert(upto[upto.len() - 2] == list@[i - 1]);
        }
        if i == 0 || list[i - 1] != list[i] {
            out.push(list[i]);
        }
        i = i + 1;
    }
    assert(list@.take(list@.len() as int) =~= list@);
    out
}

} // verus!
