//! Merging neighbours of a list in one pass from the front.
use vstd::prelude::*;

use crate::sort;

verus! {

/// Which neighbours are merged, and into what.
pub trait Merge<T: View> {
    /// What an item must satisfy for its arithmetic to stay in range.
    spec fn fits(a: T::V) -> bool;

    /// Whether `b`, standing right behind `a`, is merged into it.
    spec fn joins(a: T::V, b: T::V) -> bool;

    /// What the two become.
    spec fn join(a: T::V, b: T::V) -> T::V;

    proof fn join_fits(a: T::V, b: T::V)
        requires
            Self::fits(a),
            Self::fits(b),
            Self::joins(a, b),
        ensures
            Self::fits(Self::join(a, b)),
    ;

    fn is_joined(a: &T, b: &T) -> (r: bool)
        requires
            Self::fits(a@),
            Self::fits(b@),
        ensures
            r == Self::joins(a@, b@),
    ;

    fn join_into(a: T, b: T) -> (r: T)
        requires
            Self::fits(a@),
            Self::fits(b@),
            Self::joins(a@, b@),
        ensures
            r@ == Self::join(a@, b@),
    ;
}

/// The list `m` after `x` has come behind it.
pub open spec fn step<T: View, M: Merge<T>>(m: Seq<T::V>, x: T::V) -> Seq<T::V> {
    if m.len() > 0 && M::joins(m.last(), x) {
        m.drop_last().push(M::join(m.last(), x))
    } else {
        m.push(x)
    }
}

/// `s` with each item merged into what stands before it, where the two join.
pub open spec fn merged<T: View, M: Merge<T>>(s: Seq<T::V>) -> Seq<T::V>
    decreases s.len(),
{
    if s.len() == 0 {
        s
    } else {
        step::<T, M>(merged::<T, M>(s.drop_last()), s.last())
    }
}

pub open spec fn all_fit<T: View, M: Merge<T>>(s: Seq<T::V>) -> bool {
    forall|i: int| 0 <= i < s.len() ==> M::fits(#[trigger] s[i])
}

/// Whether some item of `s` satisfies `p`.
pub open spec fn some<V>(s: Seq<V>, p: spec_fn(V) -> bool) -> bool {
    exists|i: int| 0 <= i < s.len() && p(#[trigger] s[i])
}

pub open spec fn every<V>(s: Seq<V>, p: spec_fn(V) -> bool) -> bool {
    forall|i: int| 0 <= i < s.len() ==> p(#[trigger] s[i])
}

proof fn lemma_step<V>(m: Seq<V>, j: V, x: V, w: spec_fn(V) -> bool, p: spec_fn(V) -> bool)
    requires
        m.len() > 0,
        every(m, w),
        w(j),
        p(j) == (p(m.last()) || p(x)),
    ensures
        every(m.drop_last().push(j), w),
        some(m.drop_last().push(j), p) == (some(m, p) || p(x)),
{
    let r = m.drop_last().push(j);
    if some(m, p) {
        let i = choose|i: int| 0 <= i < m.len() && p(#[trigger] m[i]);
        assert(p(r[i]) || p(r[m.len() - 1]));
    }
    if p(x) {
        assert(p(r[m.len() - 1]));
    }
    if some(r, p) {
        let i = choose|i: int| 0 <= i < r.len() && p(#[trigger] r[i]);
        if i < m.len() - 1 {
            assert(p(m[i]));
        } else {
            assert(p(m.last()) || p(x));
            if p(m.last()) {
                assert(p(m[m.len() - 1]));
            }
        }
    }
}

/// Merging keeps what can be seen of a list. Say that every item satisfies `u`,
/// that `u` implies `w`, and that an item with `u` joined to one with `w` gives
/// one with `w` that satisfies `p` exactly if one of its two parts did. Then some
/// item of the merged list satisfies `p` exactly if some item of the list did.
pub proof fn lemma_merged_keeps<T: View, M: Merge<T>>(
    s: Seq<T::V>,
    u: spec_fn(T::V) -> bool,
    w: spec_fn(T::V) -> bool,
    p: spec_fn(T::V) -> bool,
)
    requires
        every(s, u),
        forall|a: T::V| #[trigger] u(a) ==> w(a),
        forall|a: T::V, b: T::V|
            w(a) && u(b) && #[trigger] M::joins(a, b) ==> w(M::join(a, b)) && p(M::join(a, b)) == (
            p(a) || p(b)),
    ensures
        every(merged::<T, M>(s), w),
        some(merged::<T, M>(s), p) == some(s, p),
    decreases s.len(),
{
    if s.len() > 0 {
        let t = s.drop_last();
        assert forall|i: int| 0 <= i < t.len() implies u(#[trigger] t[i]) by {
            assert(u(s[i]));
        }
        lemma_merged_keeps::<T, M>(t, u, w, p);
        let m = merged::<T, M>(t);
        let x = s.last();
        assert(u(s[s.len() - 1]));
        lemma_some_push(t, x, p);
        assert(t.push(x) =~= s);
        if m.len() > 0 && M::joins(m.last(), x) {
            assert(w(m[m.len() - 1]));
            lemma_step(m, M::join(m.last(), x), x, w, p);
        } else {
            lemma_some_push(m, x, p);
        }
    }
}

proof fn lemma_some_push<V>(s: Seq<V>, x: V, p: spec_fn(V) -> bool)
    ensures
        some(s.push(x), p) == (some(s, p) || p(x)),
{
    let r = s.push(x);
    if some(s, p) {
        let i = choose|i: int| 0 <= i < s.len() && p(#[trigger] s[i]);
        assert(p(r[i]));
    }
    if p(x) {
        assert(p(r[s.len() as int]));
    }
    if some(r, p) {
        let i = choose|i: int| 0 <= i < r.len() && p(#[trigger] r[i]);
        if i < s.len() {
            assert(p(s[i]));
        }
    }
}

/// The first place from `j` on whose item joins the one at `i`.
pub open spec fn partner<T: View, M: Merge<T>>(s: Seq<T::V>, i: int, j: int) -> Option<int>
    decreases s.len() - j,
{
    if j >= s.len() {
        None
    } else if M::joins(s[i], s[j]) {
        Some(j)
    } else {
        partner::<T, M>(s, i, j + 1)
    }
}

proof fn lemma_partner<T: View, M: Merge<T>>(s: Seq<T::V>, i: int, j: int)
    ensures
        partner::<T, M>(s, i, j) matches Some(k) ==> j <= k < s.len() && M::joins(s[i], s[k]),
    decreases s.len() - j,
{
    if j < s.len() && !M::joins(s[i], s[j]) {
        lemma_partner::<T, M>(s, i, j + 1);
    }
}

/// `s` with the item at `k` merged into the one at `i`.
pub open spec fn absorb<T: View, M: Merge<T>>(s: Seq<T::V>, i: int, k: int) -> Seq<T::V> {
    s.update(i, M::join(s[i], s[k])).remove(k)
}

/// `s` with every item from `i` on merged with the first later item that joins
/// it, as often as there is one.
pub open spec fn chained<T: View, M: Merge<T>>(s: Seq<T::V>, i: int) -> Seq<T::V>
    decreases s.len(), s.len() - i,
{
    if i < 0 || i >= s.len() {
        s
    } else {
        match partner::<T, M>(s, i, i + 1) {
            Some(k) => if i < k < s.len() {
                chained::<T, M>(absorb::<T, M>(s, i, k), i)
            } else {
                s
            },
            None => chained::<T, M>(s, i + 1),
        }
    }
}

proof fn lemma_absorb<T: View, M: Merge<T>>(
    s: Seq<T::V>,
    i: int,
    k: int,
    u: spec_fn(T::V) -> bool,
    w: spec_fn(T::V) -> bool,
    p: spec_fn(T::V) -> bool,
)
    requires
        0 <= i < k < s.len(),
        every(s, w),
        forall|n: int| i < n < s.len() ==> u(#[trigger] s[n]),
        w(M::join(s[i], s[k])),
        p(M::join(s[i], s[k])) == (p(s[i]) || p(s[k])),
    ensures
        every(absorb::<T, M>(s, i, k), w),
        forall|n: int| i < n < s.len() - 1 ==> u(#[trigger] absorb::<T, M>(s, i, k)[n]),
        some(absorb::<T, M>(s, i, k), p) == some(s, p),
{
    let r = absorb::<T, M>(s, i, k);
    assert forall|n: int| 0 <= n < r.len() implies w(#[trigger] r[n]) by {
        assert(r[n] == if n == i {
            M::join(s[i], s[k])
        } else if n < k {
            s[n]
        } else {
            s[n + 1]
        });
        if n != i {
            assert(w(s[if n < k {
                n
            } else {
                n + 1
            }]));
        }
    }
    assert forall|n: int| i < n < s.len() - 1 implies u(#[trigger] r[n]) by {
        assert(u(s[if n < k {
            n
        } else {
            n + 1
        }]));
    }
    if some(s, p) {
        let n = choose|n: int| 0 <= n < s.len() && p(#[trigger] s[n]);
        if n == i || n == k {
            assert(p(r[i]));
        } else if n < k {
            assert(p(r[n]));
        } else {
            assert(r[n - 1] == s[n]);
            assert(p(r[n - 1]));
        }
    }
    if some(r, p) {
        let n = choose|n: int| 0 <= n < r.len() && p(#[trigger] r[n]);
        if n == i {
            assert(p(s[i]) || p(s[k]));
        } else if n < k {
            assert(p(s[n]));
        } else {
            assert(p(s[n + 1]));
        }
    }
}

/// Chaining keeps what can be seen of a list, under the conditions of
/// [`lemma_merged_keeps`].
pub proof fn lemma_chained_keeps<T: View, M: Merge<T>>(
    s: Seq<T::V>,
    i: int,
    u: spec_fn(T::V) -> bool,
    w: spec_fn(T::V) -> bool,
    p: spec_fn(T::V) -> bool,
)
    requires
        0 <= i,
        every(s, w),
        forall|n: int| i <= n < s.len() ==> u(#[trigger] s[n]) || n == i,
        forall|a: T::V| #[trigger] u(a) ==> w(a),
        forall|a: T::V, b: T::V|
            w(a) && u(b) && #[trigger] M::joins(a, b) ==> w(M::join(a, b)) && p(M::join(a, b)) == (
            p(a) || p(b)),
    ensures
        every(chained::<T, M>(s, i), w),
        some(chained::<T, M>(s, i), p) == some(s, p),
    decreases s.len(), s.len() - i,
{
    if i < s.len() {
        lemma_partner::<T, M>(s, i, i + 1);
        match partner::<T, M>(s, i, i + 1) {
            Some(k) => {
                assert(w(s[i]));
                assert(u(s[k]));
                lemma_absorb::<T, M>(s, i, k, u, w, p);
                lemma_chained_keeps::<T, M>(absorb::<T, M>(s, i, k), i, u, w, p);
            },
            None => {
                lemma_chained_keeps::<T, M>(s, i + 1, u, w, p);
            },
        }
    }
}

/// Merges each item of `v`, from the front, with the first later item that joins
/// it, as often as there is one.
pub fn merge_chains<T: View, M: Merge<T>>(v: Vec<T>) -> (out: Vec<T>)
    requires
        all_fit::<T, M>(sort::views(v@)),
    ensures
        sort::views(out@) == chained::<T, M>(sort::views(v@), 0),
        all_fit::<T, M>(sort::views(out@)),
{
    let mut out: Vec<T> = v;
    let mut i: usize = 0;
    while i < out.len()
        invariant
            i <= out@.len(),
            all_fit::<T, M>(sort::views(out@)),
            chained::<T, M>(sort::views(out@), i as int) == chained::<T, M>(sort::views(v@), 0),
        decreases out@.len(), out@.len() - i,
    {
        let ghost s = sort::views(out@);
        assert(M::fits(s[i as int]));
        let mut j: usize = i + 1;
        while j < out.len() && !joins_at::<T, M>(&out, i, j)
            invariant
                i < j <= out@.len(),
                s == sort::views(out@),
                all_fit::<T, M>(s),
                partner::<T, M>(s, i as int, i + 1) == partner::<T, M>(s, i as int, j as int),
            decreases out@.len() - j,
        {
            j = j + 1;
        }
        if j < out.len() {
            let ghost before = out@;
            let b: T = out.remove(j);
            let a: T = out.remove(i);
            assert(s[i as int] == before[i as int]@ && s[j as int] == before[j as int]@);
            assert(M::fits(s[j as int]));
            let c: T = M::join_into(a, b);
            out.insert(i, c);
            proof {
                M::join_fits(s[i as int], s[j as int]);
                let r = absorb::<T, M>(s, i as int, j as int);
                let now = sort::views(out@);
                assert forall|n: int| 0 <= n < r.len() implies now[n] == #[trigger] r[n] by {
                    if n == i {
                    } else if n < j {
                        assert(out@[n] == before[n]);
                        assert(s[n] == before[n]@);
                    } else {
                        assert(out@[n] == before[n + 1]);
                        assert(s[n + 1] == before[n + 1]@);
                    }
                }
                assert(now =~= r);
                assert forall|n: int| 0 <= n < now.len() implies M::fits(#[trigger] now[n]) by {
                    if n != i {
                        assert(M::fits(s[if n < j {
                            n
                        } else {
                            n + 1
                        }]));
                    }
                }
            }
        } else {
            i = i + 1;
        }
    }
    out
}

fn joins_at<T: View, M: Merge<T>>(v: &Vec<T>, i: usize, j: usize) -> (r: bool)
    requires
        i < v@.len(),
        j < v@.len(),
        all_fit::<T, M>(sort::views(v@)),
    ensures
        r == M::joins(sort::views(v@)[i as int], sort::views(v@)[j as int]),
{
    assert(M::fits(sort::views(v@)[i as int]));
    assert(M::fits(sort::views(v@)[j as int]));
    M::is_joined(&v[i], &v[j])
}

/// Sorting keeps what can be seen of a list.
pub proof fn lemma_sorted_keeps<T: View, O: sort::Order<T>>(
    s: Seq<T::V>,
    p: spec_fn(T::V) -> bool,
)
    ensures
        some(sort::sorted::<T, O>(s), p) == some(s, p),
        every(sort::sorted::<T, O>(s), p) == every(s, p),
{
    sort::lemma_sorted_same_items::<T, O>(s);
    let r = sort::sorted::<T, O>(s);
    if some(s, p) {
        let i = choose|i: int| 0 <= i < s.len() && p(#[trigger] s[i]);
        let j = choose|j: int| 0 <= j < r.len() && r[j] == s[i];
        assert(p(r[j]));
    }
    if some(r, p) {
        let i = choose|i: int| 0 <= i < r.len() && p(#[trigger] r[i]);
        let j = choose|j: int| 0 <= j < s.len() && s[j] == r[i];
        assert(p(s[j]));
    }
}

proof fn lemma_merged_fits<T: View, M: Merge<T>>(s: Seq<T::V>)
    requires
        all_fit::<T, M>(s),
    ensures
        all_fit::<T, M>(merged::<T, M>(s)),
    decreases s.len(),
{
    if s.len() > 0 {
        let t = s.drop_last();
        assert forall|i: int| 0 <= i < t.len() implies M::fits(#[trigger] t[i]) by {
            assert(M::fits(s[i]));
        }
        lemma_merged_fits::<T, M>(t);
        let m = merged::<T, M>(t);
        assert(M::fits(s[s.len() - 1]));
        if m.len() > 0 && M::joins(m.last(), s.last()) {
            assert(M::fits(m[m.len() - 1]));
            M::join_fits(m.last(), s.last());
        }
    }
}

/// Merges neighbours of `v` from the front.
pub fn merge_neighbours<T: View, M: Merge<T>>(v: Vec<T>) -> (out: Vec<T>)
    requires
        all_fit::<T, M>(sort::views(v@)),
    ensures
        sort::views(out@) == merged::<T, M>(sort::views(v@)),
        all_fit::<T, M>(sort::views(out@)),
        out@.len() <= v@.len(),
{
    let mut rest: Vec<T> = v;
    let mut out: Vec<T> = Vec::new();
    let ghost all = sort::views(rest@);
    let ghost mut done: int = 0;
    assert(all.take(0) =~= Seq::empty());
    assert(sort::views(out@) =~= Seq::empty());
    assert(all.skip(0) =~= all);
    while rest.len() > 0
        invariant
            0 <= done <= all.len(),
            sort::views(rest@) == all.skip(done),
            sort::views(out@) == merged::<T, M>(all.take(done)),
            all_fit::<T, M>(all),
            all_fit::<T, M>(sort::views(out@)),
            out@.len() <= done,
        decreases rest@.len(),
    {
        let ghost before = rest@;
        let x: T = rest.remove(0);
        assert(sort::views(before).len() == all.len() - done);
        assert(before[0]@ == sort::views(before)[0]);
        assert(x@ == all[done]);
        assert(M::fits(all[done]));
        assert(all.take(done + 1).drop_last() =~= all.take(done));
        assert(all.take(done + 1).last() == x@);
        assert forall|i: int| 0 <= i < rest@.len() implies sort::views(rest@)[i] == #[trigger] all.skip(
            done + 1,
        )[i] by {
            assert(rest@[i] == before[i + 1]);
            assert(sort::views(before)[i + 1] == all.skip(done)[i + 1]);
        }
        assert(sort::views(rest@) =~= all.skip(done + 1));
        let ghost m = sort::views(out@);
        let ghost old_out = out@;
        match out.pop() {
            None => {
                out.push(x);
                assert(sort::views(out@) =~= m.push(x@));
            },
            Some(last) => {
                assert(m.last() == last@);
                assert(M::fits(m[m.len() - 1]));
                if M::is_joined(&last, &x) {
                    let j: T = M::join_into(last, x);
                    out.push(j);
                    assert(sort::views(out@) =~= m.drop_last().push(M::join(last@, x@)));
                } else {
                    out.push(last);
                    out.push(x);
                    assert(sort::views(out@) =~= m.push(x@));
                }
            },
        }
        proof {
            assert(sort::views(out@) == merged::<T, M>(all.take(done + 1)));
            assert forall|i: int| 0 <= i < all.take(done + 1).len() implies M::fits(
                #[trigger] all.take(done + 1)[i],
            ) by {
                assert(M::fits(all[i]));
            }
            lemma_merged_fits::<T, M>(all.take(done + 1));
            done = done + 1;
        }
    }
    assert(all.take(done) =~= all);
    out
}

} // verus!
