//! Order: texts in the order of their characters, stable sorting, and tables
//! that keep their rows in the order of their keys.
use vstd::multiset::Multiset;
use vstd::prelude::*;
use vstd::string::*;

use crate::text;
use crate::text::{copy_text, to_chars};

verus! {

// ---------------------------------------------------------------------------
// Texts.

/// `a` stands before `b`: at the first difference it has the smaller character,
/// or it ends there.
pub open spec fn text_lt(a: Seq<char>, b: Seq<char>) -> bool
    decreases a.len(),
{
    if b.len() == 0 {
        false
    } else if a.len() == 0 {
        true
    } else if a[0] == b[0] {
        text_lt(a.skip(1), b.skip(1))
    } else {
        a[0] < b[0]
    }
}

/// `a` stands before `b` or is the same text.
pub open spec fn text_le(a: Seq<char>, b: Seq<char>) -> bool {
    !text_lt(b, a)
}

/// Of two texts exactly one stands before the other, unless they are the same.
pub proof fn lemma_text_trichotomy(a: Seq<char>, b: Seq<char>)
    ensures
        text_lt(a, b) ==> !text_lt(b, a) && a != b,
        a != b ==> text_lt(a, b) || text_lt(b, a),
        !text_lt(a, a),
    decreases a.len(),
{
    if a.len() > 0 {
        assert(a.skip(1).len() < a.len());
        lemma_text_trichotomy(a.skip(1), a.skip(1));
        if b.len() > 0 {
            lemma_text_trichotomy(a.skip(1), b.skip(1));
            if a[0] == b[0] && a.skip(1) == b.skip(1) {
                assert(a =~= seq![a[0]] + a.skip(1));
                assert(b =~= seq![b[0]] + b.skip(1));
            }
        }
    } else if b.len() == 0 {
        assert(a =~= b);
    }
}

/// The order of texts is transitive.
pub proof fn lemma_text_trans(a: Seq<char>, b: Seq<char>, c: Seq<char>)
    requires
        text_lt(a, b),
        text_lt(b, c),
    ensures
        text_lt(a, c),
    decreases a.len(),
{
    if a.len() > 0 && a[0] == b[0] && b[0] == c[0] {
        lemma_text_trans(a.skip(1), b.skip(1), c.skip(1));
    }
}

/// Decides [`text_lt`].
pub fn text_less(a: &str, b: &str) -> (r: bool)
    ensures
        r == text_lt(a@, b@),
{
    let x = to_chars(a);
    let y = to_chars(b);
    let mut i: usize = 0;
    assert(a@.skip(0) =~= a@);
    assert(b@.skip(0) =~= b@);
    while i < x.len() && i < y.len() && x[i] == y[i]
        invariant
            i <= x.len(),
            i <= y.len(),
            x@ == a@,
            y@ == b@,
            text_lt(a@, b@) == text_lt(a@.skip(i as int), b@.skip(i as int)),
        decreases x.len() - i,
    {
        assert(a@.skip(i as int).skip(1) =~= a@.skip(i + 1));
        assert(b@.skip(i as int).skip(1) =~= b@.skip(i + 1));
        i += 1;
    }
    if i >= y.len() {
        false
    } else if i >= x.len() {
        true
    } else {
        x[i] < y[i]
    }
}

// ---------------------------------------------------------------------------
// Sorting.

/// The values that a sequence stands for.
pub open spec fn views<T: View>(s: Seq<T>) -> Seq<T::V> {
    Seq::new(s.len(), |i: int| s[i]@)
}

/// A type whose values are ranked, several of them possibly alike.
pub trait Ranked: View + Sized {
    /// `a` may stand before `b`.
    spec fn rank_le(a: Self::V, b: Self::V) -> bool;

    /// Of two values one may stand before the other.
    proof fn rank_total(a: Self::V, b: Self::V)
        ensures
            Self::rank_le(a, b) || Self::rank_le(b, a),
    ;

    /// The ranking is transitive.
    proof fn rank_trans(a: Self::V, b: Self::V, c: Self::V)
        requires
            Self::rank_le(a, b),
            Self::rank_le(b, c),
        ensures
            Self::rank_le(a, c),
    ;

    /// Decides [`Ranked::rank_le`].
    fn may_precede(&self, other: &Self) -> (r: bool)
        ensures
            r == Self::rank_le(self@, other@),
    ;
}

/// `s` with `x` put before the first element that `x` may precede.
pub open spec fn put_in_order<T: Ranked>(s: Seq<T::V>, x: T::V) -> Seq<T::V>
    decreases s.len(),
{
    if s.len() == 0 || T::rank_le(x, s[0]) {
        seq![x] + s
    } else {
        seq![s[0]] + put_in_order::<T>(s.skip(1), x)
    }
}

/// `s` in order; elements that are ranked alike keep their order.
pub open spec fn stable_sort<T: Ranked>(s: Seq<T::V>) -> Seq<T::V>
    decreases s.len(),
{
    if s.len() == 0 {
        s
    } else {
        put_in_order::<T>(stable_sort::<T>(s.skip(1)), s[0])
    }
}

/// Every element may stand before the elements behind it.
pub open spec fn in_order<T: Ranked>(s: Seq<T::V>) -> bool {
    forall|i: int, j: int| 0 <= i < j < s.len() ==> T::rank_le(#[trigger] s[i], #[trigger] s[j])
}

/// Where `k` elements come before `x` and the next may not, `x` is put behind
/// those `k`.
proof fn lemma_put_at<T: Ranked>(s: Seq<T::V>, x: T::V, k: int)
    requires
        0 <= k <= s.len(),
        forall|j: int| 0 <= j < k ==> !T::rank_le(x, #[trigger] s[j]),
        k < s.len() ==> T::rank_le(x, s[k]),
    ensures
        put_in_order::<T>(s, x) == s.insert(k, x),
    decreases k,
{
    if k == 0 {
        assert(seq![x] + s =~= s.insert(0, x));
    } else {
        assert(!T::rank_le(x, s[0]));
        assert forall|j: int| 0 <= j < k - 1 implies !T::rank_le(x, #[trigger] s.skip(1)[j]) by {
            assert(s.skip(1)[j] == s[j + 1]);
        }
        lemma_put_at::<T>(s.skip(1), x, k - 1);
        assert(seq![s[0]] + s.skip(1).insert(k - 1, x) =~= s.insert(k, x));
    }
}

/// Putting an element into a sequence in order keeps it in order, with the same
/// elements and that one.
proof fn lemma_put_in_order<T: Ranked>(s: Seq<T::V>, x: T::V)
    requires
        in_order::<T>(s),
    ensures
        in_order::<T>(put_in_order::<T>(s, x)),
        put_in_order::<T>(s, x).len() == s.len() + 1,
        put_in_order::<T>(s, x).to_multiset() == s.to_multiset().insert(x),
        forall|y: T::V| T::rank_le(y, x) && (forall|i: int| 0 <= i < s.len() ==> T::rank_le(y, #[trigger] s[i]))
            ==> forall|i: int|
            0 <= i < s.len() + 1 ==> T::rank_le(y, #[trigger] put_in_order::<T>(s, x)[i]),
    decreases s.len(),
{
    broadcast use vstd::seq_lib::group_to_multiset_ensures;

    let r = put_in_order::<T>(s, x);
    if s.len() == 0 || T::rank_le(x, s[0]) {
        assert forall|i: int, j: int| 0 <= i < j < r.len() implies T::rank_le(
            #[trigger] r[i],
            #[trigger] r[j],
        ) by {
            if i == 0 {
                if j > 1 {
                    assert(s[j - 1] == r[j]);
                    T::rank_trans(x, s[0], s[j - 1]);
                }
            } else {
                assert(r[i] == s[i - 1] && r[j] == s[j - 1]);
            }
        }
        assert(r =~= s.insert(0, x));
        vstd::seq_lib::lemma_multiset_commutative(seq![x], s);
        assert(seq![x] =~= Seq::<T::V>::empty().push(x));
        assert(Seq::<T::V>::empty().to_multiset() =~= Multiset::empty());
        assert(r.to_multiset() =~= s.to_multiset().insert(x));
        assert forall|y: T::V|
            T::rank_le(y, x) && (forall|i: int| 0 <= i < s.len() ==> T::rank_le(y, #[trigger] s[i])) implies forall|
            i: int,
        | 0 <= i < s.len() + 1 ==> T::rank_le(y, #[trigger] r[i]) by {
            assert forall|i: int| 0 <= i < s.len() + 1 implies T::rank_le(y, #[trigger] r[i]) by {
                if i > 0 {
                    assert(r[i] == s[i - 1]);
                }
            }
        }
    } else {
        let t = s.skip(1);
        assert forall|i: int, j: int| 0 <= i < j < t.len() implies T::rank_le(
            #[trigger] t[i],
            #[trigger] t[j],
        ) by {
            assert(t[i] == s[i + 1] && t[j] == s[j + 1]);
        }
        lemma_put_in_order::<T>(t, x);
        T::rank_total(x, s[0]);
        let inner = put_in_order::<T>(t, x);
        assert forall|i: int| 0 <= i < t.len() implies T::rank_le(s[0], #[trigger] t[i]) by {
            assert(t[i] == s[i + 1]);
        }
        assert(forall|i: int| 0 <= i < t.len() + 1 ==> T::rank_le(s[0], #[trigger] inner[i]));
        assert forall|i: int, j: int| 0 <= i < j < r.len() implies T::rank_le(
            #[trigger] r[i],
            #[trigger] r[j],
        ) by {
            assert(r[j] == inner[j - 1]);
            if i > 0 {
                assert(r[i] == inner[i - 1]);
            }
        }
        vstd::seq_lib::lemma_multiset_commutative(seq![s[0]], inner);
        vstd::seq_lib::lemma_multiset_commutative(seq![s[0]], t);
        assert(seq![s[0]] + t =~= s);
        assert(r.to_multiset() =~= s.to_multiset().insert(x));
        assert forall|y: T::V|
            T::rank_le(y, x) && (forall|i: int| 0 <= i < s.len() ==> T::rank_le(y, #[trigger] s[i])) implies forall|
            i: int,
        | 0 <= i < s.len() + 1 ==> T::rank_le(y, #[trigger] r[i]) by {
            assert(T::rank_le(y, s[0]));
            assert forall|i: int| 0 <= i < t.len() implies T::rank_le(y, #[trigger] t[i]) by {
                assert(t[i] == s[i + 1]);
            }
            assert(forall|i: int| 0 <= i < t.len() + 1 ==> T::rank_le(y, #[trigger] inner[i]));
            assert forall|i: int| 0 <= i < s.len() + 1 implies T::rank_le(y, #[trigger] r[i]) by {
                if i > 0 {
                    assert(r[i] == inner[i - 1]);
                }
            }
        }
    }
}

/// A sorted sequence is in order and has the elements of the unsorted one.
pub proof fn law_sort<T: Ranked>(s: Seq<T::V>)
    ensures
        in_order::<T>(stable_sort::<T>(s)),
        stable_sort::<T>(s).len() == s.len(),
        stable_sort::<T>(s).to_multiset() == s.to_multiset(),
    decreases s.len(),
{
    broadcast use vstd::seq_lib::group_to_multiset_ensures;

    if s.len() > 0 {
        law_sort::<T>(s.skip(1));
        lemma_put_in_order::<T>(stable_sort::<T>(s.skip(1)), s[0]);
        vstd::seq_lib::lemma_multiset_commutative(seq![s[0]], s.skip(1));
        assert(seq![s[0]] + s.skip(1) =~= s);
        assert(seq![s[0]] =~= Seq::<T::V>::empty().push(s[0]));
        assert(Seq::<T::V>::empty().to_multiset() =~= Multiset::empty());
        assert(stable_sort::<T>(s).to_multiset() =~= s.to_multiset());
    }
}

/// Sorting keeps the order of what is ranked alike: the elements ranked like `x`
/// come out in the order in which they went in.
pub proof fn law_sort_stable<T: Ranked>(s: Seq<T::V>, x: T::V)
    ensures
        stable_sort::<T>(s).filter(|y: T::V| T::rank_le(x, y) && T::rank_le(y, x)) == s.filter(
            |y: T::V| T::rank_le(x, y) && T::rank_le(y, x),
        ),
    decreases s.len(),
{
    let p = |y: T::V| T::rank_le(x, y) && T::rank_le(y, x);
    if s.len() > 0 {
        law_sort_stable::<T>(s.skip(1), x);
        lemma_put_filter::<T>(stable_sort::<T>(s.skip(1)), s[0], x);
        lemma_filter_front(s.skip(1), s[0], p);
        assert(seq![s[0]] + s.skip(1) =~= s);
    }
}

/// Filtering with one more element in front.
proof fn lemma_filter_front<A>(s: Seq<A>, x: A, p: spec_fn(A) -> bool)
    ensures
        (seq![x] + s).filter(p) == (if p(x) {
            seq![x] + s.filter(p)
        } else {
            s.filter(p)
        }),
    decreases s.len(),
{
    reveal(Seq::filter);
    let all = seq![x] + s;
    if s.len() == 0 {
        assert(all.drop_last() =~= Seq::empty());
        assert(all.drop_last().filter(p) =~= Seq::empty());
        assert(s.filter(p) =~= Seq::empty());
        assert(all.filter(p) =~= if p(x) {
            seq![x] + s.filter(p)
        } else {
            s.filter(p)
        });
    } else {
        lemma_filter_front(s.drop_last(), x, p);
        assert(all.drop_last() =~= seq![x] + s.drop_last());
        assert(all.last() == s.last());
        assert(all.filter(p) =~= if p(x) {
            seq![x] + s.filter(p)
        } else {
            s.filter(p)
        });
    }
}

/// Putting `z` into a sequence in order puts it before those that are ranked
/// like `x`, where it is ranked so itself, and else keeps them.
proof fn lemma_put_filter<T: Ranked>(s: Seq<T::V>, z: T::V, x: T::V)
    ensures
        put_in_order::<T>(s, z).filter(|y: T::V| T::rank_le(x, y) && T::rank_le(y, x)) == (
        seq![z] + s).filter(|y: T::V| T::rank_le(x, y) && T::rank_le(y, x)),
    decreases s.len(),
{
    let p = |y: T::V| T::rank_le(x, y) && T::rank_le(y, x);
    if s.len() > 0 && !T::rank_le(z, s[0]) {
        let t = s.skip(1);
        lemma_put_filter::<T>(t, z, x);
        lemma_filter_front(put_in_order::<T>(t, z), s[0], p);
        lemma_filter_front(t, z, p);
        lemma_filter_front(t, s[0], p);
        lemma_filter_front(s, z, p);
        assert(seq![s[0]] + t =~= s);
        if p(z) && p(s[0]) {
            T::rank_trans(z, x, s[0]);
        }
    }
}

/// Where no two different elements are ranked alike, the sorted sequence depends
/// on the elements alone, not on the order in which they came.
pub proof fn law_sort_ignores_order<T: Ranked>(a: Seq<T::V>, b: Seq<T::V>)
    requires
        a.to_multiset() == b.to_multiset(),
        forall|x: T::V, y: T::V| #[trigger]
            T::rank_le(x, y) && #[trigger] T::rank_le(y, x) ==> x == y,
    ensures
        stable_sort::<T>(a) == stable_sort::<T>(b),
{
    law_sort::<T>(a);
    law_sort::<T>(b);
    lemma_ordered_unique::<T>(stable_sort::<T>(a), stable_sort::<T>(b));
}

/// Two sequences in order with the same elements are the same.
proof fn lemma_ordered_unique<T: Ranked>(a: Seq<T::V>, b: Seq<T::V>)
    requires
        in_order::<T>(a),
        in_order::<T>(b),
        a.to_multiset() == b.to_multiset(),
        forall|x: T::V, y: T::V| #[trigger]
            T::rank_le(x, y) && #[trigger] T::rank_le(y, x) ==> x == y,
    ensures
        a == b,
    decreases a.len(),
{
    broadcast use vstd::seq_lib::group_to_multiset_ensures;

    assert(a.len() == a.to_multiset().len());
    assert(b.len() == b.to_multiset().len());
    if a.len() == 0 {
        assert(a =~= b);
    } else {
        let x = a.last();
        let y = b.last();
        assert(a.contains(x));
        assert(b.contains(y));
        assert(a.to_multiset().count(y) > 0);
        assert(b.to_multiset().count(x) > 0);
        assert(a.contains(y));
        assert(b.contains(x));
        let i = choose|i: int| 0 <= i < a.len() && a[i] == y;
        let j = choose|j: int| 0 <= j < b.len() && b[j] == x;
        T::rank_total(x, x);
        if i < a.len() - 1 {
            assert(T::rank_le(a[i], a[a.len() - 1]));
        }
        if j < b.len() - 1 {
            assert(T::rank_le(b[j], b[b.len() - 1]));
        }
        assert(x == y);
        let ra = a.drop_last();
        let rb = b.drop_last();
        assert(a =~= ra.push(x));
        assert(b =~= rb.push(x));
        assert(ra.to_multiset() =~= a.to_multiset().remove(x));
        assert(rb.to_multiset() =~= b.to_multiset().remove(x));
        assert forall|i: int, j: int| 0 <= i < j < ra.len() implies T::rank_le(
            #[trigger] ra[i],
            #[trigger] ra[j],
        ) by {
            assert(ra[i] == a[i] && ra[j] == a[j]);
        }
        assert forall|i: int, j: int| 0 <= i < j < rb.len() implies T::rank_le(
            #[trigger] rb[i],
            #[trigger] rb[j],
        ) by {
            assert(rb[i] == b[i] && rb[j] == b[j]);
        }
        lemma_ordered_unique::<T>(ra, rb);
    }
}

/// How many elements of `v` stand before `x`: the first of the others is one
/// that `x` may precede.
fn place_of<T: Ranked>(v: &Vec<T>, x: &T) -> (r: usize)
    requires
        in_order::<T>(views(v@)),
    ensures
        r <= v.len(),
        put_in_order::<T>(views(v@), x@) == views(v@).insert(r as int, x@),
{
    let ghost s = views(v@);
    let mut a: usize = 0;
    let mut b: usize = v.len();
    while a < b
        invariant
            a <= b <= v.len(),
            s == views(v@),
            in_order::<T>(s),
            forall|j: int| 0 <= j < a ==> !T::rank_le(x@, #[trigger] s[j]),
            forall|j: int| b <= j < s.len() ==> T::rank_le(x@, #[trigger] s[j]),
        decreases b - a,
    {
        let m: usize = a + (b - a) / 2;
        assert(s[m as int] == v@[m as int]@);
        if x.may_precede(&v[m]) {
            proof {
                assert forall|j: int| m <= j < s.len() implies T::rank_le(x@, #[trigger] s[j]) by {
                    if j > m {
                        T::rank_trans(x@, s[m as int], s[j]);
                    }
                }
            }
            b = m;
        } else {
            proof {
                assert forall|j: int| 0 <= j <= m implies !T::rank_le(x@, #[trigger] s[j]) by {
                    if j < m && T::rank_le(x@, s[j]) {
                        T::rank_trans(x@, s[j], s[m as int]);
                    }
                }
            }
            a = m + 1;
        }
    }
    proof {
        lemma_put_at::<T>(s, x@, a as int);
    }
    a
}

/// Computes [`stable_sort`].
pub fn sorted<T: Ranked>(v: Vec<T>) -> (r: Vec<T>)
    ensures
        views(r@) == stable_sort::<T>(views(v@)),
{
    let mut rest = v;
    let mut out: Vec<T> = Vec::new();
    let ghost all = views(v@);
    assert(all.skip(all.len() as int) =~= Seq::empty());
    assert(views(out@) =~= Seq::empty());
    assert(stable_sort::<T>(Seq::<T::V>::empty()) =~= Seq::empty());
    while rest.len() > 0
        invariant
            rest@.len() <= all.len(),
            views(rest@) == all.take(rest@.len() as int),
            views(out@) == stable_sort::<T>(all.skip(rest@.len() as int)),
        decreases rest.len(),
    {
        let ghost n = rest@.len() - 1;
        let ghost before = rest@;
        match rest.pop() {
            Some(x) => {
                assert(x@ == views(before)[n]);
                assert(x@ == all[n]);
                assert(views(rest@) =~= all.take(n));
                proof {
                    law_sort::<T>(all.skip(n + 1));
                }
                let k = place_of(&out, &x);
                let ghost old_out = out@;
                out.insert(k, x);
                assert(views(out@) =~= views(old_out).insert(k as int, x@));
                assert(all.skip(n).skip(1) =~= all.skip(n + 1));
                assert(all.skip(n)[0] == all[n]);
            },
            None => {},
        }
    }
    assert(all.skip(0) =~= all);
    out
}

impl Ranked for String {
    open spec fn rank_le(a: Seq<char>, b: Seq<char>) -> bool {
        text_le(a, b)
    }

    proof fn rank_total(a: Seq<char>, b: Seq<char>) {
        lemma_text_trichotomy(a, b);
    }

    proof fn rank_trans(a: Seq<char>, b: Seq<char>, c: Seq<char>) {
        lemma_text_trichotomy(a, b);
        lemma_text_trichotomy(b, c);
        lemma_text_trichotomy(a, c);
        if text_lt(c, a) {
            if text_lt(a, b) {
                lemma_text_trans(c, a, b);
            }
        }
    }

    fn may_precede(&self, other: &Self) -> (r: bool) {
        !text_less(other.as_str(), self.as_str())
    }
}

/// The texts in `s`, in order.
pub open spec fn sorted_texts(s: Seq<Seq<char>>) -> Seq<Seq<char>> {
    stable_sort::<String>(s)
}

/// Computes [`sorted_texts`].
pub fn sort_texts(v: Vec<String>) -> (r: Vec<String>)
    ensures
        text::texts(r@) == sorted_texts(text::texts(v@)),
{
    let ghost all = v@;
    let r = sorted(v);
    assert(views(all) =~= text::texts(all));
    assert(views(r@) =~= text::texts(r@));
    r
}

/// Sorted texts do not depend on the order in which the texts came.
pub proof fn law_sorted_texts_ignore_order(a: Seq<Seq<char>>, b: Seq<Seq<char>>)
    requires
        a.to_multiset() == b.to_multiset(),
    ensures
        sorted_texts(a) == sorted_texts(b),
{
    assert forall|x: Seq<char>, y: Seq<char>| #[trigger]
        String::rank_le(x, y) && #[trigger] String::rank_le(y, x) implies x == y by {
        lemma_text_trichotomy(x, y);
    }
    law_sort_ignores_order::<String>(a, b);
}

// ---------------------------------------------------------------------------
// Tables with text keys.

/// The rows of a table: keys and values.
pub open spec fn rows<T: View>(s: Seq<(String, T)>) -> Seq<(Seq<char>, T::V)> {
    Seq::new(s.len(), |i: int| (s[i].0@, s[i].1@))
}

/// The keys of the rows increase.
pub open spec fn keys_increase<V>(s: Seq<(Seq<char>, V)>) -> bool {
    forall|i: int, j: int| 0 <= i < j < s.len() ==> text_lt((#[trigger] s[i]).0, (#[trigger] s[j]).0)
}

/// The rows with the value of `k` set to `v`.
pub open spec fn put<V>(s: Seq<(Seq<char>, V)>, k: Seq<char>, v: V) -> Seq<(Seq<char>, V)>
    decreases s.len(),
{
    if s.len() == 0 || text_lt(k, s[0].0) {
        seq![(k, v)] + s
    } else if s[0].0 == k {
        seq![(k, v)] + s.skip(1)
    } else {
        seq![s[0]] + put(s.skip(1), k, v)
    }
}

/// The value of `k`.
pub open spec fn get<V>(s: Seq<(Seq<char>, V)>, k: Seq<char>) -> Option<V>
    decreases s.len(),
{
    if s.len() == 0 {
        None
    } else if s[0].0 == k {
        Some(s[0].1)
    } else {
        get(s.skip(1), k)
    }
}

/// A value that was put is the value that is found; the values of other keys
/// stay.
pub proof fn law_get_after_put<V>(s: Seq<(Seq<char>, V)>, k: Seq<char>, v: V, other: Seq<char>)
    ensures
        get(put(s, k, v), k) == Some(v),
        other != k ==> get(put(s, k, v), other) == get(s, other),
    decreases s.len(),
{
    if s.len() == 0 || text_lt(k, s[0].0) {
        assert((seq![(k, v)] + s).skip(1) =~= s);
    } else if s[0].0 == k {
        assert((seq![(k, v)] + s.skip(1)).skip(1) =~= s.skip(1));
    } else {
        law_get_after_put(s.skip(1), k, v, other);
        assert((seq![s[0]] + put(s.skip(1), k, v)).skip(1) =~= put(s.skip(1), k, v));
    }
}

/// Putting a value keeps the keys in order.
pub proof fn law_put_keeps_order<V>(s: Seq<(Seq<char>, V)>, k: Seq<char>, v: V)
    requires
        keys_increase(s),
    ensures
        keys_increase(put(s, k, v)),
{
    lemma_put_order(s, k, v);
}

/// Putting a value keeps the keys in order, and behind every key that stands
/// before them and before the new one.
proof fn lemma_put_order<V>(s: Seq<(Seq<char>, V)>, k: Seq<char>, v: V)
    requires
        keys_increase(s),
    ensures
        keys_increase(put(s, k, v)),
        forall|y: Seq<char>| text_lt(y, k) && (forall|i: int| 0 <= i < s.len() ==> text_lt(y, (#[trigger] s[i]).0))
            ==> forall|i: int|
            0 <= i < put(s, k, v).len() ==> text_lt(y, (#[trigger] put(s, k, v)[i]).0),
    decreases s.len(),
{
    let r = put(s, k, v);
    if s.len() == 0 || text_lt(k, s[0].0) {
        assert forall|i: int, j: int| 0 <= i < j < r.len() implies text_lt(
            (#[trigger] r[i]).0,
            (#[trigger] r[j]).0,
        ) by {
            assert(r[j] == s[j - 1]);
            if i == 0 {
                if j > 1 {
                    assert(text_lt(s[0].0, s[j - 1].0));
                    lemma_text_trans(k, s[0].0, s[j - 1].0);
                }
            } else {
                assert(r[i] == s[i - 1]);
            }
        }
        assert forall|y: Seq<char>|
            text_lt(y, k) && (forall|i: int| 0 <= i < s.len() ==> text_lt(y, (#[trigger] s[i]).0)) implies forall|
            i: int,
        | 0 <= i < r.len() ==> text_lt(y, (#[trigger] r[i]).0) by {
            assert forall|i: int| 0 <= i < r.len() implies text_lt(y, (#[trigger] r[i]).0) by {
                if i > 0 {
                    assert(r[i] == s[i - 1]);
                }
            }
        }
    } else if s[0].0 == k {
        assert forall|i: int, j: int| 0 <= i < j < r.len() implies text_lt(
            (#[trigger] r[i]).0,
            (#[trigger] r[j]).0,
        ) by {
            assert(r[j] == s[j]);
            assert(r[i].0 == s[i].0);
        }
        assert forall|y: Seq<char>|
            text_lt(y, k) && (forall|i: int| 0 <= i < s.len() ==> text_lt(y, (#[trigger] s[i]).0)) implies forall|
            i: int,
        | 0 <= i < r.len() ==> text_lt(y, (#[trigger] r[i]).0) by {
            assert forall|i: int| 0 <= i < r.len() implies text_lt(y, (#[trigger] r[i]).0) by {
                assert(r[i].0 == s[i].0);
            }
        }
    } else {
        let t = s.skip(1);
        assert forall|i: int, j: int| 0 <= i < j < t.len() implies text_lt(
            (#[trigger] t[i]).0,
            (#[trigger] t[j]).0,
        ) by {
            assert(t[i] == s[i + 1] && t[j] == s[j + 1]);
        }
        lemma_put_order(t, k, v);
        lemma_text_trichotomy(k, s[0].0);
        let inner = put(t, k, v);
        assert forall|i: int| 0 <= i < t.len() implies text_lt(s[0].0, (#[trigger] t[i]).0) by {
            assert(t[i] == s[i + 1]);
        }
        assert(forall|i: int| 0 <= i < inner.len() ==> text_lt(s[0].0, (#[trigger] inner[i]).0));
        assert forall|i: int, j: int| 0 <= i < j < r.len() implies text_lt(
            (#[trigger] r[i]).0,
            (#[trigger] r[j]).0,
        ) by {
            assert(r[j] == inner[j - 1]);
            if i > 0 {
                assert(r[i] == inner[i - 1]);
            }
        }
        assert forall|y: Seq<char>|
            text_lt(y, k) && (forall|i: int| 0 <= i < s.len() ==> text_lt(y, (#[trigger] s[i]).0)) implies forall|
            i: int,
        | 0 <= i < r.len() ==> text_lt(y, (#[trigger] r[i]).0) by {
            assert(text_lt(y, s[0].0));
            assert forall|i: int| 0 <= i < t.len() implies text_lt(y, (#[trigger] t[i]).0) by {
                assert(t[i] == s[i + 1]);
            }
            assert(forall|i: int| 0 <= i < inner.len() ==> text_lt(y, (#[trigger] inner[i]).0));
            assert forall|i: int| 0 <= i < r.len() implies text_lt(y, (#[trigger] r[i]).0) by {
                if i > 0 {
                    assert(r[i] == inner[i - 1]);
                }
            }
        }
    }
}

/// Where the rows before `i` have smaller keys, and the row at `i` has the key
/// `k` or a greater one, `k` is put there.
proof fn lemma_put_row_at<V>(s: Seq<(Seq<char>, V)>, k: Seq<char>, v: V, i: int)
    requires
        0 <= i <= s.len(),
        forall|j: int| 0 <= j < i ==> text_lt((#[trigger] s[j]).0, k),
        i < s.len() ==> s[i].0 == k || text_lt(k, s[i].0),
    ensures
        put(s, k, v) == (if i < s.len() && s[i].0 == k {
            s.update(i, (k, v))
        } else {
            s.insert(i, (k, v))
        }),
    decreases i,
{
    if i == 0 {
        if s.len() > 0 && s[0].0 == k {
            lemma_text_trichotomy(k, k);
            assert(seq![(k, v)] + s.skip(1) =~= s.update(0, (k, v)));
        } else {
            assert(seq![(k, v)] + s =~= s.insert(0, (k, v)));
        }
    } else {
        let t = s.skip(1);
        lemma_text_trichotomy(s[0].0, k);
        assert forall|j: int| 0 <= j < i - 1 implies text_lt((#[trigger] t[j]).0, k) by {
            assert(t[j] == s[j + 1]);
        }
        lemma_put_row_at(t, k, v, i - 1);
        if i < s.len() && s[i].0 == k {
            assert(seq![s[0]] + t.update(i - 1, (k, v)) =~= s.update(i, (k, v)));
        } else {
            assert(seq![s[0]] + t.insert(i - 1, (k, v)) =~= s.insert(i, (k, v)));
        }
    }
}

/// Where the rows before `i` have smaller keys, and the row at `i` has the key
/// `k` or it and all behind it have greater ones, the value of `k` is that at
/// `i` or there is none.
proof fn lemma_get_row_at<V>(s: Seq<(Seq<char>, V)>, k: Seq<char>, i: int)
    requires
        0 <= i <= s.len(),
        forall|j: int| 0 <= j < i ==> text_lt((#[trigger] s[j]).0, k),
        (i < s.len() && s[i].0 == k) || (forall|j: int|
            i <= j < s.len() ==> text_lt(k, (#[trigger] s[j]).0)),
    ensures
        get(s, k) == (if i < s.len() && s[i].0 == k {
            Some(s[i].1)
        } else {
            None
        }),
    decreases s.len(),
{
    if s.len() > 0 {
        lemma_text_trichotomy(s[0].0, k);
        lemma_text_trichotomy(k, s[0].0);
        let t = s.skip(1);
        if i == 0 {
            if s[0].0 != k {
                assert forall|j: int| 0 <= j < t.len() implies text_lt(k, (#[trigger] t[j]).0) by {
                    assert(t[j] == s[j + 1]);
                }
                lemma_text_trichotomy(k, k);
                lemma_get_row_at(t, k, 0);
                if t.len() > 0 {
                    assert(text_lt(k, t[0].0));
                    lemma_text_trichotomy(k, t[0].0);
                }
            }
        } else {
            assert forall|j: int| 0 <= j < i - 1 implies text_lt((#[trigger] t[j]).0, k) by {
                assert(t[j] == s[j + 1]);
            }
            if !(i < s.len() && s[i].0 == k) {
                assert forall|j: int| i - 1 <= j < t.len() implies text_lt(
                    k,
                    (#[trigger] t[j]).0,
                ) by {
                    assert(t[j] == s[j + 1]);
                }
            }
            lemma_get_row_at(t, k, i - 1);
        }
    }
}

/// Where the row of `k` stands, or where it would be put.
fn row_place<T: View>(v: &Vec<(String, T)>, k: &str) -> (r: (usize, bool))
    requires
        keys_increase(rows(v@)),
    ensures
        r.0 <= v.len(),
        r.1 == (r.0 < v.len() && rows(v@)[r.0 as int].0 == k@),
        forall|j: int| 0 <= j < r.0 ==> text_lt((#[trigger] rows(v@)[j]).0, k@),
        r.1 || (forall|j: int| r.0 <= j < v.len() ==> text_lt(k@, (#[trigger] rows(v@)[j]).0)),
{
    let ghost s = rows(v@);
    let mut a: usize = 0;
    let mut b: usize = v.len();
    while a < b
        invariant
            a <= b <= v.len(),
            s == rows(v@),
            keys_increase(s),
            forall|j: int| 0 <= j < a ==> text_lt((#[trigger] s[j]).0, k@),
            forall|j: int| b <= j < s.len() ==> text_lt(k@, (#[trigger] s[j]).0),
        decreases b - a,
    {
        let m: usize = a + (b - a) / 2;
        assert(s[m as int].0 == v@[m as int].0@);
        if text_less(v[m].0.as_str(), k) {
            proof {
                assert forall|j: int| 0 <= j <= m implies text_lt((#[trigger] s[j]).0, k@) by {
                    if j < m {
                        lemma_text_trans(s[j].0, s[m as int].0, k@);
                    }
                }
            }
            a = m + 1;
        } else if text_less(k, v[m].0.as_str()) {
            proof {
                assert forall|j: int| m <= j < s.len() implies text_lt(k@, (#[trigger] s[j]).0) by {
                    if j > m {
                        lemma_text_trans(k@, s[m as int].0, s[j].0);
                    }
                }
            }
            b = m;
        } else {
            proof {
                lemma_text_trichotomy(s[m as int].0, k@);
                assert forall|j: int| 0 <= j < m implies text_lt((#[trigger] s[j]).0, k@) by {
                    assert(text_lt(s[j].0, s[m as int].0));
                }
            }
            return (m, true);
        }
    }
    proof {
        if a < s.len() {
            assert(text_lt(k@, s[a as int].0));
            lemma_text_trichotomy(k@, s[a as int].0);
        }
    }
    (a, false)
}

/// Sets the value of `k`, as [`put`] says.
pub fn put_row<T: View>(v: &mut Vec<(String, T)>, k: &str, x: T)
    requires
        keys_increase(rows(old(v)@)),
    ensures
        rows(final(v)@) == put(rows(old(v)@), k@, x@),
        keys_increase(rows(final(v)@)),
{
    let (i, found) = row_place(v, k);
    let ghost before = rows(v@);
    let ghost xv = x@;
    proof {
        lemma_put_row_at(before, k@, xv, i as int);
        lemma_put_order(before, k@, xv);
    }
    let key = copy_text(k);
    if found {
        v.set(i, (key, x));
        assert(rows(v@) =~= before.update(i as int, (k@, xv)));
    } else {
        v.insert(i, (key, x));
        assert(rows(v@) =~= before.insert(i as int, (k@, xv)));
    }
}

/// The index of the row of `k`.
pub fn find_row<T: View>(v: &Vec<(String, T)>, k: &str) -> (r: Option<usize>)
    requires
        keys_increase(rows(v@)),
    ensures
        match r {
            Some(i) => i < v.len() && v@[i as int].0@ == k@ && get(rows(v@), k@) == Some(
                v@[i as int].1@,
            ),
            None => get(rows(v@), k@) is None,
        },
{
    let (i, found) = row_place(v, k);
    proof {
        lemma_get_row_at(rows(v@), k@, i as int);
    }
    if found {
        Some(i)
    } else {
        None
    }
}

// ---------------------------------------------------------------------------
// Sets of texts.

/// The texts increase, so none occurs twice.
pub open spec fn texts_increase(s: Seq<Seq<char>>) -> bool {
    forall|i: int, j: int| 0 <= i < j < s.len() ==> text_lt(#[trigger] s[i], #[trigger] s[j])
}

/// The increasing texts `s` with `k` among them.
pub open spec fn with_text(s: Seq<Seq<char>>, k: Seq<char>) -> Seq<Seq<char>>
    decreases s.len(),
{
    if s.len() == 0 || text_lt(k, s[0]) {
        seq![k] + s
    } else if s[0] == k {
        s
    } else {
        seq![s[0]] + with_text(s.skip(1), k)
    }
}

/// `s` without `k`.
pub open spec fn without_text(s: Seq<Seq<char>>, k: Seq<char>) -> Seq<Seq<char>>
    decreases s.len(),
{
    if s.len() == 0 {
        s
    } else if s[0] == k {
        without_text(s.skip(1), k)
    } else {
        seq![s[0]] + without_text(s.skip(1), k)
    }
}

/// A text that was added is in the set, other texts are in it as before, and the
/// texts still increase.
pub proof fn law_with_text(s: Seq<Seq<char>>, k: Seq<char>, x: Seq<char>)
    requires
        texts_increase(s),
    ensures
        with_text(s, k).contains(x) <==> (s.contains(x) || x == k),
        texts_increase(with_text(s, k)),
        with_text(s, k).len() > 0 && (with_text(s, k)[0] == k || (s.len() > 0 && with_text(s, k)[0]
            == s[0])),
    decreases s.len(),
{
    let r = with_text(s, k);
    if s.len() == 0 || text_lt(k, s[0]) {
        assert(r[0] == k);
        assert forall|i: int, j: int| 0 <= i < j < r.len() implies text_lt(
            #[trigger] r[i],
            #[trigger] r[j],
        ) by {
            assert(r[j] == s[j - 1]);
            if i > 0 {
                assert(r[i] == s[i - 1]);
            } else if j > 1 {
                assert(text_lt(s[0], s[j - 1]));
                lemma_text_trans(k, s[0], s[j - 1]);
            }
        }
        if s.contains(x) {
            let i = choose|i: int| 0 <= i < s.len() && s[i] == x;
            assert(r[i + 1] == x);
        }
        if r.contains(x) && x != k {
            let i = choose|i: int| 0 <= i < r.len() && r[i] == x;
            assert(s[i - 1] == x);
        }
    } else if s[0] == k {
        assert(s.contains(k));
    } else {
        let t = s.skip(1);
        assert forall|i: int, j: int| 0 <= i < j < t.len() implies text_lt(
            #[trigger] t[i],
            #[trigger] t[j],
        ) by {
            assert(t[i] == s[i + 1] && t[j] == s[j + 1]);
        }
        law_with_text(t, k, x);
        let inner = with_text(t, k);
        lemma_text_trichotomy(k, s[0]);
        if t.len() > 0 {
            assert(t[0] == s[1]);
            assert(text_lt(s[0], s[1]));
        }
        assert(text_lt(s[0], inner[0]));
        assert forall|i: int, j: int| 0 <= i < j < r.len() implies text_lt(
            #[trigger] r[i],
            #[trigger] r[j],
        ) by {
            assert(r[j] == inner[j - 1]);
            if i > 0 {
                assert(r[i] == inner[i - 1]);
            } else if j > 1 {
                assert(text_lt(inner[0], inner[j - 1]));
                lemma_text_trans(s[0], inner[0], inner[j - 1]);
            }
        }
        if s.contains(x) {
            let i = choose|i: int| 0 <= i < s.len() && s[i] == x;
            if i == 0 {
                assert(r[0] == x);
            } else {
                assert(t[i - 1] == x);
            }
        }
        if inner.contains(x) {
            let i = choose|i: int| 0 <= i < inner.len() && inner[i] == x;
            assert(r[i + 1] == x);
        }
        if t.contains(x) {
            let i = choose|i: int| 0 <= i < t.len() && t[i] == x;
            assert(s[i + 1] == x);
        }
        if r.contains(x) {
            let i = choose|i: int| 0 <= i < r.len() && r[i] == x;
            if i == 0 {
                assert(s[0] == x);
            } else {
                assert(inner[i - 1] == x);
            }
        }
    }
}

/// `y` stands before every text of `s`.
pub open spec fn all_above(s: Seq<Seq<char>>, y: Seq<char>) -> bool {
    forall|i: int| 0 <= i < s.len() ==> text_lt(y, #[trigger] s[i])
}

/// A text that was removed is not in the set, other texts are in it as before,
/// and the texts still increase.
pub proof fn law_without_text(s: Seq<Seq<char>>, k: Seq<char>, x: Seq<char>)
    requires
        texts_increase(s),
    ensures
        without_text(s, k).contains(x) <==> (s.contains(x) && x != k),
        texts_increase(without_text(s, k)),
        forall|y: Seq<char>| #[trigger] all_above(s, y) ==> all_above(without_text(s, k), y),
    decreases s.len(),
{
    if s.len() > 0 {
        let t = s.skip(1);
        assert forall|i: int, j: int| 0 <= i < j < t.len() implies text_lt(
            #[trigger] t[i],
            #[trigger] t[j],
        ) by {
            assert(t[i] == s[i + 1] && t[j] == s[j + 1]);
        }
        law_without_text(t, k, x);
        let inner = without_text(t, k);
        let r = without_text(s, k);
        assert forall|i: int| 0 <= i < t.len() implies text_lt(s[0], #[trigger] t[i]) by {
            assert(t[i] == s[i + 1]);
        }
        assert(all_above(t, s[0]));
        assert(all_above(inner, s[0]));
        if s[0] != k {
            assert forall|i: int, j: int| 0 <= i < j < r.len() implies text_lt(
                #[trigger] r[i],
                #[trigger] r[j],
            ) by {
                assert(r[j] == inner[j - 1]);
                if i > 0 {
                    assert(r[i] == inner[i - 1]);
                }
            }
            if inner.contains(x) {
                let i = choose|i: int| 0 <= i < inner.len() && inner[i] == x;
                assert(r[i + 1] == x);
            }
            if x == s[0] {
                assert(r[0] == x);
            }
            if r.contains(x) && x != s[0] {
                let i = choose|i: int| 0 <= i < r.len() && r[i] == x;
                assert(inner[i - 1] == x);
            }
        }
        if t.contains(x) {
            let i = choose|i: int| 0 <= i < t.len() && t[i] == x;
            assert(s[i + 1] == x);
        }
        if s.contains(x) && x != s[0] {
            let i = choose|i: int| 0 <= i < s.len() && s[i] == x;
            assert(t[i - 1] == x);
        }
        assert forall|y: Seq<char>| #[trigger] all_above(s, y) implies all_above(r, y) by {
            assert(text_lt(y, s[0]));
            assert forall|i: int| 0 <= i < t.len() implies text_lt(y, #[trigger] t[i]) by {
                assert(t[i] == s[i + 1]);
            }
            assert(all_above(t, y));
            assert(all_above(inner, y));
            assert forall|i: int| 0 <= i < r.len() implies text_lt(y, #[trigger] r[i]) by {
                if s[0] != k && i > 0 {
                    assert(r[i] == inner[i - 1]);
                }
            }
        }
    }
}

/// Adds a text to a set, as [`with_text`] says.
pub fn add_text(v: &mut Vec<String>, k: &str)
    ensures
        text::texts(final(v)@) == with_text(text::texts(old(v)@), k@),
{
    let ghost s = text::texts(v@);
    let mut i: usize = 0;
    assert(s.skip(0) =~= s);
    assert(s.take(0) + with_text(s.skip(0), k@) =~= with_text(s, k@));
    while i < v.len()
        invariant
            i <= v.len(),
            text::texts(v@) == s,
            with_text(s, k@) == s.take(i as int) + with_text(s.skip(i as int), k@),
        ensures
            i < v.len() ==> text_lt(k@, s[i as int]),
        decreases v.len() - i,
    {
        assert(s[i as int] == v@[i as int]@);
        if text_less(k, v[i].as_str()) {
            break;
        }
        if crate::text::same_text(v[i].as_str(), k) {
            assert(s.take(i as int) + s.skip(i as int) =~= s);
            return;
        }
        assert(s.skip(i as int).skip(1) =~= s.skip(i + 1));
        assert(s.take(i as int) + (seq![s[i as int]] + with_text(s.skip(i + 1), k@)) =~= s.take(
            i + 1,
        ) + with_text(s.skip(i + 1), k@));
        i += 1;
    }
    let key = copy_text(k);
    v.insert(i, key);
    assert(text::texts(v@) =~= s.insert(i as int, k@));
    assert(s.take(i as int) + (seq![k@] + s.skip(i as int)) =~= s.insert(i as int, k@));
}

/// Removes a text from a set, as [`without_text`] says.
pub fn remove_text(v: &Vec<String>, k: &str) -> (r: Vec<String>)
    ensures
        text::texts(r@) == without_text(text::texts(v@), k@),
{
    let ghost s = text::texts(v@);
    let mut out: Vec<String> = Vec::new();
    let mut i: usize = 0;
    assert(s.skip(0) =~= s);
    assert(text::texts(out@) + without_text(s, k@) =~= without_text(s, k@));
    while i < v.len()
        invariant
            i <= v.len(),
            text::texts(v@) == s,
            without_text(s, k@) == text::texts(out@) + without_text(s.skip(i as int), k@),
        decreases v.len() - i,
    {
        assert(s[i as int] == v@[i as int]@);
        assert(s.skip(i as int).skip(1) =~= s.skip(i + 1));
        if !crate::text::same_text(v[i].as_str(), k) {
            let ghost before = out@;
            out.push(copy_text(v[i].as_str()));
            assert(text::texts(out@) =~= text::texts(before).push(s[i as int]));
            assert(text::texts(before) + (seq![s[i as int]] + without_text(s.skip(i + 1), k@))
                =~= text::texts(out@) + without_text(s.skip(i + 1), k@));
        }
        i += 1;
    }
    assert(s.skip(i as int).len() == 0);
    assert(text::texts(out@) + without_text(s.skip(i as int), k@) =~= text::texts(out@));
    out
}

// ---------------------------------------------------------------------------
// More laws.

/// In a table every row is found by its key, and what is found is a row.
pub proof fn law_rows_are_found<V>(s: Seq<(Seq<char>, V)>, k: Seq<char>)
    requires
        keys_increase(s),
    ensures
        forall|i: int| 0 <= i < s.len() && (#[trigger] s[i]).0 == k ==> get(s, k) == Some(s[i].1),
        get(s, k) matches Some(v) ==> exists|i: int|
            0 <= i < s.len() && #[trigger] s[i] == (k, v),
        (forall|i: int| 0 <= i < s.len() ==> (#[trigger] s[i]).0 != k) ==> get(s, k) is None,
    decreases s.len(),
{
    if s.len() > 0 {
        let t = s.skip(1);
        assert forall|i: int, j: int| 0 <= i < j < t.len() implies text_lt(
            (#[trigger] t[i]).0,
            (#[trigger] t[j]).0,
        ) by {
            assert(t[i] == s[i + 1] && t[j] == s[j + 1]);
        }
        law_rows_are_found(t, k);
        assert forall|i: int| 0 <= i < s.len() && (#[trigger] s[i]).0 == k implies get(s, k)
            == Some(s[i].1) by {
            if i > 0 {
                assert(text_lt(s[0].0, s[i].0));
                lemma_text_trichotomy(s[0].0, s[i].0);
                assert(t[i - 1] == s[i]);
            }
        }
        if get(s, k) is Some {
            let v = get(s, k).unwrap();
            if s[0].0 == k {
                assert(s[0] == (k, v));
            } else {
                let i = choose|i: int| 0 <= i < t.len() && #[trigger] t[i] == (k, v);
                assert(s[i + 1] == (k, v));
            }
        }
        if forall|i: int| 0 <= i < s.len() ==> (#[trigger] s[i]).0 != k {
            assert(s[0].0 != k);
            assert forall|i: int| 0 <= i < t.len() implies (#[trigger] t[i]).0 != k by {
                assert(s[i + 1].0 != k);
            }
        }
    }
}

/// Putting a value adds a row for a new key and none for a known one.
pub proof fn law_put_adds_one_row<V>(s: Seq<(Seq<char>, V)>, k: Seq<char>, v: V)
    requires
        keys_increase(s),
    ensures
        put(s, k, v).len() == s.len() + (if get(s, k) is Some {
            0int
        } else {
            1int
        }),
    decreases s.len(),
{
    if s.len() > 0 {
        let t = s.skip(1);
        assert forall|i: int, j: int| 0 <= i < j < t.len() implies text_lt(
            (#[trigger] t[i]).0,
            (#[trigger] t[j]).0,
        ) by {
            assert(t[i] == s[i + 1] && t[j] == s[j + 1]);
        }
        if text_lt(k, s[0].0) {
            assert forall|i: int| 0 <= i < s.len() implies (#[trigger] s[i]).0 != k by {
                lemma_text_trichotomy(k, s[i].0);
                if i > 0 {
                    assert(text_lt(s[0].0, s[i].0));
                    lemma_text_trans(k, s[0].0, s[i].0);
                }
            }
            law_rows_are_found(s, k);
        } else if s[0].0 != k {
            law_put_adds_one_row(t, k, v);
        }
    }
}

/// Texts are ordered by their first difference: a text stands before every text that
/// goes on from it, and of two texts that differ in a character the one with the
/// smaller character stands first, whatever follows.
pub proof fn law_text_order(
    p: Seq<char>,
    c: char,
    d: char,
    x: Seq<char>,
    y: Seq<char>,
)
    ensures
        text_lt(p, p + seq![c] + x),
        c < d ==> text_lt(p + seq![c] + x, p + seq![d] + y),
    decreases p.len(),
{
    let a = p + seq![c] + x;
    let b = p + seq![d] + y;
    if p.len() > 0 {
        law_text_order(p.skip(1), c, d, x, y);
        assert(a.skip(1) =~= p.skip(1) + seq![c] + x);
        assert(b.skip(1) =~= p.skip(1) + seq![d] + y);
        assert(a[0] == p[0] && b[0] == p[0]);
    } else {
        assert(a[0] == c && b[0] == d);
    }
}

} // verus!
