//! The order of paths: by their components.
use vstd::prelude::*;
use vstd::string::*;

use crate::fspath;
use crate::fspath::{Component, Part};
use crate::order;
use crate::order::Ranked;
use crate::text;
use crate::text::copy_text;

verus! {

/// The place of a kind of component: the root, `.`, `..`, then names.
pub open spec fn part_rank(p: Part) -> int {
    match p {
        Part::Root => 0,
        Part::Cur => 1,
        Part::Up => 2,
        Part::Name(_) => 3,
    }
}

/// `a` stands before `b`.
pub open spec fn part_lt(a: Part, b: Part) -> bool {
    match (a, b) {
        (Part::Name(x), Part::Name(y)) => order::text_lt(x, y),
        _ => part_rank(a) < part_rank(b),
    }
}

/// The components `a` stand before the components `b`.
pub open spec fn parts_lt(a: Seq<Part>, b: Seq<Part>) -> bool
    decreases a.len(),
{
    if b.len() == 0 {
        false
    } else if a.len() == 0 {
        true
    } else if a[0] == b[0] {
        parts_lt(a.skip(1), b.skip(1))
    } else {
        part_lt(a[0], b[0])
    }
}

proof fn lemma_part_order(a: Part, b: Part)
    ensures
        part_lt(a, b) ==> !part_lt(b, a) && a != b,
        a != b ==> part_lt(a, b) || part_lt(b, a),
{
    match (a, b) {
        (Part::Name(x), Part::Name(y)) => {
            order::lemma_text_trichotomy(x, y);
        },
        _ => {},
    }
}

proof fn lemma_part_trans(a: Part, b: Part, c: Part)
    requires
        part_lt(a, b),
        part_lt(b, c),
    ensures
        part_lt(a, c),
{
    match (a, b, c) {
        (Part::Name(x), Part::Name(y), Part::Name(z)) => {
            order::lemma_text_trans(x, y, z);
        },
        _ => {},
    }
}

/// Of two lists of components exactly one stands before the other, unless they
/// are the same.
pub proof fn lemma_parts_trichotomy(a: Seq<Part>, b: Seq<Part>)
    ensures
        parts_lt(a, b) ==> !parts_lt(b, a) && a != b,
        a != b ==> parts_lt(a, b) || parts_lt(b, a),
        !parts_lt(a, a),
    decreases a.len(),
{
    if a.len() > 0 {
        lemma_parts_trichotomy(a.skip(1), a.skip(1));
        if b.len() > 0 {
            lemma_part_order(a[0], b[0]);
            lemma_parts_trichotomy(a.skip(1), b.skip(1));
            if a[0] == b[0] && a.skip(1) == b.skip(1) {
                assert(a =~= seq![a[0]] + a.skip(1));
                assert(b =~= seq![b[0]] + b.skip(1));
            }
        }
    } else if b.len() == 0 {
        assert(a =~= b);
    }
}

proof fn lemma_parts_trans(a: Seq<Part>, b: Seq<Part>, c: Seq<Part>)
    requires
        parts_lt(a, b),
        parts_lt(b, c),
    ensures
        parts_lt(a, c),
    decreases a.len(),
{
    if a.len() > 0 {
        lemma_part_order(a[0], b[0]);
        lemma_part_order(b[0], c[0]);
        lemma_part_order(a[0], c[0]);
        if a[0] == b[0] && b[0] == c[0] {
            lemma_parts_trans(a.skip(1), b.skip(1), c.skip(1));
        } else if a[0] != b[0] && b[0] != c[0] {
            lemma_part_trans(a[0], b[0], c[0]);
        }
    }
}

/// A path that is ordered by its components.
#[derive(Debug)]
pub struct PathText {
    pub path: String,
}

impl View for PathText {
    type V = Seq<char>;

    open spec fn view(&self) -> Seq<char> {
        self.path@
    }
}

/// Decides [`part_lt`].
fn component_less(a: &Component, b: &Component) -> (r: bool)
    ensures
        r == part_lt(a@, b@),
{
    match (a, b) {
        (Component::Name(x), Component::Name(y)) => order::text_less(x.as_str(), y.as_str()),
        _ => rank_of(a) < rank_of(b),
    }
}

/// Computes [`part_rank`].
fn rank_of(c: &Component) -> (r: u8)
    ensures
        r == part_rank(c@),
{
    match c {
        Component::Root => 0,
        Component::Cur => 1,
        Component::Up => 2,
        Component::Name(_) => 3,
    }
}

/// Whether `a` stands before `b`.
pub fn path_less(a: &str, b: &str) -> (r: bool)
    ensures
        r == parts_lt(fspath::parts(a@), fspath::parts(b@)),
{
    let x = fspath::components(a);
    let y = fspath::components(b);
    let ghost p = fspath::parts(a@);
    let ghost q = fspath::parts(b@);
    let mut i: usize = 0;
    assert(p.skip(0) =~= p);
    assert(q.skip(0) =~= q);
    while i < x.len() && i < y.len()
        invariant
            i <= x.len(),
            i <= y.len(),
            fspath::part_views(x@) == p,
            fspath::part_views(y@) == q,
            parts_lt(p, q) == parts_lt(p.skip(i as int), q.skip(i as int)),
        ensures
            parts_lt(p, q) == parts_lt(p.skip(i as int), q.skip(i as int)),
            i <= x.len(),
            i <= y.len(),
            i < x.len() && i < y.len() ==> p[i as int] != q[i as int],
        decreases x.len() - i,
    {
        assert(p[i as int] == x@[i as int]@);
        assert(q[i as int] == y@[i as int]@);
        if !fspath::same_component(&x[i], &y[i]) {
            break;
        }
        assert(p.skip(i as int).skip(1) =~= p.skip(i + 1));
        assert(q.skip(i as int).skip(1) =~= q.skip(i + 1));
        i += 1;
    }
    assert(p.len() == x@.len());
    assert(q.len() == y@.len());
    if i >= y.len() {
        false
    } else if i >= x.len() {
        true
    } else {
        component_less(&x[i], &y[i])
    }
}

impl Ranked for PathText {
    open spec fn rank_le(a: Seq<char>, b: Seq<char>) -> bool {
        !parts_lt(fspath::parts(b), fspath::parts(a))
    }

    proof fn rank_total(a: Seq<char>, b: Seq<char>) {
        lemma_parts_trichotomy(fspath::parts(a), fspath::parts(b));
    }

    proof fn rank_trans(a: Seq<char>, b: Seq<char>, c: Seq<char>) {
        let x = fspath::parts(a);
        let y = fspath::parts(b);
        let z = fspath::parts(c);
        lemma_parts_trichotomy(x, y);
        lemma_parts_trichotomy(y, z);
        lemma_parts_trichotomy(x, z);
        if parts_lt(z, x) && parts_lt(x, y) {
            lemma_parts_trans(z, x, y);
        }
    }

    fn may_precede(&self, other: &Self) -> (r: bool) {
        !path_less(other.path.as_str(), self.path.as_str())
    }
}

/// `s` without the paths that have the components of the one before.
pub open spec fn without_repeats(s: Seq<Seq<char>>) -> Seq<Seq<char>>
    decreases s.len(),
{
    if s.len() == 0 {
        s
    } else {
        let rest = without_repeats(s.drop_last());
        if rest.len() > 0 && fspath::parts(rest.last()) == fspath::parts(s.last()) {
            rest
        } else {
            rest.push(s.last())
        }
    }
}

/// The paths in `s`, in order, each once.
pub open spec fn distinct_paths(s: Seq<Seq<char>>) -> Seq<Seq<char>> {
    without_repeats(order::stable_sort::<PathText>(s))
}

/// Computes [`distinct_paths`].
pub fn sort_paths(v: &Vec<String>) -> (r: Vec<String>)
    ensures
        text::texts(r@) == distinct_paths(text::texts(v@)),
{
    let mut paths: Vec<PathText> = Vec::new();
    let mut i: usize = 0;
    while i < v.len()
        invariant
            i <= v.len(),
            paths@.len() == i,
            forall|j: int| 0 <= j < i ==> #[trigger] paths@[j]@ == v@[j]@,
        decreases v.len() - i,
    {
        paths.push(PathText { path: copy_text(v[i].as_str()) });
        i += 1;
    }
    assert(order::views(paths@) =~= text::texts(v@));
    let sorted = order::sorted(paths);
    let ghost all = order::views(sorted@);
    let mut out: Vec<String> = Vec::new();
    let mut k: usize = 0;
    assert(all.take(0) =~= Seq::empty());
    assert(text::texts(out@) =~= Seq::empty());
    while k < sorted.len()
        invariant
            k <= sorted.len(),
            all == order::views(sorted@),
            text::texts(out@) == without_repeats(all.take(k as int)),
        decreases sorted.len() - k,
    {
        assert(all.take(k + 1).drop_last() =~= all.take(k as int));
        assert(all.take(k + 1).last() == sorted@[k as int]@);
        let path = sorted[k].path.as_str();
        let repeated = if out.len() > 0 {
            assert(text::texts(out@).last() == out@[out@.len() - 1]@);
            fspath::same_path(out[out.len() - 1].as_str(), path)
        } else {
            false
        };
        if !repeated {
            let ghost before = out@;
            out.push(copy_text(path));
            assert(text::texts(out@) =~= text::texts(before).push(path@));
        }
        k += 1;
    }
    assert(all.take(sorted.len() as int) =~= all);
    out
}

/// The distinct paths increase: each stands before those behind it, so no two
/// have the same components.
pub proof fn law_distinct_paths_increase(s: Seq<Seq<char>>)
    ensures
        forall|i: int, j: int|
            0 <= i < j < distinct_paths(s).len() ==> parts_lt(
                fspath::parts(#[trigger] distinct_paths(s)[i]),
                fspath::parts(#[trigger] distinct_paths(s)[j]),
            ),
{
    order::law_sort::<PathText>(s);
    lemma_repeats_increase(order::stable_sort::<PathText>(s));
}

proof fn lemma_repeats_increase(s: Seq<Seq<char>>)
    requires
        order::in_order::<PathText>(s),
    ensures
        forall|i: int, j: int|
            0 <= i < j < without_repeats(s).len() ==> parts_lt(
                fspath::parts(#[trigger] without_repeats(s)[i]),
                fspath::parts(#[trigger] without_repeats(s)[j]),
            ),
        s.len() > 0 ==> without_repeats(s).len() > 0 && fspath::parts(without_repeats(s).last())
            == fspath::parts(s.last()),
    decreases s.len(),
{
    if s.len() > 0 {
        let t = s.drop_last();
        assert forall|i: int, j: int| 0 <= i < j < t.len() implies PathText::rank_le(
            #[trigger] t[i],
            #[trigger] t[j],
        ) by {
            assert(t[i] == s[i] && t[j] == s[j]);
        }
        lemma_repeats_increase(t);
        let rest = without_repeats(t);
        let r = without_repeats(s);
        let x = s.last();
        if rest.len() > 0 && fspath::parts(rest.last()) != fspath::parts(x) {
            let y = s[s.len() - 2];
            assert(t.last() == y);
            assert(PathText::rank_le(s[s.len() - 2], s[s.len() - 1]));
            lemma_parts_trichotomy(fspath::parts(y), fspath::parts(x));
            assert(parts_lt(fspath::parts(rest.last()), fspath::parts(x)));
            assert forall|i: int, j: int| 0 <= i < j < r.len() implies parts_lt(
                fspath::parts(#[trigger] r[i]),
                fspath::parts(#[trigger] r[j]),
            ) by {
                if j < rest.len() {
                    assert(r[i] == rest[i] && r[j] == rest[j]);
                } else {
                    assert(r[i] == rest[i]);
                    if i < rest.len() - 1 {
                        assert(parts_lt(
                            fspath::parts(rest[i]),
                            fspath::parts(rest[rest.len() - 1]),
                        ));
                        lemma_parts_trans(
                            fspath::parts(rest[i]),
                            fspath::parts(rest.last()),
                            fspath::parts(x),
                        );
                    }
                }
            }
        }
    }
}

/// No path is lost: each has one with its components among the distinct ones, and all of
/// those are paths that were there.
pub proof fn law_distinct_paths_are_kept(s: Seq<Seq<char>>)
    ensures
        forall|i: int|
            0 <= i < s.len() ==> exists|k: int|
                0 <= k < distinct_paths(s).len() && fspath::parts(#[trigger] distinct_paths(s)[k])
                    == fspath::parts(#[trigger] s[i]),
        forall|k: int|
            0 <= k < distinct_paths(s).len() ==> s.contains(#[trigger] distinct_paths(s)[k]),
{
    broadcast use vstd::seq_lib::group_to_multiset_ensures;

    let t = order::stable_sort::<PathText>(s);
    order::law_sort::<PathText>(s);
    lemma_repeats_keep(t);
    assert forall|i: int| 0 <= i < s.len() implies exists|k: int|
        0 <= k < distinct_paths(s).len() && fspath::parts(#[trigger] distinct_paths(s)[k])
            == fspath::parts(#[trigger] s[i]) by {
        assert(s.to_multiset().count(s[i]) > 0);
        assert(t.contains(s[i]));
        let j = choose|j: int| 0 <= j < t.len() && t[j] == s[i];
        let k = choose|k: int|
            0 <= k < without_repeats(t).len() && fspath::parts(#[trigger] without_repeats(t)[k])
                == fspath::parts(t[j]);
        assert(fspath::parts(distinct_paths(s)[k]) == fspath::parts(s[i]));
    }
    assert forall|k: int| 0 <= k < distinct_paths(s).len() implies s.contains(
        #[trigger] distinct_paths(s)[k],
    ) by {
        assert(t.contains(distinct_paths(s)[k]));
        assert(t.to_multiset().count(distinct_paths(s)[k]) > 0);
    }
}

proof fn lemma_repeats_keep(t: Seq<Seq<char>>)
    ensures
        forall|i: int|
            0 <= i < t.len() ==> exists|k: int|
                0 <= k < without_repeats(t).len() && fspath::parts(
                    #[trigger] without_repeats(t)[k],
                ) == fspath::parts(#[trigger] t[i]),
        forall|k: int|
            0 <= k < without_repeats(t).len() ==> t.contains(#[trigger] without_repeats(t)[k]),
    decreases t.len(),
{
    if t.len() > 0 {
        let f = t.drop_last();
        let rest = without_repeats(f);
        let r = without_repeats(t);
        lemma_repeats_keep(f);
        assert forall|i: int| 0 <= i < t.len() implies exists|k: int|
            0 <= k < r.len() && fspath::parts(#[trigger] r[k]) == fspath::parts(
                #[trigger] t[i],
            ) by {
            if i < f.len() {
                assert(f[i] == t[i]);
                let k = choose|k: int|
                    0 <= k < rest.len() && fspath::parts(#[trigger] rest[k]) == fspath::parts(f[i]);
                assert(r[k] == rest[k]);
            } else {
                assert(fspath::parts(r[r.len() - 1]) == fspath::parts(t[i]));
            }
        }
        assert forall|k: int| 0 <= k < r.len() implies t.contains(#[trigger] r[k]) by {
            if k < rest.len() {
                assert(r[k] == rest[k]);
                assert(f.contains(rest[k]));
                let j = choose|j: int| 0 <= j < f.len() && f[j] == rest[k];
                assert(t[j] == r[k]);
            } else {
                assert(t[t.len() - 1] == r[k]);
            }
        }
    }
}

/// Paths are ordered by their first different component: the root comes before `.`, that
/// before `..`, and that before names, which are in the order of their texts. A path comes
/// before those below it.
pub proof fn law_path_order(
    p: Seq<Part>,
    x: Seq<char>,
    y: Seq<char>,
    a: Seq<Part>,
    b: Seq<Part>,
    d: Part,
)
    ensures
        x != y ==> (parts_lt(p + seq![Part::Name(x)] + a, p + seq![Part::Name(y)] + b)
            <==> order::text_lt(x, y)),
        parts_lt(p + seq![Part::Root] + a, p + seq![Part::Cur] + b),
        parts_lt(p + seq![Part::Cur] + a, p + seq![Part::Up] + b),
        parts_lt(p + seq![Part::Up] + a, p + seq![Part::Name(x)] + b),
        parts_lt(p, p + seq![d] + a),
        !parts_lt(p + seq![d] + a, p),
    decreases p.len(),
{
    if p.len() > 0 {
        let q = p.skip(1);
        law_path_order(q, x, y, a, b, d);
        assert((p + seq![Part::Name(x)] + a).skip(1) =~= q + seq![Part::Name(x)] + a);
        assert((p + seq![Part::Name(y)] + b).skip(1) =~= q + seq![Part::Name(y)] + b);
        assert((p + seq![Part::Name(x)] + b).skip(1) =~= q + seq![Part::Name(x)] + b);
        assert((p + seq![Part::Root] + a).skip(1) =~= q + seq![Part::Root] + a);
        assert((p + seq![Part::Cur] + b).skip(1) =~= q + seq![Part::Cur] + b);
        assert((p + seq![Part::Cur] + a).skip(1) =~= q + seq![Part::Cur] + a);
        assert((p + seq![Part::Up] + b).skip(1) =~= q + seq![Part::Up] + b);
        assert((p + seq![Part::Up] + a).skip(1) =~= q + seq![Part::Up] + a);
        assert((p + seq![d] + a).skip(1) =~= q + seq![d] + a);
        assert((p + seq![d] + a)[0] == p[0]);
    } else {
        assert((p + seq![Part::Name(x)] + a)[0] == Part::Name(x));
        assert((p + seq![Part::Name(y)] + b)[0] == Part::Name(y));
        assert((p + seq![d] + a).len() > 0);
    }
}

} // verus!
