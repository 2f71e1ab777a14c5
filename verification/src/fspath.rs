//! File system paths as texts with `/` between their components, with the
//! component rules of Unix paths: repeated separators and inner `.` components
//! do not count, a leading `.` does.
use vstd::prelude::*;
use vstd::slice::slice_subrange;
use vstd::string::*;

use crate::text;
use crate::text::{copy_text, same_text, text_of, to_chars};

verus! {

/// One component of a path.
pub enum Part {
    /// The leading `/`.
    Root,
    /// A leading `.`.
    Cur,
    /// `..`.
    Up,
    /// Any other name.
    Name(Seq<char>),
}

/// One component of a path, in executable code.
#[derive(Debug)]
pub enum Component {
    Root,
    Cur,
    Up,
    Name(String),
}

impl View for Component {
    type V = Part;

    open spec fn view(&self) -> Part {
        match self {
            Component::Root => Part::Root,
            Component::Cur => Part::Cur,
            Component::Up => Part::Up,
            Component::Name(s) => Part::Name(s@),
        }
    }
}

/// The components that a sequence of [`Component`] values stands for.
pub open spec fn part_views(v: Seq<Component>) -> Seq<Part> {
    Seq::new(v.len(), |i: int| v[i]@)
}

/// The component that one segment between separators gives: none for an empty
/// segment, and none for `.` unless it is the first segment of a relative path.
pub open spec fn segment_part(seg: Seq<char>, first: bool) -> Option<Part> {
    if seg.len() == 0 {
        None
    } else if seg == seq!['.'] {
        if first {
            Some(Part::Cur)
        } else {
            None
        }
    } else if seg == seq!['.', '.'] {
        Some(Part::Up)
    } else {
        Some(Part::Name(seg))
    }
}

/// The length of the first segment of `s`.
pub open spec fn seg_len(s: Seq<char>) -> int {
    text::char_index(s, '/')
}

/// What stands behind the first segment of `s` and its separator.
pub open spec fn seg_rest(s: Seq<char>) -> Seq<char> {
    if seg_len(s) < s.len() {
        s.skip(seg_len(s) + 1)
    } else {
        Seq::empty()
    }
}

/// The sequence that holds what an option holds.
pub open spec fn opt_seq(o: Option<Part>) -> Seq<Part> {
    match o {
        Some(p) => seq![p],
        None => Seq::empty(),
    }
}

/// The components of the relative text `s`.
pub open spec fn body_parts(s: Seq<char>, first: bool) -> Seq<Part>
    decreases s.len(),
    via seg_rest_shorter
{
    if s.len() == 0 {
        Seq::empty()
    } else {
        opt_seq(segment_part(s.take(seg_len(s)), first)) + body_parts(seg_rest(s), false)
    }
}

#[via_fn]
proof fn seg_rest_shorter(s: Seq<char>, first: bool) {
    text::lemma_char_index(s, '/');
}

/// `s` begins with a separator.
pub open spec fn rooted(s: Seq<char>) -> bool {
    s.len() > 0 && s[0] == '/'
}

/// The components of the path `s`.
pub open spec fn parts(s: Seq<char>) -> Seq<Part> {
    if rooted(s) {
        seq![Part::Root] + body_parts(s.skip(1), false)
    } else {
        body_parts(s, true)
    }
}

/// The components of `base` are the first components of `s`.
pub open spec fn starts_with(s: Seq<char>, base: Seq<char>) -> bool {
    parts(base).len() <= parts(s).len() && parts(s).take(parts(base).len() as int) == parts(base)
}

// ---------------------------------------------------------------------------
// What remains of a path behind some of its components.

/// `s` without the leading segments that give no component.
pub open spec fn lead_trim(s: Seq<char>) -> Seq<char>
    decreases s.len(),
    via lead_trim_shorter
{
    if s.len() == 0 {
        s
    } else if segment_part(s.take(seg_len(s)), false) is None {
        lead_trim(seg_rest(s))
    } else {
        s
    }
}

#[via_fn]
proof fn lead_trim_shorter(s: Seq<char>) {
    text::lemma_char_index(s, '/');
}

/// What remains of the relative text `s` behind its first `k` components.
pub open spec fn body_rest(s: Seq<char>, first: bool, k: nat) -> Seq<char>
    decreases s.len(),
    via body_rest_shorter
{
    if k == 0 {
        lead_trim(s)
    } else if s.len() == 0 {
        s
    } else if segment_part(s.take(seg_len(s)), first) is Some {
        body_rest(seg_rest(s), false, (k - 1) as nat)
    } else {
        body_rest(seg_rest(s), false, k)
    }
}

#[via_fn]
proof fn body_rest_shorter(s: Seq<char>, first: bool, k: nat) {
    text::lemma_char_index(s, '/');
}

/// What remains of the path `s` behind its first `k` components.
pub open spec fn rest_after(s: Seq<char>, k: nat) -> Seq<char> {
    if k == 0 {
        s
    } else if rooted(s) {
        body_rest(s.skip(1), false, (k - 1) as nat)
    } else {
        body_rest(s, true, k)
    }
}

/// The position behind the last separator of `s`, or 0.
pub open spec fn last_seg(s: Seq<char>) -> int
    decreases s.len(),
{
    if s.len() == 0 || s.last() == '/' {
        s.len() as int
    } else {
        last_seg(s.drop_last())
    }
}

/// The last segment lies inside the text, a separator stands before it, and
/// none inside it.
pub proof fn lemma_last_seg(s: Seq<char>)
    ensures
        0 <= last_seg(s) <= s.len(),
        last_seg(s) > 0 ==> s[last_seg(s) - 1] == '/',
        forall|k: int| last_seg(s) <= k < s.len() ==> s[k] != '/',
    decreases s.len(),
{
    if s.len() > 0 && s.last() != '/' {
        lemma_last_seg(s.drop_last());
        assert forall|k: int| last_seg(s) <= k < s.len() implies s[k] != '/' by {
            if k < s.len() - 1 {
                assert(s.drop_last()[k] == s[k]);
            }
        }
    }
}

/// How many leading characters of `s` stand before its body: a root, or a
/// leading `.` component.
pub open spec fn lead_len(s: Seq<char>) -> int {
    if rooted(s) || (s.len() > 0 && s[0] == '.' && (s.len() == 1 || s[1] == '/')) {
        1
    } else {
        0
    }
}

/// `s` without the trailing segments behind position `keep` that give no
/// component, and without the separators before them.
pub open spec fn tail_trim(s: Seq<char>, keep: int) -> Seq<char>
    decreases s.len(),
    via tail_trim_shorter
{
    if keep < 0 || s.len() <= keep {
        s
    } else {
        let b = keep + last_seg(s.skip(keep));
        if segment_part(s.skip(b), false) is None {
            tail_trim(s.take(if b > keep { b - 1 } else { b }), keep)
        } else {
            s
        }
    }
}

#[via_fn]
proof fn tail_trim_shorter(s: Seq<char>, keep: int) {
    lemma_last_seg(s.skip(keep));
}

/// `s` without the trailing separators and `.` components that do not count.
pub open spec fn without_tail(s: Seq<char>) -> Seq<char> {
    tail_trim(s, lead_len(s))
}

/// The position in `without_tail(s)` of its last component.
pub open spec fn last_start(s: Seq<char>) -> int {
    let t = without_tail(s);
    if t.len() > lead_len(s) {
        lead_len(s) + last_seg(t.skip(lead_len(s)))
    } else {
        t.len() as int
    }
}

/// The path `s` relative to `base`, where `base` is a prefix of it.
pub open spec fn strip_prefix(s: Seq<char>, base: Seq<char>) -> Option<Seq<char>> {
    if starts_with(s, base) {
        let k = parts(base).len();
        if k == 0 {
            Some(without_tail(s))
        } else {
            Some(tail_trim(rest_after(s, k), 0))
        }
    } else {
        None
    }
}

// ---------------------------------------------------------------------------
// Names inside a path.

/// The last component of `s`, where it is a name.
pub open spec fn file_name(s: Seq<char>) -> Option<Seq<char>> {
    let t = without_tail(s);
    let n = t.skip(last_start(s));
    if n.len() == 0 || n == seq!['.', '.'] {
        None
    } else {
        Some(n)
    }
}

/// The position of the last `.` of a name, or -1.
pub open spec fn last_dot(n: Seq<char>) -> int
    decreases n.len(),
{
    if n.len() == 0 {
        -1
    } else if n.last() == '.' {
        n.len() - 1
    } else {
        last_dot(n.drop_last())
    }
}

/// How many characters of the name `n` are its stem: those before the last `.`,
/// unless that `.` is its first character.
pub open spec fn stem_len(n: Seq<char>) -> int {
    if last_dot(n) > 0 {
        last_dot(n)
    } else {
        n.len() as int
    }
}

/// The name of the file without its extension.
pub open spec fn file_stem(s: Seq<char>) -> Option<Seq<char>> {
    match file_name(s) {
        Some(n) => Some(n.take(stem_len(n))),
        None => None,
    }
}

/// What stands behind the last `.` of the name of the file.
pub open spec fn extension(s: Seq<char>) -> Option<Seq<char>> {
    match file_name(s) {
        Some(n) => if last_dot(n) > 0 {
            Some(n.skip(last_dot(n) + 1))
        } else {
            None
        },
        None => None,
    }
}

/// `s` with the extension of its file name replaced by `ext`, or removed where
/// `ext` is empty; a path without a file name stays as it is.
pub open spec fn with_extension(s: Seq<char>, ext: Seq<char>) -> Seq<char> {
    match file_name(s) {
        Some(n) => {
            let kept = without_tail(s).take(last_start(s) + stem_len(n));
            if ext.len() == 0 {
                kept
            } else {
                kept + seq!['.'] + ext
            }
        },
        None => s,
    }
}

/// `s` without its last component; a root and an empty path have no parent.
pub open spec fn parent(s: Seq<char>) -> Option<Seq<char>> {
    let t = without_tail(s);
    let lead = lead_len(s);
    if t.len() > lead {
        let b = last_start(s);
        Some(tail_trim(t.take(if b > lead { b - 1 } else { b }), lead))
    } else if t.len() == 0 || rooted(s) {
        None
    } else {
        Some(Seq::empty())
    }
}

/// `s` followed by `rel`; an absolute `rel` replaces `s`.
pub open spec fn join(s: Seq<char>, rel: Seq<char>) -> Seq<char> {
    if rooted(rel) {
        rel
    } else if s.len() > 0 && s.last() != '/' {
        s + seq!['/'] + rel
    } else {
        s + rel
    }
}

/// `s` with its file name replaced by `name`.
pub open spec fn with_file_name(s: Seq<char>, name: Seq<char>) -> Seq<char> {
    if file_name(s) is Some {
        join(parent(s).unwrap_or(Seq::empty()), name)
    } else {
        join(s, name)
    }
}

// ---------------------------------------------------------------------------
// How joining acts on components.

/// A text that is one name of a path: not empty, without a separator, and
/// neither `.` nor `..`.
pub open spec fn plain_name(n: Seq<char>) -> bool {
    &&& n.len() > 0
    &&& !n.contains('/')
    &&& n != seq!['.']
    &&& n != seq!['.', '.']
}

/// The first separator of `a + "/" + t` is that of `a`, or the one behind `a`.
proof fn lemma_seg_len_append(a: Seq<char>, t: Seq<char>)
    ensures
        seg_len(a + seq!['/'] + t) == seg_len(a),
    decreases a.len(),
{
    let s = a + seq!['/'] + t;
    if a.len() == 0 {
        assert(s[0] == '/');
    } else {
        assert(s[0] == a[0]);
        if a[0] != '/' {
            lemma_seg_len_append(a.skip(1), t);
            assert(s.skip(1) =~= a.skip(1) + seq!['/'] + t);
        }
    }
}

/// The components of two relative texts with a separator between them are those
/// of the first, and then those of the second.
pub proof fn lemma_body_parts_append(a: Seq<char>, t: Seq<char>, first: bool)
    ensures
        body_parts(a + seq!['/'] + t, first) == body_parts(a, first) + body_parts(t, false),
    decreases a.len(),
{
    let s = a + seq!['/'] + t;
    lemma_seg_len_append(a, t);
    text::lemma_char_index(a, '/');
    let k = seg_len(a);
    assert(s.take(k) =~= a.take(k));
    let head = opt_seq(segment_part(a.take(k), first));
    if k < a.len() {
        assert(seg_rest(s) =~= a.skip(k + 1) + seq!['/'] + t);
        lemma_body_parts_append(a.skip(k + 1), t, false);
        assert(head + (body_parts(a.skip(k + 1), false) + body_parts(t, false)) =~= (head
            + body_parts(a.skip(k + 1), false)) + body_parts(t, false));
    } else {
        assert(seg_rest(s) =~= t);
        assert(body_parts(Seq::<char>::empty(), false) =~= Seq::empty());
        assert(a.take(k) =~= a);
        if a.len() == 0 {
            assert(head =~= Seq::empty());
        }
        assert(body_parts(a, first) =~= head);
    }
}

/// Joining a relative path appends its components.
pub proof fn lemma_parts_join(a: Seq<char>, rel: Seq<char>)
    requires
        a.len() > 0,
        !rooted(rel),
    ensures
        parts(join(a, rel)) == parts(a) + body_parts(rel, false),
{
    let j = join(a, rel);
    assert(j[0] == a[0]);
    if a.last() != '/' {
        assert(j =~= a + seq!['/'] + rel);
        if rooted(a) {
            assert(j.skip(1) =~= a.skip(1) + seq!['/'] + rel);
            lemma_body_parts_append(a.skip(1), rel, false);
            assert(seq![Part::Root] + (body_parts(a.skip(1), false) + body_parts(rel, false))
                =~= parts(a) + body_parts(rel, false));
        } else {
            lemma_body_parts_append(a, rel, true);
        }
    } else {
        let b = a.drop_last();
        assert(body_parts(Seq::<char>::empty(), false) =~= Seq::empty());
        if a.len() == 1 {
            assert(rooted(a));
            assert(j.skip(1) =~= rel);
            assert(a.skip(1) =~= Seq::empty());
            assert(parts(a) =~= seq![Part::Root]);
        } else if rooted(a) {
            assert(j.skip(1) =~= b.skip(1) + seq!['/'] + rel);
            assert(a.skip(1) =~= b.skip(1) + seq!['/'] + Seq::empty());
            lemma_body_parts_append(b.skip(1), rel, false);
            lemma_body_parts_append(b.skip(1), Seq::empty(), false);
            assert(seq![Part::Root] + (body_parts(b.skip(1), false) + body_parts(rel, false))
                =~= (seq![Part::Root] + (body_parts(b.skip(1), false) + Seq::<Part>::empty()))
                + body_parts(rel, false));
        } else {
            assert(j =~= b + seq!['/'] + rel);
            assert(a =~= b + seq!['/'] + Seq::empty());
            lemma_body_parts_append(b, rel, true);
            lemma_body_parts_append(b, Seq::empty(), true);
            assert(body_parts(b, true) + Seq::<Part>::empty() =~= body_parts(b, true));
        }
    }
}

/// A plain name is one component.
pub proof fn lemma_plain_name_parts(n: Seq<char>, first: bool)
    requires
        plain_name(n),
    ensures
        body_parts(n, first) == seq![Part::Name(n)],
        !rooted(n),
{
    text::lemma_char_index(n, '/');
    assert(n.take(n.len() as int) =~= n);
    if seg_len(n) < n.len() {
        assert(n[seg_len(n)] == '/');
    }
    if rooted(n) {
        assert(n[0] == '/');
    }
    assert(body_parts(Seq::<char>::empty(), false) =~= Seq::empty());
}

/// A path that a relative path is joined to is a prefix of the result.
pub proof fn lemma_join_inside(a: Seq<char>, rel: Seq<char>)
    requires
        !rooted(rel),
    ensures
        starts_with(join(a, rel), a),
{
    if a.len() > 0 {
        lemma_parts_join(a, rel);
        assert((parts(a) + body_parts(rel, false)).take(parts(a).len() as int) =~= parts(a));
    } else {
        assert(parts(a) =~= Seq::empty());
        assert(parts(join(a, rel)).take(0) =~= parts(a));
    }
}

/// A prefix of a prefix is a prefix.
pub proof fn lemma_starts_with_trans(a: Seq<char>, b: Seq<char>, c: Seq<char>)
    requires
        starts_with(a, b),
        starts_with(b, c),
    ensures
        starts_with(a, c),
{
    assert(parts(a).take(parts(c).len() as int) =~= parts(a).take(parts(b).len() as int).take(
        parts(c).len() as int,
    ));
}

// ---------------------------------------------------------------------------
// Computing them.

/// Computes [`segment_part`] of `v[a..b]`.
fn segment_component(v: &[char], a: usize, b: usize, first: bool) -> (r: Option<Component>)
    requires
        a <= b <= v.len(),
    ensures
        match r {
            Some(c) => segment_part(v@.subrange(a as int, b as int), first) == Some(c@),
            None => segment_part(v@.subrange(a as int, b as int), first) is None,
        },
{
    let ghost seg = v@.subrange(a as int, b as int);
    if a == b {
        return None;
    }
    if b - a == 1 && v[a] == '.' {
        assert(seg =~= seq!['.']);
        return if first {
            Some(Component::Cur)
        } else {
            None
        };
    }
    assert(seg == seq!['.'] ==> seg.len() == 1 && seg[0] == '.');
    if b - a == 2 && v[a] == '.' && v[a + 1] == '.' {
        assert(seg =~= seq!['.', '.']);
        return Some(Component::Up);
    }
    assert(seg == seq!['.', '.'] ==> seg.len() == 2 && seg[0] == '.' && seg[1] == '.');
    Some(Component::Name(text_of(slice_subrange(v, a, b))))
}

/// Computes [`parts`].
pub fn components(s: &str) -> (r: Vec<Component>)
    ensures
        part_views(r@) == parts(s@),
{
    let v = to_chars(s);
    let mut out: Vec<Component> = Vec::new();
    let mut i: usize = 0;
    let mut first: bool = true;
    if v.len() > 0 && v[0] == '/' {
        out.push(Component::Root);
        i = 1;
        first = false;
        assert(part_views(out@) =~= seq![Part::Root]);
    } else {
        assert(s@.skip(0) =~= s@);
        assert(part_views(out@) + body_parts(s@, true) =~= body_parts(s@, true));
    }
    while i < v.len()
        invariant
            i <= v.len(),
            v@ == s@,
            parts(s@) == part_views(out@) + body_parts(s@.skip(i as int), first),
        decreases v.len() - i,
    {
        let ghost rest = s@.skip(i as int);
        let e = text::index_of_char(v.as_slice(), '/', i);
        assert(rest.take(seg_len(rest)) =~= s@.subrange(i as int, e as int));
        let ghost before = part_views(out@);
        let c = segment_component(v.as_slice(), i, e, first);
        let ghost gone = opt_seq(segment_part(rest.take(seg_len(rest)), first));
        match c {
            Some(c) => {
                out.push(c);
            },
            None => {},
        }
        assert(part_views(out@) =~= before + gone);
        if e < v.len() {
            assert(seg_rest(rest) =~= s@.skip(e + 1));
            i = e + 1;
        } else {
            assert(seg_rest(rest) =~= s@.skip(v.len() as int));
            i = e;
        }
        first = false;
        assert(before + (gone + body_parts(seg_rest(rest), false)) =~= part_views(out@)
            + body_parts(s@.skip(i as int), false));
    }
    assert(s@.skip(i as int).len() == 0);
    assert(part_views(out@) + body_parts(s@.skip(i as int), first) =~= part_views(out@));
    out
}

/// Whether two components are the same.
pub fn same_component(a: &Component, b: &Component) -> (r: bool)
    ensures
        r == (a@ == b@),
{
    match (a, b) {
        (Component::Root, Component::Root) => true,
        (Component::Cur, Component::Cur) => true,
        (Component::Up, Component::Up) => true,
        (Component::Name(x), Component::Name(y)) => same_text(x.as_str(), y.as_str()),
        _ => false,
    }
}

/// How many components `base` has, where they are the first components of `s`.
fn prefix_count(s: &str, base: &str) -> (r: Option<usize>)
    ensures
        match r {
            Some(k) => starts_with(s@, base@) && k == parts(base@).len(),
            None => !starts_with(s@, base@),
        },
{
    let a = components(s);
    let b = components(base);
    if b.len() > a.len() {
        assert(part_views(b@).len() == parts(base@).len());
        return None;
    }
    let mut i: usize = 0;
    while i < b.len()
        invariant
            i <= b.len() <= a.len(),
            part_views(a@) == parts(s@),
            part_views(b@) == parts(base@),
            forall|j: int| 0 <= j < i ==> #[trigger] parts(s@)[j] == parts(base@)[j],
        decreases b.len() - i,
    {
        assert(part_views(a@)[i as int] == a@[i as int]@);
        assert(part_views(b@)[i as int] == b@[i as int]@);
        if !same_component(&a[i], &b[i]) {
            assert(parts(s@).take(parts(base@).len() as int)[i as int] != parts(base@)[i as int]);
            return None;
        }
        i += 1;
    }
    assert(part_views(b@).len() == b@.len());
    assert(parts(s@).take(parts(base@).len() as int) =~= parts(base@));
    Some(b.len())
}

/// Decides [`starts_with`].
pub fn path_starts_with(s: &str, base: &str) -> (r: bool)
    ensures
        r == starts_with(s@, base@),
{
    prefix_count(s, base).is_some()
}

/// Whether two paths have the same components.
pub fn same_path(a: &str, b: &str) -> (r: bool)
    ensures
        r == (parts(a@) == parts(b@)),
{
    let x = components(a);
    let y = components(b);
    if x.len() != y.len() {
        assert(part_views(x@).len() != part_views(y@).len());
        return false;
    }
    let mut i: usize = 0;
    while i < x.len()
        invariant
            i <= x.len() == y.len(),
            part_views(x@) == parts(a@),
            part_views(y@) == parts(b@),
            forall|j: int| 0 <= j < i ==> #[trigger] parts(a@)[j] == parts(b@)[j],
        decreases x.len() - i,
    {
        assert(part_views(x@)[i as int] == x@[i as int]@);
        assert(part_views(y@)[i as int] == y@[i as int]@);
        if !same_component(&x[i], &y[i]) {
            return false;
        }
        i += 1;
    }
    assert(part_views(x@).len() == part_views(y@).len());
    assert(parts(a@) =~= parts(b@));
    true
}

/// The position behind the last separator of `v[keep..end]`.
fn last_segment(v: &[char], keep: usize, end: usize) -> (r: usize)
    requires
        keep <= end <= v.len(),
    ensures
        r == keep + last_seg(v@.take(end as int).skip(keep as int)),
        keep <= r <= end,
{
    let ghost t = v@.take(end as int).skip(keep as int);
    let mut i: usize = end;
    assert(t.take(end - keep) =~= t);
    while i > keep && v[i - 1] != '/'
        invariant
            keep <= i <= end <= v.len(),
            t == v@.take(end as int).skip(keep as int),
            last_seg(t) == last_seg(t.take(i - keep)),
        decreases i,
    {
        assert(t.take(i - keep).drop_last() =~= t.take(i - 1 - keep));
        assert(t.take(i - keep).last() == v@[i - 1]);
        i -= 1;
    }
    assert(i > keep ==> t.take(i - keep).last() == v@[i - 1]);
    i
}

/// The length of `tail_trim(v[..end], keep)`.
fn tail_len(v: &[char], keep: usize, end: usize) -> (r: usize)
    requires
        end <= v.len(),
    ensures
        v@.take(r as int) == tail_trim(v@.take(end as int), keep as int),
        r <= end,
        keep <= end ==> keep <= r,
{
    let mut e: usize = end;
    while e > keep
        invariant
            e <= end <= v.len(),
            keep <= end ==> keep <= e,
            tail_trim(v@.take(end as int), keep as int) == tail_trim(
                v@.take(e as int),
                keep as int,
            ),
        decreases e,
    {
        let b = last_segment(v, keep, e);
        assert(v@.take(e as int).skip(b as int) =~= v@.subrange(b as int, e as int));
        if segment_component(v, b, e, false).is_some() {
            return e;
        }
        proof {
            lemma_last_seg(v@.take(e as int).skip(keep as int));
            if b == e {
                assert(v@.subrange(b as int, e as int).len() == 0);
            }
        }
        if b > keep {
            assert(v@.take(e as int).take(b - 1) =~= v@.take(b - 1));
            e = b - 1;
        } else {
            assert(v@.take(e as int).take(b as int) =~= v@.take(b as int));
            assert(b < e);
            e = b;
        }
    }
    e
}

/// Computes [`lead_len`].
fn lead_size(v: &[char]) -> (r: usize)
    ensures
        r == lead_len(v@),
        r <= v.len(),
{
    if v.len() > 0 && (v[0] == '/' || (v[0] == '.' && (v.len() == 1 || v[1] == '/'))) {
        1
    } else {
        0
    }
}

/// What [`body_rest`] leaves of `v[from..]`: the position where it begins.
fn rest_position(v: &[char], from: usize, k: usize, first: bool) -> (r: usize)
    requires
        from <= v.len(),
    ensures
        from <= r <= v.len(),
        v@.skip(r as int) == body_rest(v@.skip(from as int), first, k as nat),
{
    let mut i: usize = from;
    let mut left: usize = k;
    let mut f: bool = first;
    while left > 0 && i < v.len()
        invariant
            from <= i <= v.len(),
            body_rest(v@.skip(from as int), first, k as nat) == body_rest(
                v@.skip(i as int),
                f,
                left as nat,
            ),
        decreases v.len() - i,
    {
        let ghost rest = v@.skip(i as int);
        let e = text::index_of_char(v, '/', i);
        assert(rest.take(seg_len(rest)) =~= v@.subrange(i as int, e as int));
        if segment_component(v, i, e, f).is_some() {
            left -= 1;
        }
        if e < v.len() {
            assert(seg_rest(rest) =~= v@.skip(e + 1));
            i = e + 1;
        } else {
            assert(seg_rest(rest) =~= v@.skip(v.len() as int));
            i = e;
        }
        f = false;
    }
    if left > 0 {
        return i;
    }
    let ghost start = i;
    while i < v.len()
        invariant
            from <= start <= i <= v.len(),
            body_rest(v@.skip(from as int), first, k as nat) == lead_trim(v@.skip(start as int)),
            lead_trim(v@.skip(start as int)) == lead_trim(v@.skip(i as int)),
        decreases v.len() - i,
    {
        let ghost rest = v@.skip(i as int);
        let e = text::index_of_char(v, '/', i);
        assert(rest.take(seg_len(rest)) =~= v@.subrange(i as int, e as int));
        if segment_component(v, i, e, false).is_some() {
            return i;
        }
        if e < v.len() {
            assert(seg_rest(rest) =~= v@.skip(e + 1));
            i = e + 1;
        } else {
            assert(seg_rest(rest) =~= v@.skip(v.len() as int));
            i = e;
        }
    }
    i
}

/// Computes [`strip_prefix`].
pub fn relative_to(s: &str, base: &str) -> (r: Option<String>)
    ensures
        text::opt_text(r) == strip_prefix(s@, base@),
{
    match prefix_count(s, base) {
        None => None,
        Some(k) => {
            let v = to_chars(s);
            if k == 0 {
                let lead = lead_size(v.as_slice());
                let e = tail_len(v.as_slice(), lead, v.len());
                assert(s@.take(v.len() as int) =~= s@);
                assert(s@.subrange(0, e as int) =~= s@.take(e as int));
                return Some(text_of(slice_subrange(v.as_slice(), 0, e)));
            }
            let p = if v.len() > 0 && v[0] == '/' {
                rest_position(v.as_slice(), 1, k - 1, false)
            } else {
                assert(s@.skip(0) =~= s@);
                rest_position(v.as_slice(), 0, k, true)
            };
            let tail = slice_subrange(v.as_slice(), p, v.len());
            assert(tail@ =~= s@.skip(p as int));
            let e = tail_len(tail, 0, tail.len());
            assert(tail@.take(tail@.len() as int) =~= tail@);
            assert(tail@.subrange(0, e as int) =~= tail@.take(e as int));
            Some(text_of(slice_subrange(tail, 0, e)))
        },
    }
}

/// Where the file name of a path stands in its text: from `.0` up to `.1`.
fn name_span(v: &[char]) -> (r: (usize, usize))
    ensures
        r.0 <= r.1 <= v.len(),
        v@.take(r.1 as int) == without_tail(v@),
        r.0 == last_start(v@),
        lead_len(v@) <= r.0,
        r.1 > lead_len(v@) || r.0 == r.1,
{
    let lead = lead_size(v);
    let e = tail_len(v, lead, v.len());
    assert(v@.take(v.len() as int) =~= v@);
    if e > lead {
        (last_segment(v, lead, e), e)
    } else {
        (e, e)
    }
}

/// Computes [`file_name`].
pub fn path_file_name(s: &str) -> (r: Option<String>)
    ensures
        text::opt_text(r) == file_name(s@),
{
    let v = to_chars(s);
    let (a, b) = name_span(v.as_slice());
    assert(s@.take(b as int).skip(a as int) =~= s@.subrange(a as int, b as int));
    let ghost n = s@.subrange(a as int, b as int);
    if a == b {
        return None;
    }
    if b - a == 2 && v[a] == '.' && v[a + 1] == '.' {
        assert(n =~= seq!['.', '.']);
        return None;
    }
    assert(n == seq!['.', '.'] ==> n.len() == 2 && n[0] == '.' && n[1] == '.');
    Some(text_of(slice_subrange(v.as_slice(), a, b)))
}

/// The last `.` of a name lies inside it.
pub proof fn lemma_last_dot(n: Seq<char>)
    ensures
        -1 <= last_dot(n) < n.len(),
        last_dot(n) >= 0 ==> n[last_dot(n)] == '.',
        forall|k: int| last_dot(n) < k < n.len() ==> n[k] != '.',
    decreases n.len(),
{
    if n.len() > 0 && n.last() != '.' {
        lemma_last_dot(n.drop_last());
        assert forall|k: int| last_dot(n) < k < n.len() implies n[k] != '.' by {
            if k < n.len() - 1 {
                assert(n.drop_last()[k] == n[k]);
            }
        }
    }
}

/// Computes [`stem_len`].
fn stem_size(n: &[char]) -> (r: usize)
    ensures
        r == stem_len(n@),
        r <= n.len(),
        r < n.len() <==> last_dot(n@) > 0,
{
    let mut i: usize = n.len();
    assert(n@.take(n.len() as int) =~= n@);
    while i > 0 && n[i - 1] != '.'
        invariant
            i <= n.len(),
            last_dot(n@) == last_dot(n@.take(i as int)),
        decreases i,
    {
        assert(n@.take(i as int).drop_last() =~= n@.take(i - 1));
        i -= 1;
    }
    proof {
        lemma_last_dot(n@);
        assert(i > 0 ==> n@.take(i as int).last() == '.');
    }
    if i > 1 {
        i - 1
    } else {
        n.len()
    }
}

/// Computes [`file_stem`].
pub fn path_stem(s: &str) -> (r: Option<String>)
    ensures
        text::opt_text(r) == file_stem(s@),
{
    match path_file_name(s) {
        None => None,
        Some(n) => {
            let v = to_chars(n.as_str());
            let k = stem_size(v.as_slice());
            assert(v@.subrange(0, k as int) =~= v@.take(k as int));
            Some(text_of(slice_subrange(v.as_slice(), 0, k)))
        },
    }
}

/// Computes [`extension`].
pub fn path_extension(s: &str) -> (r: Option<String>)
    ensures
        text::opt_text(r) == extension(s@),
{
    match path_file_name(s) {
        None => None,
        Some(n) => {
            let v = to_chars(n.as_str());
            let k = stem_size(v.as_slice());
            if k < v.len() {
                assert(v@.subrange(k + 1, v@.len() as int) =~= v@.skip(k + 1));
                Some(text_of(slice_subrange(v.as_slice(), k + 1, v.len())))
            } else {
                None
            }
        },
    }
}

/// Whether the extension of `s` is `ext`.
pub fn extension_is(s: &str, ext: &str) -> (r: bool)
    ensures
        r == (extension(s@) == Some(ext@)),
{
    match path_extension(s) {
        Some(e) => same_text(e.as_str(), ext),
        None => false,
    }
}

/// Computes [`with_extension`].
pub fn replace_extension(s: &str, ext: &str) -> (r: String)
    ensures
        r@ == with_extension(s@, ext@),
{
    let v = to_chars(s);
    match path_file_name(s) {
        None => copy_text(s),
        Some(n) => {
            let (a, b) = name_span(v.as_slice());
            assert(s@.take(b as int).skip(a as int) =~= s@.subrange(a as int, b as int));
            let nv = to_chars(n.as_str());
            let k = stem_size(nv.as_slice());
            assert(s@.take(b as int).take(a + k) =~= s@.subrange(0, a + k));
            let mut out = text_of(slice_subrange(v.as_slice(), 0, a + k));
            if !ext.is_empty() {
                out.push('.');
                out.append(ext);
                assert(out@ =~= with_extension(s@, ext@));
            }
            out
        },
    }
}

/// Computes [`parent`].
pub fn path_parent(s: &str) -> (r: Option<String>)
    ensures
        text::opt_text(r) == parent(s@),
{
    let v = to_chars(s);
    let lead = lead_size(v.as_slice());
    let (a, b) = name_span(v.as_slice());
    if b > lead {
        let cut = if a > lead {
            a - 1
        } else {
            a
        };
        assert(s@.take(b as int).take(cut as int) =~= s@.take(cut as int));
        let e = tail_len(v.as_slice(), lead, cut);
        assert(s@.subrange(0, e as int) =~= s@.take(e as int));
        Some(text_of(slice_subrange(v.as_slice(), 0, e)))
    } else if b == 0 || v[0] == '/' {
        assert(s@.take(b as int).len() == b);
        None
    } else {
        let out = String::new();
        Some(out)
    }
}

/// Computes [`join`].
pub fn path_join(s: &str, rel: &str) -> (r: String)
    ensures
        r@ == join(s@, rel@),
{
    let v = to_chars(s);
    if text::text_begins_char(rel, '/') {
        return copy_text(rel);
    }
    let mut out = copy_text(s);
    if v.len() > 0 && v[v.len() - 1] != '/' {
        out.push('/');
    }
    out.append(rel);
    assert(out@ =~= join(s@, rel@));
    out
}

/// Computes [`with_file_name`].
pub fn replace_file_name(s: &str, name: &str) -> (r: String)
    ensures
        r@ == with_file_name(s@, name@),
{
    match path_file_name(s) {
        Some(_) => match path_parent(s) {
            Some(p) => path_join(p.as_str(), name),
            None => {
                let out = String::new();
                path_join(out.as_str(), name)
            },
        },
        None => path_join(s, name),
    }
}

// ---------------------------------------------------------------------------
// Laws.

/// The name of a file is what stands behind the directory.
pub proof fn law_file_name(dir: Seq<char>, name: Seq<char>)
    requires
        dir.len() == 0 || dir.last() == '/',
        plain_name(name),
    ensures
        file_name(dir + name) == Some(name),
        without_tail(dir + name) == dir + name,
        last_start(dir + name) == dir.len(),
{
    let s = dir + name;
    let keep = lead_len(s);
    let t = s.skip(keep);
    assert(name[0] != '/') by {
        if name[0] == '/' {
            assert(name.contains('/'));
        }
    }
    assert(keep <= dir.len()) by {
        if dir.len() == 0 {
            assert(s =~= name);
            if name.len() == 1 {
                assert(name[0] == '.' ==> name =~= seq!['.']);
            } else {
                assert(name[1] != '/') by {
                    if name[1] == '/' {
                        assert(name.contains('/'));
                    }
                }
            }
        }
    }
    lemma_last_seg(t);
    let b = keep + last_seg(t);
    assert(b == dir.len()) by {
        if b > dir.len() {
            assert(t[last_seg(t) - 1] == '/');
            assert(t[last_seg(t) - 1] == name[b - 1 - dir.len()]);
            assert(name.contains('/'));
        }
        if b < dir.len() {
            assert(t[dir.len() - 1 - keep] == s[dir.len() - 1]);
            assert(s[dir.len() - 1] == dir.last());
        }
    }
    assert(s.skip(b) =~= name);
    assert(t.skip(last_seg(t)) =~= name);
}

proof fn lemma_dot_of(w: Seq<char>, e: Seq<char>)
    requires
        !e.contains('.'),
    ensures
        last_dot(w + seq!['.'] + e) == w.len(),
{
    let n = w + seq!['.'] + e;
    lemma_last_dot(n);
    let k = last_dot(n);
    assert(n[w.len() as int] == '.');
    if k > w.len() {
        assert(e[k - w.len() - 1] == '.');
    }
}

/// The extension of a file is what stands behind the last dot of its name, unless that
/// is the first character; the stem is what stands before it. Another extension comes
/// in its place, and behind the name where there was none.
pub proof fn law_extension(dir: Seq<char>, stem: Seq<char>, ext: Seq<char>, other: Seq<char>)
    requires
        dir.len() == 0 || dir.last() == '/',
        stem.len() > 0,
        other.len() > 0,
    ensures
        plain_name(stem + seq!['.'] + ext) && !ext.contains('.') ==> {
            let path = dir + (stem + seq!['.'] + ext);
            &&& extension(path) == Some(ext)
            &&& file_stem(path) == Some(stem)
            &&& with_extension(path, other) == dir + stem + seq!['.'] + other
            &&& with_extension(path, Seq::empty()) == dir + stem
        },
        plain_name(stem) && !stem.skip(1).contains('.') ==> {
            let path = dir + stem;
            &&& extension(path) is None
            &&& file_stem(path) == Some(stem)
            &&& with_extension(path, other) == dir + stem + seq!['.'] + other
        },
{
    let name = stem + seq!['.'] + ext;
    if plain_name(name) && !ext.contains('.') {
        law_file_name(dir, name);
        lemma_dot_of(stem, ext);
        assert(name.skip(stem.len() as int + 1) =~= ext);
        assert(name.take(stem.len() as int) =~= stem);
        assert((dir + name).take((dir.len() + stem.len()) as int) =~= dir + stem);
    }
    if plain_name(stem) && !stem.skip(1).contains('.') {
        law_file_name(dir, stem);
        lemma_last_dot(stem);
        if last_dot(stem) > 0 {
            assert(stem.skip(1)[last_dot(stem) - 1] == '.');
        }
        assert(stem.take(stem.len() as int) =~= stem);
        assert((dir + stem).take((dir.len() + stem.len()) as int) =~= dir + stem);
    }
}

/// Joining puts a relative path behind a directory, with one separator between them;
/// a path from the root stands for itself.
pub proof fn law_join(dir: Seq<char>, name: Seq<char>)
    ensures
        name.len() > 0 && name[0] == '/' ==> join(dir, name) == name,
        plain_name(name) ==> file_name(join(dir, name)) == Some(name),
        plain_name(name) && dir.len() > 0 ==> parts(join(dir, name)) == parts(dir).push(
            Part::Name(name),
        ),
        plain_name(name) && dir.len() > 0 && dir.last() != '/' ==> join(dir, name) == dir
            + seq!['/'] + name,
        plain_name(name) ==> join(dir + seq!['/'], name) == dir + seq!['/'] + name,
{
    if plain_name(name) {
        lemma_plain_name_parts(name, false);
        if dir.len() > 0 {
            lemma_parts_join(dir, name);
            assert(parts(dir) + seq![Part::Name(name)] =~= parts(dir).push(Part::Name(name)));
        }
        if dir.len() > 0 && dir.last() != '/' {
            law_file_name(dir + seq!['/'], name);
        } else {
            law_file_name(dir, name);
        }
    }
}

proof fn lemma_lead_trim(s: Seq<char>)
    ensures
        body_parts(lead_trim(s), false) == body_parts(s, false),
        lead_trim(s).len() > 0 ==> segment_part(
            lead_trim(s).take(seg_len(lead_trim(s))),
            false,
        ) is Some,
    decreases s.len(),
{
    if s.len() > 0 && segment_part(s.take(seg_len(s)), false) is None {
        text::lemma_char_index(s, '/');
        lemma_lead_trim(seg_rest(s));
        assert(body_parts(s, false) =~= body_parts(seg_rest(s), false));
    }
}

proof fn lemma_body_rest(s: Seq<char>, first: bool, k: nat)
    requires
        k <= body_parts(s, first).len(),
        k == 0 ==> !first,
    ensures
        body_parts(body_rest(s, first, k), false) == body_parts(s, first).skip(k as int),
        body_rest(s, first, k).len() > 0 ==> segment_part(
            body_rest(s, first, k).take(seg_len(body_rest(s, first, k))),
            false,
        ) is Some,
    decreases s.len(),
{
    let all = body_parts(s, first);
    if k == 0 {
        lemma_lead_trim(s);
        assert(all.skip(0) =~= all);
    } else if s.len() == 0 {
    } else {
        text::lemma_char_index(s, '/');
        let rest = body_parts(seg_rest(s), false);
        if segment_part(s.take(seg_len(s)), first) is Some {
            lemma_body_rest(seg_rest(s), false, (k - 1) as nat);
            assert(all.skip(k as int) =~= rest.skip(k - 1));
        } else {
            assert(all =~= rest);
            lemma_body_rest(seg_rest(s), false, k);
        }
    }
}

proof fn lemma_one_segment(seg: Seq<char>)
    requires
        forall|k: int| 0 <= k < seg.len() ==> seg[k] != '/',
    ensures
        body_parts(seg, false) == opt_seq(segment_part(seg, false)),
        seg_len(seg) == seg.len(),
{
    text::lemma_char_index(seg, '/');
    if seg_len(seg) < seg.len() {
        assert(seg[seg_len(seg)] == '/');
    }
    assert(seg.take(seg.len() as int) =~= seg);
    assert(body_parts(Seq::<char>::empty(), false) =~= Seq::empty());
    assert(body_parts(seg, false) =~= opt_seq(segment_part(seg, false)));
}

proof fn lemma_tail_trim(s: Seq<char>)
    ensures
        body_parts(tail_trim(s, 0), false) == body_parts(s, false),
        tail_trim(s, 0).len() <= s.len(),
        tail_trim(s, 0) == s.take(tail_trim(s, 0).len() as int),
        tail_trim(s, 0).len() > 0 ==> segment_part(
            tail_trim(s, 0).skip(last_seg(tail_trim(s, 0))),
            false,
        ) is Some,
    decreases s.len(),
{
    let r = tail_trim(s, 0);
    if s.len() > 0 {
        assert(s.skip(0) =~= s);
        lemma_last_seg(s);
        let b = last_seg(s);
        let seg = s.skip(b);
        if segment_part(seg, false) is None {
            let t = s.take(if b > 0 { b - 1 } else { b });
            assert forall|k: int| 0 <= k < seg.len() implies seg[k] != '/' by {
                assert(seg[k] == s[b + k]);
            }
            lemma_one_segment(seg);
            assert(t.len() < s.len()) by {
                if b == 0 {
                    assert(t.len() == 0);
                }
            }
            lemma_tail_trim(t);
            if b > 0 {
                assert(s =~= t + seq!['/'] + seg);
                lemma_body_parts_append(t, seg, false);
                assert(body_parts(t, false) + Seq::<Part>::empty() =~= body_parts(t, false));
            } else {
                assert(s =~= seg);
                assert(body_parts(t, false) =~= Seq::empty());
            }
            assert(s.take(r.len() as int) =~= t.take(r.len() as int));
        } else {
            assert(s.take(s.len() as int) =~= s);
        }
    } else {
        assert(s.take(0) =~= s);
    }
}

/// What is left of a path behind a directory has the components that the path has
/// behind those of the directory; a path that is not inside it has nothing left.
pub proof fn law_strip_prefix(s: Seq<char>, base: Seq<char>)
    requires
        parts(base).len() > 0,
    ensures
        strip_prefix(s, base) matches Some(rel) ==> parts(s) == parts(base) + parts(rel),
        strip_prefix(s, base) is Some <==> parts(base).len() <= parts(s).len() && (forall|i: int|
            0 <= i < parts(base).len() ==> parts(s)[i] == #[trigger] parts(base)[i]),
{
    let k = parts(base).len();
    if parts(base).len() <= parts(s).len() && (forall|i: int|
        0 <= i < parts(base).len() ==> parts(s)[i] == #[trigger] parts(base)[i]) {
        assert(parts(s).take(k as int) =~= parts(base));
    }
    if starts_with(s, base) {
        assert forall|i: int| 0 <= i < parts(base).len() implies parts(s)[i]
            == #[trigger] parts(base)[i] by {
            assert(parts(s).take(k as int)[i] == parts(s)[i]);
        }
        let r = rest_after(s, k);
        if rooted(s) {
            lemma_body_rest(s.skip(1), false, (k - 1) as nat);
            assert(parts(s).skip(k as int) =~= body_parts(s.skip(1), false).skip(k - 1));
        } else {
            lemma_body_rest(s, true, k);
        }
        let rel = tail_trim(r, 0);
        lemma_tail_trim(r);
        lemma_plain_start(r, rel);
        assert(parts(s) =~= parts(base) + parts(rel));
    }
}

proof fn lemma_plain_start(r: Seq<char>, rel: Seq<char>)
    requires
        r.len() > 0 ==> segment_part(r.take(seg_len(r)), false) is Some,
        rel.len() <= r.len(),
        rel == r.take(rel.len() as int),
        rel.len() > 0 ==> segment_part(rel.skip(last_seg(rel)), false) is Some,
    ensures
        parts(rel) == body_parts(rel, false),
{
    if rel.len() > 0 {
        text::lemma_char_index(rel, '/');
        text::lemma_char_index(r, '/');
        assert(rel[0] == r[0]);
        let n = seg_len(rel);
        if n < rel.len() {
            assert(rel[n] == '/');
            assert(seg_len(r) == n) by {
                if seg_len(r) < n {
                    assert(rel[seg_len(r)] == '/');
                }
                if seg_len(r) > n {
                    assert(r[n] == '/');
                }
            }
            assert(rel.take(n) =~= r.take(n));
        } else {
            lemma_last_seg(rel);
            assert(last_seg(rel) == 0) by {
                if last_seg(rel) > 0 {
                    assert(rel[last_seg(rel) - 1] == '/');
                }
            }
            assert(rel.skip(0) =~= rel);
            assert(rel.take(n) =~= rel);
        }
        assert(segment_part(rel.take(n), false) is Some);
        if rooted(rel) {
            assert(n == 0);
            assert(rel.take(0).len() == 0);
        }
        assert(segment_part(rel.take(n), true) == segment_part(rel.take(n), false));
    }
}

/// The parent of a file is the directory that it stands in.
pub proof fn law_parent(above: Seq<char>, dir: Seq<char>, name: Seq<char>)
    requires
        above.len() == 0 || above.last() == '/',
        plain_name(dir),
        plain_name(name),
    ensures
        parent(above + dir + seq!['/'] + name) == Some(above + dir),
{
    let d = above + dir;
    let up = d + seq!['/'];
    let s = up + name;
    assert(s =~= above + dir + seq!['/'] + name);
    law_file_name(up, name);
    law_file_name(above, dir);
    assert(lead_len(s) == lead_len(d)) by {
        assert(s[0] == d[0]);
        if d.len() > 1 {
            assert(s[1] == d[1]);
        } else {
            assert(above.len() == 0);
            assert(d =~= dir);
            assert(d[0] == '.' ==> dir =~= seq!['.']);
        }
    }
    assert(lead_len(s) <= d.len());
    assert(s.take(d.len() as int) =~= d);
}

/// Another name takes the place of the name of a file, in the same directory.
pub proof fn law_with_file_name(above: Seq<char>, dir: Seq<char>, name: Seq<char>, other: Seq<char>)
    requires
        above.len() == 0 || above.last() == '/',
        plain_name(dir),
        plain_name(name),
        other.len() > 0 && other[0] != '/',
    ensures
        with_file_name(above + dir + seq!['/'] + name, other) == above + dir + seq!['/'] + other,
        with_file_name(name, other) == other,
{
    law_parent(above, dir, name);
    law_file_name(above + dir + seq!['/'], name);
    assert((above + dir).last() == dir.last());
    assert(dir[dir.len() - 1] == dir.last());
    law_file_name(Seq::empty(), name);
    assert(Seq::<char>::empty() + name =~= name);
    assert(lead_len(name) == 0) by {
        assert(!rooted(name)) by {
            if rooted(name) {
                assert(name.contains('/'));
            }
        }
        if name[0] == '.' {
            if name.len() == 1 {
                assert(name =~= seq!['.']);
            } else if name[1] == '/' {
                assert(name.contains('/'));
            }
        }
    }
    assert(parent(name) == Some(Seq::<char>::empty())) by {
        assert(name.take(0) =~= Seq::empty());
    }
    assert(Seq::<char>::empty() + other =~= other);
}

} // verus!
