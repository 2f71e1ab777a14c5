//! Text as sequences of characters: the searching, trimming, replacing and
//! formatting that the rest of the crate is written with.
use vstd::prelude::*;
use vstd::slice::slice_subrange;
use vstd::string::*;

verus! {

/// `String::push` appends one character to the end of the text.
pub assume_specification[ String::push ](s: &mut String, c: char)
    ensures
        final(s)@ == old(s)@.push(c),
;

/// `==` on `str` compares the two texts character for character.
#[verifier::external_body]
pub(crate) fn same_text(a: &str, b: &str) -> (r: bool)
    ensures
        r == (a@ == b@),
{
    a == b
}

/// The characters of `s`, in order.
pub fn to_chars(s: &str) -> (r: Vec<char>)
    ensures
        r@ == s@,
{
    let mut out: Vec<char> = Vec::new();
    for c in it: s.chars()
        invariant
            out@ == s@.take(it.index() as int),
            it.seq() == s@,
    {
        out.push(c);
        assert(s@.take(it.index() + 1) =~= s@.take(it.index() as int).push(c));
    }
    assert(s@.take(s@.len() as int) =~= s@);
    out
}

/// Appends every character of `v` to `out`.
pub fn push_chars(out: &mut String, v: &[char])
    ensures
        final(out)@ == old(out)@ + v@,
{
    let mut i: usize = 0;
    while i < v.len()
        invariant
            i <= v.len(),
            out@ == old(out)@ + v@.take(i as int),
        decreases v.len() - i,
    {
        out.push(v[i]);
        assert(v@.take(i + 1) =~= v@.take(i as int).push(v@[i as int]));
        i += 1;
    }
    assert(v@.take(v@.len() as int) =~= v@);
}

/// The text made of the characters of `v`.
pub fn text_of(v: &[char]) -> (r: String)
    ensures
        r@ == v@,
{
    let mut out = String::new();
    push_chars(&mut out, v);
    assert(out@ =~= v@);
    out
}

/// A fresh copy of `s`.
pub fn copy_text(s: &str) -> (r: String)
    ensures
        r@ == s@,
{
    s.to_owned()
}

/// `a` followed by `b`.
pub fn concat(a: &str, b: &str) -> (r: String)
    ensures
        r@ == a@ + b@,
{
    let mut out = a.to_owned();
    out.append(b);
    out
}

// ---------------------------------------------------------------------------
// Views of containers of texts.

/// The texts that a sequence of strings holds.
pub open spec fn texts(v: Seq<String>) -> Seq<Seq<char>> {
    Seq::new(v.len(), |i: int| v[i]@)
}

/// The text that an optional string holds.
pub open spec fn opt_text(o: Option<String>) -> Option<Seq<char>> {
    match o {
        Some(s) => Some(s@),
        None => None,
    }
}

/// The text that an optional string slice holds.
pub open spec fn opt_str(o: Option<&str>) -> Option<Seq<char>> {
    match o {
        Some(s) => Some(s@),
        None => None,
    }
}

/// A copy of an optional text.
pub fn copy_opt(o: &Option<String>) -> (r: Option<String>)
    ensures
        opt_text(r) == opt_text(*o),
{
    match o {
        Some(s) => Some(copy_text(s.as_str())),
        None => None,
    }
}

/// A copy of every text of `v`, in order.
pub fn copy_texts(v: &Vec<String>) -> (r: Vec<String>)
    ensures
        texts(r@) == texts(v@),
{
    let mut out: Vec<String> = Vec::new();
    let mut i: usize = 0;
    while i < v.len()
        invariant
            i <= v.len(),
            out.len() == i,
            forall|j: int| 0 <= j < i ==> #[trigger] out@[j]@ == v@[j]@,
        decreases v.len() - i,
    {
        out.push(copy_text(v[i].as_str()));
        i += 1;
    }
    assert(texts(out@) =~= texts(v@));
    out
}

/// Whether some text of `v` is `s`.
pub fn has_text(v: &Vec<String>, s: &str) -> (r: bool)
    ensures
        r == texts(v@).contains(s@),
{
    let mut i: usize = 0;
    while i < v.len()
        invariant
            i <= v.len(),
            forall|j: int| 0 <= j < i ==> #[trigger] texts(v@)[j] != s@,
        decreases v.len() - i,
    {
        if same_text(v[i].as_str(), s) {
            assert(texts(v@)[i as int] == s@);
            return true;
        }
        assert(texts(v@)[i as int] != s@);
        i += 1;
    }
    false
}

// ---------------------------------------------------------------------------
// Classes of characters.

/// The characters with the Unicode property `White_Space`.
pub open spec fn is_space(c: char) -> bool {
    ||| '\u{9}' <= c <= '\u{d}'
    ||| c == ' '
    ||| c == '\u{85}'
    ||| c == '\u{a0}'
    ||| c == '\u{1680}'
    ||| '\u{2000}' <= c <= '\u{200a}'
    ||| c == '\u{2028}'
    ||| c == '\u{2029}'
    ||| c == '\u{202f}'
    ||| c == '\u{205f}'
    ||| c == '\u{3000}'
}

/// Decides [`is_space`].
pub fn space(c: char) -> (r: bool)
    ensures
        r == is_space(c),
{
    ('\u{9}' <= c && c <= '\u{d}') || c == ' ' || c == '\u{85}' || c == '\u{a0}' || c == '\u{1680}'
        || ('\u{2000}' <= c && c <= '\u{200a}') || c == '\u{2028}' || c == '\u{2029}'
        || c == '\u{202f}' || c == '\u{205f}' || c == '\u{3000}'
}

/// The letters and digits of ASCII.
pub open spec fn is_ascii_alnum(c: char) -> bool {
    ||| '0' <= c <= '9'
    ||| 'A' <= c <= 'Z'
    ||| 'a' <= c <= 'z'
}

/// Decides [`is_ascii_alnum`].
pub fn ascii_alnum(c: char) -> (r: bool)
    ensures
        r == is_ascii_alnum(c),
{
    ('0' <= c && c <= '9') || ('A' <= c && c <= 'Z') || ('a' <= c && c <= 'z')
}

/// The characters of a name token: ASCII letters, digits, `-` and `_`.
pub open spec fn is_token_char(c: char) -> bool {
    is_ascii_alnum(c) || c == '-' || c == '_'
}

/// Decides [`is_token_char`].
pub fn token_char(c: char) -> (r: bool)
    ensures
        r == is_token_char(c),
{
    ascii_alnum(c) || c == '-' || c == '_'
}

/// The lower case of an ASCII letter; any other character unchanged.
pub open spec fn ascii_lower_char(c: char) -> char {
    if 'A' <= c <= 'Z' {
        (c as u32 + 32) as char
    } else {
        c
    }
}

/// Every ASCII letter of `s` in lower case.
pub open spec fn ascii_lower(s: Seq<char>) -> Seq<char> {
    Seq::new(s.len(), |i: int| ascii_lower_char(s[i]))
}

/// Every character of `s` is an ASCII character.
pub open spec fn is_ascii_text(s: Seq<char>) -> bool {
    forall|i: int| 0 <= i < s.len() ==> (#[trigger] s[i]) <= '\u{7f}'
}

/// The upper case of an ASCII letter; any other character unchanged.
pub open spec fn ascii_upper_char(c: char) -> char {
    if 'a' <= c <= 'z' {
        (c as u32 - 32) as char
    } else {
        c
    }
}

/// Every ASCII letter of `s` in upper case.
pub open spec fn ascii_upper(s: Seq<char>) -> Seq<char> {
    Seq::new(s.len(), |i: int| ascii_upper_char(s[i]))
}

/// Computes [`ascii_lower_char`].
pub fn to_ascii_lower_char(c: char) -> (r: char)
    ensures
        r == ascii_lower_char(c),
{
    if 'A' <= c && c <= 'Z' {
        ((c as u32 as u8) + 32) as char
    } else {
        c
    }
}

/// Computes [`ascii_lower`].
pub fn to_ascii_lower(s: &str) -> (r: String)
    ensures
        r@ == ascii_lower(s@),
{
    let v = to_chars(s);
    let mut out = String::new();
    let mut i: usize = 0;
    while i < v.len()
        invariant
            i <= v.len(),
            v@ == s@,
            out@ == ascii_lower(s@).take(i as int),
        decreases v.len() - i,
    {
        out.push(to_ascii_lower_char(v[i]));
        assert(ascii_lower(s@).take(i + 1) =~= ascii_lower(s@).take(i as int).push(
            ascii_lower_char(s@[i as int]),
        ));
        i += 1;
    }
    assert(ascii_lower(s@).take(s@.len() as int) =~= ascii_lower(s@));
    out
}

// ---------------------------------------------------------------------------
// Prefixes, suffixes and occurrences.

/// `p` stands in `s` at position `i`.
pub open spec fn occurs_at(s: Seq<char>, p: Seq<char>, i: int) -> bool {
    &&& 0 <= i
    &&& i + p.len() <= s.len()
    &&& s.subrange(i, i + p.len()) == p
}

/// `s` begins with `p`.
pub open spec fn starts_with(s: Seq<char>, p: Seq<char>) -> bool {
    p.len() <= s.len() && s.take(p.len() as int) == p
}

/// `s` ends with `p`.
pub open spec fn ends_with(s: Seq<char>, p: Seq<char>) -> bool {
    p.len() <= s.len() && s.skip(s.len() - p.len()) == p
}

/// The first position at or after `i` where `p` stands in `s`.
pub open spec fn find_from(s: Seq<char>, p: Seq<char>, i: int) -> Option<int>
    decreases s.len() + 1 - i,
{
    if i < 0 || i + p.len() > s.len() {
        None
    } else if occurs_at(s, p, i) {
        Some(i)
    } else {
        find_from(s, p, i + 1)
    }
}

/// The first position where `p` stands in `s`.
pub open spec fn find(s: Seq<char>, p: Seq<char>) -> Option<int> {
    find_from(s, p, 0)
}

/// The last position at or before `i` where `p` stands in `s`.
pub open spec fn rfind_from(s: Seq<char>, p: Seq<char>, i: int) -> Option<int>
    decreases i + 1,
{
    if i < 0 {
        None
    } else if occurs_at(s, p, i) {
        Some(i)
    } else {
        rfind_from(s, p, i - 1)
    }
}

/// The last position where `p` stands in `s`.
pub open spec fn rfind(s: Seq<char>, p: Seq<char>) -> Option<int> {
    rfind_from(s, p, s.len() - p.len())
}

/// `p` stands somewhere in `s`.
pub open spec fn contains_text(s: Seq<char>, p: Seq<char>) -> bool {
    exists|i: int| occurs_at(s, p, i)
}

/// What [`find_from`] finds is an occurrence, and none stands before it.
pub proof fn lemma_find_from(s: Seq<char>, p: Seq<char>, i: int)
    requires
        0 <= i,
    ensures
        find_from(s, p, i) matches Some(j) ==> i <= j && occurs_at(s, p, j) && (forall|k: int|
            i <= k < j ==> !occurs_at(s, p, k)),
        find_from(s, p, i) is None ==> forall|k: int| i <= k ==> !occurs_at(s, p, k),
    decreases s.len() + 1 - i,
{
    if i + p.len() <= s.len() && !occurs_at(s, p, i) {
        lemma_find_from(s, p, i + 1);
        assert forall|k: int| i <= k && (find_from(s, p, i) matches Some(j) ==> k < j) implies !occurs_at(
            s,
            p,
            k,
        ) by {
            if k > i {
                assert(i + 1 <= k);
            }
        }
    }
}

/// Searching in what follows position `i` is searching from there.
pub proof fn lemma_find_shift(s: Seq<char>, p: Seq<char>, i: int, j: int)
    requires
        0 <= i <= s.len(),
        0 <= j,
    ensures
        find_from(s.skip(i), p, j) == (match find_from(s, p, i + j) {
            Some(k) => Some(k - i),
            None => None,
        }),
    decreases s.len() + 1 - i - j,
{
    if i + j + p.len() <= s.len() {
        assert(s.skip(i).subrange(j, j + p.len()) =~= s.subrange(i + j, i + j + p.len()));
        if !occurs_at(s, p, i + j) {
            lemma_find_shift(s, p, i, j + 1);
        }
    }
}

/// The first occurrence is the one that is found.
pub proof fn lemma_first_occurrence(s: Seq<char>, p: Seq<char>, i: int, j: int)
    requires
        0 <= i <= j,
        occurs_at(s, p, j),
        forall|k: int| i <= k < j ==> !#[trigger] occurs_at(s, p, k),
    ensures
        find_from(s, p, i) == Some(j),
    decreases j - i,
{
    if i < j {
        assert(!occurs_at(s, p, i));
        lemma_first_occurrence(s, p, i + 1, j);
    }
}

/// What [`rfind_from`] finds is an occurrence, and none stands after it up to `i`.
pub proof fn lemma_rfind_from(s: Seq<char>, p: Seq<char>, i: int)
    ensures
        rfind_from(s, p, i) matches Some(j) ==> 0 <= j <= i && occurs_at(s, p, j) && (forall|k: int|
            j < k <= i ==> !occurs_at(s, p, k)),
        rfind_from(s, p, i) is None ==> forall|k: int| k <= i ==> !occurs_at(s, p, k),
    decreases i + 1,
{
    if i >= 0 && !occurs_at(s, p, i) {
        lemma_rfind_from(s, p, i - 1);
    }
}

/// Decides [`occurs_at`].
pub fn matches_at(s: &[char], p: &[char], i: usize) -> (r: bool)
    ensures
        r == occurs_at(s@, p@, i as int),
{
    if p.len() > s.len() || i > s.len() - p.len() {
        return false;
    }
    let mut k: usize = 0;
    while k < p.len()
        invariant
            k <= p.len(),
            i + p.len() <= s.len(),
            forall|j: int| 0 <= j < k ==> s@[i + j] == p@[j],
        decreases p.len() - k,
    {
        if s[i + k] != p[k] {
            assert(s@.subrange(i as int, i + p.len())[k as int] != p@[k as int]);
            return false;
        }
        k += 1;
    }
    assert(s@.subrange(i as int, i + p.len()) =~= p@);
    true
}

/// Decides [`starts_with`].
pub fn begins(s: &[char], p: &str) -> (r: bool)
    ensures
        r == starts_with(s@, p@),
{
    let pv = to_chars(p);
    let r = matches_at(s, pv.as_slice(), 0);
    proof {
        if p@.len() <= s@.len() {
            assert(s@.subrange(0, p@.len() as int) =~= s@.take(p@.len() as int));
        }
    }
    r
}

/// Decides [`starts_with`] on texts.
pub fn text_begins(s: &str, p: &str) -> (r: bool)
    ensures
        r == starts_with(s@, p@),
{
    let v = to_chars(s);
    begins(v.as_slice(), p)
}

/// Whether the first character of `s` is `c`.
pub fn text_begins_char(s: &str, c: char) -> (r: bool)
    ensures
        r == (s@.len() > 0 && s@[0] == c),
{
    let v = to_chars(s);
    v.len() > 0 && v[0] == c
}

/// Computes [`find_from`].
pub fn find_at(s: &[char], p: &[char], from: usize) -> (r: Option<usize>)
    ensures
        match r {
            Some(i) => find_from(s@, p@, from as int) == Some(i as int),
            None => find_from(s@, p@, from as int) is None,
        },
{
    if p.len() > s.len() {
        return None;
    }
    let last: usize = s.len() - p.len();
    let mut i: usize = from;
    while i <= last
        invariant
            from <= i,
            last + p.len() == s.len(),
            i <= last ==> find_from(s@, p@, from as int) == find_from(s@, p@, i as int),
            i > last ==> find_from(s@, p@, from as int) is None,
        decreases last + 1 - i,
    {
        if matches_at(s, p, i) {
            return Some(i);
        }
        if i == last {
            assert(find_from(s@, p@, i + 1) is None);
            return None;
        }
        i += 1;
    }
    None
}

/// Computes [`find_from`] for a literal pattern.
pub fn find_text(s: &[char], p: &str, from: usize) -> (r: Option<usize>)
    ensures
        match r {
            Some(i) => find_from(s@, p@, from as int) == Some(i as int),
            None => find_from(s@, p@, from as int) is None,
        },
{
    let pv = to_chars(p);
    find_at(s, pv.as_slice(), from)
}

/// Computes [`rfind`] for a literal pattern.
pub fn rfind_text(s: &[char], p: &str) -> (r: Option<usize>)
    ensures
        match r {
            Some(i) => rfind(s@, p@) == Some(i as int),
            None => rfind(s@, p@) is None,
        },
{
    let pv = to_chars(p);
    if pv.len() > s.len() {
        return None;
    }
    let mut i: usize = s.len() - pv.len();
    loop
        invariant
            pv@ == p@,
            i + pv.len() <= s.len(),
            rfind(s@, p@) == rfind_from(s@, p@, i as int),
        decreases i,
    {
        if matches_at(s, pv.as_slice(), i) {
            return Some(i);
        }
        if i == 0 {
            assert(rfind_from(s@, p@, -1) is None);
            return None;
        }
        i -= 1;
    }
}

/// Decides [`contains_text`].
pub fn has_part(s: &str, p: &str) -> (r: bool)
    ensures
        r == contains_text(s@, p@),
{
    let v = to_chars(s);
    let found = find_text(v.as_slice(), p, 0);
    proof {
        lemma_find_from(s@, p@, 0);
    }
    found.is_some()
}

/// Whether the character `c` stands in `s`.
pub fn has_char(s: &str, c: char) -> (r: bool)
    ensures
        r == s@.contains(c),
{
    let v = to_chars(s);
    let mut i: usize = 0;
    while i < v.len()
        invariant
            i <= v.len(),
            v@ == s@,
            forall|j: int| 0 <= j < i ==> v@[j] != c,
        decreases v.len() - i,
    {
        if v[i] == c {
            assert(s@[i as int] == c);
            return true;
        }
        i += 1;
    }
    false
}

// ---------------------------------------------------------------------------
// Trimming and splitting.

/// `s` without the white space at its beginning.
pub open spec fn trim_start(s: Seq<char>) -> Seq<char>
    decreases s.len(),
{
    if s.len() > 0 && is_space(s[0]) {
        trim_start(s.skip(1))
    } else {
        s
    }
}

/// `s` without the white space at its end.
pub open spec fn trim_end(s: Seq<char>) -> Seq<char>
    decreases s.len(),
{
    if s.len() > 0 && is_space(s.last()) {
        trim_end(s.drop_last())
    } else {
        s
    }
}

/// `s` without the white space at both ends.
pub open spec fn trim(s: Seq<char>) -> Seq<char> {
    trim_end(trim_start(s))
}

/// `s` without the run of `c` at its beginning.
pub open spec fn trim_start_char(s: Seq<char>, c: char) -> Seq<char>
    decreases s.len(),
{
    if s.len() > 0 && s[0] == c {
        trim_start_char(s.skip(1), c)
    } else {
        s
    }
}

/// `s` without the run of `c` at its end.
pub open spec fn trim_end_char(s: Seq<char>, c: char) -> Seq<char>
    decreases s.len(),
{
    if s.len() > 0 && s.last() == c {
        trim_end_char(s.drop_last(), c)
    } else {
        s
    }
}

/// `s` without the repetitions of `p` at its end; an empty `p` removes nothing.
pub open spec fn trim_end_text(s: Seq<char>, p: Seq<char>) -> Seq<char>
    decreases s.len(),
{
    if p.len() > 0 && ends_with(s, p) {
        trim_end_text(s.take(s.len() - p.len()), p)
    } else {
        s
    }
}

/// Computes [`trim`].
pub fn trimmed(s: &str) -> (r: String)
    ensures
        r@ == trim(s@),
{
    let v = to_chars(s);
    let mut a: usize = 0;
    assert(s@.skip(0) =~= s@);
    while a < v.len() && space(v[a])
        invariant
            a <= v.len(),
            v@ == s@,
            trim_start(s@) == trim_start(s@.skip(a as int)),
        decreases v.len() - a,
    {
        assert(s@.skip(a as int).skip(1) =~= s@.skip(a + 1));
        a += 1;
    }
    assert(trim_start(s@) == s@.skip(a as int));
    let mut b: usize = v.len();
    while b > a && space(v[b - 1])
        invariant
            a <= b <= v.len(),
            v@ == s@,
            trim(s@) == trim_end(s@.subrange(a as int, b as int)),
        decreases b,
    {
        assert(s@.subrange(a as int, b as int).drop_last() =~= s@.subrange(a as int, b - 1));
        b -= 1;
    }
    assert(s@.subrange(a as int, b as int) == trim(s@));
    text_of(slice_subrange(v.as_slice(), a, b))
}

/// Computes [`trim_start_char`].
pub fn trimmed_start_char(s: &str, c: char) -> (r: String)
    ensures
        r@ == trim_start_char(s@, c),
{
    let v = to_chars(s);
    let mut a: usize = 0;
    assert(s@.skip(0) =~= s@);
    while a < v.len() && v[a] == c
        invariant
            a <= v.len(),
            v@ == s@,
            trim_start_char(s@, c) == trim_start_char(s@.skip(a as int), c),
        decreases v.len() - a,
    {
        assert(s@.skip(a as int).skip(1) =~= s@.skip(a + 1));
        a += 1;
    }
    text_of(slice_subrange(v.as_slice(), a, v.len()))
}

/// Computes [`trim_end_char`].
pub fn trimmed_end_char(s: &str, c: char) -> (r: String)
    ensures
        r@ == trim_end_char(s@, c),
{
    let v = to_chars(s);
    let mut b: usize = v.len();
    assert(s@.take(b as int) =~= s@);
    while b > 0 && v[b - 1] == c
        invariant
            b <= v.len(),
            v@ == s@,
            trim_end_char(s@, c) == trim_end_char(s@.take(b as int), c),
        decreases b,
    {
        assert(s@.take(b as int).drop_last() =~= s@.take(b - 1));
        b -= 1;
    }
    assert(s@.take(b as int) =~= s@.subrange(0, b as int));
    text_of(slice_subrange(v.as_slice(), 0, b))
}

/// Computes [`trim_end_text`].
pub fn trimmed_end_text(s: &str, p: &str) -> (r: String)
    ensures
        r@ == trim_end_text(s@, p@),
{
    let v = to_chars(s);
    let pv = to_chars(p);
    let mut b: usize = v.len();
    assert(s@.take(b as int) =~= s@);
    while pv.len() > 0 && pv.len() <= b && matches_at(v.as_slice(), pv.as_slice(), b - pv.len())
        invariant
            b <= v.len(),
            v@ == s@,
            pv@ == p@,
            trim_end_text(s@, p@) == trim_end_text(s@.take(b as int), p@),
        decreases b,
    {
        let ghost t = s@.take(b as int);
        assert(t.skip(t.len() - p@.len()) =~= s@.subrange(b - p@.len(), b as int));
        assert(t.take(t.len() - p@.len()) =~= s@.take(b - p@.len()));
        b -= pv.len();
    }
    proof {
        let t = s@.take(b as int);
        if p@.len() > 0 && p@.len() <= b {
            assert(t.skip(t.len() - p@.len()) =~= s@.subrange(b - p@.len(), b as int));
        }
    }
    assert(s@.take(b as int) =~= s@.subrange(0, b as int));
    text_of(slice_subrange(v.as_slice(), 0, b))
}

/// The position of the first `c` in `s`, or the length of `s`.
pub open spec fn char_index(s: Seq<char>, c: char) -> int
    decreases s.len(),
{
    if s.len() == 0 || s[0] == c {
        0
    } else {
        1 + char_index(s.skip(1), c)
    }
}

/// The part of `s` before the first `c`; all of `s` where there is none.
pub open spec fn before_char(s: Seq<char>, c: char) -> Seq<char> {
    s.take(char_index(s, c))
}

/// `char_index` stays inside the text and stands at the first `c`.
pub proof fn lemma_char_index(s: Seq<char>, c: char)
    ensures
        0 <= char_index(s, c) <= s.len(),
        forall|k: int| 0 <= k < char_index(s, c) ==> s[k] != c,
        char_index(s, c) < s.len() ==> s[char_index(s, c)] == c,
    decreases s.len(),
{
    if s.len() > 0 && s[0] != c {
        lemma_char_index(s.skip(1), c);
        assert forall|k: int| 0 <= k < char_index(s, c) implies s[k] != c by {
            if k > 0 {
                assert(s.skip(1)[k - 1] == s[k]);
            }
        }
    }
}

/// The position of the first `c` at or after `from`, or the length of `s`.
pub fn index_of_char(s: &[char], c: char, from: usize) -> (r: usize)
    requires
        from <= s.len(),
    ensures
        r == from + char_index(s@.skip(from as int), c),
        from <= r <= s.len(),
{
    let mut i: usize = from;
    while i < s.len() && s[i] != c
        invariant
            from <= i <= s.len(),
            from + char_index(s@.skip(from as int), c) == i + char_index(s@.skip(i as int), c),
        decreases s.len() - i,
    {
        assert(s@.skip(i as int).skip(1) =~= s@.skip(i + 1));
        i += 1;
    }
    i
}

/// Computes [`before_char`].
pub fn cut_at_char(s: &str, c: char) -> (r: String)
    ensures
        r@ == before_char(s@, c),
{
    let v = to_chars(s);
    let i = index_of_char(v.as_slice(), c, 0);
    assert(s@.skip(0) =~= s@);
    assert(s@.subrange(0, i as int) =~= s@.take(i as int));
    text_of(slice_subrange(v.as_slice(), 0, i))
}

/// The maximal runs of `s` without white space, in order.
pub open spec fn words(s: Seq<char>) -> Seq<Seq<char>>
    decreases s.len(),
{
    if s.len() == 0 {
        Seq::empty()
    } else if is_space(s[0]) {
        words(s.skip(1))
    } else {
        let n = word_len(s);
        if 0 < n <= s.len() {
            seq![s.take(n)] + words(s.skip(n))
        } else {
            Seq::empty()
        }
    }
}

/// The length of the run without white space at the beginning of `s`.
pub open spec fn word_len(s: Seq<char>) -> int
    decreases s.len(),
{
    if s.len() == 0 || is_space(s[0]) {
        0
    } else {
        1 + word_len(s.skip(1))
    }
}

/// A run is no longer than its text.
pub proof fn lemma_word_len(s: Seq<char>)
    ensures
        0 <= word_len(s) <= s.len(),
        s.len() > 0 && !is_space(s[0]) ==> word_len(s) > 0,
    decreases s.len(),
{
    if s.len() > 0 && !is_space(s[0]) {
        lemma_word_len(s.skip(1));
    }
}

/// Computes [`words`].
pub fn split_words(s: &str) -> (r: Vec<String>)
    ensures
        texts(r@) == words(s@),
{
    let v = to_chars(s);
    let mut out: Vec<String> = Vec::new();
    let mut i: usize = 0;
    assert(s@.skip(0) =~= s@);
    assert(texts(out@) + words(s@) =~= words(s@));
    while i < v.len()
        invariant
            i <= v.len(),
            v@ == s@,
            words(s@) == texts(out@) + words(s@.skip(i as int)),
        decreases v.len() - i,
    {
        if space(v[i]) {
            assert(s@.skip(i as int).skip(1) =~= s@.skip(i + 1));
            i += 1;
        } else {
            let start: usize = i;
            while i < v.len() && !space(v[i])
                invariant
                    start <= i <= v.len(),
                    v@ == s@,
                    word_len(s@.skip(start as int)) == (i - start) + word_len(s@.skip(i as int)),
                decreases v.len() - i,
            {
                assert(s@.skip(i as int).skip(1) =~= s@.skip(i + 1));
                i += 1;
            }
            proof {
                lemma_word_len(s@.skip(start as int));
                assert(s@.skip(start as int).take(i - start) =~= s@.subrange(start as int, i as int));
                assert(s@.skip(start as int).skip(i - start) =~= s@.skip(i as int));
            }
            let ghost before = out@;
            out.push(text_of(slice_subrange(v.as_slice(), start, i)));
            assert(texts(out@) =~= texts(before).push(s@.subrange(start as int, i as int)));
            assert(texts(before) + (seq![s@.subrange(start as int, i as int)] + words(
                s@.skip(i as int),
            )) =~= texts(out@) + words(s@.skip(i as int)));
        }
    }
    assert(s@.skip(i as int).len() == 0);
    assert(texts(out@) + words(s@.skip(i as int)) =~= texts(out@));
    out
}

// ---------------------------------------------------------------------------
// Replacing.

/// `s` with every `c` replaced by `rep`.
pub open spec fn replace_char(s: Seq<char>, c: char, rep: Seq<char>) -> Seq<char>
    decreases s.len(),
{
    if s.len() == 0 {
        Seq::empty()
    } else {
        replace_char(s.drop_last(), c, rep) + if s.last() == c {
            rep
        } else {
            seq![s.last()]
        }
    }
}

/// Computes [`replace_char`].
pub fn replaced_char(s: &str, c: char, rep: &str) -> (r: String)
    ensures
        r@ == replace_char(s@, c, rep@),
{
    let v = to_chars(s);
    let mut out = String::new();
    let mut i: usize = 0;
    assert(s@.take(0) =~= Seq::empty());
    while i < v.len()
        invariant
            i <= v.len(),
            v@ == s@,
            out@ == replace_char(s@.take(i as int), c, rep@),
        decreases v.len() - i,
    {
        assert(s@.take(i + 1).drop_last() =~= s@.take(i as int));
        if v[i] == c {
            out.append(rep);
        } else {
            out.push(v[i]);
        }
        assert(out@ =~= replace_char(s@.take(i + 1), c, rep@));
        i += 1;
    }
    assert(s@.take(s@.len() as int) =~= s@);
    out
}

/// `s` from position `i` on, with the occurrences of `p`, taken from the left
/// and without overlap, replaced by `rep`.
pub open spec fn replace_from(s: Seq<char>, p: Seq<char>, rep: Seq<char>, i: int) -> Seq<char>
    decreases s.len() - i,
{
    match find_from(s, p, i) {
        Some(j) if p.len() > 0 && i <= j && j + p.len() <= s.len() => s.subrange(i, j) + rep
            + replace_from(s, p, rep, j + p.len()),
        _ => s.skip(i),
    }
}

/// Computes `replace_from(s, p, rep, 0)`.
pub fn replaced_text(s: &str, p: &str, rep: &str) -> (r: String)
    requires
        p@.len() > 0,
    ensures
        r@ == replace_from(s@, p@, rep@, 0),
{
    let v = to_chars(s);
    let pv = to_chars(p);
    let mut out = String::new();
    let mut i: usize = 0;
    assert(out@ + replace_from(s@, p@, rep@, 0) =~= replace_from(s@, p@, rep@, 0));
    loop
        invariant
            i <= v.len(),
            v@ == s@,
            pv@ == p@,
            p@.len() > 0,
            replace_from(s@, p@, rep@, 0) == out@ + replace_from(s@, p@, rep@, i as int),
        ensures
            find_from(s@, p@, i as int) is None,
        decreases v.len() - i,
    {
        match find_at(v.as_slice(), pv.as_slice(), i) {
            Some(j) => {
                proof {
                    lemma_find_from(s@, p@, i as int);
                }
                let ghost before = out@;
                push_chars(&mut out, slice_subrange(v.as_slice(), i, j));
                out.append(rep);
                assert(before + (s@.subrange(i as int, j as int) + rep@ + replace_from(
                    s@,
                    p@,
                    rep@,
                    j + p@.len(),
                )) =~= out@ + replace_from(s@, p@, rep@, j + p@.len()));
                i = j + pv.len();
            },
            None => {
                break;
            },
        }
    }
    assert(s@.skip(i as int) =~= s@.subrange(i as int, s@.len() as int));
    push_chars(&mut out, slice_subrange(v.as_slice(), i, v.len()));
    out
}

// ---------------------------------------------------------------------------
// Numbers.

/// The decimal digits of `n`.
pub open spec fn decimal(n: nat) -> Seq<char>
    decreases n,
{
    if n < 10 {
        seq![digit(n)]
    } else {
        decimal(n / 10).push(digit(n % 10))
    }
}

/// The digit of a number below ten.
pub open spec fn digit(n: nat) -> char {
    (48 + n) as char
}

/// Computes [`decimal`].
pub fn decimal_text(n: u128) -> (r: String)
    ensures
        r@ == decimal(n as nat),
    decreases n,
{
    let d: u8 = (n % 10) as u8;
    let c: char = (48u8 + d) as char;
    let mut out = if n < 10 {
        String::new()
    } else {
        decimal_text(n / 10)
    };
    out.push(c);
    assert(c == digit((n % 10) as nat));
    assert(n < 10 ==> out@ =~= decimal(n as nat));
    out
}

// ---------------------------------------------------------------------------
// Laws.

/// Replacing a character puts the replacement in for every one of it, and leaves all
/// other characters in their places.
pub proof fn law_replace_char(s: Seq<char>, c: char, rep: Seq<char>)
    ensures
        replace_char(s, c, rep) == Seq::new(
            s.len(),
            |i: int|
                if s[i] == c {
                    rep
                } else {
                    seq![s[i]]
                },
        ).flatten(),
    decreases s.len(),
{
    let pieces = Seq::new(
        s.len(),
        |i: int|
            if s[i] == c {
                rep
            } else {
                seq![s[i]]
            },
    );
    pieces.lemma_flatten_and_flatten_alt_are_equivalent();
    if s.len() > 0 {
        let front = s.drop_last();
        law_replace_char(front, c, rep);
        let rest = Seq::new(
            front.len(),
            |i: int|
                if front[i] == c {
                    rep
                } else {
                    seq![front[i]]
                },
        );
        rest.lemma_flatten_and_flatten_alt_are_equivalent();
        assert(pieces.drop_last() =~= rest);
    }
}

/// Replacing goes over two texts one after the other.
pub proof fn lemma_replace_char_append(a: Seq<char>, b: Seq<char>, c: char, rep: Seq<char>)
    ensures
        replace_char(a + b, c, rep) == replace_char(a, c, rep) + replace_char(b, c, rep),
    decreases b.len(),
{
    if b.len() == 0 {
        assert(a + b =~= a);
    } else {
        assert((a + b).drop_last() =~= a + b.drop_last());
        assert((a + b).last() == b.last());
        lemma_replace_char_append(a, b.drop_last(), c, rep);
        assert(replace_char(a + b, c, rep) =~= replace_char(a, c, rep) + replace_char(b, c, rep));
    }
}

/// A text without the character stays.
pub proof fn lemma_replace_char_none(s: Seq<char>, c: char, rep: Seq<char>)
    requires
        !s.contains(c),
    ensures
        replace_char(s, c, rep) == s,
    decreases s.len(),
{
    if s.len() > 0 {
        let front = s.drop_last();
        assert(!front.contains(c)) by {
            if front.contains(c) {
                let k = choose|k: int| 0 <= k < front.len() && front[k] == c;
                assert(s[k] == c);
            }
        }
        assert(s[s.len() - 1] != c);
        lemma_replace_char_none(front, c, rep);
        assert(replace_char(s, c, rep) =~= s);
    }
}

/// Trimming takes off spaces at both ends and nothing else: what is left neither
/// begins nor ends with one.
pub proof fn law_trim(s: Seq<char>)
    ensures
        exists|i: int, j: int|
            #![trigger s.subrange(i, j)]
            0 <= i <= j <= s.len() && trim(s) == s.subrange(i, j) && (forall|k: int|
                0 <= k < i || j <= k < s.len() ==> is_space(#[trigger] s[k])),
        trim(s).len() > 0 ==> !is_space(trim(s)[0]) && !is_space(trim(s).last()),
{
    let t = trim_start(s);
    lemma_trim_start(s);
    lemma_trim_end(t);
    let i = s.len() - t.len();
    let j = i + trim(s).len();
    assert(s.subrange(i, j) =~= trim(s)) by {
        assert(t =~= s.skip(i));
        assert(trim(s) =~= t.take(trim(s).len() as int));
    }
    assert forall|k: int| 0 <= k < i || j <= k < s.len() implies is_space(#[trigger] s[k]) by {
        if k >= j {
            assert(s[k] == t[k - i]);
        }
    }
    if trim(s).len() > 0 {
        assert(trim(s)[0] == t[0]);
    }
}

proof fn lemma_trim_start(s: Seq<char>)
    ensures
        trim_start(s).len() <= s.len(),
        trim_start(s) == s.skip(s.len() - trim_start(s).len()),
        forall|k: int| 0 <= k < s.len() - trim_start(s).len() ==> is_space(#[trigger] s[k]),
        trim_start(s).len() > 0 ==> !is_space(trim_start(s)[0]),
    decreases s.len(),
{
    if s.len() > 0 && is_space(s[0]) {
        let r = s.skip(1);
        lemma_trim_start(r);
        let n = s.len() - trim_start(s).len();
        assert(s.skip(n) =~= r.skip(n - 1));
        assert forall|k: int| 0 <= k < n implies is_space(#[trigger] s[k]) by {
            if k > 0 {
                assert(r[k - 1] == s[k]);
            }
        }
    } else {
        assert(s.skip(0) =~= s);
    }
}

proof fn lemma_trim_end(s: Seq<char>)
    ensures
        trim_end(s).len() <= s.len(),
        trim_end(s) == s.take(trim_end(s).len() as int),
        forall|k: int| trim_end(s).len() <= k < s.len() ==> is_space(#[trigger] s[k]),
        trim_end(s).len() > 0 ==> !is_space(trim_end(s).last()),
    decreases s.len(),
{
    if s.len() > 0 && is_space(s.last()) {
        let r = s.drop_last();
        lemma_trim_end(r);
        assert(s.take(trim_end(s).len() as int) =~= r.take(trim_end(s).len() as int));
        assert forall|k: int| trim_end(s).len() <= k < s.len() implies is_space(#[trigger] s[k]) by {
            if k < r.len() {
                assert(r[k] == s[k]);
            }
        }
    } else {
        assert(s.take(s.len() as int) =~= s);
    }
}

/// Trimming a character takes it off at one end, as often as it stands there, and
/// nothing else.
pub proof fn law_trim_char(s: Seq<char>, c: char)
    ensures
        ({
            let t = trim_end_char(s, c);
            &&& t.len() <= s.len()
            &&& s == t + Seq::new((s.len() - t.len()) as nat, |i: int| c)
            &&& t.len() > 0 ==> t.last() != c
        }),
        ({
            let t = trim_start_char(s, c);
            &&& t.len() <= s.len()
            &&& s == Seq::new((s.len() - t.len()) as nat, |i: int| c) + t
            &&& t.len() > 0 ==> t[0] != c
        }),
    decreases s.len(),
{
    if s.len() > 0 {
        law_trim_char(s.drop_last(), c);
        law_trim_char(s.skip(1), c);
    }
    let t = trim_end_char(s, c);
    assert(s =~= t + Seq::new((s.len() - t.len()) as nat, |i: int| c)) by {
        if s.len() > 0 && s.last() == c {
            let f = s.drop_last();
            assert(f =~= t + Seq::new((f.len() - t.len()) as nat, |i: int| c));
            assert(s =~= f.push(c));
        }
    }
    let t = trim_start_char(s, c);
    assert(s =~= Seq::new((s.len() - t.len()) as nat, |i: int| c) + t) by {
        if s.len() > 0 && s[0] == c {
            let f = s.skip(1);
            assert(f =~= Seq::new((f.len() - t.len()) as nat, |i: int| c) + t);
            assert(s =~= seq![c] + f);
        }
    }
}

/// Trimming an ending takes it off as often as it stands there: what is left does not
/// end with it, and each ending that is put back is taken off again.
pub proof fn law_trim_ending(s: Seq<char>, p: Seq<char>)
    requires
        p.len() > 0,
    ensures
        !ends_with(trim_end_text(s, p), p),
        !ends_with(s, p) ==> trim_end_text(s, p) == s,
        trim_end_text(s + p, p) == trim_end_text(s, p),
        trim_end_text(s, p).len() <= s.len(),
        trim_end_text(s, p) == s.take(trim_end_text(s, p).len() as int),
    decreases s.len(),
{
    assert((s + p).skip((s + p).len() - p.len()) =~= p);
    assert((s + p).take((s + p).len() - p.len()) =~= s);
    if ends_with(s, p) {
        let r = s.take(s.len() - p.len());
        law_trim_ending(r, p);
        let n = trim_end_text(s, p).len() as int;
        assert(s.take(n) =~= r.take(n));
    } else {
        assert(s.take(s.len() as int) =~= s);
    }
}

/// A text is cut at the first of a character: what is left does not hold it, and is
/// followed by it where it stands in the text at all.
pub proof fn law_cut_at_char(s: Seq<char>, c: char)
    ensures
        !before_char(s, c).contains(c),
        !s.contains(c) ==> before_char(s, c) == s,
        s.contains(c) ==> before_char(s, c).len() < s.len() && s[before_char(s, c).len() as int]
            == c,
        starts_with(s, before_char(s, c)),
{
    lemma_char_index(s, c);
    let n = char_index(s, c);
    let b = before_char(s, c);
    if b.contains(c) {
        let k = choose|k: int| 0 <= k < b.len() && b[k] == c;
        assert(s[k] == c);
    }
    if !s.contains(c) {
        if n < s.len() {
            assert(s[n] == c);
        }
        assert(b =~= s);
    } else {
        let k = choose|k: int| 0 <= k < s.len() && s[k] == c;
        assert(s[k] == c);
    }
    assert(s.take(b.len() as int) =~= b);
}

/// Numbers are written in decimal: one digit below ten, and above it the digits of
/// the tenth part with the last digit behind them.
pub proof fn law_decimal(n: nat, d: nat)
    requires
        d < 10,
    ensures
        decimal(d) == seq![(48 + d) as char],
        n > 0 ==> decimal(10 * n + d) == decimal(n) + seq![(48 + d) as char],
        decimal(n).len() > 0,
        n > 0 ==> decimal(n)[0] != '0',
    decreases n,
{
    if n > 0 {
        assert((10 * n + d) / 10 == n && (10 * n + d) % 10 == d);
        assert(decimal(10 * n + d) =~= decimal(n) + seq![(48 + d) as char]);
        if n >= 10 {
            law_decimal(n / 10, d);
        }
    }
}

/// Words are what stands between spaces: a text without a space is one word, spaces
/// alone are none, and a space parts the words before it from those behind it.
pub proof fn law_words(a: Seq<char>, c: char, b: Seq<char>)
    requires
        is_space(c),
    ensures
        words(a + seq![c] + b) == words(a) + words(b),
        words(seq![c] + b) == words(b),
        a.len() > 0 && (forall|i: int| 0 <= i < a.len() ==> !is_space(#[trigger] a[i])) ==> words(a)
            == seq![a],
        words(Seq::empty()).len() == 0,
    decreases a.len(),
{
    let s = a + seq![c] + b;
    assert((seq![c] + b).skip(1) =~= b);
    assert((seq![c] + b)[0] == c);
    if a.len() == 0 {
        assert(s =~= seq![c] + b);
        assert(words(a) + words(b) =~= words(b));
    } else if is_space(a[0]) {
        law_words(a.skip(1), c, b);
        assert(s.skip(1) =~= a.skip(1) + seq![c] + b);
        assert(s[0] == a[0]);
    } else {
        let n = word_len(a);
        lemma_word_len(a);
        lemma_word_len_append(a, c, b);
        assert(0 < n <= a.len()) by {
            assert(!is_space(a[0]));
        }
        law_words(a.skip(n), c, b);
        assert(s[0] == a[0]);
        assert(s.take(n) =~= a.take(n));
        assert(s.skip(n) =~= a.skip(n) + seq![c] + b);
        assert(words(s) =~= words(a) + words(b));
        if forall|i: int| 0 <= i < a.len() ==> !is_space(#[trigger] a[i]) {
            lemma_word_len_all(a);
            assert(a.take(n) =~= a);
            assert(a.skip(n) =~= Seq::empty());
            assert(words(a) =~= seq![a]);
        }
    }
}

proof fn lemma_word_len_append(a: Seq<char>, c: char, b: Seq<char>)
    requires
        is_space(c),
    ensures
        word_len(a + seq![c] + b) == word_len(a),
    decreases a.len(),
{
    let s = a + seq![c] + b;
    if a.len() > 0 {
        assert(s[0] == a[0]);
        assert(s.skip(1) =~= a.skip(1) + seq![c] + b);
        lemma_word_len_append(a.skip(1), c, b);
    } else {
        assert(s[0] == c);
    }
}

/// Replacing a text goes from the left: what stands before its first occurrence stays,
/// the replacement comes in for it, and the rest is treated in the same way. A text in
/// which it does not occur stays.
pub proof fn law_replace_text(s: Seq<char>, p: Seq<char>, rep: Seq<char>)
    requires
        p.len() > 0,
    ensures
        !contains_text(s, p) ==> replace_from(s, p, rep, 0) == s,
        find(s, p) matches Some(j) ==> replace_from(s, p, rep, 0) == s.take(j) + rep
            + replace_from(s.skip(j + p.len()), p, rep, 0),
{
    lemma_find_from(s, p, 0);
    assert(s.skip(0) =~= s);
    match find(s, p) {
        Some(j) => {
            lemma_replace_shift(s, p, rep, j + p.len(), 0);
            assert(s.subrange(0, j) =~= s.take(j));
            assert(occurs_at(s, p, j));
        },
        None => {},
    }
}

proof fn lemma_replace_shift(s: Seq<char>, p: Seq<char>, rep: Seq<char>, i: int, j: int)
    requires
        0 <= i,
        0 <= j,
        i + j <= s.len(),
        p.len() > 0,
    ensures
        replace_from(s, p, rep, i + j) == replace_from(s.skip(i), p, rep, j),
    decreases s.len() - i - j,
{
    let t = s.skip(i);
    lemma_find_shift(s, p, i, j);
    lemma_find_from(s, p, i + j);
    lemma_find_from(t, p, j);
    match find_from(s, p, i + j) {
        Some(k) => {
            assert(occurs_at(s, p, k));
            lemma_replace_shift(s, p, rep, i, k - i + p.len());
            assert(s.subrange(i + j, k) =~= t.subrange(j, k - i));
        },
        None => {
            assert(s.skip(i + j) =~= t.skip(j));
        },
    }
}

proof fn lemma_word_len_all(a: Seq<char>)
    requires
        forall|i: int| 0 <= i < a.len() ==> !is_space(#[trigger] a[i]),
    ensures
        word_len(a) == a.len(),
    decreases a.len(),
{
    if a.len() > 0 {
        let r = a.skip(1);
        assert forall|i: int| 0 <= i < r.len() implies !is_space(#[trigger] r[i]) by {
            assert(r[i] == a[i + 1]);
        }
        lemma_word_len_all(r);
    }
}

/// White space is what Unicode calls so; letters and digits are those of ASCII, and a
/// name may have `-` and `_` besides.
pub proof fn law_classes_of_chars(c: char)
    ensures
        is_space(c) <==> {
            let n = c as u32;
            9 <= n <= 13 || n == 32 || n == 0x85 || n == 0xa0 || n == 0x1680 || 0x2000 <= n <= 0x200a
                || n == 0x2028 || n == 0x2029 || n == 0x202f || n == 0x205f || n == 0x3000
        },
        is_ascii_alnum(c) <==> {
            let n = c as u32;
            48 <= n <= 57 || 65 <= n <= 90 || 97 <= n <= 122
        },
        is_token_char(c) <==> is_ascii_alnum(c) || c as u32 == 45 || c as u32 == 95,
{
}

/// In lower case each of the letters `A` to `Z` becomes the one 32 places on, and nothing
/// else changes.
pub proof fn law_ascii_lower(s: Seq<char>, i: int)
    requires
        0 <= i < s.len(),
    ensures
        ascii_lower(s).len() == s.len(),
        65 <= s[i] as u32 <= 90 ==> ascii_lower(s)[i] as u32 == s[i] as u32 + 32,
        !(65 <= s[i] as u32 <= 90) ==> ascii_lower(s)[i] == s[i],
{
}

/// In upper case each of the letters `a` to `z` becomes the one 32 places before it, and
/// nothing else changes.
pub proof fn law_ascii_upper(s: Seq<char>, i: int)
    requires
        0 <= i < s.len(),
    ensures
        ascii_upper(s).len() == s.len(),
        97 <= s[i] as u32 <= 122 ==> ascii_upper(s)[i] as u32 == s[i] as u32 - 32,
        !(97 <= s[i] as u32 <= 122) ==> ascii_upper(s)[i] == s[i],
{
}

/// A text stands in every text that is made of it and others around it.
pub proof fn law_part_is_contained(a: Seq<char>, p: Seq<char>, b: Seq<char>)
    ensures
        contains_text(a + p + b, p),
        occurs_at(a + p + b, p, a.len() as int),
{
    let s = a + p + b;
    assert(s.subrange(a.len() as int, a.len() as int + p.len()) =~= p);
    assert(occurs_at(s, p, a.len() as int));
}

} // verus!
