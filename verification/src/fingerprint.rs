//! Fingerprints: what a page depends on, in one text that changes with it.
use vstd::prelude::*;
use vstd::string::*;

use crate::fspath;
use crate::order;
use crate::pattern;
use crate::text;
use crate::text::copy_text;

verus! {

// ---------------------------------------------------------------------------
// Digests.

/// The BLAKE3 digest of some bytes, in hexadecimal.
pub uninterp spec fn digest_of(bytes: Seq<u8>) -> Seq<char>;

/// A lower case hexadecimal digit.
pub open spec fn hex_digit(c: char) -> bool {
    '0' <= c <= '9' || 'a' <= c <= 'f'
}

/// `blake3::hash` and `Hash::to_hex` give the digest of bytes as 64 lower case
/// hexadecimal digits. The result is [`digest_of`] the bytes; nothing is said of
/// digests of different bytes.
#[verifier::external_body]
pub(crate) fn digest(bytes: &[u8]) -> (r: String)
    ensures
        r@ == digest_of(bytes@),
        r@.len() == 64,
        forall|i: int| 0 <= i < r@.len() ==> hex_digit(#[trigger] r@[i]),
{
    blake3::hash(bytes).to_hex().to_string()
}

/// The digest of a text: that of its UTF-8 form.
pub open spec fn text_digest(s: Seq<char>) -> Seq<char> {
    digest_of(vstd::utf8::encode_utf8(s))
}

/// Computes [`text_digest`].
pub fn digest_text(s: &str) -> (r: String)
    ensures
        r@ == text_digest(s@),
        r@.len() == 64,
{
    digest(s.as_bytes())
}

/// `String::from_utf8` gives the text that some bytes are the UTF-8 form of, and
/// fails where they are not the UTF-8 form of a text.
#[verifier::external_body]
pub(crate) fn decode(bytes: &[u8]) -> (r: Option<String>)
    ensures
        match r {
            Some(s) => vstd::utf8::encode_utf8(s@) == bytes@,
            None => !vstd::utf8::valid_utf8(bytes@),
        },
{
    String::from_utf8(bytes.to_vec()).ok()
}

/// The text that stands for a file in a fingerprint: its content, the digest of
/// its bytes where they are no text, and nothing where it cannot be read.
pub open spec fn query_text(bytes: Option<Seq<u8>>) -> Seq<char> {
    match bytes {
        Some(b) => if vstd::utf8::valid_utf8(b) {
            vstd::utf8::decode_utf8(b)
        } else {
            digest_of(b)
        },
        None => Seq::empty(),
    }
}

/// The bytes of a file that could be read.
pub open spec fn opt_bytes(o: Option<Vec<u8>>) -> Option<Seq<u8>> {
    match o {
        Some(b) => Some(b@),
        None => None,
    }
}

/// Computes [`query_text`].
pub fn read_for_query(bytes: &Option<Vec<u8>>) -> (r: String)
    ensures
        r@ == query_text(opt_bytes(*bytes)),
{
    match bytes {
        Some(b) => match decode(b.as_slice()) {
            Some(s) => {
                proof {
                    vstd::utf8::encode_utf8_valid_utf8(s@);
                    vstd::utf8::encode_utf8_decode_utf8(s@);
                }
                s
            },
            None => digest(b.as_slice()),
        },
        None => String::new(),
    }
}

/// The digest of a file, or nothing where it cannot be read.
pub open spec fn file_digest(bytes: Option<Seq<u8>>) -> Seq<char> {
    match bytes {
        Some(b) => digest_of(b),
        None => Seq::empty(),
    }
}

/// Computes [`file_digest`].
pub fn hashed_file_content(bytes: &Option<Vec<u8>>) -> (r: String)
    ensures
        r@ == file_digest(opt_bytes(*bytes)),
{
    match bytes {
        Some(b) => digest(b.as_slice()),
        None => String::new(),
    }
}

// ---------------------------------------------------------------------------
// Fingerprints of files.

/// A source file.
#[derive(Debug)]
pub struct SourceFile {
    pub path: String,
    pub content: String,
}

/// The digest of the content of a source file.
pub fn content_hash(source: &SourceFile) -> (r: String)
    ensures
        r@ == text_digest(source.content@),
{
    digest_text(source.content.as_str())
}

/// Two fingerprints in one.
pub open spec fn combined(left: Seq<char>, right: Seq<char>) -> Seq<char> {
    left + seq![':'] + right
}

/// Computes [`combined`].
pub fn combine_fingerprints(left: &str, right: &str) -> (r: String)
    ensures
        r@ == combined(left@, right@),
{
    let mut out = copy_text(left);
    out.push(':');
    out.append(right);
    assert(out@ =~= combined(left@, right@));
    out
}

/// The fingerprint of a source file: its path and the digest of its content.
pub fn page_fingerprint(source: &SourceFile) -> (r: String)
    ensures
        r@ == combined(source.path@, text_digest(source.content@)),
{
    let hash = content_hash(source);
    combine_fingerprints(source.path.as_str(), hash.as_str())
}

/// `label` with all of `parts` combined into it, in order.
pub open spec fn merged(label: Seq<char>, parts: Seq<Seq<char>>) -> Seq<char>
    decreases parts.len(),
{
    if parts.len() == 0 {
        label
    } else {
        combined(merged(label, parts.drop_last()), parts.last())
    }
}

/// Computes [`merged`].
pub fn merge_fingerprints(label: &str, parts: &Vec<String>) -> (r: String)
    ensures
        r@ == merged(label@, text::texts(parts@)),
{
    let ghost all = text::texts(parts@);
    let mut out = copy_text(label);
    let mut i: usize = 0;
    assert(all.take(0) =~= Seq::empty());
    while i < parts.len()
        invariant
            i <= parts.len(),
            all == text::texts(parts@),
            out@ == merged(label@, all.take(i as int)),
        decreases parts.len() - i,
    {
        assert(all.take(i + 1).drop_last() =~= all.take(i as int));
        assert(all.take(i + 1).last() == parts@[i as int]@);
        out = combine_fingerprints(out.as_str(), parts[i].as_str());
        i += 1;
    }
    assert(all.take(parts.len() as int) =~= all);
    out
}

/// Fingerprints that are merged from parts of the same lengths differ where a
/// part differs.
pub proof fn law_merged_tells_parts_apart(label: Seq<char>, a: Seq<Seq<char>>, b: Seq<Seq<char>>)
    requires
        a.len() == b.len(),
        forall|i: int| 0 <= i < a.len() ==> (#[trigger] a[i]).len() == b[i].len(),
        merged(label, a) == merged(label, b),
    ensures
        a == b,
    decreases a.len(),
{
    if a.len() == 0 {
        assert(a =~= b);
    } else {
        let x = merged(label, a.drop_last());
        let y = merged(label, b.drop_last());
        let n = a.last().len() as int;
        assert(a[a.len() - 1].len() == b[a.len() - 1].len());
        let m = merged(label, a);
        assert(m.skip(m.len() - n) =~= a.last());
        assert(m.skip(m.len() - n) =~= b.last());
        assert(m.take(m.len() - n - 1) =~= x);
        assert(m.take(m.len() - n - 1) =~= y);
        assert forall|i: int| 0 <= i < a.drop_last().len() implies (#[trigger] a.drop_last()[i]).len()
            == b.drop_last()[i].len() by {
            assert(a[i].len() == b[i].len());
        }
        law_merged_tells_parts_apart(label, a.drop_last(), b.drop_last());
        assert(a =~= a.drop_last().push(a.last()));
        assert(b =~= b.drop_last().push(b.last()));
    }
}

// ---------------------------------------------------------------------------
// Templates.

/// A file whose text enters a fingerprint.
#[derive(Debug)]
pub struct HashedFile {
    pub path: String,
    pub text: String,
}

/// The fingerprint of one template: where it comes from, its path and its digest.
pub open spec fn template_part(kind: Seq<char>, path: Seq<char>, content: Seq<char>) -> Seq<char> {
    kind + seq![':'] + path + seq![':'] + text_digest(content)
}

/// The fingerprints of the templates in `files`.
pub open spec fn template_parts(kind: Seq<char>, files: Seq<HashedFile>) -> Seq<Seq<char>> {
    Seq::new(files.len(), |i: int| template_part(kind, files[i].path@, files[i].text@))
}

/// The fingerprint of all templates: those of the site and those of the theme.
pub open spec fn template_fingerprint(site: Seq<HashedFile>, theme: Seq<HashedFile>) -> Seq<char> {
    merged(
        "template-deps:v1"@,
        order::sorted_texts(template_parts("site"@, site) + template_parts("theme"@, theme)),
    )
}

/// Appends [`template_parts`] to `out`.
fn push_template_parts(out: &mut Vec<String>, kind: &str, files: &Vec<HashedFile>)
    ensures
        text::texts(final(out)@) == text::texts(old(out)@) + template_parts(kind@, files@),
{
    let ghost all = template_parts(kind@, files@);
    let ghost start = text::texts(out@);
    let mut i: usize = 0;
    assert(start + all.take(0) =~= start);
    while i < files.len()
        invariant
            i <= files.len(),
            all == template_parts(kind@, files@),
            text::texts(out@) == start + all.take(i as int),
        decreases files.len() - i,
    {
        let mut part = copy_text(kind);
        part.push(':');
        part.append(files[i].path.as_str());
        part.push(':');
        let hash = digest_text(files[i].text.as_str());
        part.append(hash.as_str());
        let ghost p = part@;
        assert(p =~= all[i as int]);
        let ghost before = out@;
        out.push(part);
        assert(text::texts(out@) =~= text::texts(before).push(p));
        assert(start + all.take(i + 1) =~= (start + all.take(i as int)).push(all[i as int]));
        i += 1;
    }
    assert(all.take(all.len() as int) =~= all);
}

/// Computes [`template_fingerprint`].
pub fn compute_template_dependency_hash(site: &Vec<HashedFile>, theme: &Vec<HashedFile>) -> (r:
    String)
    ensures
        r@ == template_fingerprint(site@, theme@),
{
    let mut parts: Vec<String> = Vec::new();
    assert(text::texts(parts@) =~= Seq::empty());
    push_template_parts(&mut parts, "site", site);
    push_template_parts(&mut parts, "theme", theme);
    assert(text::texts(parts@) =~= template_parts("site"@, site@) + template_parts(
        "theme"@,
        theme@,
    ));
    let parts = order::sort_texts(parts);
    merge_fingerprints("template-deps:v1", &parts)
}

/// The fingerprint of the templates does not depend on the order in which the
/// files were found.
pub proof fn law_template_fingerprint_ignores_order(
    site: Seq<HashedFile>,
    theme: Seq<HashedFile>,
    other_site: Seq<HashedFile>,
    other_theme: Seq<HashedFile>,
)
    requires
        (template_parts("site"@, site) + template_parts("theme"@, theme)).to_multiset() == (
        template_parts("site"@, other_site) + template_parts(
            "theme"@,
            other_theme,
        )).to_multiset(),
    ensures
        template_fingerprint(site, theme) == template_fingerprint(other_site, other_theme),
{
    order::law_sorted_texts_ignore_order(
        template_parts("site"@, site) + template_parts("theme"@, theme),
        template_parts("site"@, other_site) + template_parts("theme"@, other_theme),
    );
}

/// A merged fingerprint begins with all that was merged up to some part.
proof fn lemma_merged_begins(label: Seq<char>, parts: Seq<Seq<char>>, i: int)
    requires
        0 <= i < parts.len(),
    ensures
        text::starts_with(merged(label, parts), combined(merged(label, parts.take(i)), parts[i])),
    decreases parts.len(),
{
    let front = parts.drop_last();
    let begun = combined(merged(label, parts.take(i)), parts[i]);
    let m = merged(label, parts);
    if i == parts.len() - 1 {
        assert(parts.take(i) =~= front);
        assert(m.take(begun.len() as int) =~= begun);
    } else {
        lemma_merged_begins(label, front, i);
        assert(front.take(i) =~= parts.take(i));
        assert(m.take(begun.len() as int) =~= merged(label, front).take(begun.len() as int));
    }
}

/// A text does not stand before what it begins with.
proof fn lemma_begins_not_before(a: Seq<char>, b: Seq<char>)
    requires
        text::starts_with(a, b),
    ensures
        !order::text_lt(a, b),
    decreases b.len(),
{
    if b.len() > 0 {
        assert(a.take(b.len() as int)[0] == a[0]);
        assert(a.skip(1).take(b.len() - 1) =~= a.take(b.len() as int).skip(1));
        lemma_begins_not_before(a.skip(1), b.skip(1));
    }
}

/// Where two sequences in order differ only in that one has `x` for a `y` of the
/// other, then at the first difference stands the smaller of the two.
proof fn lemma_first_difference(a: Seq<Seq<char>>, b: Seq<Seq<char>>, x: Seq<char>, y: Seq<char>) -> (i:
    int)
    requires
        order::in_order::<String>(a),
        order::in_order::<String>(b),
        a.to_multiset().insert(y) == b.to_multiset().insert(x),
        x != y,
    ensures
        0 <= i < a.len(),
        i < b.len(),
        a.take(i) == b.take(i),
        (a[i] == x && order::text_lt(x, b[i])) || (b[i] == y && order::text_lt(y, a[i])),
    decreases a.len(),
{
    broadcast use vstd::seq_lib::group_to_multiset_ensures;
    broadcast use vstd::multiset::group_multiset_axioms;

    let ma = a.to_multiset();
    let mb = b.to_multiset();
    assert(ma.insert(y).len() == mb.insert(x).len());
    assert(ma.insert(y).count(y) > 0);
    assert(mb.count(y) > 0);
    assert(ma.count(x) > 0) by {
        assert(mb.insert(x).count(x) > 0);
    }
    assert(a.len() > 0 && b.len() > 0);
    if a[0] == b[0] {
        let ra = a.skip(1);
        let rb = b.skip(1);
        assert(a =~= ra.insert(0, a[0]));
        assert(b =~= rb.insert(0, b[0]));
        vstd::seq_lib::to_multiset_insert(ra, 0, a[0]);
        vstd::seq_lib::to_multiset_insert(rb, 0, b[0]);
        assert forall|v: Seq<char>| ra.to_multiset().insert(y).count(v)
            == rb.to_multiset().insert(x).count(v) by {
            assert(ma.insert(y).count(v) == mb.insert(x).count(v));
        }
        assert(ra.to_multiset().insert(y) =~= rb.to_multiset().insert(x));
        let j = lemma_first_difference(ra, rb, x, y);
        assert(a.take(j + 1) =~= seq![a[0]] + ra.take(j));
        assert(b.take(j + 1) =~= seq![b[0]] + rb.take(j));
        j + 1
    } else {
        order::lemma_text_trichotomy(a[0], b[0]);
        assert(a.take(0) =~= b.take(0));
        if order::text_lt(a[0], b[0]) {
            lemma_smallest_is_missing(b, a[0]);
            assert(a.contains(a[0]));
            assert(ma.insert(y).count(a[0]) == mb.insert(x).count(a[0]));
        } else {
            lemma_smallest_is_missing(a, b[0]);
            assert(b.contains(b[0]));
            assert(ma.insert(y).count(b[0]) == mb.insert(x).count(b[0]));
        }
        0
    }
}

/// What stands before the first text of a sequence in order is not in it.
proof fn lemma_smallest_is_missing(s: Seq<Seq<char>>, x: Seq<char>)
    requires
        order::in_order::<String>(s),
        s.len() > 0,
        order::text_lt(x, s[0]),
    ensures
        s.to_multiset().count(x) == 0,
{
    broadcast use vstd::seq_lib::group_to_multiset_ensures;

    order::lemma_text_trichotomy(x, s[0]);
    if s.contains(x) {
        let k = choose|k: int| 0 <= k < s.len() && s[k] == x;
        if k > 0 {
            assert(<String as order::Ranked>::rank_le(s[0], s[k]));
        }
    }
}

/// The fingerprint of the parts changes where one of them becomes another of the
/// same length, as long as no other part goes on from the one or the other.
proof fn lemma_changed_part_counts(label: Seq<char>, parts: Seq<Seq<char>>, k: int, y: Seq<char>)
    requires
        0 <= k < parts.len(),
        parts[k] != y,
        parts[k].len() == y.len(),
        forall|j: int|
            0 <= j < parts.len() && j != k ==> (text::starts_with(#[trigger] parts[j], parts[k])
                ==> parts[j] == parts[k]) && (text::starts_with(parts[j], y) ==> parts[j] == y),
    ensures
        merged(label, order::sorted_texts(parts)) != merged(
            label,
            order::sorted_texts(parts.update(k, y)),
        ),
{
    broadcast use vstd::seq_lib::group_to_multiset_ensures;
    broadcast use vstd::multiset::group_multiset_axioms;

    let x = parts[k];
    let changed = parts.update(k, y);
    let rest = parts.remove(k);
    assert(parts =~= rest.insert(k, x));
    assert(changed =~= rest.insert(k, y));
    vstd::seq_lib::to_multiset_insert(rest, k, x);
    vstd::seq_lib::to_multiset_insert(rest, k, y);
    order::law_sort::<String>(parts);
    order::law_sort::<String>(changed);
    let a = order::sorted_texts(parts);
    let b = order::sorted_texts(changed);
    assert(a.to_multiset().insert(y) =~= b.to_multiset().insert(x));
    let i = lemma_first_difference(a, b, x, y);
    lemma_merged_begins(label, a, i);
    lemma_merged_begins(label, b, i);
    assert(a.contains(a[i]) && b.contains(b[i]));
    assert(parts.to_multiset().count(a[i]) > 0);
    assert(changed.to_multiset().count(b[i]) > 0);
    let ja = choose|j: int| 0 <= j < parts.len() && parts[j] == a[i];
    let jb = choose|j: int| 0 <= j < changed.len() && changed[j] == b[i];
    assert(!text::starts_with(a[i], b[i]) && !text::starts_with(b[i], a[i])) by {
        order::lemma_text_trichotomy(a[i], b[i]);
        if text::starts_with(a[i], b[i]) {
            lemma_begins_not_before(a[i], b[i]);
            assert(b[i] == y);
            assert(ja != k) by {
                if ja == k {
                    assert(x.take(y.len() as int) =~= x);
                }
            }
            assert(text::starts_with(parts[ja], y));
        }
        if text::starts_with(b[i], a[i]) {
            lemma_begins_not_before(b[i], a[i]);
            assert(a[i] == x);
            assert(jb != k) by {
                if jb == k {
                    assert(y.take(x.len() as int) =~= y);
                }
            }
            assert(text::starts_with(parts[jb], x));
        }
    }
    let m = merged(label, a);
    if m == merged(label, b) {
        let head = merged(label, a.take(i));
        let n = head.len() as int + 1;
        let from = m.skip(n);
        let in_a = combined(head, a[i]);
        let in_b = combined(head, b[i]);
        assert(from.take(a[i].len() as int) =~= m.take(in_a.len() as int).skip(n));
        assert(in_a.skip(n) =~= a[i]);
        assert(from.take(b[i].len() as int) =~= m.take(in_b.len() as int).skip(n));
        assert(in_b.skip(n) =~= b[i]);
        if a[i].len() <= b[i].len() {
            assert(b[i].take(a[i].len() as int) =~= a[i]);
        } else {
            assert(a[i].take(b[i].len() as int) =~= b[i]);
        }
    }
}

/// The entry of no other template goes on from that of the template at `k` of
/// the theme with the text `content`. An entry that does takes a path with a
/// colon and a whole digest in it.
pub open spec fn entry_stands_alone(theme: Seq<HashedFile>, k: int, content: Seq<char>) -> bool {
    let entry = template_part("theme"@, theme[k].path@, content);
    forall|j: int|
        0 <= j < theme.len() && j != k ==> (text::starts_with(
            #[trigger] template_part("theme"@, theme[j].path@, theme[j].text@),
            entry,
        ) ==> template_part("theme"@, theme[j].path@, theme[j].text@) == entry)
}

/// A change of a template of the theme changes the fingerprint where it changes
/// the digest, whatever the templates of the site and the others of the theme are.
/// (That digests have one length is said of each one that is computed.)
pub proof fn law_theme_template_counts(
    site: Seq<HashedFile>,
    theme: Seq<HashedFile>,
    k: int,
    after: HashedFile,
)
    requires
        0 <= k < theme.len(),
        after.path@ == theme[k].path@,
        text_digest(theme[k].text@) != text_digest(after.text@),
        text_digest(theme[k].text@).len() == text_digest(after.text@).len(),
        entry_stands_alone(theme, k, theme[k].text@),
        entry_stands_alone(theme, k, after.text@),
    ensures
        template_fingerprint(site, theme) != template_fingerprint(site, theme.update(k, after)),
{
    let s = template_parts("site"@, site);
    let t = template_parts("theme"@, theme);
    let changed = template_parts("theme"@, theme.update(k, after));
    let x = template_part("theme"@, theme[k].path@, theme[k].text@);
    let y = template_part("theme"@, theme[k].path@, after.text@);
    let n = s.len() + k;
    assert(s + changed =~= (s + t).update(n, y));
    let len = "theme"@.len() + 1 + theme[k].path@.len() + 1;
    assert(x.skip(len as int) =~= text_digest(theme[k].text@));
    assert(y.skip(len as int) =~= text_digest(after.text@));
    reveal_strlit("site");
    reveal_strlit("theme");
    assert forall|j: int| 0 <= j < (s + t).len() && j != n implies (text::starts_with(
        #[trigger] (s + t)[j],
        (s + t)[n],
    ) ==> (s + t)[j] == (s + t)[n]) && (text::starts_with((s + t)[j], y) ==> (s + t)[j] == y) by {
        let z = (s + t)[j];
        if j < s.len() {
            assert(z[0] == 's');
            assert(x[0] == 't' && y[0] == 't');
            if x.len() <= z.len() {
                assert(z.take(x.len() as int)[0] == z[0]);
            }
        } else {
            assert(z == template_part(
                "theme"@,
                theme[j - s.len()].path@,
                theme[j - s.len()].text@,
            ));
        }
    }
    lemma_changed_part_counts("template-deps:v1"@, s + t, n, y);
}

/// Templates whose paths hold no colon stand alone: a digest has one length.
pub proof fn law_plain_paths_stand_alone(theme: Seq<HashedFile>, k: int, content: Seq<char>)
    requires
        0 <= k < theme.len(),
        forall|j: int| 0 <= j < theme.len() ==> !(#[trigger] theme[j]).path@.contains(':'),
        forall|j: int|
            0 <= j < theme.len() ==> text_digest((#[trigger] theme[j]).text@).len() == text_digest(
                content,
            ).len(),
    ensures
        entry_stands_alone(theme, k, content),
{
    let path = theme[k].path@;
    let entry = template_part("theme"@, path, content);
    let n = "theme"@.len() as int + 1;
    assert forall|j: int|
        0 <= j < theme.len() && j != k && text::starts_with(
            #[trigger] template_part("theme"@, theme[j].path@, theme[j].text@),
            entry,
        ) implies template_part("theme"@, theme[j].path@, theme[j].text@) == entry by {
        let other = theme[j].path@;
        let z = template_part("theme"@, other, theme[j].text@);
        assert(!theme[k].path@.contains(':') && !theme[j].path@.contains(':'));
        assert(text_digest(theme[j].text@).len() == text_digest(content).len());
        assert forall|i: int| 0 <= i < entry.len() implies z[i] == entry[i] by {
            assert(z.take(entry.len() as int)[i] == z[i]);
        }
        if path.len() < other.len() {
            assert(entry[n + path.len()] == ':');
            assert(z[n + path.len()] == other[path.len() as int]);
            assert(other.contains(':'));
        } else if other.len() < path.len() {
            assert(entry[n + other.len()] == path[other.len() as int]);
            assert(z[n + other.len()] == ':');
            assert(path.contains(':'));
        }
        assert(z.take(entry.len() as int) =~= z);
    }
}

// ---------------------------------------------------------------------------
// References of a page.

/// A reference that does not name a file beside the page.
pub open spec fn external_ref(value: Seq<char>) -> bool {
    ||| text::starts_with(value, "http://"@)
    ||| text::starts_with(value, "https://"@)
    ||| text::starts_with(value, "mailto:"@)
    ||| (value.len() > 0 && value[0] == '#')
    ||| text::starts_with(value, "//"@)
    ||| text::starts_with(value, "data:"@)
    ||| (value.len() > 0 && value[0] == '/')
}

/// Decides [`external_ref`].
pub fn is_external_ref(value: &str) -> (r: bool)
    ensures
        r == external_ref(value@),
{
    text::text_begins(value, "http://") || text::text_begins(value, "https://")
        || text::text_begins(value, "mailto:") || text::text_begins_char(value, '#')
        || text::text_begins(value, "//") || text::text_begins(value, "data:")
        || text::text_begins_char(value, '/')
}

/// A reference without its query and its fragment, where something remains.
pub open spec fn normal_ref(value: Seq<char>) -> Option<Seq<char>> {
    let n = text::before_char(text::before_char(value, '?'), '#');
    if n.len() == 0 {
        None
    } else {
        Some(n)
    }
}

/// Computes [`normal_ref`].
pub fn normalize_ref(value: &str) -> (r: Option<String>)
    ensures
        text::opt_text(r) == normal_ref(value@),
{
    let no_query = text::cut_at_char(value, '?');
    let no_fragment = text::cut_at_char(no_query.as_str(), '#');
    if no_fragment.as_str().is_empty() {
        None
    } else {
        Some(no_fragment)
    }
}

/// The references of a page: the targets of its links, then those of its `src`
/// and `href` attributes.
pub open spec fn asset_refs(markdown: Seq<char>) -> Seq<Seq<char>> {
    pattern::first_groups(pattern::matches_of(pattern::MARKDOWN_LINK@, markdown))
        + pattern::first_groups(pattern::matches_of(pattern::ASSET_ATTRIBUTE@, markdown))
}

/// Computes [`asset_refs`].
pub fn extract_asset_like_refs(markdown: &str) -> (r: Vec<String>)
    ensures
        text::texts(r@) == asset_refs(markdown@),
{
    let mut out = pattern::captured_texts(pattern::MARKDOWN_LINK, markdown);
    let mut more = pattern::captured_texts(pattern::ASSET_ATTRIBUTE, markdown);
    let ghost a = out@;
    let ghost b = more@;
    out.append(&mut more);
    assert(text::texts(out@) =~= text::texts(a) + text::texts(b));
    out
}

/// One of `paths` has the components of `p`.
pub open spec fn has_path(paths: Seq<Seq<char>>, p: Seq<char>) -> bool {
    exists|i: int| 0 <= i < paths.len() && fspath::parts(#[trigger] paths[i]) == fspath::parts(p)
}

/// The files that the references name, relative to `base`: each once, in the
/// order in which they are first named.
pub open spec fn dependencies_of(base: Seq<char>, refs: Seq<Seq<char>>) -> Seq<Seq<char>>
    decreases refs.len(),
{
    if refs.len() == 0 {
        Seq::empty()
    } else {
        let rest = dependencies_of(base, refs.drop_last());
        let raw = refs.last();
        match normal_ref(raw) {
            Some(n) if !external_ref(raw) && !has_path(rest, fspath::join(base, n)) => rest.push(
                fspath::join(base, n),
            ),
            _ => rest,
        }
    }
}

/// The directory that the references of a page are relative to.
pub open spec fn base_dir(page: Seq<char>) -> Seq<char> {
    fspath::parent(page).unwrap_or("."@)
}

/// The files that a page refers to.
pub open spec fn page_dependencies(page: Seq<char>, markdown: Seq<char>) -> Seq<Seq<char>> {
    dependencies_of(base_dir(page), asset_refs(markdown))
}

/// Decides [`has_path`].
fn knows_path(paths: &Vec<String>, p: &str) -> (r: bool)
    ensures
        r == has_path(text::texts(paths@), p@),
{
    let mut i: usize = 0;
    while i < paths.len()
        invariant
            i <= paths.len(),
            forall|j: int|
                0 <= j < i ==> fspath::parts(#[trigger] text::texts(paths@)[j]) != fspath::parts(p@),
        decreases paths.len() - i,
    {
        assert(text::texts(paths@)[i as int] == paths@[i as int]@);
        if fspath::same_path(paths[i].as_str(), p) {
            return true;
        }
        i += 1;
    }
    false
}

/// Computes [`dependencies_of`].
pub fn resolve_dependencies(base: &str, refs: &Vec<String>) -> (r: Vec<String>)
    ensures
        text::texts(r@) == dependencies_of(base@, text::texts(refs@)),
{
    let ghost all = text::texts(refs@);
    let mut out: Vec<String> = Vec::new();
    let mut i: usize = 0;
    assert(all.take(0) =~= Seq::empty());
    assert(text::texts(out@) =~= Seq::empty());
    while i < refs.len()
        invariant
            i <= refs.len(),
            all == text::texts(refs@),
            text::texts(out@) == dependencies_of(base@, all.take(i as int)),
        decreases refs.len() - i,
    {
        assert(all.take(i + 1).drop_last() =~= all.take(i as int));
        assert(all.take(i + 1).last() == refs@[i as int]@);
        if !is_external_ref(refs[i].as_str()) {
            match normalize_ref(refs[i].as_str()) {
                Some(n) => {
                    let path = fspath::path_join(base, n.as_str());
                    if !knows_path(&out, path.as_str()) {
                        let ghost before = out@;
                        let ghost p = path@;
                        out.push(path);
                        assert(text::texts(out@) =~= text::texts(before).push(p));
                    }
                },
                None => {},
            }
        }
        i += 1;
    }
    assert(all.take(refs.len() as int) =~= all);
    out
}

/// Computes [`page_dependencies`].
pub fn discover_page_asset_dependencies(page: &str, markdown: &str) -> (r: Vec<String>)
    ensures
        text::texts(r@) == page_dependencies(page@, markdown@),
{
    let base = match fspath::path_parent(page) {
        Some(p) => p,
        None => copy_text("."),
    };
    let refs = extract_asset_like_refs(markdown);
    resolve_dependencies(base.as_str(), &refs)
}

/// Those of `paths` that lie in `root`.
pub open spec fn paths_inside(paths: Seq<Seq<char>>, root: Seq<char>) -> Seq<Seq<char>> {
    paths.filter(|p: Seq<char>| fspath::starts_with(p, root))
}

/// Computes [`paths_inside`].
pub fn retain_inside(paths: &Vec<String>, root: &str) -> (r: Vec<String>)
    ensures
        text::texts(r@) == paths_inside(text::texts(paths@), root@),
{
    let ghost all = text::texts(paths@);
    let ghost p = |p: Seq<char>| fspath::starts_with(p, root@);
    let mut out: Vec<String> = Vec::new();
    let mut i: usize = 0;
    assert(text::texts(out@) =~= all.take(0).filter(p)) by {
        reveal(Seq::filter);
    }
    while i < paths.len()
        invariant
            i <= paths.len(),
            all == text::texts(paths@),
            p == (|p: Seq<char>| fspath::starts_with(p, root@)),
            text::texts(out@) == all.take(i as int).filter(p),
        decreases paths.len() - i,
    {
        proof {
            reveal(Seq::filter);
            assert(all.take(i + 1).drop_last() =~= all.take(i as int));
            assert(all.take(i + 1).last() == paths@[i as int]@);
        }
        if fspath::path_starts_with(paths[i].as_str(), root) {
            let ghost before = out@;
            out.push(copy_text(paths[i].as_str()));
            assert(text::texts(out@) =~= text::texts(before).push(paths@[i as int]@));
        }
        i += 1;
    }
    assert(all.take(paths.len() as int) =~= all);
    out
}

/// The files in the content directory that a page refers to.
pub fn page_asset_candidates(page: &str, markdown: &str, content_dir: &str) -> (r: Vec<String>)
    ensures
        text::texts(r@) == paths_inside(page_dependencies(page@, markdown@), content_dir@),
{
    let deps = discover_page_asset_dependencies(page, markdown);
    retain_inside(&deps, content_dir)
}

// ---------------------------------------------------------------------------
// Pages.

/// The fingerprint of the files that a page refers to: path and digest of each,
/// in order.
pub open spec fn asset_fingerprint(files: Seq<HashedFile>) -> Seq<char> {
    merged(
        "page-assets:v1"@,
        order::sorted_texts(
            Seq::new(files.len(), |i: int| combined(files[i].path@, text_digest(files[i].text@))),
        ),
    )
}

/// Computes [`asset_fingerprint`].
pub fn compute_page_asset_dependency_hash(files: &Vec<HashedFile>) -> (r: String)
    ensures
        r@ == asset_fingerprint(files@),
{
    let ghost want = Seq::new(
        files@.len(),
        |i: int| combined(files@[i].path@, text_digest(files@[i].text@)),
    );
    let mut parts: Vec<String> = Vec::new();
    let mut i: usize = 0;
    while i < files.len()
        invariant
            i <= files.len(),
            parts@.len() == i,
            forall|j: int|
                0 <= j < i ==> #[trigger] parts@[j]@ == combined(
                    files@[j].path@,
                    text_digest(files@[j].text@),
                ),
        decreases files.len() - i,
    {
        let hash = digest_text(files[i].text.as_str());
        parts.push(combine_fingerprints(files[i].path.as_str(), hash.as_str()));
        i += 1;
    }
    assert(text::texts(parts@) =~= want);
    let parts = order::sort_texts(parts);
    merge_fingerprints("page-assets:v1", &parts)
}

/// The fingerprint of a page: the digest of its text, the files that it refers
/// to, and the templates.
pub open spec fn page_build_fingerprint(
    markdown: Seq<char>,
    files: Seq<HashedFile>,
    template_hash: Seq<char>,
) -> Seq<char> {
    combined(combined(text_digest(markdown), asset_fingerprint(files)), template_hash)
}

/// Computes [`page_build_fingerprint`].
pub fn compute_page_build_hash(markdown: &str, files: &Vec<HashedFile>, template_hash: &str) -> (r:
    String)
    ensures
        r@ == page_build_fingerprint(markdown@, files@, template_hash@),
{
    let page = digest_text(markdown);
    let assets = compute_page_asset_dependency_hash(files);
    let with_assets = combine_fingerprints(page.as_str(), assets.as_str());
    combine_fingerprints(with_assets.as_str(), template_hash)
}

/// A page whose text has another digest has another fingerprint, whatever else
/// it depends on.
pub proof fn law_page_text_counts(
    markdown: Seq<char>,
    files: Seq<HashedFile>,
    template_hash: Seq<char>,
    other: Seq<char>,
    other_files: Seq<HashedFile>,
    other_template_hash: Seq<char>,
)
    requires
        text_digest(markdown) != text_digest(other),
        text_digest(markdown).len() == text_digest(other).len(),
    ensures
        page_build_fingerprint(markdown, files, template_hash) != page_build_fingerprint(
            other,
            other_files,
            other_template_hash,
        ),
{
    let n = text_digest(markdown).len() as int;
    assert(page_build_fingerprint(markdown, files, template_hash).take(n) =~= text_digest(
        markdown,
    ));
    assert(page_build_fingerprint(other, other_files, other_template_hash).take(n)
        =~= text_digest(other));
}

/// A page keeps its fingerprint only where the templates keep theirs.
pub proof fn law_templates_count(
    markdown: Seq<char>,
    files: Seq<HashedFile>,
    template_hash: Seq<char>,
    other_template_hash: Seq<char>,
)
    requires
        template_hash != other_template_hash,
    ensures
        page_build_fingerprint(markdown, files, template_hash) != page_build_fingerprint(
            markdown,
            files,
            other_template_hash,
        ),
{
    let head = combined(text_digest(markdown), asset_fingerprint(files)) + seq![':'];
    let a = page_build_fingerprint(markdown, files, template_hash);
    let b = page_build_fingerprint(markdown, files, other_template_hash);
    assert(a.skip(head.len() as int) =~= template_hash);
    assert(b.skip(head.len() as int) =~= other_template_hash);
}

// ---------------------------------------------------------------------------
// More laws.

/// A fingerprint that is merged is the label with every part behind it, in order, each
/// behind a colon.
pub proof fn law_merged(label: Seq<char>, parts: Seq<Seq<char>>)
    ensures
        merged(label, parts) == label + Seq::new(
            parts.len(),
            |i: int| seq![':'] + parts[i],
        ).flatten(),
    decreases parts.len(),
{
    let all = Seq::new(parts.len(), |i: int| seq![':'] + parts[i]);
    all.lemma_flatten_and_flatten_alt_are_equivalent();
    if parts.len() > 0 {
        let front = parts.drop_last();
        law_merged(label, front);
        let rest = Seq::new(front.len(), |i: int| seq![':'] + front[i]);
        rest.lemma_flatten_and_flatten_alt_are_equivalent();
        assert(all.drop_last() =~= rest);
        assert(merged(label, parts) =~= label + all.flatten_alt());
    } else {
        assert(merged(label, parts) =~= label + all.flatten());
    }
}

/// A file that is a text enters a fingerprint as that text; one that cannot be read
/// enters it as nothing.
pub proof fn law_text_files_enter_as_they_are(s: Seq<char>)
    ensures
        query_text(Some(vstd::utf8::encode_utf8(s))) == s,
        query_text(None).len() == 0,
        file_digest(Some(vstd::utf8::encode_utf8(s))) == text_digest(s),
        file_digest(None).len() == 0,
{
    vstd::utf8::encode_utf8_valid_utf8(s);
    vstd::utf8::encode_utf8_decode_utf8(s);
}

/// A reference names a file by what stands before its query and its fragment.
pub proof fn law_references_without_query(value: Seq<char>)
    ensures
        normal_ref(value) matches Some(n) ==> n.len() > 0 && text::starts_with(value, n)
            && !n.contains('?') && !n.contains('#') && (n.len() < value.len() ==> value[n.len() as int]
            == '?' || value[n.len() as int] == '#'),
        normal_ref(value) is None ==> value.len() == 0 || value[0] == '?' || value[0] == '#',
{
    let a = text::before_char(value, '?');
    let n = text::before_char(a, '#');
    text::law_cut_at_char(value, '?');
    text::law_cut_at_char(a, '#');
    assert(value.take(n.len() as int) =~= a.take(n.len() as int)) by {
        assert(a =~= value.take(a.len() as int));
    }
    if n.contains('?') {
        let k = choose|k: int| 0 <= k < n.len() && n[k] == '?';
        assert(a[k] == n[k]) by {
            assert(a.take(n.len() as int)[k] == a[k]);
        }
    }
    if n.len() < a.len() {
        assert(a[n.len() as int] == value[n.len() as int]) by {
            assert(value.take(a.len() as int)[n.len() as int] == value[n.len() as int]);
        }
    } else {
        assert(n =~= a) by {
            assert(a.take(n.len() as int) =~= a);
        }
    }
}

/// What a page refers to are the targets of its Markdown links and then those of its
/// `src` and `href` attributes.
pub proof fn law_references_of_a_page(markdown: Seq<char>, x: Seq<char>)
    ensures
        asset_refs(markdown).contains(x) <==> pattern::first_groups(
            pattern::matches_of(pattern::MARKDOWN_LINK@, markdown),
        ).contains(x) || pattern::first_groups(
            pattern::matches_of(pattern::ASSET_ATTRIBUTE@, markdown),
        ).contains(x),
{
    let a = pattern::first_groups(pattern::matches_of(pattern::MARKDOWN_LINK@, markdown));
    let b = pattern::first_groups(pattern::matches_of(pattern::ASSET_ATTRIBUTE@, markdown));
    let all = asset_refs(markdown);
    if a.contains(x) {
        let k = choose|k: int| 0 <= k < a.len() && a[k] == x;
        assert(all[k] == x);
    }
    if b.contains(x) {
        let k = choose|k: int| 0 <= k < b.len() && b[k] == x;
        assert(all[a.len() + k] == x);
    }
    if all.contains(x) {
        let k = choose|k: int| 0 <= k < all.len() && all[k] == x;
        if k < a.len() {
            assert(a[k] == x);
        } else {
            assert(b[k - a.len()] == x);
        }
    }
}

/// A page depends on every file that it refers to beside it, and on nothing else: each
/// dependency is the file that a reference names, below the directory of the page, and
/// none is listed twice. References to other places name no file.
pub proof fn law_page_dependencies(base: Seq<char>, refs: Seq<Seq<char>>)
    ensures
        forall|i: int|
            0 <= i < refs.len() && !external_ref(#[trigger] refs[i]) && normal_ref(refs[i]) is Some
                ==> has_path(
                dependencies_of(base, refs),
                fspath::join(base, normal_ref(refs[i]).unwrap()),
            ),
        forall|k: int|
            0 <= k < dependencies_of(base, refs).len() ==> named_by_some(
                base,
                refs,
                #[trigger] dependencies_of(base, refs)[k],
            ),
        forall|j: int, k: int|
            0 <= j < k < dependencies_of(base, refs).len() ==> fspath::parts(
                #[trigger] dependencies_of(base, refs)[j],
            ) != fspath::parts(#[trigger] dependencies_of(base, refs)[k]),
    decreases refs.len(),
{
    let all = dependencies_of(base, refs);
    if refs.len() > 0 {
        let front = refs.drop_last();
        let raw = refs.last();
        let rest = dependencies_of(base, front);
        law_page_dependencies(base, front);
        assert(refs[refs.len() - 1] == raw);
        assert forall|i: int|
            0 <= i < refs.len() && !external_ref(#[trigger] refs[i]) && normal_ref(
                refs[i],
            ) is Some implies has_path(
            all,
            fspath::join(base, normal_ref(refs[i]).unwrap()),
        ) by {
            let p = fspath::join(base, normal_ref(refs[i]).unwrap());
            if i < front.len() {
                assert(front[i] == refs[i]);
                assert(has_path(rest, p));
                let k = choose|k: int|
                    0 <= k < rest.len() && fspath::parts(#[trigger] rest[k]) == fspath::parts(p);
                assert(all[k] == rest[k]);
            } else if has_path(rest, p) {
                let k = choose|k: int|
                    0 <= k < rest.len() && fspath::parts(#[trigger] rest[k]) == fspath::parts(p);
                assert(all[k] == rest[k]);
            } else {
                assert(all[all.len() - 1] == p);
            }
        }
        assert forall|k: int| 0 <= k < all.len() implies named_by_some(
            base,
            refs,
            #[trigger] all[k],
        ) by {
            if k < rest.len() {
                assert(named_by_some(base, front, rest[k]));
                assert(all[k] == rest[k]);
                let i = choose|i: int|
                    0 <= i < front.len() && !external_ref(#[trigger] front[i]) && normal_ref(
                        front[i],
                    ) is Some && rest[k] == fspath::join(base, normal_ref(front[i]).unwrap());
                assert(refs[i] == front[i]);
            } else {
                assert(all[k] == fspath::join(base, normal_ref(raw).unwrap()));
            }
        }
        assert forall|j: int, k: int| 0 <= j < k < all.len() implies fspath::parts(
            #[trigger] all[j],
        ) != fspath::parts(#[trigger] all[k]) by {
            assert(all[j] == rest[j]);
            if k < rest.len() {
                assert(all[k] == rest[k]);
            }
        }
    }
}

/// One of the references names this file.
pub open spec fn named_by_some(base: Seq<char>, refs: Seq<Seq<char>>, path: Seq<char>) -> bool {
    exists|i: int|
        0 <= i < refs.len() && !external_ref(#[trigger] refs[i]) && normal_ref(refs[i]) is Some
            && path == fspath::join(base, normal_ref(refs[i]).unwrap())
}

/// References with a scheme, to a place in the page, or from the root of a site or of a
/// host name no file beside the page.
pub proof fn law_references_to_other_places(rest: Seq<char>)
    ensures
        external_ref("http://"@ + rest),
        external_ref("https://"@ + rest),
        external_ref("mailto:"@ + rest),
        external_ref("data:"@ + rest),
        external_ref(seq!['/'] + rest),
        external_ref(seq!['#'] + rest),
        rest.len() > 0 && rest[0] != '#' && rest[0] != '/' && rest[0] != 'h' && rest[0] != 'm'
            && rest[0] != 'd' ==> !external_ref(rest),
{
    reveal_strlit("http://");
    reveal_strlit("https://");
    reveal_strlit("mailto:");
    reveal_strlit("data:");
    reveal_strlit("//");
    assert(("http://"@ + rest).take(7) =~= "http://"@);
    assert(("https://"@ + rest).take(8) =~= "https://"@);
    assert(("mailto:"@ + rest).take(7) =~= "mailto:"@);
    assert(("data:"@ + rest).take(5) =~= "data:"@);
    if rest.len() > 0 {
        if text::starts_with(rest, "http://"@) {
            assert(rest.take(7)[0] == rest[0]);
        }
        if text::starts_with(rest, "https://"@) {
            assert(rest.take(8)[0] == rest[0]);
        }
        if text::starts_with(rest, "mailto:"@) {
            assert(rest.take(7)[0] == rest[0]);
        }
        if text::starts_with(rest, "data:"@) {
            assert(rest.take(5)[0] == rest[0]);
        }
        if text::starts_with(rest, "//"@) {
            assert(rest.take(2)[0] == rest[0]);
        }
    }
}

/// A change of a file that a page uses changes the fingerprint of the page where it
/// changes the digest of the file, as long as the entry of no other file goes on from
/// that of the changed one.
pub proof fn law_used_files_count(
    markdown: Seq<char>,
    files: Seq<HashedFile>,
    k: int,
    after: HashedFile,
    template_hash: Seq<char>,
)
    requires
        0 <= k < files.len(),
        after.path@ == files[k].path@,
        text_digest(files[k].text@) != text_digest(after.text@),
        text_digest(files[k].text@).len() == text_digest(after.text@).len(),
        forall|j: int|
            0 <= j < files.len() && j != k ==> {
                let entry = combined((#[trigger] files[j]).path@, text_digest(files[j].text@));
                &&& text::starts_with(
                    entry,
                    combined(files[k].path@, text_digest(files[k].text@)),
                ) ==> entry == combined(files[k].path@, text_digest(files[k].text@))
                &&& text::starts_with(entry, combined(after.path@, text_digest(after.text@)))
                    ==> entry == combined(after.path@, text_digest(after.text@))
            },
    ensures
        page_build_fingerprint(markdown, files, template_hash) != page_build_fingerprint(
            markdown,
            files.update(k, after),
            template_hash,
        ),
{
    let parts = Seq::new(
        files.len(),
        |i: int| combined(files[i].path@, text_digest(files[i].text@)),
    );
    let changed = files.update(k, after);
    let y = combined(after.path@, text_digest(after.text@));
    let n = files[k].path@.len() as int + 1;
    assert(parts[k].skip(n) =~= text_digest(files[k].text@));
    assert(y.skip(n) =~= text_digest(after.text@));
    assert forall|j: int| 0 <= j < parts.len() && j != k implies (text::starts_with(
        #[trigger] parts[j],
        parts[k],
    ) ==> parts[j] == parts[k]) && (text::starts_with(parts[j], y) ==> parts[j] == y) by {
        assert(files[j].path@ == files[j].path@);
    }
    lemma_changed_part_counts("page-assets:v1"@, parts, k, y);
    let other = Seq::new(
        changed.len(),
        |i: int| combined(changed[i].path@, text_digest(changed[i].text@)),
    );
    assert(other =~= parts.update(k, y));
    let a = page_build_fingerprint(markdown, files, template_hash);
    let b = page_build_fingerprint(markdown, changed, template_hash);
    let fa = asset_fingerprint(files);
    let fb = asset_fingerprint(changed);
    if a == b {
        let d = text_digest(markdown).len() as int + 1;
        let t = template_hash.len() as int + 1;
        assert(a.len() == d + fa.len() + t && b.len() == d + fb.len() + t);
        assert(a.subrange(d, d + fa.len()) =~= fa);
        assert(b.subrange(d, d + fb.len()) =~= fb);
    }
}

/// A change of a template of the site changes the fingerprint where it changes the
/// digest, whatever the templates of the theme are, as long as the entry of no other
/// template of the site goes on from that of the changed one.
pub proof fn law_site_template_counts(
    site: Seq<HashedFile>,
    theme: Seq<HashedFile>,
    k: int,
    after: HashedFile,
)
    requires
        0 <= k < site.len(),
        after.path@ == site[k].path@,
        text_digest(site[k].text@) != text_digest(after.text@),
        text_digest(site[k].text@).len() == text_digest(after.text@).len(),
        forall|j: int|
            0 <= j < site.len() && j != k ==> {
                let entry = template_part("site"@, (#[trigger] site[j]).path@, site[j].text@);
                &&& text::starts_with(
                    entry,
                    template_part("site"@, site[k].path@, site[k].text@),
                ) ==> entry == template_part("site"@, site[k].path@, site[k].text@)
                &&& text::starts_with(
                    entry,
                    template_part("site"@, after.path@, after.text@),
                ) ==> entry == template_part("site"@, after.path@, after.text@)
            },
    ensures
        template_fingerprint(site, theme) != template_fingerprint(site.update(k, after), theme),
{
    let s = template_parts("site"@, site);
    let t = template_parts("theme"@, theme);
    let changed = template_parts("site"@, site.update(k, after));
    let x = template_part("site"@, site[k].path@, site[k].text@);
    let y = template_part("site"@, site[k].path@, after.text@);
    assert(changed + t =~= (s + t).update(k, y));
    let len = "site"@.len() + 1 + site[k].path@.len() + 1;
    assert(x.skip(len as int) =~= text_digest(site[k].text@));
    assert(y.skip(len as int) =~= text_digest(after.text@));
    reveal_strlit("site");
    reveal_strlit("theme");
    assert forall|j: int| 0 <= j < (s + t).len() && j != k implies (text::starts_with(
        #[trigger] (s + t)[j],
        (s + t)[k],
    ) ==> (s + t)[j] == (s + t)[k]) && (text::starts_with((s + t)[j], y) ==> (s + t)[j] == y) by {
        let z = (s + t)[j];
        if j >= s.len() {
            assert(z[0] == 't');
            assert(x[0] == 's' && y[0] == 's');
            if x.len() <= z.len() {
                assert(z.take(x.len() as int)[0] == z[0]);
            }
        } else {
            assert(z == template_part("site"@, site[j].path@, site[j].text@));
        }
    }
    lemma_changed_part_counts("template-deps:v1"@, s + t, k, y);
}

/// The references of a page are relative to the directory that it stands in.
pub proof fn law_references_start_at_the_page(above: Seq<char>, dir: Seq<char>, name: Seq<char>)
    requires
        above.len() == 0 || above.last() == '/',
        fspath::plain_name(dir),
        fspath::plain_name(name),
    ensures
        base_dir(above + dir + seq!['/'] + name) == above + dir,
{
    fspath::law_parent(above, dir, name);
}

/// Of the files that a page refers to, those inside the content directory count.
pub proof fn law_files_inside(paths: Seq<Seq<char>>, root: Seq<char>, x: Seq<char>)
    ensures
        paths_inside(paths, root).contains(x) <==> paths.contains(x) && fspath::starts_with(x, root),
    decreases paths.len(),
{
    reveal(Seq::filter);
    let inside = |p: Seq<char>| fspath::starts_with(p, root);
    if paths.len() > 0 {
        let front = paths.drop_last();
        law_files_inside(front, root, x);
        let kept = front.filter(inside);
        let all = paths.filter(inside);
        assert(paths[paths.len() - 1] == paths.last());
        if front.contains(x) {
            let k = choose|k: int| 0 <= k < front.len() && front[k] == x;
            assert(paths[k] == x);
        }
        if paths.contains(x) && x != paths.last() {
            let k = choose|k: int| 0 <= k < paths.len() && paths[k] == x;
            assert(front[k] == x);
        }
        if kept.contains(x) {
            let k = choose|k: int| 0 <= k < kept.len() && kept[k] == x;
            assert(all[k] == x);
        }
        if x == paths.last() && inside(x) {
            assert(all[all.len() - 1] == x);
        }
        if all.contains(x) {
            let k = choose|k: int| 0 <= k < all.len() && all[k] == x;
            if k < kept.len() {
                assert(kept[k] == x);
            }
        }
    }
}

} // verus!
