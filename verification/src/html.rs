//! Pieces of HTML: escaped texts, names for classes, slugs and the table of
//! contents.
use vstd::prelude::*;
use vstd::string::*;

use crate::config::append_number;
use crate::fspath;
use crate::text;
use crate::text::{copy_text, to_chars};
use crate::validation;

verus! {

// ---------------------------------------------------------------------------
// Escaping.

/// `s` with the characters of markup written as entities.
pub open spec fn escaped(s: Seq<char>) -> Seq<char> {
    let s = text::replace_char(s, '&', "&amp;"@);
    let s = text::replace_char(s, '<', "&lt;"@);
    let s = text::replace_char(s, '>', "&gt;"@);
    let s = text::replace_char(s, '"', "&quot;"@);
    text::replace_char(s, '\'', "&#39;"@)
}

/// Computes [`escaped`].
pub fn escape_html(value: &str) -> (r: String)
    ensures
        r@ == escaped(value@),
{
    let s = text::replaced_char(value, '&', "&amp;");
    let s = text::replaced_char(s.as_str(), '<', "&lt;");
    let s = text::replaced_char(s.as_str(), '>', "&gt;");
    let s = text::replaced_char(s.as_str(), '"', "&quot;");
    text::replaced_char(s.as_str(), '\'', "&#39;")
}

/// Replacing `c` removes it, and brings in no character that the replacement
/// does not hold.
proof fn lemma_replace_char(s: Seq<char>, c: char, rep: Seq<char>, d: char)
    requires
        !rep.contains(d),
        d == c || !s.contains(d),
    ensures
        !text::replace_char(s, c, rep).contains(d),
    decreases s.len(),
{
    if s.len() > 0 {
        let rest = s.drop_last();
        if rest.contains(d) {
            let i = choose|i: int| 0 <= i < rest.len() && rest[i] == d;
            assert(s[i] == d);
        }
        lemma_replace_char(rest, c, rep, d);
        let head = text::replace_char(rest, c, rep);
        let tail = if s.last() == c {
            rep
        } else {
            seq![s.last()]
        };
        if (head + tail).contains(d) {
            let i = choose|i: int| 0 <= i < (head + tail).len() && (head + tail)[i] == d;
            if i < head.len() {
                assert(head[i] == d);
            } else {
                assert(tail[i - head.len()] == d);
                if s.last() != c {
                    assert(s[s.len() - 1] == d);
                }
            }
        }
    }
}

/// An escaped text holds none of the characters that markup is made of.
pub proof fn law_escaped_holds_no_markup(s: Seq<char>)
    ensures
        !escaped(s).contains('<'),
        !escaped(s).contains('>'),
        !escaped(s).contains('"'),
        !escaped(s).contains('\''),
{
    reveal_strlit("&amp;");
    reveal_strlit("&lt;");
    reveal_strlit("&gt;");
    reveal_strlit("&quot;");
    reveal_strlit("&#39;");
    let s1 = text::replace_char(s, '&', "&amp;"@);
    let s2 = text::replace_char(s1, '<', "&lt;"@);
    let s3 = text::replace_char(s2, '>', "&gt;"@);
    let s4 = text::replace_char(s3, '"', "&quot;"@);
    lemma_replace_char(s1, '<', "&lt;"@, '<');
    lemma_replace_char(s2, '>', "&gt;"@, '<');
    lemma_replace_char(s3, '"', "&quot;"@, '<');
    lemma_replace_char(s4, '\'', "&#39;"@, '<');
    lemma_replace_char(s2, '>', "&gt;"@, '>');
    lemma_replace_char(s3, '"', "&quot;"@, '>');
    lemma_replace_char(s4, '\'', "&#39;"@, '>');
    lemma_replace_char(s3, '"', "&quot;"@, '"');
    lemma_replace_char(s4, '\'', "&#39;"@, '"');
    lemma_replace_char(s4, '\'', "&#39;"@, '\'');
}

/// The characters of `s` that may stand in a name token.
pub open spec fn token_part(s: Seq<char>) -> Seq<char> {
    s.filter(|c: char| text::is_token_char(c))
}

/// Computes [`token_part`].
pub fn sanitize_language_token(value: &str) -> (r: String)
    ensures
        r@ == token_part(value@),
{
    let v = to_chars(value);
    let mut out = String::new();
    let mut i: usize = 0;
    let ghost p = |c: char| text::is_token_char(c);
    assert(value@.take(0).filter(p) =~= Seq::empty()) by {
        reveal(Seq::filter);
    }
    while i < v.len()
        invariant
            i <= v.len(),
            v@ == value@,
            p == (|c: char| text::is_token_char(c)),
            out@ == value@.take(i as int).filter(p),
        decreases v.len() - i,
    {
        if text::token_char(v[i]) {
            out.push(v[i]);
        }
        proof {
            reveal(Seq::filter);
            assert(value@.take(i + 1).drop_last() =~= value@.take(i as int));
            assert(value@.take(i + 1).last() == v@[i as int]);
        }
        i += 1;
    }
    assert(value@.take(value@.len() as int) =~= value@);
    out
}

// ---------------------------------------------------------------------------
// Slugs.

/// The lower case of a character that is not ASCII, which may be several
/// characters.
pub uninterp spec fn unicode_lower(c: char) -> Seq<char>;

/// The lower case of a character.
pub open spec fn lower_case(c: char) -> Seq<char> {
    if c <= '\u{7f}' {
        seq![text::ascii_lower_char(c)]
    } else {
        unicode_lower(c)
    }
}

/// `char::to_lowercase` gives the lower case of a character. An ASCII letter
/// becomes the lower case letter, and any other ASCII character stays. For a
/// character that is not ASCII the result is [`unicode_lower`] of it; that mapping
/// is not said.
#[verifier::external_body]
pub(crate) fn lower_case_text(c: char) -> (r: String)
    ensures
        c <= '\u{7f}' ==> r@ == seq![text::ascii_lower_char(c)],
        c > '\u{7f}' ==> r@ == unicode_lower(c),
{
    c.to_lowercase().to_string()
}

/// `s` in lower case.
pub open spec fn lowered(s: Seq<char>) -> Seq<char>
    decreases s.len(),
{
    if s.len() == 0 {
        Seq::empty()
    } else {
        lowered(s.drop_last()) + lower_case(s.last())
    }
}

/// `s` with every run of characters other than ASCII letters and digits
/// replaced by one `-`.
pub open spec fn dashed(s: Seq<char>) -> Seq<char>
    decreases s.len(),
{
    if s.len() == 0 {
        Seq::empty()
    } else {
        let d = dashed(s.drop_last());
        if text::is_ascii_alnum(s.last()) {
            d.push(s.last())
        } else if d.len() > 0 && d.last() == '-' {
            d
        } else {
            d.push('-')
        }
    }
}

/// The slug of a lower case text: its words with one `-` between them.
pub open spec fn slug_of_lower(s: Seq<char>) -> Seq<char> {
    text::trim_end_char(text::trim_start_char(dashed(s), '-'), '-')
}

/// The slug of a text.
pub open spec fn slug(s: Seq<char>) -> Seq<char> {
    slug_of_lower(lowered(s))
}

/// Computes [`lowered`].
fn lower_text(value: &str) -> (r: String)
    ensures
        r@ == lowered(value@),
{
    let v = to_chars(value);
    let mut out = String::new();
    let mut i: usize = 0;
    assert(value@.take(0) =~= Seq::empty());
    while i < v.len()
        invariant
            i <= v.len(),
            v@ == value@,
            out@ == lowered(value@.take(i as int)),
        decreases v.len() - i,
    {
        let low = lower_case_text(v[i]);
        out.append(low.as_str());
        assert(value@.take(i + 1).drop_last() =~= value@.take(i as int));
        assert(value@.take(i + 1).last() == v@[i as int]);
        i += 1;
    }
    assert(value@.take(value@.len() as int) =~= value@);
    out
}

/// Computes [`slug_of_lower`].
pub fn slugify_lower(value: &str) -> (r: String)
    ensures
        r@ == slug_of_lower(value@),
{
    let v = to_chars(value);
    let mut out = String::new();
    let mut last_dash: bool = false;
    let mut i: usize = 0;
    assert(value@.take(0) =~= Seq::empty());
    while i < v.len()
        invariant
            i <= v.len(),
            v@ == value@,
            out@ == dashed(value@.take(i as int)),
            last_dash == (out@.len() > 0 && out@.last() == '-'),
        decreases v.len() - i,
    {
        assert(value@.take(i + 1).drop_last() =~= value@.take(i as int));
        assert(value@.take(i + 1).last() == v@[i as int]);
        if text::ascii_alnum(v[i]) {
            out.push(v[i]);
            last_dash = false;
        } else if !last_dash {
            out.push('-');
            last_dash = true;
        }
        i += 1;
    }
    assert(value@.take(value@.len() as int) =~= value@);
    let start = text::trimmed_start_char(out.as_str(), '-');
    text::trimmed_end_char(start.as_str(), '-')
}

/// Computes [`slug`].
pub fn slugify(value: &str) -> (r: String)
    ensures
        r@ == slug(value@),
{
    let low = lower_text(value);
    slugify_lower(low.as_str())
}

/// The slug of an ASCII text is made of its words, with their letters in lower
/// case.
pub proof fn law_slug_of_ascii(s: Seq<char>)
    requires
        text::is_ascii_text(s),
    ensures
        slug(s) == slug_of_lower(text::ascii_lower(s)),
{
    lemma_lowered_ascii(s);
}

proof fn lemma_lowered_ascii(s: Seq<char>)
    requires
        text::is_ascii_text(s),
    ensures
        lowered(s) == text::ascii_lower(s),
    decreases s.len(),
{
    if s.len() == 0 {
        assert(lowered(s) =~= text::ascii_lower(s));
    } else {
        let front = s.drop_last();
        assert(text::is_ascii_text(front)) by {
            assert forall|i: int| 0 <= i < front.len() implies (#[trigger] front[i]) <= '\u{7f}' by {
                assert(s[i] <= '\u{7f}');
            }
        }
        lemma_lowered_ascii(front);
        assert(s[s.len() - 1] <= '\u{7f}');
        assert(text::ascii_lower(s) =~= text::ascii_lower(front).push(
            text::ascii_lower_char(s.last()),
        ));
        assert(lowered(s) =~= text::ascii_lower(s));
    }
}

/// Every character of `s` is an ASCII letter, an ASCII digit or `-`.
pub open spec fn slug_chars(s: Seq<char>) -> bool {
    forall|i: int| 0 <= i < s.len() ==> text::is_ascii_alnum(#[trigger] s[i]) || s[i] == '-'
}

proof fn lemma_dashed_chars(s: Seq<char>)
    ensures
        slug_chars(dashed(s)),
    decreases s.len(),
{
    if s.len() > 0 {
        lemma_dashed_chars(s.drop_last());
    }
}

proof fn lemma_trim_start_chars(s: Seq<char>)
    requires
        slug_chars(s),
    ensures
        slug_chars(text::trim_start_char(s, '-')),
        text::trim_start_char(s, '-').len() > 0 ==> text::trim_start_char(s, '-')[0] != '-',
    decreases s.len(),
{
    if s.len() > 0 && s[0] == '-' {
        assert(slug_chars(s.skip(1))) by {
            assert forall|i: int| 0 <= i < s.skip(1).len() implies text::is_ascii_alnum(
                #[trigger] s.skip(1)[i],
            ) || s.skip(1)[i] == '-' by {
                assert(s.skip(1)[i] == s[i + 1]);
            }
        }
        lemma_trim_start_chars(s.skip(1));
    }
}

proof fn lemma_trim_end_chars(s: Seq<char>)
    requires
        slug_chars(s),
    ensures
        slug_chars(text::trim_end_char(s, '-')),
        text::trim_end_char(s, '-').len() > 0 ==> text::trim_end_char(s, '-')[0] == s[0]
            && text::trim_end_char(s, '-').last() != '-',
    decreases s.len(),
{
    if s.len() > 0 && s.last() == '-' {
        assert(slug_chars(s.drop_last()));
        lemma_trim_end_chars(s.drop_last());
    }
}

/// A slug is empty, or a usable route segment that neither begins nor ends with
/// `-`.
pub proof fn law_slug_is_route_segment(s: Seq<char>, field: Seq<char>)
    ensures
        slug(s).len() > 0 ==> validation::segment_error(slug(s), field) is None && slug(s)[0] != '-'
            && slug(s).last() != '-',
        slug(s).len() > 0 ==> fspath::plain_name(slug(s)),
{
    let d = dashed(lowered(s));
    lemma_dashed_chars(lowered(s));
    lemma_trim_start_chars(d);
    let t = text::trim_start_char(d, '-');
    lemma_trim_end_chars(t);
    let r = slug(s);
    if r.len() > 0 {
        reveal_strlit("..");
        if text::contains_text(r, ".."@) {
            let i = choose|i: int| text::occurs_at(r, ".."@, i);
            assert(r.subrange(i, i + 2)[0] == '.');
            assert(r[i] == '.');
        }
        assert(!r.contains('/'));
        assert(!r.contains('\\'));
        assert(validation::all_token_chars(r));
        validation::law_segment_is_plain_name(r, field);
    }
}

// ---------------------------------------------------------------------------
// The table of contents.

/// A heading in the table of contents.
#[derive(Debug)]
pub struct TocItem {
    pub level: u8,
    pub id: String,
    pub text: String,
}

/// What a heading in the table of contents holds.
pub struct TocEntry {
    pub level: u8,
    pub id: Seq<char>,
    pub text: Seq<char>,
}

impl View for TocItem {
    type V = TocEntry;

    open spec fn view(&self) -> TocEntry {
        TocEntry { level: self.level, id: self.id@, text: self.text@ }
    }
}

/// The list item of a heading.
pub open spec fn toc_line(item: TocEntry) -> Seq<char> {
    "<li class=\"toc-level-"@ + text::decimal(item.level as nat) + "\"><a href=\"#"@ + item.id
        + "\">"@ + item.text + "</a></li>"@
}

/// The list items of all headings.
pub open spec fn toc_lines(items: Seq<TocEntry>) -> Seq<char>
    decreases items.len(),
{
    if items.len() == 0 {
        Seq::empty()
    } else {
        toc_lines(items.drop_last()) + toc_line(items.last())
    }
}

/// The table of contents; nothing where there is no heading.
pub open spec fn toc_html(items: Seq<TocEntry>) -> Seq<char> {
    if items.len() == 0 {
        Seq::empty()
    } else {
        "<ul>"@ + toc_lines(items) + "</ul>"@
    }
}

/// Computes [`toc_html`].
pub fn build_toc_html(items: &Vec<TocItem>) -> (r: String)
    ensures
        r@ == toc_html(crate::order::views(items@)),
{
    if items.len() == 0 {
        return String::new();
    }
    let ghost all = crate::order::views(items@);
    let mut out = copy_text("<ul>");
    let mut i: usize = 0;
    assert(all.take(0) =~= Seq::empty());
    assert(out@ =~= "<ul>"@ + toc_lines(all.take(0)));
    while i < items.len()
        invariant
            i <= items.len(),
            all == crate::order::views(items@),
            out@ == "<ul>"@ + toc_lines(all.take(i as int)),
        decreases items.len() - i,
    {
        let ghost before = out@;
        out.append("<li class=\"toc-level-");
        append_number(&mut out, items[i].level as usize);
        out.append("\"><a href=\"#");
        out.append(items[i].id.as_str());
        out.append("\">");
        out.append(items[i].text.as_str());
        out.append("</a></li>");
        assert(all.take(i + 1).drop_last() =~= all.take(i as int));
        assert(all.take(i + 1).last() == items@[i as int]@);
        assert(out@ =~= "<ul>"@ + (toc_lines(all.take(i as int)) + toc_line(items@[i as int]@)));
        i += 1;
    }
    assert(all.take(all.len() as int) =~= all);
    out.append("</ul>");
    out
}

// ---------------------------------------------------------------------------
// More laws.

/// Escaping puts the entity in for each of the five characters that HTML gives a
/// meaning, and leaves every other character in its place.
pub proof fn law_escaping(s: Seq<char>)
    ensures
        escaped(s) == Seq::new(
            s.len(),
            |i: int|
                if s[i] == '&' {
                    "&amp;"@
                } else if s[i] == '<' {
                    "&lt;"@
                } else if s[i] == '>' {
                    "&gt;"@
                } else if s[i] == '"' {
                    "&quot;"@
                } else if s[i] == '\'' {
                    "&#39;"@
                } else {
                    seq![s[i]]
                },
        ).flatten(),
    decreases s.len(),
{
    let pieces = Seq::new(
        s.len(),
        |i: int|
            if s[i] == '&' {
                "&amp;"@
            } else if s[i] == '<' {
                "&lt;"@
            } else if s[i] == '>' {
                "&gt;"@
            } else if s[i] == '"' {
                "&quot;"@
            } else if s[i] == '\'' {
                "&#39;"@
            } else {
                seq![s[i]]
            },
    );
    pieces.lemma_flatten_and_flatten_alt_are_equivalent();
    if s.len() > 0 {
        let front = s.drop_last();
        let rest = pieces.drop_last();
        law_escaping(front);
        let want = Seq::new(
            front.len(),
            |i: int|
                if front[i] == '&' {
                    "&amp;"@
                } else if front[i] == '<' {
                    "&lt;"@
                } else if front[i] == '>' {
                    "&gt;"@
                } else if front[i] == '"' {
                    "&quot;"@
                } else if front[i] == '\'' {
                    "&#39;"@
                } else {
                    seq![front[i]]
                },
        );
        assert(want =~= rest);
        rest.lemma_flatten_and_flatten_alt_are_equivalent();
        lemma_escaped_append(front, seq![s.last()]);
        lemma_escaped_char(s.last());
        assert(s =~= front + seq![s.last()]);
        assert(escaped(s) =~= pieces.flatten_alt());
    }
}

proof fn lemma_escaped_append(a: Seq<char>, b: Seq<char>)
    ensures
        escaped(a + b) == escaped(a) + escaped(b),
{
    let (a0, b0) = (a, b);
    text::lemma_replace_char_append(a0, b0, '&', "&amp;"@);
    let (a1, b1) = (text::replace_char(a0, '&', "&amp;"@), text::replace_char(b0, '&', "&amp;"@));
    text::lemma_replace_char_append(a1, b1, '<', "&lt;"@);
    let (a2, b2) = (text::replace_char(a1, '<', "&lt;"@), text::replace_char(b1, '<', "&lt;"@));
    text::lemma_replace_char_append(a2, b2, '>', "&gt;"@);
    let (a3, b3) = (text::replace_char(a2, '>', "&gt;"@), text::replace_char(b2, '>', "&gt;"@));
    text::lemma_replace_char_append(a3, b3, '"', "&quot;"@);
    let (a4, b4) = (text::replace_char(a3, '"', "&quot;"@), text::replace_char(b3, '"', "&quot;"@));
    text::lemma_replace_char_append(a4, b4, '\'', "&#39;"@);
}

proof fn lemma_replace_one(c: char, d: char, rep: Seq<char>)
    ensures
        text::replace_char(seq![c], d, rep) == (if c == d {
            rep
        } else {
            seq![c]
        }),
{
    let s = seq![c];
    assert(s.drop_last() =~= Seq::empty());
    reveal_with_fuel(text::replace_char, 2);
    assert(text::replace_char(s, d, rep) =~= (if c == d {
        rep
    } else {
        seq![c]
    }));
}

proof fn lemma_escaped_char(c: char)
    ensures
        escaped(seq![c]) == (if c == '&' {
            "&amp;"@
        } else if c == '<' {
            "&lt;"@
        } else if c == '>' {
            "&gt;"@
        } else if c == '"' {
            "&quot;"@
        } else if c == '\'' {
            "&#39;"@
        } else {
            seq![c]
        }),
{
    reveal_strlit("&amp;");
    reveal_strlit("&lt;");
    reveal_strlit("&gt;");
    reveal_strlit("&quot;");
    reveal_strlit("&#39;");
    lemma_replace_one(c, '&', "&amp;"@);
    lemma_replace_one(c, '<', "&lt;"@);
    lemma_replace_one(c, '>', "&gt;"@);
    lemma_replace_one(c, '"', "&quot;"@);
    lemma_replace_one(c, '\'', "&#39;"@);
    if c == '&' {
        text::lemma_replace_char_none("&amp;"@, '<', "&lt;"@);
        text::lemma_replace_char_none("&amp;"@, '>', "&gt;"@);
        text::lemma_replace_char_none("&amp;"@, '"', "&quot;"@);
        text::lemma_replace_char_none("&amp;"@, '\'', "&#39;"@);
    } else if c == '<' {
        text::lemma_replace_char_none("&lt;"@, '>', "&gt;"@);
        text::lemma_replace_char_none("&lt;"@, '"', "&quot;"@);
        text::lemma_replace_char_none("&lt;"@, '\'', "&#39;"@);
    } else if c == '>' {
        text::lemma_replace_char_none("&gt;"@, '"', "&quot;"@);
        text::lemma_replace_char_none("&gt;"@, '\'', "&#39;"@);
    } else if c == '"' {
        text::lemma_replace_char_none("&quot;"@, '\'', "&#39;"@);
    }
}

/// Of a name the letters, the digits, `-` and `_` stay, in order, and nothing else
/// does.
pub proof fn law_token_part(a: Seq<char>, b: Seq<char>, c: char)
    ensures
        token_part(a + b) == token_part(a) + token_part(b),
        token_part(seq![c]) == (if ('0' <= c <= '9') || ('A' <= c <= 'Z') || ('a' <= c <= 'z') || c
            == '-' || c == '_' {
            seq![c]
        } else {
            Seq::empty()
        }),
        (forall|i: int| 0 <= i < a.len() ==> text::is_token_char(#[trigger] a[i])) ==> token_part(a)
            == a,
        (forall|i: int| 0 <= i < a.len() ==> !text::is_token_char(#[trigger] a[i])) ==> token_part(
            a,
        ).len() == 0,
    decreases a.len(),
{
    reveal(Seq::filter);
    Seq::filter_distributes_over_add(a, b, |c: char| text::is_token_char(c));
    assert(seq![c].drop_last() =~= Seq::empty());
    assert(token_part(Seq::<char>::empty()) =~= Seq::empty());
    reveal_with_fuel(Seq::filter, 2);
    assert(token_part(seq![c]) =~= (if text::is_token_char(c) {
        seq![c]
    } else {
        Seq::empty()
    }));
    if a.len() > 0 {
        let front = a.drop_last();
        law_token_part(front, b, c);
        assert forall|i: int| 0 <= i < front.len() implies front[i] == #[trigger] a[i] by {}
        if forall|i: int| 0 <= i < a.len() ==> text::is_token_char(#[trigger] a[i]) {
            assert forall|i: int| 0 <= i < front.len() implies text::is_token_char(
                #[trigger] front[i],
            ) by {
                assert(text::is_token_char(a[i]));
            }
            assert(text::is_token_char(a[a.len() - 1]));
            assert(token_part(a) =~= a);
        }
        if forall|i: int| 0 <= i < a.len() ==> !text::is_token_char(#[trigger] a[i]) {
            assert forall|i: int| 0 <= i < front.len() implies !text::is_token_char(
                #[trigger] front[i],
            ) by {
                assert(!text::is_token_char(a[i]));
            }
            assert(!text::is_token_char(a[a.len() - 1]));
        }
    } else {
        assert(token_part(a) =~= a);
    }
}

/// The table of contents lists every entry once, in order, each with its level, its
/// text and a link to its anchor; without entries there is none.
pub proof fn law_toc_lists_every_entry(items: Seq<TocEntry>)
    ensures
        items.len() == 0 ==> toc_html(items).len() == 0,
        items.len() > 0 ==> toc_html(items) == "<ul>"@ + Seq::new(
            items.len(),
            |i: int|
                "<li class=\"toc-level-"@ + text::decimal(items[i].level as nat) + "\"><a href=\"#"@
                    + items[i].id + "\">"@ + items[i].text + "</a></li>"@,
        ).flatten() + "</ul>"@,
{
    lemma_toc_lines(items);
}

proof fn lemma_toc_lines(items: Seq<TocEntry>)
    ensures
        toc_lines(items) == Seq::new(
            items.len(),
            |i: int|
                "<li class=\"toc-level-"@ + text::decimal(items[i].level as nat) + "\"><a href=\"#"@
                    + items[i].id + "\">"@ + items[i].text + "</a></li>"@,
        ).flatten(),
    decreases items.len(),
{
    let lines = Seq::new(
        items.len(),
        |i: int|
            "<li class=\"toc-level-"@ + text::decimal(items[i].level as nat) + "\"><a href=\"#"@
                + items[i].id + "\">"@ + items[i].text + "</a></li>"@,
    );
    lines.lemma_flatten_and_flatten_alt_are_equivalent();
    if items.len() > 0 {
        let front = items.drop_last();
        lemma_toc_lines(front);
        let rest = Seq::new(
            front.len(),
            |i: int|
                "<li class=\"toc-level-"@ + text::decimal(front[i].level as nat)
                    + "\"><a href=\"#"@ + front[i].id + "\">"@ + front[i].text + "</a></li>"@,
        );
        rest.lemma_flatten_and_flatten_alt_are_equivalent();
        assert(lines.drop_last() =~= rest);
    }
}

/// In lower case each character is followed by what the next one becomes: an ASCII
/// letter its small form, and another ASCII character itself.
pub proof fn law_lower_case(a: Seq<char>, b: Seq<char>, c: char)
    ensures
        lowered(a + b) == lowered(a) + lowered(b),
        'A' <= c <= 'Z' ==> lowered(seq![c]) == seq![(c as u32 + 32) as char],
        c <= '\u{7f}' && !('A' <= c <= 'Z') ==> lowered(seq![c]) == seq![c],
    decreases b.len(),
{
    let one = seq![c];
    assert(one.drop_last() =~= Seq::empty());
    assert(lowered(Seq::empty()) =~= Seq::empty());
    assert(lowered(one) =~= lower_case(c));
    if b.len() == 0 {
        assert(a + b =~= a);
        assert(lowered(a) + lowered(b) =~= lowered(a));
    } else {
        law_lower_case(a, b.drop_last(), c);
        assert((a + b).drop_last() =~= a + b.drop_last());
        assert(lowered(a) + (lowered(b.drop_last()) + lower_case(b.last())) =~= (lowered(a)
            + lowered(b.drop_last())) + lower_case(b.last()));
    }
}

proof fn lemma_trim_start_append(x: Seq<char>, y: Seq<char>)
    ensures
        text::trim_start_char(x, '-').len() > 0 ==> text::trim_start_char(x + y, '-')
            == text::trim_start_char(x, '-') + y,
        text::trim_start_char(x, '-').len() == 0 ==> text::trim_start_char(x + y, '-')
            == text::trim_start_char(y, '-'),
        text::trim_start_char(text::trim_start_char(x, '-'), '-') == text::trim_start_char(x, '-'),
    decreases x.len(),
{
    if x.len() == 0 {
        assert(x + y =~= y);
    } else if x[0] == '-' {
        lemma_trim_start_append(x.skip(1), y);
        assert((x + y).skip(1) =~= x.skip(1) + y);
    }
}

proof fn lemma_trim_end_append(x: Seq<char>, y: Seq<char>)
    ensures
        text::trim_end_char(y, '-').len() > 0 ==> text::trim_end_char(x + y, '-') == x
            + text::trim_end_char(y, '-'),
        text::trim_end_char(y, '-').len() == 0 ==> text::trim_end_char(x + y, '-')
            == text::trim_end_char(x, '-'),
    decreases y.len(),
{
    if y.len() == 0 {
        assert(x + y =~= x);
    } else if y.last() == '-' {
        lemma_trim_end_append(x, y.drop_last());
        assert((x + y).drop_last() =~= x + y.drop_last());
    }
}

proof fn lemma_dashed_shape(s: Seq<char>)
    ensures
        s.len() > 0 ==> dashed(s).len() > 0,
        forall|i: int|
            0 < i < dashed(s).len() ==> !(#[trigger] dashed(s)[i] == '-' && dashed(s)[i - 1] == '-'),
    decreases s.len(),
{
    if s.len() > 0 {
        let d = dashed(s.drop_last());
        lemma_dashed_shape(s.drop_last());
        assert forall|i: int| 0 < i < dashed(s).len() implies !(#[trigger] dashed(s)[i] == '-'
            && dashed(s)[i - 1] == '-') by {
            if i < d.len() {
                assert(dashed(s)[i] == d[i]);
            }
        }
    }
}

proof fn lemma_dashed_append(x: Seq<char>, b: Seq<char>)
    requires
        dashed(x).len() > 0,
        dashed(x).last() == '-',
    ensures
        dashed(x + b) == dashed(x) + text::trim_start_char(dashed(b), '-'),
    decreases b.len(),
{
    if b.len() == 0 {
        assert(x + b =~= x);
        assert(dashed(x) + text::trim_start_char(dashed(b), '-') =~= dashed(x));
    } else {
        let f = b.drop_last();
        let d = b.last();
        lemma_dashed_append(x, f);
        lemma_dashed_shape(f);
        assert((x + b).drop_last() =~= x + f);
        let t = text::trim_start_char(dashed(f), '-');
        text::law_trim_char(dashed(f), '-');
        if text::is_ascii_alnum(d) {
            lemma_trim_start_append(dashed(f), seq![d]);
            assert(dashed(f).push(d) =~= dashed(f) + seq![d]);
            assert(text::trim_start_char(seq![d], '-') =~= seq![d]);
            assert(text::trim_start_char(dashed(b), '-') =~= t + seq![d]);
            assert((dashed(x) + t).push(d) =~= dashed(x) + (t + seq![d]));
        } else if dashed(f).len() > 0 && dashed(f).last() == '-' {
            assert(t.len() > 0 ==> t.last() == '-') by {
                if t.len() > 0 {
                    assert(dashed(f).last() == t.last());
                }
            }
            assert((dashed(x) + t).last() == '-');
        } else if f.len() == 0 {
            assert(dashed(b) =~= seq!['-']);
            assert(dashed(b).skip(1) =~= Seq::empty());
            assert(text::trim_start_char(dashed(b), '-') =~= Seq::empty());
            assert(dashed(x) + t =~= dashed(x));
        } else {
            assert(t.len() > 0) by {
                if t.len() == 0 {
                    assert(dashed(f).last() == '-');
                }
            }
            assert(dashed(f).last() == t.last());
            lemma_trim_start_append(dashed(f), seq!['-']);
            assert(dashed(f).push('-') =~= dashed(f) + seq!['-']);
            assert((dashed(x) + t).push('-') =~= dashed(x) + (t + seq!['-']));
        }
    }
}

/// A slug is the words of a text with one `-` between each two of them: a text of
/// letters and digits is its own slug, and any other character parts the slug of what
/// stands before it from that of what stands behind it.
pub proof fn law_slug_joins_words(a: Seq<char>, c: char, b: Seq<char>)
    requires
        !text::is_ascii_alnum(c),
    ensures
        slug_of_lower(a).len() == 0 ==> slug_of_lower(a + seq![c] + b) == slug_of_lower(b),
        slug_of_lower(b).len() == 0 ==> slug_of_lower(a + seq![c] + b) == slug_of_lower(a),
        slug_of_lower(a).len() > 0 && slug_of_lower(b).len() > 0 ==> slug_of_lower(
            a + seq![c] + b,
        ) == slug_of_lower(a) + seq!['-'] + slug_of_lower(b),
        (forall|i: int| 0 <= i < a.len() ==> text::is_ascii_alnum(#[trigger] a[i]))
            ==> slug_of_lower(a) == a,
{
    let xs = a + seq![c];
    assert(xs.drop_last() =~= a);
    let x = dashed(xs);
    let y = text::trim_start_char(dashed(b), '-');
    lemma_dashed_append(xs, b);
    lemma_dashed_shape(a);
    lemma_dashed_shape(xs);
    let tx = text::trim_start_char(x, '-');
    text::law_trim_char(x, '-');
    text::law_trim_char(dashed(a), '-');
    lemma_trim_start_append(dashed(a), seq!['-']);
    lemma_trim_start_append(x, y);
    lemma_trim_start_append(dashed(b), y);
    lemma_trim_end_append(text::trim_start_char(dashed(a), '-'), seq!['-']);
    reveal_with_fuel(text::trim_start_char, 2);
    reveal_with_fuel(text::trim_end_char, 2);
    assert(seq!['-'].skip(1) =~= Seq::empty());
    assert(seq!['-'].drop_last() =~= Seq::empty());
    assert(dashed(a).push('-') =~= dashed(a) + seq!['-']);
    assert(text::trim_end_char(tx, '-') == slug_of_lower(a));
    if tx.len() > 0 {
        lemma_trim_end_append(tx, y);
        let z = tx.drop_last();
        assert(tx.last() == x.last());
        assert(tx =~= z + seq!['-']);
        assert(z.len() > 0) by {
            if z.len() == 0 {
                assert(tx[0] == '-');
            }
        }
        assert(z.last() != '-') by {
            let n = x.len() - 1;
            assert(x[n] == '-');
            assert(z.last() == x[n - 1]);
        }
        assert(text::trim_end_char(tx, '-') == z);
        assert(tx + text::trim_end_char(y, '-') =~= z + seq!['-'] + text::trim_end_char(y, '-'));
    } else {
        assert(text::trim_end_char(tx, '-').len() == 0);
    }
    if forall|i: int| 0 <= i < a.len() ==> text::is_ascii_alnum(#[trigger] a[i]) {
        lemma_dashed_word(a);
        if a.len() > 0 {
            assert(text::is_ascii_alnum(a[0]));
            assert(text::is_ascii_alnum(a[a.len() - 1]));
        }
    }
}

proof fn lemma_dashed_word(a: Seq<char>)
    requires
        forall|i: int| 0 <= i < a.len() ==> text::is_ascii_alnum(#[trigger] a[i]),
    ensures
        dashed(a) == a,
    decreases a.len(),
{
    if a.len() > 0 {
        assert forall|i: int| 0 <= i < a.drop_last().len() implies text::is_ascii_alnum(
            #[trigger] a.drop_last()[i],
        ) by {
            assert(a.drop_last()[i] == a[i]);
        }
        lemma_dashed_word(a.drop_last());
        assert(text::is_ascii_alnum(a[a.len() - 1]));
        assert(a.drop_last().push(a.last()) =~= a);
    } else {
        assert(dashed(a) =~= a);
    }
}

} // verus!
