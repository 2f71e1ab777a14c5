//! The patterns that pages are searched with.
use vstd::prelude::*;
use vstd::string::*;

use crate::text;

verus! {

/// A link to another site.
pub const EXTERNAL_LINK: &'static str = "href=[\"'](https?://[^\"']+)[\"']";

/// A `class` attribute.
pub const CLASS_ATTRIBUTE: &'static str = "class=[\"']([^\"']+)[\"']";

/// An island.
pub const ISLAND: &'static str =
    "<island\\s+name=\"([^\"]+)\"(?:\\s+props='([^']*)')?\\s*></island>";

/// A Markdown link.
pub const MARKDOWN_LINK: &'static str = "\\[[^\\]]*\\]\\(([^)\\s]+)(?:\\s+\"[^\"]*\")?\\)";

/// A `src` or `href` attribute.
pub const ASSET_ATTRIBUTE: &'static str = "(?:src|href)=[\"']([^\"']+)[\"']";

/// A component shortcode.
pub const COMPONENT: &'static str = "\\{\\{<\\s*([A-Za-z0-9_-]+)([^>]*)>\\}\\}";

/// An attribute of a component shortcode.
pub const COMPONENT_ATTRIBUTE: &'static str = "([A-Za-z0-9_-]+)\\s*=\\s*\"([^\"]*)\"";

/// The pattern is one of this module, all of which are well formed.
pub open spec fn known_pattern(p: Seq<char>) -> bool {
    ||| p == EXTERNAL_LINK@
    ||| p == CLASS_ATTRIBUTE@
    ||| p == ISLAND@
    ||| p == MARKDOWN_LINK@
    ||| p == ASSET_ATTRIBUTE@
    ||| p == COMPONENT@
    ||| p == COMPONENT_ATTRIBUTE@
}

/// The matches of a pattern in a text, from the left and without overlap: for
/// each of them its groups, the whole match first.
pub uninterp spec fn matches_of(pattern: Seq<char>, text: Seq<char>) -> Seq<Seq<Option<Seq<char>>>>;

/// What stands before, between and behind the matches of a pattern in a text.
pub uninterp spec fn gaps_of(pattern: Seq<char>, text: Seq<char>) -> Seq<Seq<char>>;

/// The groups of one match.
pub open spec fn group_views(s: Seq<Option<String>>) -> Seq<Option<Seq<char>>> {
    Seq::new(s.len(), |i: int| text::opt_text(s[i]))
}

/// The groups of several matches.
pub open spec fn match_views(s: Seq<Vec<Option<String>>>) -> Seq<Seq<Option<Seq<char>>>> {
    Seq::new(s.len(), |i: int| group_views(s[i]@))
}

/// The text of the group `i` of a match, or `default` where it took no part.
pub open spec fn group_or(groups: Seq<Option<Seq<char>>>, i: int, default: Seq<char>) -> Seq<char> {
    if 0 <= i < groups.len() {
        match groups[i] {
            Some(t) => t,
            None => default,
        }
    } else {
        default
    }
}

/// The group `i` of every match.
pub open spec fn group_texts(m: Seq<Seq<Option<Seq<char>>>>, i: int) -> Seq<Seq<char>> {
    Seq::new(m.len(), |k: int| group_or(m[k], i, Seq::empty()))
}

/// The first `n` of `gaps`, each followed by the text of the same index in
/// `fills`.
pub open spec fn weave_first(gaps: Seq<Seq<char>>, fills: Seq<Seq<char>>, n: int) -> Seq<char>
    decreases n,
{
    if n <= 0 {
        Seq::empty()
    } else {
        weave_first(gaps, fills, n - 1) + gaps[n - 1] + if n - 1 < fills.len() {
            fills[n - 1]
        } else {
            Seq::empty()
        }
    }
}

/// `gaps` with the texts of `fills` between them.
pub open spec fn weave(gaps: Seq<Seq<char>>, fills: Seq<Seq<char>>) -> Seq<char> {
    weave_first(gaps, fills, gaps.len() as int)
}

/// `regex::Regex::captures_iter` gives the groups of all matches of the pattern
/// in the text. The result is [`matches_of`] the two; which parts of the text
/// match is not said.
#[verifier::external_body]
pub(crate) fn find_matches(pattern: &str, text: &str) -> (r: Vec<Vec<Option<String>>>)
    requires
        known_pattern(pattern@),
    ensures
        match_views(r@) == matches_of(pattern@, text@),
{
    let pattern = regex::Regex::new(pattern).expect("the pattern is well formed");
    pattern
        .captures_iter(text)
        .map(|found| found.iter().map(|group| group.map(|m| m.as_str().to_string())).collect())
        .collect()
}

/// `regex::Regex::split` gives what stands around the matches of the pattern in
/// the text: one piece more than there are matches, and the pieces with the
/// matches between them are the text.
#[verifier::external_body]
pub(crate) fn find_gaps(pattern: &str, text: &str) -> (r: Vec<String>)
    requires
        known_pattern(pattern@),
    ensures
        text::texts(r@) == gaps_of(pattern@, text@),
        r@.len() == matches_of(pattern@, text@).len() + 1,
        weave(text::texts(r@), group_texts(matches_of(pattern@, text@), 0)) == text@,
{
    let pattern = regex::Regex::new(pattern).expect("the pattern is well formed");
    pattern.split(text).map(|gap| gap.to_string()).collect()
}

/// Computes [`group_or`].
pub fn group_text(groups: &Vec<Option<String>>, i: usize, default: &str) -> (r: String)
    ensures
        r@ == group_or(group_views(groups@), i as int, default@),
{
    if i < groups.len() {
        match &groups[i] {
            Some(t) => text::copy_text(t.as_str()),
            None => text::copy_text(default),
        }
    } else {
        text::copy_text(default)
    }
}

/// The texts of the group 1 of all matches in which it took part.
pub open spec fn first_groups(m: Seq<Seq<Option<Seq<char>>>>) -> Seq<Seq<char>>
    decreases m.len(),
{
    if m.len() == 0 {
        Seq::empty()
    } else {
        let rest = first_groups(m.drop_last());
        let g = m.last();
        if 1 < g.len() && g[1] is Some {
            rest.push(g[1].unwrap())
        } else {
            rest
        }
    }
}

/// The texts that the pattern captures in `text`: [`first_groups`] of its
/// matches.
pub fn captured_texts(pattern: &str, text: &str) -> (r: Vec<String>)
    requires
        known_pattern(pattern@),
    ensures
        text::texts(r@) == first_groups(matches_of(pattern@, text@)),
{
    let found = find_matches(pattern, text);
    captured_of(&found)
}

/// Computes [`first_groups`].
pub fn captured_of(found: &Vec<Vec<Option<String>>>) -> (r: Vec<String>)
    ensures
        text::texts(r@) == first_groups(match_views(found@)),
{
    let mut out: Vec<String> = Vec::new();
    let mut i: usize = 0;
    let ghost all = match_views(found@);
    assert(all.take(0) =~= Seq::empty());
    assert(text::texts(out@) =~= Seq::empty());
    while i < found.len()
        invariant
            i <= found.len(),
            all == match_views(found@),
            text::texts(out@) == first_groups(all.take(i as int)),
        decreases found.len() - i,
    {
        assert(all.take(i + 1).drop_last() =~= all.take(i as int));
        assert(all.take(i + 1).last() == group_views(found@[i as int]@));
        let groups = &found[i];
        let ghost before = out@;
        if groups.len() > 1 {
            assert(group_views(groups@)[1] == text::opt_text(groups@[1]));
            match &groups[1] {
                Some(t) => {
                    out.push(text::copy_text(t.as_str()));
                    assert(text::texts(out@) =~= text::texts(before).push(t@));
                },
                None => {},
            }
        }
        i += 1;
    }
    assert(all.take(found.len() as int) =~= all);
    out
}

/// Computes [`weave`].
pub fn weave_texts(gaps: &Vec<String>, fills: &Vec<String>) -> (r: String)
    ensures
        r@ == weave(text::texts(gaps@), text::texts(fills@)),
{
    let mut out = String::new();
    let mut i: usize = 0;
    let ghost g = text::texts(gaps@);
    let ghost f = text::texts(fills@);
    assert(out@ =~= weave_first(g, f, 0));
    while i < gaps.len()
        invariant
            i <= gaps.len(),
            g == text::texts(gaps@),
            f == text::texts(fills@),
            out@ == weave_first(g, f, i as int),
        decreases gaps.len() - i,
    {
        out.append(gaps[i].as_str());
        if i < fills.len() {
            out.append(fills[i].as_str());
        }
        assert(out@ =~= weave_first(g, f, i + 1));
        i += 1;
    }
    out
}

/// A text in which the pattern has no match is the one piece around the matches.
pub proof fn lemma_no_match(gaps: Seq<Seq<char>>, fills: Seq<Seq<char>>)
    requires
        gaps.len() == 1,
        fills.len() == 0,
    ensures
        weave(gaps, fills) == gaps[0],
{
    reveal_with_fuel(weave_first, 3);
    assert(weave(gaps, fills) =~= gaps[0]);
}

/// What stands around the matches stays where it is, and between two pieces of it
/// stands what came in for the match there.
pub proof fn law_weave(gaps: Seq<Seq<char>>, fills: Seq<Seq<char>>)
    requires
        gaps.len() == fills.len() + 1,
    ensures
        weave(gaps, fills) == gaps[0] + Seq::new(
            fills.len(),
            |i: int| fills[i] + gaps[i + 1],
        ).flatten(),
{
    lemma_weave_first(gaps, fills, gaps.len() as int);
}

proof fn lemma_weave_first(gaps: Seq<Seq<char>>, fills: Seq<Seq<char>>, n: int)
    requires
        gaps.len() == fills.len() + 1,
        1 <= n <= gaps.len(),
    ensures
        weave_first(gaps, fills, n) == gaps[0] + Seq::new(
            (n - 1) as nat,
            |i: int| fills[i] + gaps[i + 1],
        ).flatten() + (if n - 1 < fills.len() {
            fills[n - 1]
        } else {
            Seq::empty()
        }),
    decreases n,
{
    let parts = Seq::new((n - 1) as nat, |i: int| fills[i] + gaps[i + 1]);
    parts.lemma_flatten_and_flatten_alt_are_equivalent();
    if n == 1 {
        reveal_with_fuel(weave_first, 2);
        assert(weave_first(gaps, fills, n) =~= gaps[0] + parts.flatten() + (if n - 1 < fills.len() {
            fills[n - 1]
        } else {
            Seq::empty()
        }));
    } else {
        lemma_weave_first(gaps, fills, n - 1);
        let rest = Seq::new((n - 2) as nat, |i: int| fills[i] + gaps[i + 1]);
        rest.lemma_flatten_and_flatten_alt_are_equivalent();
        assert(parts.drop_last() =~= rest);
        assert(weave_first(gaps, fills, n) =~= gaps[0] + parts.flatten_alt() + (if n - 1
            < fills.len() {
            fills[n - 1]
        } else {
            Seq::empty()
        }));
    }
}

/// Of all matches whose first group took part, that group is given, in order; the
/// others give nothing.
pub proof fn law_first_groups(m: Seq<Seq<Option<Seq<char>>>>)
    ensures
        first_groups(m) == m.filter(
            |g: Seq<Option<Seq<char>>>| 1 < g.len() && g[1] is Some,
        ).map_values(|g: Seq<Option<Seq<char>>>| g[1].unwrap()),
    decreases m.len(),
{
    reveal(Seq::filter);
    let keep = |g: Seq<Option<Seq<char>>>| 1 < g.len() && g[1] is Some;
    let take = |g: Seq<Option<Seq<char>>>| g[1].unwrap();
    if m.len() > 0 {
        law_first_groups(m.drop_last());
        let rest = m.drop_last().filter(keep);
        assert(rest.push(m.last()).map_values(take) =~= rest.map_values(take).push(take(m.last())));
    } else {
        assert(m.filter(keep).map_values(take) =~= Seq::empty());
    }
}

} // verus!
