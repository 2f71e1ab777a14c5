//! External links: which a site has, and which of them are broken.
use vstd::prelude::*;
use vstd::string::*;

use crate::failure;
use crate::failure::{failure, Failure};
use crate::pattern;
use crate::text;
use crate::text::copy_text;

verus! {

/// What a check of the external links has found.
#[derive(Debug, Clone, Copy, PartialEq, Eq, Structural)]
pub struct LinkCheckReport {
    pub checked: usize,
    pub broken: usize,
}

/// `known` with those of `found` that are not in it yet, each once.
pub open spec fn with_new(known: Seq<Seq<char>>, found: Seq<Seq<char>>) -> Seq<Seq<char>>
    decreases found.len(),
{
    if found.len() == 0 {
        known
    } else {
        let rest = with_new(known, found.drop_last());
        if rest.contains(found.last()) {
            rest
        } else {
            rest.push(found.last())
        }
    }
}

/// The external links of pages, each once, in the order of their first use.
pub open spec fn external_links(pages: Seq<Seq<char>>) -> Seq<Seq<char>>
    decreases pages.len(),
{
    if pages.len() == 0 {
        Seq::empty()
    } else {
        with_new(
            external_links(pages.drop_last()),
            pattern::first_groups(pattern::matches_of(pattern::EXTERNAL_LINK@, pages.last())),
        )
    }
}

/// Adds what is new in `found` to `known`, as [`with_new`] says.
pub fn add_new(known: &mut Vec<String>, found: &Vec<String>)
    ensures
        text::texts(final(known)@) == with_new(text::texts(old(known)@), text::texts(found@)),
{
    let ghost start = text::texts(known@);
    let ghost all = text::texts(found@);
    let mut i: usize = 0;
    assert(all.take(0) =~= Seq::empty());
    while i < found.len()
        invariant
            i <= found.len(),
            all == text::texts(found@),
            text::texts(known@) == with_new(start, all.take(i as int)),
        decreases found.len() - i,
    {
        assert(all.take(i + 1).drop_last() =~= all.take(i as int));
        assert(all.take(i + 1).last() == found@[i as int]@);
        if !text::has_text(known, found[i].as_str()) {
            let ghost before = known@;
            known.push(copy_text(found[i].as_str()));
            assert(text::texts(known@) =~= text::texts(before).push(found@[i as int]@));
        }
        i += 1;
    }
    assert(all.take(found.len() as int) =~= all);
}

/// Computes [`external_links`].
pub fn collect_external_links(pages: &Vec<String>) -> (r: Vec<String>)
    ensures
        text::texts(r@) == external_links(text::texts(pages@)),
{
    let ghost all = text::texts(pages@);
    let mut out: Vec<String> = Vec::new();
    let mut i: usize = 0;
    assert(all.take(0) =~= Seq::empty());
    assert(text::texts(out@) =~= Seq::empty());
    while i < pages.len()
        invariant
            i <= pages.len(),
            all == text::texts(pages@),
            text::texts(out@) == external_links(all.take(i as int)),
        decreases pages.len() - i,
    {
        assert(all.take(i + 1).drop_last() =~= all.take(i as int));
        assert(all.take(i + 1).last() == pages@[i as int]@);
        let found = pattern::captured_texts(pattern::EXTERNAL_LINK, pages[i].as_str());
        add_new(&mut out, &found);
        i += 1;
    }
    assert(all.take(pages.len() as int) =~= all);
    out
}

/// No link is checked twice.
pub proof fn law_links_are_distinct(pages: Seq<Seq<char>>)
    ensures
        external_links(pages).no_duplicates(),
    decreases pages.len(),
{
    if pages.len() > 0 {
        law_links_are_distinct(pages.drop_last());
        lemma_with_new_distinct(
            external_links(pages.drop_last()),
            pattern::first_groups(pattern::matches_of(pattern::EXTERNAL_LINK@, pages.last())),
        );
    }
}

proof fn lemma_with_new_distinct(known: Seq<Seq<char>>, found: Seq<Seq<char>>)
    requires
        known.no_duplicates(),
    ensures
        with_new(known, found).no_duplicates(),
    decreases found.len(),
{
    if found.len() > 0 {
        lemma_with_new_distinct(known, found.drop_last());
    }
}

// ---------------------------------------------------------------------------
// Checking one link.

/// The status that counts for a link, given the answers to a `HEAD` and, where
/// one is made, to a `GET` request: the `GET` request is made where `HEAD` is
/// not allowed or had no answer.
pub open spec fn link_status(head: Option<u16>, get: Option<u16>) -> Option<u16> {
    if needs_get(head) {
        get
    } else {
        head
    }
}

/// A `GET` request is made.
pub open spec fn needs_get(head: Option<u16>) -> bool {
    head is None || head == Some(405u16)
}

/// What to do behind the `HEAD` request for a link.
#[derive(Debug, Clone, Copy, PartialEq, Eq, Structural)]
pub enum StatusStep {
    /// The status is known.
    Known(u16),
    /// A `GET` request is made, and its status counts.
    TryGet,
}

/// What to do behind the `HEAD` request for a link.
pub fn after_head(head: Option<u16>) -> (r: StatusStep)
    ensures
        r == (if needs_get(head) {
            StatusStep::TryGet
        } else {
            StatusStep::Known(head.unwrap())
        }),
        r matches StatusStep::Known(code) ==> forall|get: Option<u16>| #[trigger]
            link_status(head, get) == Some(code),
        r == StatusStep::TryGet ==> forall|get: Option<u16>| #[trigger]
            link_status(head, get) == get,
{
    match head {
        Some(code) => {
            if code == 405 {
                StatusStep::TryGet
            } else {
                StatusStep::Known(code)
            }
        },
        None => StatusStep::TryGet,
    }
}

/// A link without an answer, or with the status of an error.
pub open spec fn is_broken(status: Option<u16>) -> bool {
    match status {
        Some(code) => code >= 400,
        None => true,
    }
}

/// How many of the statuses are those of broken links.
pub open spec fn broken_count(s: Seq<Option<u16>>) -> nat
    decreases s.len(),
{
    if s.len() == 0 {
        0
    } else {
        broken_count(s.drop_last()) + if is_broken(s.last()) {
            1nat
        } else {
            0
        }
    }
}

/// Decides [`is_broken`].
pub fn link_is_broken(status: Option<u16>) -> (r: bool)
    ensures
        r == is_broken(status),
{
    match status {
        Some(code) => code >= 400,
        None => true,
    }
}

/// The report on links with these statuses.
pub fn tally(statuses: &Vec<Option<u16>>) -> (r: LinkCheckReport)
    ensures
        r.checked == statuses@.len(),
        r.broken == broken_count(statuses@),
        r.broken <= r.checked,
{
    let mut broken: usize = 0;
    let mut i: usize = 0;
    assert(statuses@.take(0) =~= Seq::empty());
    while i < statuses.len()
        invariant
            i <= statuses.len(),
            broken <= i,
            broken == broken_count(statuses@.take(i as int)),
        decreases statuses.len() - i,
    {
        assert(statuses@.take(i + 1).drop_last() =~= statuses@.take(i as int));
        if link_is_broken(statuses[i]) {
            broken += 1;
        }
        i += 1;
    }
    assert(statuses@.take(statuses.len() as int) =~= statuses@);
    LinkCheckReport { checked: statuses.len(), broken }
}

/// Why the build fails for its links.
pub open spec fn links_error(fail_on_broken: bool, broken: usize) -> Option<Seq<char>> {
    if fail_on_broken && broken > 0 {
        Some("external link check failed: "@ + text::decimal(broken as nat) + " broken links"@)
    } else {
        None
    }
}

/// Accepts a report, unless broken links are to fail the build.
pub fn judge_links(fail_on_broken: bool, broken: usize) -> (r: Result<(), Failure>)
    ensures
        failure::refusal(r) == links_error(fail_on_broken, broken),
{
    if fail_on_broken && broken > 0 {
        let mut m = copy_text("external link check failed: ");
        crate::config::append_number(&mut m, broken);
        m.append(" broken links");
        Err(failure(m))
    } else {
        Ok(())
    }
}

// ---------------------------------------------------------------------------
// More laws.

proof fn lemma_with_new(known: Seq<Seq<char>>, found: Seq<Seq<char>>, x: Seq<char>)
    ensures
        with_new(known, found).contains(x) <==> known.contains(x) || found.contains(x),
        with_new(known, found).len() >= known.len(),
        with_new(known, found).take(known.len() as int) == known,
    decreases found.len(),
{
    if found.len() == 0 {
        assert(known.take(known.len() as int) =~= known);
    } else {
        let front = found.drop_last();
        lemma_with_new(known, front, x);
        lemma_with_new(known, front, found.last());
        let rest = with_new(known, front);
        let all = with_new(known, found);
        assert(all.take(known.len() as int) =~= rest.take(known.len() as int));
        if found.contains(x) && x != found.last() {
            let k = choose|k: int| 0 <= k < found.len() && found[k] == x;
            assert(front[k] == x);
        }
        if front.contains(x) {
            let k = choose|k: int| 0 <= k < front.len() && front[k] == x;
            assert(found[k] == x);
        }
        assert(found[found.len() - 1] == found.last());
        if rest.contains(x) {
            let k = choose|k: int| 0 <= k < rest.len() && rest[k] == x;
            assert(all[k] == x);
        }
        if x == found.last() && !rest.contains(x) {
            assert(all[all.len() - 1] == x);
        }
        if all.contains(x) && !rest.contains(x) {
            let k = choose|k: int| 0 <= k < all.len() && all[k] == x;
            if k < rest.len() {
                assert(rest[k] == x);
            }
        }
    }
}

/// The links of a site are those that some page has, and no others; what earlier pages
/// have stands first.
pub proof fn law_links_of_all_pages(pages: Seq<Seq<char>>, x: Seq<char>)
    ensures
        external_links(pages).contains(x) <==> exists|i: int|
            0 <= i < pages.len() && pattern::first_groups(
                pattern::matches_of(pattern::EXTERNAL_LINK@, #[trigger] pages[i]),
            ).contains(x),
        pages.len() > 0 ==> external_links(pages).take(
            external_links(pages.drop_last()).len() as int,
        ) == external_links(pages.drop_last()),
    decreases pages.len(),
{
    if pages.len() > 0 {
        let front = pages.drop_last();
        law_links_of_all_pages(front, x);
        let found = pattern::first_groups(
            pattern::matches_of(pattern::EXTERNAL_LINK@, pages.last()),
        );
        lemma_with_new(external_links(front), found, x);
        assert(pages[pages.len() - 1] == pages.last());
        if external_links(front).contains(x) {
            let i = choose|i: int|
                0 <= i < front.len() && pattern::first_groups(
                    pattern::matches_of(pattern::EXTERNAL_LINK@, #[trigger] front[i]),
                ).contains(x);
            assert(pages[i] == front[i]);
        }
        if exists|i: int|
            0 <= i < pages.len() && pattern::first_groups(
                pattern::matches_of(pattern::EXTERNAL_LINK@, #[trigger] pages[i]),
            ).contains(x) {
            let i = choose|i: int|
                0 <= i < pages.len() && pattern::first_groups(
                    pattern::matches_of(pattern::EXTERNAL_LINK@, #[trigger] pages[i]),
                ).contains(x);
            if i < front.len() {
                assert(front[i] == pages[i]);
            }
        }
    }
}

/// The answer to `HEAD` counts, except where there is none or the method is not allowed:
/// then that to `GET` counts. A link is broken where there is no answer, or an answer of
/// 400 or above.
pub proof fn law_link_states(head: u16, get: Option<u16>, code: u16)
    ensures
        link_status(None, get) == get,
        link_status(Some(405), get) == get,
        head != 405 ==> link_status(Some(head), get) == Some(head),
        is_broken(None),
        code < 400 ==> !is_broken(Some(code)),
        code >= 400 ==> is_broken(Some(code)),
{
}

/// The broken links that are counted are those without an answer or with one of 400 or
/// above. Broken links fail a build exactly where that is asked for.
pub proof fn law_broken_links_are_counted(s: Seq<Option<u16>>, broken: usize)
    ensures
        broken_count(s) == s.filter(
            |x: Option<u16>| x is None || x.unwrap() >= 400,
        ).len(),
        links_error(false, broken) is None,
        links_error(true, broken) is Some <==> broken > 0,
    decreases s.len(),
{
    reveal(Seq::filter);
    if s.len() > 0 {
        law_broken_links_are_counted(s.drop_last(), broken);
    }
}

} // verus!
