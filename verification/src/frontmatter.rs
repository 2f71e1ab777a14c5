//! Front matter: what a page says of itself.
use vstd::prelude::*;
use vstd::string::*;

use crate::fspath;
use crate::order;
use crate::text;
use crate::text::copy_text;

verus! {

/// What a page says of itself.
#[derive(Debug)]
pub struct FrontMatter {
    pub title: Option<String>,
    pub slug: Option<String>,
    pub lang: Option<String>,
    pub date: Option<String>,
    pub tags: Option<Vec<String>>,
    pub categories: Option<Vec<String>>,
    pub template: Option<String>,
    pub draft: Option<bool>,
}

impl Default for FrontMatter {
    fn default() -> (r: Self)
        ensures
            r.title is None && r.slug is None && r.lang is None && r.date is None,
            r.tags is None && r.categories is None && r.template is None && r.draft is None,
    {
        FrontMatter {
            title: None,
            slug: None,
            lang: None,
            date: None,
            tags: None,
            categories: None,
            template: None,
            draft: None,
        }
    }
}

/// The day of a date: its first ten characters.
pub open spec fn day_of(date: Seq<char>) -> Seq<char> {
    date.take(if date.len() < 10 {
        date.len() as int
    } else {
        10
    })
}

/// The page is not to be published on the day `today`: it is a draft, or its
/// date lies ahead.
pub open spec fn unpublished(fm: FrontMatter, today: Seq<char>) -> bool {
    fm.draft == Some(true) || (match fm.date {
        Some(d) => order::text_lt(today, day_of(d@)),
        None => false,
    })
}

/// Whether a build on the day `today` renders the page.
pub fn should_render_content(fm: &FrontMatter, include_drafts: bool, today: &str) -> (r: bool)
    ensures
        r == (include_drafts || !unpublished(*fm, today@)),
{
    if include_drafts {
        return true;
    }
    match fm.draft {
        Some(d) => {
            if d {
                return false;
            }
        },
        None => {},
    }
    match &fm.date {
        Some(d) => {
            let v = text::to_chars(d.as_str());
            let n: usize = if v.len() < 10 {
                v.len()
            } else {
                10
            };
            assert(d@.subrange(0, n as int) =~= day_of(d@));
            let day = text::text_of(vstd::slice::slice_subrange(v.as_slice(), 0, n));
            !order::text_less(today, day.as_str())
        },
        None => true,
    }
}

/// The title of a page: the one it gives, else the name of its file, else
/// `Untitled`.
pub open spec fn title_of(title: Option<Seq<char>>, path: Seq<char>) -> Seq<char> {
    match title {
        Some(t) => t,
        None => match fspath::file_stem(path) {
            Some(s) => s,
            None => "Untitled"@,
        },
    }
}

/// Computes [`title_of`].
pub fn page_title(fm: &FrontMatter, path: &str) -> (r: String)
    ensures
        r@ == title_of(text::opt_text(fm.title), path@),
{
    match &fm.title {
        Some(t) => copy_text(t.as_str()),
        None => match fspath::path_stem(path) {
            Some(s) => s,
            None => copy_text("Untitled"),
        },
    }
}

/// A page is held back as long as it is a draft, and before the day of its date; with
/// drafts, nothing is held back. On that day and after it the page is published.
pub proof fn law_publishing(fm: FrontMatter, today: Seq<char>)
    ensures
        fm.draft == Some(true) ==> unpublished(fm, today),
        fm.draft != Some(true) && fm.date is None ==> !unpublished(fm, today),
        fm.draft != Some(true) ==> (fm.date matches Some(d) ==> d@.len() == 10 ==> (unpublished(
            fm,
            today,
        ) <==> order::text_lt(today, d@))),
        fm.draft != Some(true) ==> (fm.date matches Some(d) ==> d@.len() >= 10 && d@.take(10)
            == today ==> !unpublished(fm, today)),
{
    match fm.date {
        Some(d) => {
            if d@.len() == 10 {
                assert(d@.take(10) =~= d@);
            }
            order::lemma_text_trichotomy(today, today);
        },
        None => {},
    }
}

/// The title of a page is the one that it gives; a page without one is named after its
/// file.
pub proof fn law_title(title: Seq<char>, path: Seq<char>)
    ensures
        title_of(Some(title), path) == title,
        fspath::file_stem(path) matches Some(stem) ==> title_of(None, path) == stem,
        fspath::file_stem(path) is None ==> title_of(None, path) == "Untitled"@,
{
}

} // verus!
