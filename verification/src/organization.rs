//! Content organization: the entries of a site, their order, and the pages that
//! list them.
use vstd::prelude::*;
use vstd::string::*;

use crate::config::I18nConfig;
use crate::failure;
use crate::failure::Failure;
use crate::frontmatter;
use crate::frontmatter::FrontMatter;
use crate::fspath;
use crate::html;
use crate::json;
use crate::order;
use crate::order::Ranked;
use crate::page;
use crate::page::PageContext;
use crate::route;
use crate::templates;
use crate::templates::TemplateSet;
use crate::text;
use crate::text::copy_text;

verus! {

// ---------------------------------------------------------------------------
// Entries.

/// A page as the lists of a site show it.
#[derive(Debug)]
pub struct ContentEntry {
    pub title: String,
    pub url: String,
    pub date: Option<String>,
    pub tags: Vec<String>,
    pub categories: Vec<String>,
}

/// What an entry holds.
pub struct EntryView {
    pub title: Seq<char>,
    pub url: Seq<char>,
    pub date: Option<Seq<char>>,
    pub tags: Seq<Seq<char>>,
    pub categories: Seq<Seq<char>>,
}

impl View for ContentEntry {
    type V = EntryView;

    open spec fn view(&self) -> EntryView {
        EntryView {
            title: self.title@,
            url: self.url@,
            date: text::opt_text(self.date),
            tags: text::texts(self.tags@),
            categories: text::texts(self.categories@),
        }
    }
}

/// `a` is the earlier date; no date is earlier than any.
pub open spec fn date_lt(a: Option<Seq<char>>, b: Option<Seq<char>>) -> bool {
    match (a, b) {
        (None, Some(_)) => true,
        (Some(x), Some(y)) => order::text_lt(x, y),
        _ => false,
    }
}

/// Decides [`date_lt`].
fn date_less(a: &Option<String>, b: &Option<String>) -> (r: bool)
    ensures
        r == date_lt(text::opt_text(*a), text::opt_text(*b)),
{
    match (a, b) {
        (None, Some(_)) => true,
        (Some(x), Some(y)) => order::text_less(x.as_str(), y.as_str()),
        _ => false,
    }
}

impl Ranked for ContentEntry {
    /// Later entries stand before earlier ones.
    open spec fn rank_le(a: EntryView, b: EntryView) -> bool {
        !date_lt(a.date, b.date)
    }

    proof fn rank_total(a: EntryView, b: EntryView) {
        if a.date is Some && b.date is Some {
            order::lemma_text_trichotomy(a.date.unwrap(), b.date.unwrap());
        }
    }

    proof fn rank_trans(a: EntryView, b: EntryView, c: EntryView) {
        if a.date is Some && b.date is Some && c.date is Some {
            String::rank_trans(c.date.unwrap(), b.date.unwrap(), a.date.unwrap());
        }
    }

    fn may_precede(&self, other: &Self) -> (r: bool) {
        !date_less(&self.date, &other.date)
    }
}

/// A content file: its path, and what it says of itself.
#[derive(Debug)]
pub struct ContentFile {
    pub path: String,
    pub front: FrontMatter,
}

/// Where the entries of a site are collected from and to.
#[derive(Debug)]
pub struct SiteRoots {
    pub content_dir: String,
    pub output_dir: String,
    pub base_path: String,
}

/// The texts of an optional list.
pub open spec fn opt_list(o: Option<Vec<String>>) -> Seq<Seq<char>> {
    match o {
        Some(v) => text::texts(v@),
        None => Seq::empty(),
    }
}

/// The entry of a content file, or why it has no place.
pub open spec fn entry_of(file: ContentFile, roots: SiteRoots, i18n: I18nConfig) -> Result<
    EntryView,
    Seq<char>,
> {
    match route::output_path(
        file.path@,
        roots.content_dir@,
        roots.output_dir@,
        text::opt_text(file.front.slug),
        text::opt_text(file.front.lang),
        i18n,
    ) {
        Err(m) => Err(m),
        Ok(output) => Ok(
            EntryView {
                title: frontmatter::title_of(text::opt_text(file.front.title), file.path@),
                url: page::page_url(output, roots.output_dir@, roots.base_path@),
                date: text::opt_text(file.front.date),
                tags: opt_list(file.front.tags),
                categories: opt_list(file.front.categories),
            },
        ),
    }
}

/// The file is a page that a build on the day `today` lists.
pub open spec fn listed(file: ContentFile, include_drafts: bool, today: Seq<char>) -> bool {
    fspath::extension(file.path@) == Some("md"@) && (include_drafts || !frontmatter::unpublished(
        file.front,
        today,
    ))
}

/// The entries of the listed files, in the order of the files; or why the first
/// that has no place has none.
pub open spec fn entries_of(
    files: Seq<ContentFile>,
    roots: SiteRoots,
    i18n: I18nConfig,
    include_drafts: bool,
    today: Seq<char>,
) -> Result<Seq<EntryView>, Seq<char>>
    decreases files.len(),
{
    if files.len() == 0 {
        Ok(Seq::empty())
    } else {
        match entries_of(files.drop_last(), roots, i18n, include_drafts, today) {
            Err(m) => Err(m),
            Ok(rest) => if !listed(files.last(), include_drafts, today) {
                Ok(rest)
            } else {
                match entry_of(files.last(), roots, i18n) {
                    Err(m) => Err(m),
                    Ok(entry) => Ok(rest.push(entry)),
                }
            },
        }
    }
}

/// Entries in the order of the lists: the latest first, those of one date in the
/// order in which they came.
pub open spec fn latest_first(entries: Seq<EntryView>) -> Seq<EntryView> {
    order::stable_sort::<ContentEntry>(entries)
}

/// Entries, with errors given by their messages.
pub open spec fn entries_outcome(r: Result<Vec<ContentEntry>, Failure>) -> Result<
    Seq<EntryView>,
    Seq<char>,
> {
    match r {
        Ok(v) => Ok(order::views(v@)),
        Err(e) => Err(e.message@),
    }
}

/// The first error is the error.
proof fn lemma_entries_error(
    files: Seq<ContentFile>,
    roots: SiteRoots,
    i18n: I18nConfig,
    include_drafts: bool,
    today: Seq<char>,
    n: int,
)
    requires
        0 <= n <= files.len(),
        entries_of(files.take(n), roots, i18n, include_drafts, today) is Err,
    ensures
        entries_of(files, roots, i18n, include_drafts, today) == entries_of(
            files.take(n),
            roots,
            i18n,
            include_drafts,
            today,
        ),
    decreases files.len() - n,
{
    if n == files.len() {
        assert(files.take(n) =~= files);
    } else {
        assert(files.take(n + 1).drop_last() =~= files.take(n));
        lemma_entries_error(files, roots, i18n, include_drafts, today, n + 1);
    }
}

/// A copy of the texts of an optional list.
fn list_or_empty(o: &Option<Vec<String>>) -> (r: Vec<String>)
    ensures
        text::texts(r@) == opt_list(*o),
{
    match o {
        Some(v) => text::copy_texts(v),
        None => {
            let none: Vec<String> = Vec::new();
            assert(text::texts(none@) =~= Seq::empty());
            none
        },
    }
}

/// A borrowed view of an optional text.
fn as_opt_str(o: &Option<String>) -> (r: Option<&str>)
    ensures
        text::opt_str(r) == text::opt_text(*o),
{
    match o {
        Some(s) => Some(s.as_str()),
        None => None,
    }
}

/// Computes [`entry_of`].
fn content_entry(file: &ContentFile, roots: &SiteRoots, i18n: &I18nConfig) -> (r: Result<
    ContentEntry,
    Failure,
>)
    ensures
        match r {
            Ok(e) => entry_of(*file, *roots, *i18n) == Ok::<EntryView, Seq<char>>(e@),
            Err(e) => entry_of(*file, *roots, *i18n) == Err::<EntryView, Seq<char>>(e.message@),
        },
{
    let output = match route::output_path_for(
        file.path.as_str(),
        roots.content_dir.as_str(),
        roots.output_dir.as_str(),
        as_opt_str(&file.front.slug),
        as_opt_str(&file.front.lang),
        i18n,
    ) {
        Ok(o) => o,
        Err(e) => {
            return Err(e);
        },
    };
    let url = page::url_of_page(
        output.as_str(),
        roots.output_dir.as_str(),
        roots.base_path.as_str(),
    );
    Ok(
        ContentEntry {
            title: frontmatter::page_title(&file.front, file.path.as_str()),
            url,
            date: text::copy_opt(&file.front.date),
            tags: list_or_empty(&file.front.tags),
            categories: list_or_empty(&file.front.categories),
        },
    )
}

/// The entries of a site, the latest first.
pub fn collect_content_entries(
    files: &Vec<ContentFile>,
    roots: &SiteRoots,
    i18n: &I18nConfig,
    include_drafts: bool,
    today: &str,
) -> (r: Result<Vec<ContentEntry>, Failure>)
    ensures
        entries_outcome(r) == (match entries_of(files@, *roots, *i18n, include_drafts, today@) {
            Ok(entries) => Ok(latest_first(entries)),
            Err(m) => Err(m),
        }),
{
    let mut out: Vec<ContentEntry> = Vec::new();
    let mut i: usize = 0;
    assert(files@.take(0) =~= Seq::empty());
    assert(order::views(out@) =~= Seq::empty());
    while i < files.len()
        invariant
            i <= files.len(),
            entries_of(files@.take(i as int), *roots, *i18n, include_drafts, today@) == Ok::<
                Seq<EntryView>,
                Seq<char>,
            >(order::views(out@)),
        decreases files.len() - i,
    {
        assert(files@.take(i + 1).drop_last() =~= files@.take(i as int));
        assert(files@.take(i + 1).last() == files@[i as int]);
        let file = &files[i];
        if fspath::extension_is(file.path.as_str(), "md") && frontmatter::should_render_content(
            &file.front,
            include_drafts,
            today,
        ) {
            match content_entry(file, roots, i18n) {
                Ok(e) => {
                    let ghost before = out@;
                    let ghost ev = e@;
                    out.push(e);
                    assert(order::views(out@) =~= order::views(before).push(ev));
                },
                Err(e) => {
                    proof {
                        lemma_entries_error(
                            files@,
                            *roots,
                            *i18n,
                            include_drafts,
                            today@,
                            i + 1,
                        );
                    }
                    return Err(e);
                },
            }
        }
        i += 1;
    }
    assert(files@.take(files.len() as int) =~= files@);
    Ok(order::sorted(out))
}

// ---------------------------------------------------------------------------
// The pages that list the entries.

/// A page that lists entries, before it is rendered.
#[derive(Debug)]
pub struct ListPage {
    pub path: String,
    pub title: String,
    pub body: String,
}

/// What such a page holds.
pub struct ListView {
    pub path: Seq<char>,
    pub title: Seq<char>,
    pub body: Seq<char>,
}

impl View for ListPage {
    type V = ListView;

    open spec fn view(&self) -> ListView {
        ListView { path: self.path@, title: self.title@, body: self.body@ }
    }
}

/// The list item of an entry.
pub open spec fn entry_line(e: EntryView) -> Seq<char> {
    "<li><a href=\""@ + e.url + "\">"@ + e.title + "</a></li>"@
}

/// The list items of several entries.
pub open spec fn entry_lines(s: Seq<EntryView>) -> Seq<char>
    decreases s.len(),
{
    if s.len() == 0 {
        Seq::empty()
    } else {
        entry_lines(s.drop_last()) + entry_line(s.last())
    }
}

/// A heading and a list of entries.
pub open spec fn list_body(heading: Seq<char>, s: Seq<EntryView>) -> Seq<char> {
    "<h1>"@ + heading + "</h1><ul>"@ + entry_lines(s) + "</ul>"@
}

/// How many entries one page of posts lists.
pub const POSTS_PER_PAGE: usize = 10;

/// How many pages of posts `n` entries need.
pub open spec fn posts_page_count(n: nat) -> nat {
    (n + 9) / 10
}

/// The entries on the page of posts with index `k`.
pub open spec fn posts_on_page(entries: Seq<EntryView>, k: int) -> Seq<EntryView> {
    entries.subrange(
        10 * k,
        if 10 * k + 10 < entries.len() {
            10 * k + 10
        } else {
            entries.len() as int
        },
    )
}

/// The directory of the page of posts with index `k`.
pub open spec fn posts_dir(output_dir: Seq<char>, k: int) -> Seq<char> {
    let posts = fspath::join(output_dir, "posts"@);
    if k == 0 {
        posts
    } else {
        fspath::join(fspath::join(posts, "page"@), text::decimal((k + 1) as nat))
    }
}

/// The page of posts with index `k`.
pub open spec fn posts_page(entries: Seq<EntryView>, output_dir: Seq<char>, k: int) -> ListView {
    ListView {
        path: fspath::join(posts_dir(output_dir, k), "index.html"@),
        title: "Posts"@,
        body: list_body("Posts"@, posts_on_page(entries, k)),
    }
}

/// All pages of posts.
pub open spec fn posts_pages(entries: Seq<EntryView>, output_dir: Seq<char>) -> Seq<ListView> {
    Seq::new(posts_page_count(entries.len()), |k: int| posts_page(entries, output_dir, k))
}

/// The groups with the entry `i` added to the group `name`.
pub open spec fn add_to_group(
    groups: Seq<(Seq<char>, Seq<usize>)>,
    name: Seq<char>,
    i: usize,
) -> Seq<(Seq<char>, Seq<usize>)> {
    order::put(groups, name, order::get(groups, name).unwrap_or(Seq::empty()).push(i))
}

/// The groups with the entry `i` added to all of `names`.
pub open spec fn add_to_groups(
    groups: Seq<(Seq<char>, Seq<usize>)>,
    names: Seq<Seq<char>>,
    i: usize,
) -> Seq<(Seq<char>, Seq<usize>)>
    decreases names.len(),
{
    if names.len() == 0 {
        groups
    } else {
        add_to_group(add_to_groups(groups, names.drop_last(), i), names.last(), i)
    }
}

/// The groups of entries, in the order of their names, where `names[i]` are the
/// names that the entry `i` gives.
pub open spec fn grouped(names: Seq<Seq<Seq<char>>>) -> Seq<(Seq<char>, Seq<usize>)>
    decreases names.len(),
{
    if names.len() == 0 {
        Seq::empty()
    } else {
        add_to_groups(grouped(names.drop_last()), names.last(), (names.len() - 1) as usize)
    }
}

/// The entries with these indices.
pub open spec fn entries_at(entries: Seq<EntryView>, ids: Seq<usize>) -> Seq<EntryView> {
    Seq::new(ids.len(), |k: int| entries[ids[k] as int])
}

/// The page of one group.
pub open spec fn group_page(
    entries: Seq<EntryView>,
    root: Seq<char>,
    heading: Seq<char>,
    name: Seq<char>,
    ids: Seq<usize>,
) -> ListView {
    let title = heading + ": "@ + name;
    ListView {
        path: fspath::join(fspath::join(root, html::slug(name)), "index.html"@),
        title,
        body: list_body(title, entries_at(entries, ids)),
    }
}

/// The pages of all groups.
pub open spec fn group_pages(
    entries: Seq<EntryView>,
    root: Seq<char>,
    heading: Seq<char>,
    groups: Seq<(Seq<char>, Seq<usize>)>,
) -> Seq<ListView> {
    Seq::new(
        groups.len(),
        |k: int| group_page(entries, root, heading, groups[k].0, groups[k].1),
    )
}

/// The tags of every entry.
pub open spec fn tags_of(entries: Seq<EntryView>) -> Seq<Seq<Seq<char>>> {
    Seq::new(entries.len(), |i: int| entries[i].tags)
}

/// The categories of every entry.
pub open spec fn categories_of(entries: Seq<EntryView>) -> Seq<Seq<Seq<char>>> {
    Seq::new(entries.len(), |i: int| entries[i].categories)
}

/// All pages that list entries: posts, tags, categories. A site without entries
/// has none.
pub open spec fn list_pages(entries: Seq<EntryView>, output_dir: Seq<char>) -> Seq<ListView> {
    if entries.len() == 0 {
        Seq::empty()
    } else {
        posts_pages(entries, output_dir) + group_pages(
            entries,
            fspath::join(output_dir, "tags"@),
            "Tags"@,
            grouped(tags_of(entries)),
        ) + group_pages(
            entries,
            fspath::join(output_dir, "categories"@),
            "Categories"@,
            grouped(categories_of(entries)),
        )
    }
}

/// Appends the list item of an entry.
fn push_entry_line(out: &mut String, e: &ContentEntry)
    ensures
        final(out)@ == old(out)@ + entry_line(e@),
{
    let ghost before = out@;
    out.append("<li><a href=\"");
    out.append(e.url.as_str());
    out.append("\">");
    out.append(e.title.as_str());
    out.append("</a></li>");
    assert(out@ =~= before + entry_line(e@));
}

/// The list of the entries from `a` up to `b`, with a heading.
fn list_range(heading: &str, entries: &Vec<ContentEntry>, a: usize, b: usize) -> (r: String)
    requires
        a <= b <= entries.len(),
    ensures
        r@ == list_body(heading@, order::views(entries@).subrange(a as int, b as int)),
{
    let ghost all = order::views(entries@).subrange(a as int, b as int);
    let mut out = copy_text("<h1>");
    out.append(heading);
    out.append("</h1><ul>");
    let ghost head = out@;
    let mut i: usize = a;
    assert(all.take(0) =~= Seq::empty());
    assert(head + entry_lines(all.take(0)) =~= head);
    while i < b
        invariant
            a <= i <= b <= entries.len(),
            all == order::views(entries@).subrange(a as int, b as int),
            out@ == head + entry_lines(all.take(i - a)),
        decreases b - i,
    {
        push_entry_line(&mut out, &entries[i]);
        assert(all.take(i + 1 - a).drop_last() =~= all.take(i - a));
        assert(all.take(i + 1 - a).last() == entries@[i as int]@);
        assert(head + (entry_lines(all.take(i - a)) + entry_line(entries@[i as int]@)) =~= out@);
        i += 1;
    }
    assert(all.take(b - a) =~= all);
    out.append("</ul>");
    out
}

/// The list of the entries with these indices, with a heading.
fn list_group(heading: &str, entries: &Vec<ContentEntry>, ids: &Vec<usize>) -> (r: String)
    requires
        forall|k: int| 0 <= k < ids@.len() ==> #[trigger] ids@[k] < entries@.len(),
    ensures
        r@ == list_body(heading@, entries_at(order::views(entries@), ids@)),
{
    let ghost all = entries_at(order::views(entries@), ids@);
    let mut out = copy_text("<h1>");
    out.append(heading);
    out.append("</h1><ul>");
    let ghost head = out@;
    let mut i: usize = 0;
    assert(all.take(0) =~= Seq::empty());
    assert(head + entry_lines(all.take(0)) =~= head);
    while i < ids.len()
        invariant
            i <= ids.len(),
            all == entries_at(order::views(entries@), ids@),
            forall|k: int| 0 <= k < ids@.len() ==> #[trigger] ids@[k] < entries@.len(),
            out@ == head + entry_lines(all.take(i as int)),
        decreases ids.len() - i,
    {
        assert(ids@[i as int] < entries@.len());
        push_entry_line(&mut out, &entries[ids[i]]);
        assert(all.take(i + 1).drop_last() =~= all.take(i as int));
        assert(all.take(i + 1).last() == entries@[ids@[i as int] as int]@);
        assert(head + (entry_lines(all.take(i as int)) + entry_line(
            entries@[ids@[i as int] as int]@,
        )) =~= out@);
        i += 1;
    }
    assert(all.take(ids.len() as int) =~= all);
    out.append("</ul>");
    out
}

/// Computes [`posts_pages`].
fn collect_posts_pages(entries: &Vec<ContentEntry>, output_dir: &str) -> (r: Vec<ListPage>)
    ensures
        order::views(r@) == posts_pages(order::views(entries@), output_dir@),
{
    let ghost all = order::views(entries@);
    let posts = fspath::path_join(output_dir, "posts");
    let mut out: Vec<ListPage> = Vec::new();
    let mut a: usize = 0;
    while a < entries.len()
        invariant
            a <= entries.len(),
            all == order::views(entries@),
            posts@ == fspath::join(output_dir@, "posts"@),
            a < entries.len() ==> a == 10 * out@.len(),
            a == entries.len() ==> out@.len() == posts_page_count(all.len()),
            out@.len() <= posts_page_count(all.len()),
            forall|k: int|
                0 <= k < out@.len() ==> (#[trigger] out@[k])@ == posts_page(all, output_dir@, k),
        decreases entries.len() - a,
    {
        let k: usize = out.len();
        let b: usize = if entries.len() - a > POSTS_PER_PAGE {
            a + POSTS_PER_PAGE
        } else {
            entries.len()
        };
        let dir = if k == 0 {
            copy_text(posts.as_str())
        } else {
            let pages = fspath::path_join(posts.as_str(), "page");
            let number = text::decimal_text(k as u128 + 1);
            fspath::path_join(pages.as_str(), number.as_str())
        };
        let body = list_range("Posts", entries, a, b);
        out.push(
            ListPage {
                path: fspath::path_join(dir.as_str(), "index.html"),
                title: copy_text("Posts"),
                body,
            },
        );
        a = b;
    }
    assert(order::views(out@) =~= posts_pages(all, output_dir@));
    out
}

/// Every index in the groups is below `n`.
pub open spec fn ids_below(groups: Seq<(Seq<char>, Seq<usize>)>, n: int) -> bool {
    forall|g: int, k: int|
        0 <= g < groups.len() && 0 <= k < (#[trigger] groups[g]).1.len()
            ==> #[trigger] groups[g].1[k] < n
}

/// What is found in a table is the value of one of its rows.
proof fn lemma_get_row(groups: Seq<(Seq<char>, Seq<usize>)>, name: Seq<char>)
    ensures
        order::get(groups, name) matches Some(ids) ==> exists|g: int|
            0 <= g < groups.len() && (#[trigger] groups[g]).1 == ids,
    decreases groups.len(),
{
    if groups.len() > 0 {
        if groups[0].0 == name {
            assert(groups[0].1 == order::get(groups, name).unwrap());
        } else {
            lemma_get_row(groups.skip(1), name);
            if order::get(groups, name) is Some {
                let ids = order::get(groups, name).unwrap();
                let g = choose|g: int|
                    0 <= g < groups.skip(1).len() && (#[trigger] groups.skip(1)[g]).1 == ids;
                assert(groups[g + 1].1 == ids);
            }
        }
    }
}

/// The rows of a table with one value set are its rows and that one.
proof fn lemma_put_rows(
    groups: Seq<(Seq<char>, Seq<usize>)>,
    name: Seq<char>,
    ids: Seq<usize>,
    n: int,
)
    requires
        ids_below(groups, n),
        forall|k: int| 0 <= k < ids.len() ==> #[trigger] ids[k] < n,
    ensures
        ids_below(order::put(groups, name, ids), n),
    decreases groups.len(),
{
    let r = order::put(groups, name, ids);
    if groups.len() == 0 || order::text_lt(name, groups[0].0) {
        assert forall|g: int, k: int|
            0 <= g < r.len() && 0 <= k < (#[trigger] r[g]).1.len() implies #[trigger] r[g].1[k]
            < n by {
            if g > 0 {
                assert(r[g] == groups[g - 1]);
            }
        }
    } else if groups[0].0 == name {
        assert forall|g: int, k: int|
            0 <= g < r.len() && 0 <= k < (#[trigger] r[g]).1.len() implies #[trigger] r[g].1[k]
            < n by {
            if g > 0 {
                assert(r[g] == groups[g]);
            }
        }
    } else {
        let t = groups.skip(1);
        assert forall|g: int, k: int|
            0 <= g < t.len() && 0 <= k < (#[trigger] t[g]).1.len() implies #[trigger] t[g].1[k]
            < n by {
            assert(t[g] == groups[g + 1]);
        }
        lemma_put_rows(t, name, ids, n);
        let inner = order::put(t, name, ids);
        assert forall|g: int, k: int|
            0 <= g < r.len() && 0 <= k < (#[trigger] r[g]).1.len() implies #[trigger] r[g].1[k]
            < n by {
            if g > 0 {
                assert(r[g] == inner[g - 1]);
            } else {
                assert(r[g] == groups[0]);
            }
        }
    }
}

/// Adds the entry `i` to all of `names`, as [`add_to_groups`] says.
fn put_in_groups(groups: &mut Vec<(String, Vec<usize>)>, names: &Vec<String>, i: usize, Ghost(n): Ghost<int>)
    requires
        order::keys_increase(order::rows(old(groups)@)),
        ids_below(order::rows(old(groups)@), n),
        i < n,
    ensures
        order::keys_increase(order::rows(final(groups)@)),
        ids_below(order::rows(final(groups)@), n),
        order::rows(final(groups)@) == add_to_groups(
            order::rows(old(groups)@),
            text::texts(names@),
            i,
        ),
{
    let ghost start = order::rows(groups@);
    let ghost all = text::texts(names@);
    let mut k: usize = 0;
    assert(all.take(0) =~= Seq::empty());
    while k < names.len()
        invariant
            k <= names.len(),
            all == text::texts(names@),
            order::keys_increase(order::rows(groups@)),
            ids_below(order::rows(groups@), n),
            i < n,
            order::rows(groups@) == add_to_groups(start, all.take(k as int), i),
        decreases names.len() - k,
    {
        assert(all.take(k + 1).drop_last() =~= all.take(k as int));
        assert(all.take(k + 1).last() == names@[k as int]@);
        let name = names[k].as_str();
        let ghost now = order::rows(groups@);
        proof {
            lemma_get_row(now, name@);
        }
        let mut ids: Vec<usize> = match order::find_row(groups, name) {
            Some(g) => copy_ids(&groups[g].1),
            None => Vec::new(),
        };
        ids.push(i);
        proof {
            assert(ids@ =~= order::get(now, name@).unwrap_or(Seq::empty()).push(i));
            lemma_put_rows(now, name@, ids@, n);
        }
        order::put_row(groups, name, ids);
        k += 1;
    }
    assert(all.take(names.len() as int) =~= all);
}

/// A copy of `v`.
fn copy_ids(v: &Vec<usize>) -> (r: Vec<usize>)
    ensures
        r@ == v@,
{
    let mut out: Vec<usize> = Vec::new();
    let mut i: usize = 0;
    while i < v.len()
        invariant
            i <= v.len(),
            out@ == v@.take(i as int),
        decreases v.len() - i,
    {
        out.push(v[i]);
        assert(v@.take(i + 1) =~= v@.take(i as int).push(v@[i as int]));
        i += 1;
    }
    assert(v@.take(v.len() as int) =~= v@);
    out
}

/// Which names of an entry are grouped.
#[derive(Debug, Clone, Copy, PartialEq, Eq, Structural)]
pub enum Taxonomy {
    Tags,
    Categories,
}

/// The names that every entry gives.
pub open spec fn names_of(entries: Seq<EntryView>, taxonomy: Taxonomy) -> Seq<Seq<Seq<char>>> {
    match taxonomy {
        Taxonomy::Tags => tags_of(entries),
        Taxonomy::Categories => categories_of(entries),
    }
}

/// Computes [`grouped`] of the names of a taxonomy.
fn group_entries(entries: &Vec<ContentEntry>, taxonomy: Taxonomy) -> (r: Vec<(String, Vec<usize>)>)
    ensures
        order::rows(r@) == grouped(names_of(order::views(entries@), taxonomy)),
        ids_below(order::rows(r@), entries@.len() as int),
{
    let ghost all = order::views(entries@);
    let ghost names = names_of(all, taxonomy);
    let mut groups: Vec<(String, Vec<usize>)> = Vec::new();
    let mut i: usize = 0;
    assert(names.take(0) =~= Seq::empty());
    assert(order::rows(groups@) =~= Seq::empty());
    while i < entries.len()
        invariant
            i <= entries.len(),
            all == order::views(entries@),
            names == names_of(all, taxonomy),
            order::keys_increase(order::rows(groups@)),
            ids_below(order::rows(groups@), entries@.len() as int),
            order::rows(groups@) == grouped(names.take(i as int)),
        decreases entries.len() - i,
    {
        assert(names.take(i + 1).drop_last() =~= names.take(i as int));
        assert(names.take(i + 1).last() == names[i as int]);
        assert(all[i as int] == entries@[i as int]@);
        match taxonomy {
            Taxonomy::Tags => {
                put_in_groups(&mut groups, &entries[i].tags, i, Ghost(entries@.len() as int));
            },
            Taxonomy::Categories => {
                put_in_groups(
                    &mut groups,
                    &entries[i].categories,
                    i,
                    Ghost(entries@.len() as int),
                );
            },
        }
        i += 1;
    }
    assert(names.take(entries.len() as int) =~= names);
    groups
}

/// Computes [`group_pages`] of a taxonomy.
fn collect_group_pages(
    entries: &Vec<ContentEntry>,
    root: &str,
    heading: &str,
    taxonomy: Taxonomy,
) -> (r: Vec<ListPage>)
    ensures
        order::views(r@) == group_pages(
            order::views(entries@),
            root@,
            heading@,
            grouped(names_of(order::views(entries@), taxonomy)),
        ),
{
    let ghost all = order::views(entries@);
    let groups = group_entries(entries, taxonomy);
    let ghost rows = order::rows(groups@);
    let mut out: Vec<ListPage> = Vec::new();
    let mut i: usize = 0;
    while i < groups.len()
        invariant
            i <= groups.len(),
            all == order::views(entries@),
            rows == order::rows(groups@),
            ids_below(rows, entries@.len() as int),
            out@.len() == i,
            forall|k: int|
                0 <= k < i ==> (#[trigger] out@[k])@ == group_page(
                    all,
                    root@,
                    heading@,
                    rows[k].0,
                    rows[k].1,
                ),
        decreases groups.len() - i,
    {
        assert(rows[i as int] == (groups@[i as int].0@, groups@[i as int].1@));
        assert forall|k: int| 0 <= k < groups@[i as int].1@.len() implies #[trigger] groups@[i as int].1@[k]
            < entries@.len() by {
            assert(rows[i as int].1[k] < entries@.len());
        }
        let name = groups[i].0.as_str();
        let mut title = copy_text(heading);
        title.append(": ");
        title.append(name);
        let body = list_group(title.as_str(), entries, &groups[i].1);
        let key = html::slugify(name);
        let dir = fspath::path_join(root, key.as_str());
        out.push(ListPage { path: fspath::path_join(dir.as_str(), "index.html"), title, body });
        i += 1;
    }
    assert(order::views(out@) =~= group_pages(all, root@, heading@, rows));
    out
}

/// Computes [`list_pages`].
pub fn collect_list_pages(entries: &Vec<ContentEntry>, output_dir: &str) -> (r: Vec<ListPage>)
    ensures
        order::views(r@) == list_pages(order::views(entries@), output_dir@),
{
    if entries.len() == 0 {
        let none: Vec<ListPage> = Vec::new();
        assert(order::views(none@) =~= Seq::empty());
        return none;
    }
    let mut out = collect_posts_pages(entries, output_dir);
    let ghost a = out@;
    let root = fspath::path_join(output_dir, "tags");
    let mut tags = collect_group_pages(entries, root.as_str(), "Tags", Taxonomy::Tags);
    let ghost b = tags@;
    let root = fspath::path_join(output_dir, "categories");
    let mut categories = collect_group_pages(
        entries,
        root.as_str(),
        "Categories",
        Taxonomy::Categories,
    );
    let ghost c = categories@;
    out.append(&mut tags);
    out.append(&mut categories);
    assert(order::views(out@) =~= order::views(a) + order::views(b) + order::views(c));
    out
}

// ---------------------------------------------------------------------------
// Rendering them.

/// A file to be written.
#[derive(Debug)]
pub struct OutputFile {
    pub path: String,
    pub content: String,
}

/// What a file to be written holds.
pub struct FileView {
    pub path: Seq<char>,
    pub content: Seq<char>,
}

impl View for OutputFile {
    type V = FileView;

    open spec fn view(&self) -> FileView {
        FileView { path: self.path@, content: self.content@ }
    }
}

/// The values that the template of a list page sees, as JSON.
pub open spec fn list_context(
    title: Seq<char>,
    body: Seq<char>,
    data: Seq<char>,
    base_path: Seq<char>,
) -> Seq<char> {
    json::json_object(
        seq![
            json::json_member("title"@, json::json_string(title)),
            json::json_member("content"@, json::json_string(body)),
            json::json_member("toc"@, json::json_string(""@)),
            json::json_member("data"@, data),
            json::json_member("images"@, "{\"list\":[]}"@),
            json::json_member("alternates"@, "[]"@),
            json::json_member("locale"@, json::json_string("und"@)),
            json::json_member(
                "seo"@,
                page::seo_json(title, route::based_url("/"@, base_path)),
            ),
            json::json_member("base_path"@, json::json_string(base_path)),
            json::json_member(
                "base_href_prefix"@,
                json::json_string(route::href_prefix(base_path)),
            ),
        ],
    )
}

/// The HTML of a list page: `page.html` rendered with its values, with its links
/// below the base path.
pub open spec fn list_html(
    set: Map<Seq<char>, Seq<char>>,
    title: Seq<char>,
    body: Seq<char>,
    data: Seq<char>,
    base_path: Seq<char>,
) -> Result<Seq<char>, Seq<char>> {
    match templates::render_outcome(
        templates::rendered_template(
            set,
            "page.html"@,
            list_context(title, body, data, base_path),
        ),
        "organization page"@,
    ) {
        Ok(html) => Ok(route::rewritten(html, base_path)),
        Err(m) => Err(m),
    }
}

/// Computes [`list_html`].
pub fn render_organization_page(
    set: &TemplateSet<'_>,
    data_json: &str,
    base_path: &str,
    title: &str,
    body_html: &str,
) -> (r: Result<String, Failure>)
    ensures
        failure::text_outcome(r) == list_html(
            set.templates(),
            title@,
            body_html@,
            data_json@,
            base_path@,
        ),
{
    let context = PageContext {
        title: copy_text(title),
        content: copy_text(body_html),
        toc: copy_text(""),
        data_json: copy_text(data_json),
        images_json: copy_text("{\"list\":[]}"),
        alternates_json: copy_text("[]"),
        locale: copy_text("und"),
        canonical: route::with_base_path("/", base_path),
        base_path: copy_text(base_path),
    };
    let context = page::context_text(&context);
    match templates::render_template(set, "page.html", context.as_str(), "organization page") {
        Ok(html) => Ok(
            route::rewrite_html_absolute_links_with_base_path(html.as_str(), base_path),
        ),
        Err(e) => Err(e),
    }
}

/// The files of the list pages, or why the first that cannot be rendered cannot.
pub open spec fn list_files(
    set: Map<Seq<char>, Seq<char>>,
    pages: Seq<ListView>,
    data: Seq<char>,
    base_path: Seq<char>,
) -> Result<Seq<FileView>, Seq<char>>
    decreases pages.len(),
{
    if pages.len() == 0 {
        Ok(Seq::empty())
    } else {
        match list_files(set, pages.drop_last(), data, base_path) {
            Err(m) => Err(m),
            Ok(rest) => match list_html(
                set,
                pages.last().title,
                pages.last().body,
                data,
                base_path,
            ) {
                Err(m) => Err(m),
                Ok(content) => Ok(rest.push(FileView { path: pages.last().path, content })),
            },
        }
    }
}

/// The first error is the error.
proof fn lemma_files_error(
    set: Map<Seq<char>, Seq<char>>,
    pages: Seq<ListView>,
    data: Seq<char>,
    base_path: Seq<char>,
    n: int,
)
    requires
        0 <= n <= pages.len(),
        list_files(set, pages.take(n), data, base_path) is Err,
    ensures
        list_files(set, pages, data, base_path) == list_files(
            set,
            pages.take(n),
            data,
            base_path,
        ),
    decreases pages.len() - n,
{
    if n == pages.len() {
        assert(pages.take(n) =~= pages);
    } else {
        assert(pages.take(n + 1).drop_last() =~= pages.take(n));
        lemma_files_error(set, pages, data, base_path, n + 1);
    }
}

/// Files, with errors given by their messages.
pub open spec fn files_outcome(r: Result<Vec<OutputFile>, Failure>) -> Result<
    Seq<FileView>,
    Seq<char>,
> {
    match r {
        Ok(v) => Ok(order::views(v@)),
        Err(e) => Err(e.message@),
    }
}

/// The files of all pages that list entries.
pub fn generate_content_organization_outputs(
    set: &TemplateSet<'_>,
    entries: &Vec<ContentEntry>,
    output_dir: &str,
    data_json: &str,
    base_path: &str,
) -> (r: Result<Vec<OutputFile>, Failure>)
    ensures
        files_outcome(r) == list_files(
            set.templates(),
            list_pages(order::views(entries@), output_dir@),
            data_json@,
            base_path@,
        ),
{
    let pages = collect_list_pages(entries, output_dir);
    let ghost all = order::views(pages@);
    let mut out: Vec<OutputFile> = Vec::new();
    let mut i: usize = 0;
    assert(all.take(0) =~= Seq::empty());
    assert(order::views(out@) =~= Seq::empty());
    while i < pages.len()
        invariant
            i <= pages.len(),
            all == order::views(pages@),
            all == list_pages(order::views(entries@), output_dir@),
            list_files(set.templates(), all.take(i as int), data_json@, base_path@) == Ok::<
                Seq<FileView>,
                Seq<char>,
            >(order::views(out@)),
        decreases pages.len() - i,
    {
        assert(all.take(i + 1).drop_last() =~= all.take(i as int));
        assert(all.take(i + 1).last() == pages@[i as int]@);
        match render_organization_page(
            set,
            data_json,
            base_path,
            pages[i].title.as_str(),
            pages[i].body.as_str(),
        ) {
            Ok(content) => {
                let ghost before = out@;
                let file = OutputFile { path: copy_text(pages[i].path.as_str()), content };
                let ghost fv = file@;
                out.push(file);
                assert(order::views(out@) =~= order::views(before).push(fv));
            },
            Err(e) => {
                proof {
                    lemma_files_error(set.templates(), all, data_json@, base_path@, i + 1);
                }
                return Err(e);
            },
        }
        i += 1;
    }
    assert(all.take(pages.len() as int) =~= all);
    Ok(out)
}

// ---------------------------------------------------------------------------
// Laws.

/// The lists of a site show its entries with the latest first, and show all of
/// them.
pub proof fn law_latest_first(entries: Seq<EntryView>)
    ensures
        latest_first(entries).to_multiset() == entries.to_multiset(),
        forall|i: int, j: int|
            0 <= i < j < latest_first(entries).len() ==> !date_lt(
                (#[trigger] latest_first(entries)[i]).date,
                (#[trigger] latest_first(entries)[j]).date,
            ),
{
    order::law_sort::<ContentEntry>(entries);
    let s = latest_first(entries);
    assert forall|i: int, j: int| 0 <= i < j < s.len() implies !date_lt(
        (#[trigger] s[i]).date,
        (#[trigger] s[j]).date,
    ) by {
        assert(ContentEntry::rank_le(s[i], s[j]));
    }
}

/// Every entry stands on one page of posts, at its place: the entry `i` is the
/// entry `i % 10` of the page `i / 10`. No page is empty or has more than ten.
pub proof fn law_posts_are_paginated(entries: Seq<EntryView>, i: int)
    requires
        0 <= i < entries.len(),
    ensures
        0 <= i / 10 < posts_page_count(entries.len()),
        0 <= i % 10 < posts_on_page(entries, i / 10).len() <= 10,
        posts_on_page(entries, i / 10)[i % 10] == entries[i],
{
    assert(10 * (i / 10) + i % 10 == i);
    assert(i / 10 <= (entries.len() - 1) / 10);
}

/// The group `name` holds the entry `j`.
pub open spec fn in_group(groups: Seq<(Seq<char>, Seq<usize>)>, name: Seq<char>, j: usize) -> bool {
    match order::get(groups, name) {
        Some(ids) => ids.contains(j),
        None => false,
    }
}

/// A name leads to a group exactly where an entry gives it, and the group holds
/// exactly the entries that give it.
pub proof fn law_groups_hold_their_entries(names: Seq<Seq<Seq<char>>>, name: Seq<char>, i: int)
    requires
        0 <= i < names.len() <= usize::MAX,
    ensures
        names[i].contains(name) <==> in_group(grouped(names), name, i as usize),
    decreases names.len(),
{
    let n = names.len() - 1;
    let rest = names.drop_last();
    lemma_groups_grow(grouped(rest), names.last(), n as usize, name, i as usize);
    if i < n {
        law_groups_hold_their_entries(rest, name, i);
        assert(rest[i] == names[i]);
    } else {
        lemma_ids_of_groups(rest, name);
    }
}

/// Adding the entry `i` to groups: a group holds `j` afterwards where it held it
/// before, or where `j` is `i` and the group was named.
proof fn lemma_groups_grow(
    groups: Seq<(Seq<char>, Seq<usize>)>,
    names: Seq<Seq<char>>,
    i: usize,
    name: Seq<char>,
    j: usize,
)
    ensures
        in_group(add_to_groups(groups, names, i), name, j) <==> (in_group(groups, name, j) || (j == i
            && names.contains(name))),
    decreases names.len(),
{
    if names.len() > 0 {
        let rest = names.drop_last();
        let before = add_to_groups(groups, rest, i);
        lemma_groups_grow(groups, rest, i, name, j);
        let ids = order::get(before, names.last()).unwrap_or(Seq::empty());
        order::law_get_after_put(before, names.last(), ids.push(i), name);
        if names.contains(name) && name != names.last() {
            let k = choose|k: int| 0 <= k < names.len() && names[k] == name;
            assert(rest[k] == name);
        }
        if rest.contains(name) {
            let k = choose|k: int| 0 <= k < rest.len() && rest[k] == name;
            assert(names[k] == name);
        }
        if name == names.last() {
            assert(names[names.len() - 1] == name);
            if ids.contains(j) {
                let k = choose|k: int| 0 <= k < ids.len() && ids[k] == j;
                assert(ids.push(i)[k] == j);
            }
            if j == i {
                assert(ids.push(i)[ids.len() as int] == j);
            }
            if ids.push(i).contains(j) && j != i {
                let k = choose|k: int| 0 <= k < ids.push(i).len() && ids.push(i)[k] == j;
                assert(ids[k] == j);
            }
        }
    }
}

/// The groups of `n` entries hold only indices below `n`.
proof fn lemma_ids_of_groups(names: Seq<Seq<Seq<char>>>, name: Seq<char>)
    requires
        names.len() <= usize::MAX,
    ensures
        forall|j: usize| j >= names.len() ==> !#[trigger] in_group(grouped(names), name, j),
    decreases names.len(),
{
    if names.len() > 0 {
        let rest = names.drop_last();
        lemma_ids_of_groups(rest, name);
        assert forall|j: usize| j >= names.len() implies !#[trigger] in_group(
            grouped(names),
            name,
            j,
        ) by {
            lemma_groups_grow(
                grouped(rest),
                names.last(),
                (names.len() - 1) as usize,
                name,
                j,
            );
        }
    }
}

/// What is listed was published: every entry comes from a page that is no draft
/// and whose date does not lie ahead, unless drafts are asked for.
pub proof fn law_entries_are_published(
    files: Seq<ContentFile>,
    roots: SiteRoots,
    i18n: I18nConfig,
    include_drafts: bool,
    today: Seq<char>,
    i: int,
)
    requires
        entries_of(files, roots, i18n, include_drafts, today) is Ok,
        0 <= i < entries_of(files, roots, i18n, include_drafts, today)->Ok_0.len(),
    ensures
        exists|k: int|
            0 <= k < files.len() && listed(#[trigger] files[k], include_drafts, today) && entry_of(
                files[k],
                roots,
                i18n,
            ) == Ok::<EntryView, Seq<char>>(
                entries_of(files, roots, i18n, include_drafts, today)->Ok_0[i],
            ),
    decreases files.len(),
{
    let rest = files.drop_last();
    let before = entries_of(rest, roots, i18n, include_drafts, today)->Ok_0;
    if i < before.len() {
        law_entries_are_published(rest, roots, i18n, include_drafts, today, i);
        let k = choose|k: int|
            0 <= k < rest.len() && listed(#[trigger] rest[k], include_drafts, today) && entry_of(
                rest[k],
                roots,
                i18n,
            ) == Ok::<EntryView, Seq<char>>(before[i]);
        assert(files[k] == rest[k]);
    } else {
        assert(listed(files[files.len() - 1], include_drafts, today));
    }
}

/// Every published page is listed.
pub proof fn law_published_pages_are_listed(
    files: Seq<ContentFile>,
    roots: SiteRoots,
    i18n: I18nConfig,
    include_drafts: bool,
    today: Seq<char>,
    k: int,
)
    requires
        entries_of(files, roots, i18n, include_drafts, today) is Ok,
        0 <= k < files.len(),
        listed(files[k], include_drafts, today),
    ensures
        entry_of(files[k], roots, i18n) matches Ok(entry) && entries_of(
            files,
            roots,
            i18n,
            include_drafts,
            today,
        )->Ok_0.contains(entry),
    decreases files.len(),
{
    let rest = files.drop_last();
    let before = entries_of(rest, roots, i18n, include_drafts, today)->Ok_0;
    let all = entries_of(files, roots, i18n, include_drafts, today)->Ok_0;
    if k < rest.len() {
        law_published_pages_are_listed(rest, roots, i18n, include_drafts, today, k);
        let entry = entry_of(files[k], roots, i18n)->Ok_0;
        let j = choose|j: int| 0 <= j < before.len() && before[j] == entry;
        assert(all[j] == entry);
    } else {
        assert(all[all.len() - 1] == entry_of(files[k], roots, i18n)->Ok_0);
    }
}

// ---------------------------------------------------------------------------
// What the lists show.

/// An entry has what its page says of itself: the title, the date, the tags and the
/// categories; and the URL of the file that the page is written to.
pub proof fn law_entry_is_its_page(file: ContentFile, roots: SiteRoots, i18n: I18nConfig)
    ensures
        entry_of(file, roots, i18n) matches Ok(e) ==> {
            &&& file.front.title matches Some(t) ==> e.title == t@
            &&& file.front.title is None ==> e.title == (match fspath::file_stem(file.path@) {
                Some(stem) => stem,
                None => "Untitled"@,
            })
            &&& file.front.date matches Some(d) ==> e.date == Some(d@)
            &&& file.front.date is None ==> e.date is None
            &&& file.front.tags matches Some(v) ==> e.tags == text::texts(v@)
            &&& file.front.tags is None ==> e.tags.len() == 0
            &&& file.front.categories matches Some(v) ==> e.categories == text::texts(v@)
            &&& file.front.categories is None ==> e.categories.len() == 0
            &&& route::output_path(
                file.path@,
                roots.content_dir@,
                roots.output_dir@,
                text::opt_text(file.front.slug),
                text::opt_text(file.front.lang),
                i18n,
            ) matches Ok(output) && e.url == page::page_url(
                output,
                roots.output_dir@,
                roots.base_path@,
            )
        },
{
}

/// The entries of a site are those of its published pages, in the order of the files
/// and each once.
pub proof fn law_entries_follow_their_files(
    files: Seq<ContentFile>,
    roots: SiteRoots,
    i18n: I18nConfig,
    include_drafts: bool,
    today: Seq<char>,
)
    ensures
        entries_of(files, roots, i18n, include_drafts, today) matches Ok(entries) ==> entries
            == files.filter(|f: ContentFile| listed(f, include_drafts, today)).map_values(
            |f: ContentFile| entry_of(f, roots, i18n)->Ok_0,
        ),
        entries_of(files, roots, i18n, include_drafts, today) is Ok <==> forall|k: int|
            0 <= k < files.len() && listed(#[trigger] files[k], include_drafts, today) ==> entry_of(
                files[k],
                roots,
                i18n,
            ) is Ok,
    decreases files.len(),
{
    reveal(Seq::filter);
    let keep = |f: ContentFile| listed(f, include_drafts, today);
    let entry = |f: ContentFile| entry_of(f, roots, i18n)->Ok_0;
    if files.len() > 0 {
        let front = files.drop_last();
        law_entries_follow_their_files(front, roots, i18n, include_drafts, today);
        let rest = front.filter(keep);
        assert(rest.push(files.last()).map_values(entry) =~= rest.map_values(entry).push(
            entry(files.last()),
        ));
        assert forall|k: int| 0 <= k < front.len() implies front[k] == #[trigger] files[k] by {}
        assert(files[files.len() - 1] == files.last());
        if forall|k: int|
            0 <= k < files.len() && listed(#[trigger] files[k], include_drafts, today) ==> entry_of(
                files[k],
                roots,
                i18n,
            ) is Ok {
            assert forall|k: int|
                0 <= k < front.len() && listed(
                    #[trigger] front[k],
                    include_drafts,
                    today,
                ) implies entry_of(front[k], roots, i18n) is Ok by {
                assert(files[k] == front[k]);
            }
        }
        if entries_of(files, roots, i18n, include_drafts, today) is Ok {
            assert forall|k: int|
                0 <= k < files.len() && listed(
                    #[trigger] files[k],
                    include_drafts,
                    today,
                ) implies entry_of(files[k], roots, i18n) is Ok by {
                if k < front.len() {
                    assert(front[k] == files[k]);
                }
            }
        }
    } else {
        assert(files.filter(keep).map_values(entry) =~= Seq::empty());
    }
}

/// A page is listed where it is a Markdown file and is published, or drafts are asked
/// for: a draft is not published, nor is a page whose date lies behind the day.
pub proof fn law_what_is_listed(file: ContentFile, today: Seq<char>)
    ensures
        listed(file, true, today) <==> fspath::extension(file.path@) == Some("md"@),
        listed(file, false, today) <==> fspath::extension(file.path@) == Some("md"@)
            && file.front.draft != Some(true) && (file.front.date matches Some(d)
            ==> !order::text_lt(
            today,
            if d@.len() < 10 {
                d@
            } else {
                d@.take(10)
            },
        )),
{
    match file.front.date {
        Some(d) => {
            assert(d@.take(d@.len() as int) =~= d@);
        },
        None => {},
    }
}

/// The list items of several entries: one for each, in order, that links to its URL
/// under its title.
pub proof fn law_list_items(s: Seq<EntryView>)
    ensures
        entry_lines(s) == Seq::new(
            s.len(),
            |i: int|
                "<li><a href=\""@ + s[i].url + "\">"@ + s[i].title + "</a></li>"@,
        ).flatten(),
    decreases s.len(),
{
    let lines = Seq::new(
        s.len(),
        |i: int| "<li><a href=\""@ + s[i].url + "\">"@ + s[i].title + "</a></li>"@,
    );
    lines.lemma_flatten_and_flatten_alt_are_equivalent();
    if s.len() > 0 {
        let front = s.drop_last();
        law_list_items(front);
        let rest = Seq::new(
            front.len(),
            |i: int|
                "<li><a href=\""@ + front[i].url + "\">"@ + front[i].title + "</a></li>"@,
        );
        rest.lemma_flatten_and_flatten_alt_are_equivalent();
        assert(lines.drop_last() =~= rest);
    }
}

proof fn lemma_lines_append(a: Seq<EntryView>, b: Seq<EntryView>)
    ensures
        entry_lines(a + b) == entry_lines(a) + entry_lines(b),
    decreases b.len(),
{
    if b.len() == 0 {
        assert(a + b =~= a);
        assert(entry_lines(a) + entry_lines(b) =~= entry_lines(a));
    } else {
        lemma_lines_append(a, b.drop_last());
        assert((a + b).drop_last() =~= a + b.drop_last());
        assert((a + b).last() == b.last());
        assert(entry_lines(a + b) =~= entry_lines(a) + entry_lines(b));
    }
}

/// The page of posts with index `k` lists the entries from `10 * k` on, at most ten of
/// them, in order, each with its URL and its title. The first page stands in `posts`,
/// the others in `posts/page/` under their number.
pub proof fn law_posts_page_lists_its_entries(
    entries: Seq<EntryView>,
    output_dir: Seq<char>,
    k: int,
)
    requires
        0 <= k < posts_pages(entries, output_dir).len(),
    ensures
        ({
            let page = posts_pages(entries, output_dir)[k];
            let n = if entries.len() - 10 * k < 10 {
                entries.len() - 10 * k
            } else {
                10
            };
            let posts = fspath::join(output_dir, "posts"@);
            &&& 0 < n
            &&& page.title == "Posts"@
            &&& page.body == "<h1>Posts</h1><ul>"@ + Seq::new(
                n as nat,
                |j: int|
                    "<li><a href=\""@ + entries[10 * k + j].url + "\">"@ + entries[10 * k
                        + j].title + "</a></li>"@,
            ).flatten() + "</ul>"@
            &&& k == 0 ==> page.path == fspath::join(posts, "index.html"@)
            &&& k > 0 ==> page.path == fspath::join(
                fspath::join(fspath::join(posts, "page"@), text::decimal((k + 1) as nat)),
                "index.html"@,
            )
        }),
        10 * (posts_pages(entries, output_dir).len() - 1) < entries.len() <= 10 * posts_pages(
            entries,
            output_dir,
        ).len(),
{
    let shown = posts_on_page(entries, k);
    law_list_items(shown);
    let n = if entries.len() - 10 * k < 10 {
        entries.len() - 10 * k
    } else {
        10
    };
    assert(shown.len() == n);
    assert(Seq::new(
        shown.len(),
        |i: int| "<li><a href=\""@ + shown[i].url + "\">"@ + shown[i].title + "</a></li>"@,
    ) =~= Seq::new(
        n as nat,
        |j: int|
            "<li><a href=\""@ + entries[10 * k + j].url + "\">"@ + entries[10 * k + j].title
                + "</a></li>"@,
    ));
    reveal_strlit("<h1>");
    reveal_strlit("Posts");
    reveal_strlit("</h1><ul>");
    reveal_strlit("<h1>Posts</h1><ul>");
    assert("<h1>"@ + "Posts"@ + "</h1><ul>"@ =~= "<h1>Posts</h1><ul>"@);
}

/// How often `name` stands among `names`.
pub open spec fn times(names: Seq<Seq<char>>, name: Seq<char>) -> nat {
    names.filter(|x: Seq<char>| x == name).len()
}

/// The indices that a group has, or none.
spec fn ids_in(groups: Seq<(Seq<char>, Seq<usize>)>, name: Seq<char>) -> Seq<usize> {
    order::get(groups, name).unwrap_or(Seq::empty())
}

proof fn lemma_add_ids(
    groups: Seq<(Seq<char>, Seq<usize>)>,
    names: Seq<Seq<char>>,
    i: usize,
    name: Seq<char>,
)
    ensures
        ids_in(add_to_groups(groups, names, i), name) == ids_in(groups, name) + Seq::new(
            times(names, name),
            |j: int| i,
        ),
    decreases names.len(),
{
    reveal(Seq::filter);
    let now = ids_in(add_to_groups(groups, names, i), name);
    if names.len() == 0 {
        assert(now =~= ids_in(groups, name) + Seq::new(times(names, name), |j: int| i));
    } else {
        let front = names.drop_last();
        let before = add_to_groups(groups, front, i);
        lemma_add_ids(groups, front, i, name);
        let ids = order::get(before, names.last()).unwrap_or(Seq::empty());
        order::law_get_after_put(before, names.last(), ids.push(i), name);
        assert(now =~= ids_in(groups, name) + Seq::new(times(names, name), |j: int| i));
    }
}

/// The lines of the entries that give a name, each as often as it gives it.
pub open spec fn lines_of_name(
    entries: Seq<EntryView>,
    names: Seq<Seq<Seq<char>>>,
    name: Seq<char>,
) -> Seq<Seq<char>> {
    Seq::new(
        entries.len(),
        |i: int|
            Seq::new(
                times(names[i], name),
                |j: int|
                    "<li><a href=\""@ + entries[i].url + "\">"@ + entries[i].title + "</a></li>"@,
            ).flatten(),
    )
}

proof fn lemma_group_lines(
    entries: Seq<EntryView>,
    names: Seq<Seq<Seq<char>>>,
    n: int,
    name: Seq<char>,
)
    requires
        names.len() == entries.len(),
        0 <= n <= entries.len() <= usize::MAX,
    ensures
        entry_lines(entries_at(entries, ids_in(grouped(names.take(n)), name))) == lines_of_name(
            entries,
            names,
            name,
        ).take(n).flatten(),
    decreases n,
{
    let lines = lines_of_name(entries, names, name);
    let part = lines.take(n);
    part.lemma_flatten_and_flatten_alt_are_equivalent();
    let ids = ids_in(grouped(names.take(n)), name);
    if n == 0 {
        assert(names.take(0) =~= Seq::empty());
        assert(entries_at(entries, ids) =~= Seq::empty());
        assert(part =~= Seq::empty());
    } else {
        let m = n - 1;
        lemma_group_lines(entries, names, m, name);
        let before = lines.take(m);
        before.lemma_flatten_and_flatten_alt_are_equivalent();
        assert(part.drop_last() =~= before);
        assert(names.take(n).drop_last() =~= names.take(m));
        assert(names.take(n).last() == names[m]);
        lemma_add_ids(grouped(names.take(m)), names[m], m as usize, name);
        let old_ids = ids_in(grouped(names.take(m)), name);
        let c = times(names[m], name);
        let more = Seq::new(c, |j: int| m as usize);
        assert(ids == old_ids + more);
        let shown = Seq::new(c, |j: int| entries[m]);
        assert(entries_at(entries, ids) =~= entries_at(entries, old_ids) + shown);
        lemma_lines_append(entries_at(entries, old_ids), shown);
        law_list_items(shown);
        assert(Seq::new(
            shown.len(),
            |i: int| "<li><a href=\""@ + shown[i].url + "\">"@ + shown[i].title + "</a></li>"@,
        ) =~= Seq::new(
            c,
            |j: int|
                "<li><a href=\""@ + entries[m].url + "\">"@ + entries[m].title + "</a></li>"@,
        ));
        assert(part.last() == entry_lines(shown));
    }
}

proof fn lemma_groups_ordered(names: Seq<Seq<Seq<char>>>)
    ensures
        order::keys_increase(grouped(names)),
    decreases names.len(),
{
    if names.len() > 0 {
        lemma_groups_ordered(names.drop_last());
        lemma_add_ordered(
            grouped(names.drop_last()),
            names.last(),
            (names.len() - 1) as usize,
        );
    }
}

proof fn lemma_add_ordered(
    groups: Seq<(Seq<char>, Seq<usize>)>,
    names: Seq<Seq<char>>,
    i: usize,
)
    requires
        order::keys_increase(groups),
    ensures
        order::keys_increase(add_to_groups(groups, names, i)),
    decreases names.len(),
{
    if names.len() > 0 {
        lemma_add_ordered(groups, names.drop_last(), i);
        let before = add_to_groups(groups, names.drop_last(), i);
        let ids = order::get(before, names.last()).unwrap_or(Seq::empty());
        order::law_put_keeps_order(before, names.last(), ids.push(i));
    }
}

/// The page of a group: it lists the entries that give the name of the group, and no
/// others, in the order of the entries, each with its URL and its title. An entry that
/// gives the name more than once is listed as often.
proof fn lemma_group_page(
    entries: Seq<EntryView>,
    names: Seq<Seq<Seq<char>>>,
    root: Seq<char>,
    heading: Seq<char>,
    k: int,
)
    requires
        names.len() == entries.len(),
        entries.len() <= usize::MAX,
        0 <= k < grouped(names).len(),
    ensures
        ({
            let name = grouped(names)[k].0;
            let page = group_pages(entries, root, heading, grouped(names))[k];
            &&& page.title == heading + ": "@ + name
            &&& page.path == fspath::join(fspath::join(root, html::slug(name)), "index.html"@)
            &&& page.body == "<h1>"@ + (heading + ": "@ + name) + "</h1><ul>"@ + lines_of_name(
                entries,
                names,
                name,
            ).flatten() + "</ul>"@
        }),
{
    let groups = grouped(names);
    let name = groups[k].0;
    lemma_groups_ordered(names);
    order::law_rows_are_found(groups, name);
    assert(ids_in(groups, name) == groups[k].1);
    lemma_group_lines(entries, names, entries.len() as int, name);
    assert(names.take(names.len() as int) =~= names);
    let lines = lines_of_name(entries, names, name);
    assert(lines.take(entries.len() as int) =~= lines);
}

/// There is one page for each tag that an entry has, and the same for categories: it
/// lists exactly the entries with that tag, in the order of the entries, each with its
/// URL and its title.
pub proof fn law_tag_pages_list_their_entries(
    entries: Seq<EntryView>,
    output_dir: Seq<char>,
    k: int,
)
    requires
        entries.len() <= usize::MAX,
    ensures
        0 <= k < grouped(tags_of(entries)).len() ==> {
            let tag = grouped(tags_of(entries))[k].0;
            let page = group_pages(
                entries,
                fspath::join(output_dir, "tags"@),
                "Tags"@,
                grouped(tags_of(entries)),
            )[k];
            &&& page.title == "Tags"@ + ": "@ + tag
            &&& page.path == fspath::join(
                fspath::join(fspath::join(output_dir, "tags"@), html::slug(tag)),
                "index.html"@,
            )
            &&& page.body == "<h1>"@ + ("Tags"@ + ": "@ + tag) + "</h1><ul>"@ + Seq::new(
                entries.len(),
                |i: int|
                    Seq::new(
                        times(entries[i].tags, tag),
                        |j: int|
                            "<li><a href=\""@ + entries[i].url + "\">"@ + entries[i].title
                                + "</a></li>"@,
                    ).flatten(),
            ).flatten() + "</ul>"@
        },
        0 <= k < grouped(categories_of(entries)).len() ==> {
            let name = grouped(categories_of(entries))[k].0;
            let page = group_pages(
                entries,
                fspath::join(output_dir, "categories"@),
                "Categories"@,
                grouped(categories_of(entries)),
            )[k];
            &&& page.title == "Categories"@ + ": "@ + name
            &&& page.path == fspath::join(
                fspath::join(fspath::join(output_dir, "categories"@), html::slug(name)),
                "index.html"@,
            )
            &&& page.body == "<h1>"@ + ("Categories"@ + ": "@ + name) + "</h1><ul>"@ + Seq::new(
                entries.len(),
                |i: int|
                    Seq::new(
                        times(entries[i].categories, name),
                        |j: int|
                            "<li><a href=\""@ + entries[i].url + "\">"@ + entries[i].title
                                + "</a></li>"@,
                    ).flatten(),
            ).flatten() + "</ul>"@
        },
{
    if 0 <= k < grouped(tags_of(entries)).len() {
        let tag = grouped(tags_of(entries))[k].0;
        lemma_group_page(
            entries,
            tags_of(entries),
            fspath::join(output_dir, "tags"@),
            "Tags"@,
            k,
        );
        let lines = lines_of_name(entries, tags_of(entries), tag);
        let want = Seq::new(
            entries.len(),
            |i: int|
                Seq::new(
                    times(entries[i].tags, tag),
                    |j: int|
                        "<li><a href=\""@ + entries[i].url + "\">"@ + entries[i].title
                            + "</a></li>"@,
                ).flatten(),
        );
        assert forall|i: int| 0 <= i < entries.len() implies #[trigger] lines[i] == want[i] by {
            let c = times(entries[i].tags, tag);
            let line = "<li><a href=\""@ + entries[i].url + "\">"@ + entries[i].title
                + "</a></li>"@;
            assert(Seq::new(
                c,
                |j: int|
                    "<li><a href=\""@ + entries[i].url + "\">"@ + entries[i].title
                        + "</a></li>"@,
            ) =~= Seq::new(c, |j: int| line));
        }
        assert(lines =~= want);
    }
    if 0 <= k < grouped(categories_of(entries)).len() {
        let name = grouped(categories_of(entries))[k].0;
        lemma_group_page(
            entries,
            categories_of(entries),
            fspath::join(output_dir, "categories"@),
            "Categories"@,
            k,
        );
        let lines = lines_of_name(entries, categories_of(entries), name);
        let want = Seq::new(
            entries.len(),
            |i: int|
                Seq::new(
                    times(entries[i].categories, name),
                    |j: int|
                        "<li><a href=\""@ + entries[i].url + "\">"@ + entries[i].title
                            + "</a></li>"@,
                ).flatten(),
        );
        assert forall|i: int| 0 <= i < entries.len() implies #[trigger] lines[i] == want[i] by {
            let c = times(entries[i].categories, name);
            let line = "<li><a href=\""@ + entries[i].url + "\">"@ + entries[i].title
                + "</a></li>"@;
            assert(Seq::new(
                c,
                |j: int|
                    "<li><a href=\""@ + entries[i].url + "\">"@ + entries[i].title
                        + "</a></li>"@,
            ) =~= Seq::new(c, |j: int| line));
        }
        assert(lines =~= want);
    }
}

/// `e` is one of the entries that give the name.
pub open spec fn shows_one_of(
    entries: Seq<EntryView>,
    names: Seq<Seq<Seq<char>>>,
    name: Seq<char>,
    e: EntryView,
) -> bool {
    exists|i: int|
        #![trigger entries[i]]
        0 <= i < entries.len() && e == entries[i] && names[i].contains(name)
}

/// The entries that a group shows give its name, and every entry that gives it is
/// shown.
pub proof fn law_groups_show_who_names_them(
    entries: Seq<EntryView>,
    names: Seq<Seq<Seq<char>>>,
    k: int,
)
    requires
        names.len() == entries.len(),
        entries.len() <= usize::MAX,
        0 <= k < grouped(names).len(),
    ensures
        entries_at(entries, grouped(names)[k].1).len() == grouped(names)[k].1.len(),
        forall|j: int|
            0 <= j < grouped(names)[k].1.len() ==> shows_one_of(
                entries,
                names,
                grouped(names)[k].0,
                #[trigger] entries_at(entries, grouped(names)[k].1)[j],
            ),
        forall|i: int|
            #![trigger entries[i]]
            0 <= i < entries.len() && names[i].contains(grouped(names)[k].0) ==> entries_at(
                entries,
                grouped(names)[k].1,
            ).contains(entries[i]),
{
    let groups = grouped(names);
    let name = groups[k].0;
    let ids = groups[k].1;
    let shown = entries_at(entries, ids);
    lemma_groups_ordered(names);
    order::law_rows_are_found(groups, name);
    lemma_ids_of_groups(names, name);
    assert forall|j: int| 0 <= j < ids.len() implies shows_one_of(
        entries,
        names,
        name,
        #[trigger] shown[j],
    ) by {
        let i = ids[j] as int;
        assert(ids.contains(ids[j]));
        assert(in_group(groups, name, ids[j]));
        assert(i < names.len());
        law_groups_hold_their_entries(names, name, i);
        assert(shown[j] == entries[i]);
    }
    assert forall|i: int|
        #![trigger entries[i]]
        0 <= i < entries.len() && names[i].contains(name) implies shown.contains(entries[i]) by {
        law_groups_hold_their_entries(names, name, i);
        let j = choose|j: int| 0 <= j < ids.len() && ids[j] == i as usize;
        assert(shown[j] == entries[i]);
    }
}

/// A site with entries has its pages of posts, then one page for each tag, then one for
/// each category; a site without entries has none. A name has a page exactly where
/// some entry gives it, and no name has two.
pub proof fn law_lists_of_a_site(entries: Seq<EntryView>, output_dir: Seq<char>, name: Seq<char>)
    requires
        entries.len() <= usize::MAX,
    ensures
        entries.len() == 0 ==> list_pages(entries, output_dir).len() == 0,
        entries.len() > 0 ==> list_pages(entries, output_dir) == posts_pages(entries, output_dir)
            + group_pages(
            entries,
            fspath::join(output_dir, "tags"@),
            "Tags"@,
            grouped(tags_of(entries)),
        ) + group_pages(
            entries,
            fspath::join(output_dir, "categories"@),
            "Categories"@,
            grouped(categories_of(entries)),
        ),
        (exists|k: int|
            0 <= k < grouped(tags_of(entries)).len() && (#[trigger] grouped(tags_of(entries))[k]).0
                == name) <==> exists|i: int|
            0 <= i < entries.len() && (#[trigger] entries[i]).tags.contains(name),
        (exists|k: int|
            0 <= k < grouped(categories_of(entries)).len() && (#[trigger] grouped(
                categories_of(entries),
            )[k]).0 == name) <==> exists|i: int|
            0 <= i < entries.len() && (#[trigger] entries[i]).categories.contains(name),
        order::keys_increase(grouped(tags_of(entries))),
        order::keys_increase(grouped(categories_of(entries))),
{
    lemma_groups_ordered(tags_of(entries));
    lemma_groups_ordered(categories_of(entries));
    lemma_named_groups(tags_of(entries), name);
    lemma_named_groups(categories_of(entries), name);
    let t = tags_of(entries);
    let c = categories_of(entries);
    if exists|i: int| 0 <= i < t.len() && (#[trigger] t[i]).contains(name) {
        let i = choose|i: int| 0 <= i < t.len() && (#[trigger] t[i]).contains(name);
        assert(entries[i].tags.contains(name));
    }
    if exists|i: int| 0 <= i < entries.len() && (#[trigger] entries[i]).tags.contains(name) {
        let i = choose|i: int|
            0 <= i < entries.len() && (#[trigger] entries[i]).tags.contains(name);
        assert(t[i].contains(name));
    }
    if exists|i: int| 0 <= i < c.len() && (#[trigger] c[i]).contains(name) {
        let i = choose|i: int| 0 <= i < c.len() && (#[trigger] c[i]).contains(name);
        assert(entries[i].categories.contains(name));
    }
    if exists|i: int| 0 <= i < entries.len() && (#[trigger] entries[i]).categories.contains(name) {
        let i = choose|i: int|
            0 <= i < entries.len() && (#[trigger] entries[i]).categories.contains(name);
        assert(c[i].contains(name));
    }
}

proof fn lemma_named_groups(names: Seq<Seq<Seq<char>>>, name: Seq<char>)
    requires
        names.len() <= usize::MAX,
    ensures
        (exists|k: int| 0 <= k < grouped(names).len() && (#[trigger] grouped(names)[k]).0 == name)
            <==> exists|i: int| 0 <= i < names.len() && (#[trigger] names[i]).contains(name),
{
    let groups = grouped(names);
    lemma_groups_ordered(names);
    order::law_rows_are_found(groups, name);
    lemma_nonempty_groups(names, name);
    if exists|k: int| 0 <= k < groups.len() && (#[trigger] groups[k]).0 == name {
        let k = choose|k: int| 0 <= k < groups.len() && (#[trigger] groups[k]).0 == name;
        let ids = groups[k].1;
        assert(ids.contains(ids[0]));
        assert(in_group(groups, name, ids[0]));
        lemma_ids_of_groups(names, name);
        law_groups_hold_their_entries(names, name, ids[0] as int);
        assert(names[ids[0] as int].contains(name));
    }
    if exists|i: int| 0 <= i < names.len() && (#[trigger] names[i]).contains(name) {
        let i = choose|i: int| 0 <= i < names.len() && (#[trigger] names[i]).contains(name);
        law_groups_hold_their_entries(names, name, i);
        let v = order::get(groups, name).unwrap();
        let k = choose|k: int| 0 <= k < groups.len() && #[trigger] groups[k] == (name, v);
        assert(groups[k].0 == name);
    }
}

proof fn lemma_nonempty_groups(names: Seq<Seq<Seq<char>>>, name: Seq<char>)
    ensures
        order::get(grouped(names), name) matches Some(ids) ==> ids.len() > 0,
    decreases names.len(),
{
    if names.len() > 0 {
        lemma_nonempty_groups(names.drop_last(), name);
        lemma_nonempty_added(
            grouped(names.drop_last()),
            names.last(),
            (names.len() - 1) as usize,
            name,
        );
    }
}

proof fn lemma_nonempty_added(
    groups: Seq<(Seq<char>, Seq<usize>)>,
    names: Seq<Seq<char>>,
    i: usize,
    name: Seq<char>,
)
    requires
        order::get(groups, name) matches Some(ids) ==> ids.len() > 0,
    ensures
        order::get(add_to_groups(groups, names, i), name) matches Some(ids) ==> ids.len() > 0,
    decreases names.len(),
{
    if names.len() > 0 {
        lemma_nonempty_added(groups, names.drop_last(), i, name);
        let before = add_to_groups(groups, names.drop_last(), i);
        let ids = order::get(before, names.last()).unwrap_or(Seq::empty());
        order::law_get_after_put(before, names.last(), ids.push(i), name);
    }
}

/// Every list page becomes one file at its path, in order: `page.html` rendered with
/// the title and the body of the page, its links below the base path. The first that
/// cannot be rendered gives the error.
pub proof fn law_list_pages_are_rendered(
    set: Map<Seq<char>, Seq<char>>,
    pages: Seq<ListView>,
    data: Seq<char>,
    base_path: Seq<char>,
)
    ensures
        list_files(set, pages, data, base_path) matches Ok(files) ==> files.len() == pages.len() && (
        forall|k: int|
            0 <= k < pages.len() ==> (#[trigger] files[k]).path == pages[k].path && (
            templates::rendered_template(
                set,
                "page.html"@,
                list_context(pages[k].title, pages[k].body, data, base_path),
            ) matches Ok(html) && files[k].content == route::rewritten(html, base_path))),
        list_files(set, pages, data, base_path) is Ok <==> forall|k: int|
            0 <= k < pages.len() ==> templates::rendered_template(
                set,
                "page.html"@,
                list_context((#[trigger] pages[k]).title, pages[k].body, data, base_path),
            ) is Ok,
    decreases pages.len(),
{
    if pages.len() > 0 {
        let front = pages.drop_last();
        law_list_pages_are_rendered(set, front, data, base_path);
        assert forall|k: int| 0 <= k < front.len() implies front[k] == #[trigger] pages[k] by {}
        assert(pages[pages.len() - 1] == pages.last());
        match list_files(set, pages, data, base_path) {
            Ok(files) => {
                let before = list_files(set, front, data, base_path)->Ok_0;
                assert forall|k: int| 0 <= k < pages.len() implies (#[trigger] files[k]).path
                    == pages[k].path && (templates::rendered_template(
                    set,
                    "page.html"@,
                    list_context(pages[k].title, pages[k].body, data, base_path),
                ) matches Ok(html) && files[k].content == route::rewritten(html, base_path)) by {
                    if k < front.len() {
                        assert(files[k] == before[k]);
                        assert(front[k] == pages[k]);
                    }
                }
                assert forall|k: int| 0 <= k < pages.len() implies templates::rendered_template(
                    set,
                    "page.html"@,
                    list_context((#[trigger] pages[k]).title, pages[k].body, data, base_path),
                ) is Ok by {
                    assert(files[k].path == pages[k].path);
                }
            },
            Err(_) => {
                if forall|k: int|
                    0 <= k < pages.len() ==> templates::rendered_template(
                        set,
                        "page.html"@,
                        list_context((#[trigger] pages[k]).title, pages[k].body, data, base_path),
                    ) is Ok {
                    assert forall|k: int| 0 <= k < front.len() implies templates::rendered_template(
                        set,
                        "page.html"@,
                        list_context((#[trigger] front[k]).title, front[k].body, data, base_path),
                    ) is Ok by {
                        assert(pages[k] == front[k]);
                    }
                }
            },
        }
    }
}

/// The template of a list page sees its title and its body, and the data of the site.
pub proof fn law_list_context_has_its_values(
    title: Seq<char>,
    body: Seq<char>,
    data: Seq<char>,
    base_path: Seq<char>,
)
    ensures
        ({
            let c = list_context(title, body, data, base_path);
            &&& json::has_member(c, "title"@, json::json_string(title))
            &&& json::has_member(c, "content"@, json::json_string(body))
            &&& json::has_member(c, "toc"@, json::json_string(""@))
            &&& json::has_member(c, "data"@, data)
            &&& json::has_member(c, "images"@, "{\"list\":[]}"@)
            &&& json::has_member(c, "alternates"@, "[]"@)
            &&& json::has_member(c, "locale"@, json::json_string("und"@))
            &&& json::has_member(c, "base_path"@, json::json_string(base_path))
            &&& base_path == "/"@ ==> json::has_member(
                c,
                "base_href_prefix"@,
                json::json_string(""@),
            )
            &&& base_path != "/"@ ==> json::has_member(
                c,
                "base_href_prefix"@,
                json::json_string(base_path),
            )
        }),
{
    let items = seq![
        json::json_member("title"@, json::json_string(title)),
        json::json_member("content"@, json::json_string(body)),
        json::json_member("toc"@, json::json_string(""@)),
        json::json_member("data"@, data),
        json::json_member("images"@, "{\"list\":[]}"@),
        json::json_member("alternates"@, "[]"@),
        json::json_member("locale"@, json::json_string("und"@)),
        json::json_member("seo"@, page::seo_json(title, route::based_url("/"@, base_path))),
        json::json_member("base_path"@, json::json_string(base_path)),
        json::json_member("base_href_prefix"@, json::json_string(route::href_prefix(base_path))),
    ];
    json::law_object_has_its_members(items, 0, "title"@, json::json_string(title));
    json::law_object_has_its_members(items, 1, "content"@, json::json_string(body));
    json::law_object_has_its_members(items, 2, "toc"@, json::json_string(""@));
    json::law_object_has_its_members(items, 3, "data"@, data);
    json::law_object_has_its_members(items, 4, "images"@, "{\"list\":[]}"@);
    json::law_object_has_its_members(items, 5, "alternates"@, "[]"@);
    json::law_object_has_its_members(items, 6, "locale"@, json::json_string("und"@));
    json::law_object_has_its_members(items, 8, "base_path"@, json::json_string(base_path));
    json::law_object_has_its_members(
        items,
        9,
        "base_href_prefix"@,
        json::json_string(route::href_prefix(base_path)),
    );
}

/// Entries of one date keep the order in which they came.
pub proof fn law_latest_first_is_stable(entries: Seq<EntryView>, e: EntryView)
    ensures
        latest_first(entries).filter(
            |x: EntryView| !date_lt(e.date, x.date) && !date_lt(x.date, e.date),
        ) == entries.filter(|x: EntryView| !date_lt(e.date, x.date) && !date_lt(x.date, e.date)),
{
    order::law_sort_stable::<ContentEntry>(entries, e);
    let p = |y: EntryView| ContentEntry::rank_le(e, y) && ContentEntry::rank_le(y, e);
    let q = |x: EntryView| !date_lt(e.date, x.date) && !date_lt(x.date, e.date);
    assert(p =~= q);
}

/// Later dates come first in the order of their texts, and entries without a date last.
pub proof fn law_dates(a: Seq<char>, b: Seq<char>)
    ensures
        date_lt(None, Some(a)),
        !date_lt(Some(a), None),
        !date_lt(None, None),
        date_lt(Some(a), Some(b)) <==> order::text_lt(a, b),
{
}

} // verus!
