//! What search engines and feed readers get: sitemaps, the feed, `robots.txt`.
use vstd::prelude::*;
use vstd::string::*;

use crate::fspath;
use crate::order;
use crate::organization::{ContentEntry, EntryView, FileView, OutputFile};
use crate::route;
use crate::text;
use crate::text::copy_text;

verus! {

/// How many entries one sitemap lists.
pub const SITEMAP_CHUNK_SIZE: usize = 5000;

/// The beginning of a sitemap.
pub const SITEMAP_HEAD: &'static str = "<?xml version=\"1.0\" encoding=\"UTF-8\"?>\n<urlset xmlns=\"http://www.sitemaps.org/schemas/sitemap/0.9\">\n";

/// The beginning of an index of sitemaps.
pub const SITEMAP_INDEX_HEAD: &'static str = "<?xml version=\"1.0\" encoding=\"UTF-8\"?>\n<sitemapindex xmlns=\"http://www.sitemaps.org/schemas/sitemap/0.9\">\n";

/// The beginning of the feed.
pub const FEED_HEAD: &'static str = "<?xml version=\"1.0\" encoding=\"UTF-8\"?>\n<rss version=\"2.0\"><channel>\n<title>Nanoss feed</title>\n";

/// The line of an entry in a sitemap.
pub open spec fn sitemap_line(e: EntryView, domain: Option<Seq<char>>) -> Seq<char> {
    "  <url><loc>"@ + route::canonical_url(e.url, domain) + "</loc></url>\n"@
}

/// The lines of several entries in a sitemap.
pub open spec fn sitemap_lines(s: Seq<EntryView>, domain: Option<Seq<char>>) -> Seq<char>
    decreases s.len(),
{
    if s.len() == 0 {
        Seq::empty()
    } else {
        sitemap_lines(s.drop_last(), domain) + sitemap_line(s.last(), domain)
    }
}

/// A sitemap.
pub open spec fn sitemap_text(s: Seq<EntryView>, domain: Option<Seq<char>>) -> Seq<char> {
    SITEMAP_HEAD@ + sitemap_lines(s, domain) + "</urlset>\n"@
}

/// The line of an entry in the feed.
pub open spec fn feed_line(e: EntryView, domain: Option<Seq<char>>) -> Seq<char> {
    "<item><title>"@ + e.title + "</title><link>"@ + route::canonical_url(e.url, domain)
        + "</link></item>\n"@
}

/// The lines of several entries in the feed.
pub open spec fn feed_lines(s: Seq<EntryView>, domain: Option<Seq<char>>) -> Seq<char>
    decreases s.len(),
{
    if s.len() == 0 {
        Seq::empty()
    } else {
        feed_lines(s.drop_last(), domain) + feed_line(s.last(), domain)
    }
}

/// The feed.
pub open spec fn feed_text(s: Seq<EntryView>, domain: Option<Seq<char>>) -> Seq<char> {
    FEED_HEAD@ + feed_lines(s, domain) + "</channel></rss>\n"@
}

/// How many sitemaps `n` entries need.
pub open spec fn sitemap_count(n: nat) -> nat {
    (n + 4999) / 5000
}

/// The entries of the sitemap with index `k`.
pub open spec fn sitemap_chunk(s: Seq<EntryView>, k: int) -> Seq<EntryView> {
    s.subrange(
        5000 * k,
        if 5000 * k + 5000 < s.len() {
            5000 * k + 5000
        } else {
            s.len() as int
        },
    )
}

/// The name of the sitemap with index `k`.
pub open spec fn sitemap_name(k: int) -> Seq<char> {
    "sitemap-"@ + text::decimal((k + 1) as nat) + ".xml"@
}

/// The file of the sitemap with index `k`.
pub open spec fn sitemap_file(
    s: Seq<EntryView>,
    output_dir: Seq<char>,
    domain: Option<Seq<char>>,
    k: int,
) -> FileView {
    FileView {
        path: fspath::join(output_dir, sitemap_name(k)),
        content: sitemap_text(sitemap_chunk(s, k), domain),
    }
}

/// The lines of the first `n` sitemaps in their index.
pub open spec fn index_lines(n: int, domain: Option<Seq<char>>) -> Seq<char>
    decreases n,
{
    if n <= 0 {
        Seq::empty()
    } else {
        index_lines(n - 1, domain) + "  <sitemap><loc>"@ + route::canonical_url(
            "/"@ + sitemap_name(n - 1),
            domain,
        ) + "</loc></sitemap>\n"@
    }
}

/// The sitemaps of a site: one, or several with an index.
pub open spec fn sitemap_files(
    s: Seq<EntryView>,
    output_dir: Seq<char>,
    domain: Option<Seq<char>>,
) -> Seq<FileView> {
    let main = fspath::join(output_dir, "sitemap.xml"@);
    if s.len() <= 5000 {
        seq![FileView { path: main, content: sitemap_text(s, domain) }]
    } else {
        Seq::new(
            sitemap_count(s.len()),
            |k: int| sitemap_file(s, output_dir, domain, k),
        ).push(
            FileView {
                path: main,
                content: SITEMAP_INDEX_HEAD@ + index_lines(sitemap_count(s.len()) as int, domain)
                    + "</sitemapindex>\n"@,
            },
        )
    }
}

/// The sitemaps and the feed of a site.
pub open spec fn seo_files(
    s: Seq<EntryView>,
    output_dir: Seq<char>,
    domain: Option<Seq<char>>,
) -> Seq<FileView> {
    sitemap_files(s, output_dir, domain).push(
        FileView {
            path: fspath::join(output_dir, "rss.xml"@),
            content: feed_text(s, domain),
        },
    )
}

/// The sitemap of the entries from `a` up to `b`.
fn sitemap_range(entries: &Vec<ContentEntry>, a: usize, b: usize, domain: Option<&str>) -> (r: String)
    requires
        a <= b <= entries.len(),
    ensures
        r@ == sitemap_text(
            order::views(entries@).subrange(a as int, b as int),
            text::opt_str(domain),
        ),
{
    let ghost all = order::views(entries@).subrange(a as int, b as int);
    let ghost d = text::opt_str(domain);
    let mut out = copy_text(SITEMAP_HEAD);
    let mut i: usize = a;
    assert(all.take(0) =~= Seq::empty());
    assert(out@ =~= SITEMAP_HEAD@ + sitemap_lines(all.take(0), d));
    while i < b
        invariant
            a <= i <= b <= entries.len(),
            all == order::views(entries@).subrange(a as int, b as int),
            d == text::opt_str(domain),
            out@ == SITEMAP_HEAD@ + sitemap_lines(all.take(i - a), d),
        decreases b - i,
    {
        let loc = route::canonicalize_site_url(entries[i].url.as_str(), domain);
        out.append("  <url><loc>");
        out.append(loc.as_str());
        out.append("</loc></url>\n");
        assert(all.take(i + 1 - a).drop_last() =~= all.take(i - a));
        assert(all.take(i + 1 - a).last() == entries@[i as int]@);
        assert(out@ =~= SITEMAP_HEAD@ + (sitemap_lines(all.take(i - a), d) + sitemap_line(
            entries@[i as int]@,
            d,
        )));
        i += 1;
    }
    assert(all.take(b - a) =~= all);
    out.append("</urlset>\n");
    out
}

/// The feed of all entries.
fn feed(entries: &Vec<ContentEntry>, domain: Option<&str>) -> (r: String)
    ensures
        r@ == feed_text(order::views(entries@), text::opt_str(domain)),
{
    let ghost all = order::views(entries@);
    let ghost d = text::opt_str(domain);
    let mut out = copy_text(FEED_HEAD);
    let mut i: usize = 0;
    assert(all.take(0) =~= Seq::empty());
    assert(out@ =~= FEED_HEAD@ + feed_lines(all.take(0), d));
    while i < entries.len()
        invariant
            i <= entries.len(),
            all == order::views(entries@),
            d == text::opt_str(domain),
            out@ == FEED_HEAD@ + feed_lines(all.take(i as int), d),
        decreases entries.len() - i,
    {
        let link = route::canonicalize_site_url(entries[i].url.as_str(), domain);
        out.append("<item><title>");
        out.append(entries[i].title.as_str());
        out.append("</title><link>");
        out.append(link.as_str());
        out.append("</link></item>\n");
        assert(all.take(i + 1).drop_last() =~= all.take(i as int));
        assert(all.take(i + 1).last() == entries@[i as int]@);
        assert(out@ =~= FEED_HEAD@ + (feed_lines(all.take(i as int), d) + feed_line(
            entries@[i as int]@,
            d,
        )));
        i += 1;
    }
    assert(all.take(entries.len() as int) =~= all);
    out.append("</channel></rss>\n");
    out
}

/// The files of the sitemaps with their index, for a site with too many entries
/// for one.
fn chunked_sitemaps(entries: &Vec<ContentEntry>, output_dir: &str, domain: Option<&str>) -> (r: Vec<
    OutputFile,
>)
    requires
        entries@.len() > 5000,
    ensures
        order::views(r@) == sitemap_files(
            order::views(entries@),
            output_dir@,
            text::opt_str(domain),
        ),
{
    let ghost all = order::views(entries@);
    let ghost d = text::opt_str(domain);
    let mut out: Vec<OutputFile> = Vec::new();
    let mut index = copy_text(SITEMAP_INDEX_HEAD);
    let mut a: usize = 0;
    assert(index@ =~= SITEMAP_INDEX_HEAD@ + index_lines(0, d));
    while a < entries.len()
        invariant
            a <= entries.len(),
            all == order::views(entries@),
            d == text::opt_str(domain),
            a < entries.len() ==> a == 5000 * out@.len(),
            a == entries.len() ==> out@.len() == sitemap_count(all.len()),
            out@.len() <= sitemap_count(all.len()),
            index@ == SITEMAP_INDEX_HEAD@ + index_lines(out@.len() as int, d),
            forall|k: int|
                0 <= k < out@.len() ==> (#[trigger] out@[k])@ == sitemap_file(all, output_dir@, d, k),
        decreases entries.len() - a,
    {
        let k: usize = out.len();
        let b: usize = if entries.len() - a > SITEMAP_CHUNK_SIZE {
            a + SITEMAP_CHUNK_SIZE
        } else {
            entries.len()
        };
        let mut name = copy_text("sitemap-");
        let number = text::decimal_text(k as u128 + 1);
        name.append(number.as_str());
        name.append(".xml");
        assert(name@ == sitemap_name(k as int));
        let content = sitemap_range(entries, a, b, domain);
        out.push(OutputFile { path: fspath::path_join(output_dir, name.as_str()), content });
        let loc = text::concat("/", name.as_str());
        let loc = route::canonicalize_site_url(loc.as_str(), domain);
        index.append("  <sitemap><loc>");
        index.append(loc.as_str());
        index.append("</loc></sitemap>\n");
        assert(index@ =~= SITEMAP_INDEX_HEAD@ + index_lines(k + 1, d));
        a = b;
    }
    let ghost chunks = Seq::new(
        sitemap_count(all.len()),
        |k: int| sitemap_file(all, output_dir@, d, k),
    );
    assert(order::views(out@) =~= chunks);
    index.append("</sitemapindex>\n");
    let ghost before = out@;
    let main = OutputFile { path: fspath::path_join(output_dir, "sitemap.xml"), content: index };
    let ghost mv = main@;
    out.push(main);
    assert(order::views(out@) =~= order::views(before).push(mv));
    out
}

/// The sitemaps and the feed of a site: [`seo_files`].
pub fn generate_sitemap_and_feed(
    entries: &Vec<ContentEntry>,
    output_dir: &str,
    site_domain: Option<&str>,
) -> (r: Vec<OutputFile>)
    ensures
        order::views(r@) == seo_files(
            order::views(entries@),
            output_dir@,
            text::opt_str(site_domain),
        ),
{
    let ghost all = order::views(entries@);
    let mut out = if entries.len() <= SITEMAP_CHUNK_SIZE {
        let content = sitemap_range(entries, 0, entries.len(), site_domain);
        assert(all.subrange(0, all.len() as int) =~= all);
        let mut one: Vec<OutputFile> = Vec::new();
        one.push(OutputFile { path: fspath::path_join(output_dir, "sitemap.xml"), content });
        assert(order::views(one@) =~= seq![one@[0]@]);
        one
    } else {
        chunked_sitemaps(entries, output_dir, site_domain)
    };
    let ghost before = out@;
    let rss = OutputFile {
        path: fspath::path_join(output_dir, "rss.xml"),
        content: feed(entries, site_domain),
    };
    let ghost rv = rss@;
    out.push(rss);
    assert(order::views(out@) =~= order::views(before).push(rv));
    out
}

/// Every entry is listed in one sitemap: the entry `i` in the one with index
/// `i / 5000`, at the place `i % 5000`. None is empty or has more than 5000.
pub proof fn law_sitemaps_list_every_entry(s: Seq<EntryView>, i: int)
    requires
        0 <= i < s.len(),
    ensures
        0 <= i / 5000 < sitemap_count(s.len()),
        0 <= i % 5000 < sitemap_chunk(s, i / 5000).len() <= 5000,
        sitemap_chunk(s, i / 5000)[i % 5000] == s[i],
{
    assert(5000 * (i / 5000) + i % 5000 == i);
}

// ---------------------------------------------------------------------------
// Robots.

/// The text of `robots.txt`: a build with drafts is not to be read.
pub open spec fn robots_text(
    domain: Option<Seq<char>>,
    base_path: Seq<char>,
    include_drafts: bool,
) -> Seq<char> {
    "User-agent: *\n"@ + (if include_drafts {
        "Disallow: /\n"@
    } else {
        "Allow: /\n"@
    }) + (match domain {
        Some(d) => "Sitemap: "@ + route::canonical_url(
            route::based_url("/sitemap.xml"@, base_path),
            Some(d),
        ) + "\n"@,
        None => Seq::empty(),
    })
}

/// The file `robots.txt` of a site.
pub fn generate_robots_txt(
    output_dir: &str,
    site_domain: Option<&str>,
    base_path: &str,
    include_drafts: bool,
) -> (r: OutputFile)
    ensures
        r.path@ == fspath::join(output_dir@, "robots.txt"@),
        r.content@ == robots_text(text::opt_str(site_domain), base_path@, include_drafts),
{
    let mut robots = copy_text("User-agent: *\n");
    if include_drafts {
        robots.append("Disallow: /\n");
    } else {
        robots.append("Allow: /\n");
    }
    match site_domain {
        Some(domain) => {
            let path = route::with_base_path("/sitemap.xml", base_path);
            let loc = route::canonicalize_site_url(path.as_str(), Some(domain));
            robots.append("Sitemap: ");
            robots.append(loc.as_str());
            robots.append("\n");
        },
        None => {},
    }
    assert(robots@ =~= robots_text(text::opt_str(site_domain), base_path@, include_drafts));
    OutputFile { path: fspath::path_join(output_dir, "robots.txt"), content: robots }
}

// ---------------------------------------------------------------------------
// More laws.

/// The feed has one item for each entry, in order, with its title and its URL below
/// the domain, and nothing else.
pub proof fn law_feed_lists_every_entry(s: Seq<EntryView>, domain: Option<Seq<char>>)
    ensures
        feed_text(s, domain)
            == "<?xml version=\"1.0\" encoding=\"UTF-8\"?>\n<rss version=\"2.0\"><channel>\n<title>Nanoss feed</title>\n"@
            + Seq::new(
            s.len(),
            |i: int|
                "<item><title>"@ + s[i].title + "</title><link>"@ + route::canonical_url(
                    s[i].url,
                    domain,
                ) + "</link></item>\n"@,
        ).flatten() + "</channel></rss>\n"@,
{
    lemma_feed_lines(s, domain);
}

proof fn lemma_feed_lines(s: Seq<EntryView>, domain: Option<Seq<char>>)
    ensures
        feed_lines(s, domain) == Seq::new(
            s.len(),
            |i: int|
                "<item><title>"@ + s[i].title + "</title><link>"@ + route::canonical_url(
                    s[i].url,
                    domain,
                ) + "</link></item>\n"@,
        ).flatten(),
    decreases s.len(),
{
    let lines = Seq::new(
        s.len(),
        |i: int|
            "<item><title>"@ + s[i].title + "</title><link>"@ + route::canonical_url(
                s[i].url,
                domain,
            ) + "</link></item>\n"@,
    );
    lines.lemma_flatten_and_flatten_alt_are_equivalent();
    if s.len() > 0 {
        let front = s.drop_last();
        lemma_feed_lines(front, domain);
        let rest = Seq::new(
            front.len(),
            |i: int|
                "<item><title>"@ + front[i].title + "</title><link>"@ + route::canonical_url(
                    front[i].url,
                    domain,
                ) + "</link></item>\n"@,
        );
        rest.lemma_flatten_and_flatten_alt_are_equivalent();
        assert(lines.drop_last() =~= rest);
    }
}

/// The items of two groups of entries are those of the first and then those of the
/// second; the item of one entry holds its title and its URL.
pub proof fn law_feed_goes_on(
    s: Seq<EntryView>,
    t: Seq<EntryView>,
    e: EntryView,
    domain: Option<Seq<char>>,
)
    ensures
        feed_lines(s + t, domain) == feed_lines(s, domain) + feed_lines(t, domain),
        sitemap_lines(s + t, domain) == sitemap_lines(s, domain) + sitemap_lines(t, domain),
        feed_lines(seq![e], domain) == "<item><title>"@ + e.title + "</title><link>"@
            + route::canonical_url(e.url, domain) + "</link></item>\n"@,
        sitemap_lines(seq![e], domain) == "  <url><loc>"@ + route::canonical_url(e.url, domain)
            + "</loc></url>\n"@,
    decreases t.len(),
{
    let one = seq![e];
    assert(one.drop_last() =~= Seq::empty());
    reveal_with_fuel(feed_lines, 2);
    reveal_with_fuel(sitemap_lines, 2);
    assert(feed_lines(one, domain) =~= feed_line(e, domain));
    assert(sitemap_lines(one, domain) =~= sitemap_line(e, domain));
    if t.len() == 0 {
        assert(s + t =~= s);
        assert(feed_lines(s, domain) + feed_lines(t, domain) =~= feed_lines(s, domain));
        assert(sitemap_lines(s, domain) + sitemap_lines(t, domain) =~= sitemap_lines(s, domain));
    } else {
        law_feed_goes_on(s, t.drop_last(), e, domain);
        assert((s + t).drop_last() =~= s + t.drop_last());
        assert((s + t).last() == t.last());
        assert(feed_lines(s + t, domain) =~= feed_lines(s, domain) + feed_lines(t, domain));
        assert(sitemap_lines(s + t, domain) =~= sitemap_lines(s, domain) + sitemap_lines(
            t,
            domain,
        ));
    }
}

/// A sitemap has one location for each entry, in order, with its URL below the domain,
/// and nothing else.
pub proof fn law_sitemap_lists_its_entries(s: Seq<EntryView>, domain: Option<Seq<char>>)
    ensures
        sitemap_text(s, domain)
            == "<?xml version=\"1.0\" encoding=\"UTF-8\"?>\n<urlset xmlns=\"http://www.sitemaps.org/schemas/sitemap/0.9\">\n"@
            + Seq::new(
            s.len(),
            |i: int|
                "  <url><loc>"@ + route::canonical_url(s[i].url, domain) + "</loc></url>\n"@,
        ).flatten() + "</urlset>\n"@,
{
    lemma_sitemap_lines(s, domain);
}

proof fn lemma_sitemap_lines(s: Seq<EntryView>, domain: Option<Seq<char>>)
    ensures
        sitemap_lines(s, domain) == Seq::new(
            s.len(),
            |i: int|
                "  <url><loc>"@ + route::canonical_url(s[i].url, domain) + "</loc></url>\n"@,
        ).flatten(),
    decreases s.len(),
{
    let lines = Seq::new(
        s.len(),
        |i: int| "  <url><loc>"@ + route::canonical_url(s[i].url, domain) + "</loc></url>\n"@,
    );
    lines.lemma_flatten_and_flatten_alt_are_equivalent();
    if s.len() > 0 {
        let front = s.drop_last();
        lemma_sitemap_lines(front, domain);
        let rest = Seq::new(
            front.len(),
            |i: int|
                "  <url><loc>"@ + route::canonical_url(front[i].url, domain)
                    + "</loc></url>\n"@,
        );
        rest.lemma_flatten_and_flatten_alt_are_equivalent();
        assert(lines.drop_last() =~= rest);
    }
}

proof fn lemma_index_lines(n: nat, domain: Option<Seq<char>>)
    ensures
        index_lines(n as int, domain) == Seq::new(
            n,
            |k: int|
                "  <sitemap><loc>"@ + route::canonical_url(
                    "/sitemap-"@ + text::decimal((k + 1) as nat) + ".xml"@,
                    domain,
                ) + "</loc></sitemap>\n"@,
        ).flatten(),
    decreases n,
{
    let lines = Seq::new(
        n,
        |k: int|
            "  <sitemap><loc>"@ + route::canonical_url(
                "/sitemap-"@ + text::decimal((k + 1) as nat) + ".xml"@,
                domain,
            ) + "</loc></sitemap>\n"@,
    );
    lines.lemma_flatten_and_flatten_alt_are_equivalent();
    if n > 0 {
        lemma_index_lines((n - 1) as nat, domain);
        let rest = Seq::new(
            (n - 1) as nat,
            |k: int|
                "  <sitemap><loc>"@ + route::canonical_url(
                    "/sitemap-"@ + text::decimal((k + 1) as nat) + ".xml"@,
                    domain,
                ) + "</loc></sitemap>\n"@,
        );
        rest.lemma_flatten_and_flatten_alt_are_equivalent();
        assert(lines.drop_last() =~= rest);
        reveal_strlit("/");
        reveal_strlit("sitemap-");
        reveal_strlit("/sitemap-");
        assert("/"@ + sitemap_name(n - 1) =~= "/sitemap-"@ + text::decimal(n) + ".xml"@);
        assert(index_lines(n as int, domain) =~= lines.flatten_alt());
    }
}

/// A site has its feed in `rss.xml`, and its sitemap in `sitemap.xml`: of all entries
/// where they are not more than 5000. Otherwise `sitemap.xml` is an index that names
/// `sitemap-1.xml`, `sitemap-2.xml` and so on, and the file with the number `k + 1`
/// is the sitemap of the entries from `5000 * k` on, at most 5000 of them.
pub proof fn law_site_has_its_files(
    s: Seq<EntryView>,
    output_dir: Seq<char>,
    domain: Option<Seq<char>>,
)
    ensures
        ({
            let files = seo_files(s, output_dir, domain);
            let n = files.len() as int;
            &&& n >= 2
            &&& files[n - 1].path == fspath::join(output_dir, "rss.xml"@)
            &&& files[n - 1].content == feed_text(s, domain)
            &&& files[n - 2].path == fspath::join(output_dir, "sitemap.xml"@)
            &&& s.len() <= 5000 ==> n == 2 && files[0].content == sitemap_text(s, domain)
            &&& s.len() > 5000 ==> {
                &&& 5000 * (n - 3) < s.len() <= 5000 * (n - 2)
                &&& files[n - 2].content
                    == "<?xml version=\"1.0\" encoding=\"UTF-8\"?>\n<sitemapindex xmlns=\"http://www.sitemaps.org/schemas/sitemap/0.9\">\n"@
                    + Seq::new(
                    (n - 2) as nat,
                    |k: int|
                        "  <sitemap><loc>"@ + route::canonical_url(
                            "/sitemap-"@ + text::decimal((k + 1) as nat) + ".xml"@,
                            domain,
                        ) + "</loc></sitemap>\n"@,
                ).flatten() + "</sitemapindex>\n"@
                &&& forall|k: int|
                    0 <= k < n - 2 ==> (#[trigger] files[k]).path == fspath::join(
                        output_dir,
                        "sitemap-"@ + text::decimal((k + 1) as nat) + ".xml"@,
                    ) && files[k].content == sitemap_text(
                        s.skip(5000 * k).take(
                            if s.len() - 5000 * k < 5000 {
                                s.len() - 5000 * k
                            } else {
                                5000
                            },
                        ),
                        domain,
                    )
            }
        }),
{
    let files = seo_files(s, output_dir, domain);
    let n = files.len() as int;
    if s.len() > 5000 {
        lemma_index_lines(sitemap_count(s.len()), domain);
        assert(n == sitemap_count(s.len()) + 2);
        assert forall|k: int| 0 <= k < n - 2 implies (#[trigger] files[k]).path == fspath::join(
            output_dir,
            "sitemap-"@ + text::decimal((k + 1) as nat) + ".xml"@,
        ) && files[k].content == sitemap_text(
            s.skip(5000 * k).take(
                if s.len() - 5000 * k < 5000 {
                    s.len() - 5000 * k
                } else {
                    5000
                },
            ),
            domain,
        ) by {
            assert(files[k] == sitemap_file(s, output_dir, domain, k));
            assert(sitemap_chunk(s, k) =~= s.skip(5000 * k).take(
                if s.len() - 5000 * k < 5000 {
                    s.len() - 5000 * k
                } else {
                    5000
                },
            ));
        }
    }
}

/// Robots may read a site, and may not read a build with drafts. Where the domain is
/// known they are told of the sitemap, below the domain and the base path.
pub proof fn law_robots(domain: Seq<char>, base_path: Seq<char>)
    ensures
        robots_text(None, base_path, false) == "User-agent: *\n"@ + "Allow: /\n"@,
        robots_text(None, base_path, true) == "User-agent: *\n"@ + "Disallow: /\n"@,
        robots_text(Some(domain), base_path, false) == "User-agent: *\n"@ + "Allow: /\n"@
            + "Sitemap: "@ + domain + route::based_url("/sitemap.xml"@, base_path) + "\n"@
            || text::starts_with(route::based_url("/sitemap.xml"@, base_path), "http"@),
        robots_text(Some(domain), base_path, true) == "User-agent: *\n"@ + "Disallow: /\n"@
            + "Sitemap: "@ + domain + route::based_url("/sitemap.xml"@, base_path) + "\n"@
            || text::starts_with(route::based_url("/sitemap.xml"@, base_path), "http"@),
{
    reveal_strlit("http");
    reveal_strlit("http://");
    reveal_strlit("https://");
    let url = route::based_url("/sitemap.xml"@, base_path);
    if text::starts_with(url, "http://"@) {
        assert(url.take(4) =~= url.take(7).take(4));
        assert("http://"@.take(4) =~= "http"@);
    }
    if text::starts_with(url, "https://"@) {
        assert(url.take(4) =~= url.take(8).take(4));
        assert("https://"@.take(4) =~= "http"@);
    }
    assert(robots_text(None, base_path, false) =~= "User-agent: *\n"@ + "Allow: /\n"@);
    assert(robots_text(None, base_path, true) =~= "User-agent: *\n"@ + "Disallow: /\n"@);
    if !text::starts_with(url, "http"@) {
        assert(robots_text(Some(domain), base_path, false) =~= "User-agent: *\n"@ + "Allow: /\n"@
            + "Sitemap: "@ + domain + url + "\n"@);
        assert(robots_text(Some(domain), base_path, true) =~= "User-agent: *\n"@
            + "Disallow: /\n"@ + "Sitemap: "@ + domain + url + "\n"@);
    }
}

} // verus!
