//! Routes and URLs: where a page is written, and how it is linked.
use vstd::prelude::*;
use vstd::slice::slice_subrange;
use vstd::string::*;

use crate::config::I18nConfig;
use crate::failure;
use crate::failure::{failure, Failure};
use crate::fspath;
use crate::text;
use crate::text::{concat, copy_text, push_chars, same_text, to_chars};
use crate::validation;

verus! {

// ---------------------------------------------------------------------------
// Base paths and domains.

/// The normal form of a base path: without white space at its ends and without
/// trailing slashes, with a leading slash.
pub open spec fn normal_base_path(input: Seq<char>) -> Seq<char> {
    let t = text::trim(input);
    if t.len() == 0 || t == "/"@ {
        "/"@
    } else {
        let n = text::trim_end_char(t, '/');
        if n.len() > 0 && n[0] == '/' {
            n
        } else {
            "/"@ + n
        }
    }
}

/// Computes [`normal_base_path`].
pub fn normalize_base_path(input: &str) -> (r: String)
    ensures
        r@ == normal_base_path(input@),
{
    let t = text::trimmed(input);
    if t.as_str().is_empty() || same_text(t.as_str(), "/") {
        return copy_text("/");
    }
    let n = text::trimmed_end_char(t.as_str(), '/');
    if text::text_begins_char(n.as_str(), '/') {
        n
    } else {
        concat("/", n.as_str())
    }
}

/// The normal form of a site domain, or why the domain is refused. A domain of
/// white space alone counts as none.
pub open spec fn normal_site_domain(input: Option<Seq<char>>) -> Result<
    Option<Seq<char>>,
    Seq<char>,
> {
    match input {
        None => Ok(None),
        Some(raw) => {
            let t = text::trim(raw);
            if t.len() == 0 {
                Ok(None)
            } else if !(text::starts_with(t, "http://"@) || text::starts_with(t, "https://"@)) {
                Err("site_domain must start with http:// or https://"@)
            } else {
                Ok(Some(text::trim_end_char(t, '/')))
            }
        },
    }
}

/// The result of an operation that gives an optional text.
pub open spec fn opt_outcome(r: Result<Option<String>, Failure>) -> Result<
    Option<Seq<char>>,
    Seq<char>,
> {
    match r {
        Ok(o) => Ok(text::opt_text(o)),
        Err(e) => Err(e.message@),
    }
}

/// Computes [`normal_site_domain`].
pub fn normalize_site_domain(input: Option<&str>) -> (r: Result<Option<String>, Failure>)
    ensures
        opt_outcome(r) == normal_site_domain(text::opt_str(input)),
{
    match input {
        None => Ok(None),
        Some(raw) => {
            let t = text::trimmed(raw);
            if t.as_str().is_empty() {
                return Ok(None);
            }
            if !(text::text_begins(t.as_str(), "http://") || text::text_begins(
                t.as_str(),
                "https://",
            )) {
                return Err(
                    failure(copy_text("site_domain must start with http:// or https://")),
                );
            }
            Ok(Some(text::trimmed_end_char(t.as_str(), '/')))
        },
    }
}

/// What a template puts before an absolute link: nothing for a site at the root.
pub open spec fn href_prefix(base_path: Seq<char>) -> Seq<char> {
    if base_path == "/"@ {
        ""@
    } else {
        base_path
    }
}

/// Computes [`href_prefix`].
pub fn base_href_prefix(base_path: &str) -> (r: &str)
    ensures
        r@ == href_prefix(base_path@),
{
    if same_text(base_path, "/") {
        ""
    } else {
        base_path
    }
}

// ---------------------------------------------------------------------------
// URLs below a base path.

/// `url` below the base path: an absolute URL that is not below it yet gets it
/// in front, any other URL stays as it is.
pub open spec fn based_url(url: Seq<char>, base_path: Seq<char>) -> Seq<char> {
    if base_path == "/"@ || !(url.len() > 0 && url[0] == '/') || text::starts_with(url, "//"@) {
        url
    } else if url == "/"@ {
        base_path + "/"@
    } else if url == base_path || text::starts_with(
        url,
        text::trim_end_char(base_path, '/') + "/"@,
    ) {
        url
    } else {
        base_path + url
    }
}

/// Computes [`based_url`].
pub fn with_base_path(url: &str, base_path: &str) -> (r: String)
    ensures
        r@ == based_url(url@, base_path@),
{
    if same_text(base_path, "/") || !text::text_begins_char(url, '/') || text::text_begins(
        url,
        "//",
    ) {
        return copy_text(url);
    }
    if same_text(url, "/") {
        return concat(base_path, "/");
    }
    let mut prefix = text::trimmed_end_char(base_path, '/');
    prefix.append("/");
    if same_text(url, base_path) || text::text_begins(url, prefix.as_str()) {
        return copy_text(url);
    }
    concat(base_path, url)
}

/// The URL of a file, given by its path below the output directory.
pub open spec fn site_url(path_without_root: Seq<char>, base_path: Seq<char>) -> Seq<char> {
    based_url(text::replace_from("/"@ + path_without_root, "//"@, "/"@, 0), base_path)
}

/// Computes [`site_url`].
pub fn to_site_url(path_without_root: &str, base_path: &str) -> (r: String)
    ensures
        r@ == site_url(path_without_root@, base_path@),
{
    proof {
        reveal_strlit("//");
    }
    let raw = concat("/", path_without_root);
    let raw = text::replaced_text(raw.as_str(), "//", "/");
    with_base_path(raw.as_str(), base_path)
}

/// `path` as a full URL, where the domain of the site is known.
pub open spec fn canonical_url(path: Seq<char>, site_domain: Option<Seq<char>>) -> Seq<char> {
    if text::starts_with(path, "http://"@) || text::starts_with(path, "https://"@) {
        path
    } else {
        match site_domain {
            Some(domain) => domain + path,
            None => path,
        }
    }
}

/// Computes [`canonical_url`].
pub fn canonicalize_site_url(path: &str, site_domain: Option<&str>) -> (r: String)
    ensures
        r@ == canonical_url(path@, text::opt_str(site_domain)),
{
    if text::text_begins(path, "http://") || text::text_begins(path, "https://") {
        return copy_text(path);
    }
    match site_domain {
        Some(domain) => concat(domain, path),
        None => copy_text(path),
    }
}

// ---------------------------------------------------------------------------
// Links inside a page.

/// The position of the next absolute link at or after `i`: that of the next `href`
/// or `src`, whichever comes first.
pub open spec fn next_link(html: Seq<char>, i: int) -> Option<int> {
    match (text::find_from(html, "href=\"/"@, i), text::find_from(html, "src=\"/"@, i)) {
        (Some(j), Some(k)) => if j < k {
            Some(j)
        } else {
            Some(k)
        },
        (Some(j), None) => Some(j),
        (None, k) => k,
    }
}

/// Where the value of the link at position `start` begins.
pub open spec fn link_value(html: Seq<char>, start: int) -> int {
    if text::occurs_at(html, "href=\"/"@, start) {
        start + 6
    } else {
        start + 5
    }
}

/// Where the value that begins at `value` ends: at the next quote, or at the end
/// of the page.
pub open spec fn value_end(html: Seq<char>, value: int) -> int {
    value + text::char_index(html.skip(value), '"')
}

/// The page from position `i` on, with its absolute links below the base path.
pub open spec fn rewrite_from(html: Seq<char>, base_path: Seq<char>, i: int) -> Seq<char>
    decreases html.len() - i,
{
    match next_link(html, i) {
        None => html.skip(i),
        Some(start) => {
            let value = link_value(html, start);
            let end = value_end(html, value);
            if i <= start && start < value <= end < html.len() {
                html.subrange(i, value) + based_url(html.subrange(value, end), base_path) + seq!['"']
                    + rewrite_from(html, base_path, end + 1)
            } else {
                html.skip(i)
            }
        },
    }
}

/// The page with its absolute links below the base path.
pub open spec fn rewritten(html: Seq<char>, base_path: Seq<char>) -> Seq<char> {
    if base_path == "/"@ {
        html
    } else {
        rewrite_from(html, base_path, 0)
    }
}

/// Computes [`next_link`].
fn find_link(v: &[char], i: usize) -> (r: Option<usize>)
    ensures
        match r {
            Some(j) => next_link(v@, i as int) == Some(j as int),
            None => next_link(v@, i as int) is None,
        },
{
    match (text::find_text(v, "href=\"/", i), text::find_text(v, "src=\"/", i)) {
        (Some(j), Some(k)) => if j < k {
            Some(j)
        } else {
            Some(k)
        },
        (Some(j), None) => Some(j),
        (None, k) => k,
    }
}

/// A link lies inside the page, and its value begins behind its name.
proof fn lemma_next_link(html: Seq<char>, i: int)
    requires
        0 <= i,
    ensures
        next_link(html, i) matches Some(j) ==> i <= j && j < link_value(html, j) < html.len(),
{
    reveal_strlit("href=\"/");
    reveal_strlit("src=\"/");
    text::lemma_find_from(html, "href=\"/"@, i);
    text::lemma_find_from(html, "src=\"/"@, i);
}

/// Computes [`rewritten`].
pub fn rewrite_html_absolute_links_with_base_path(html: &str, base_path: &str) -> (r: String)
    ensures
        r@ == rewritten(html@, base_path@),
{
    if same_text(base_path, "/") {
        return copy_text(html);
    }
    let v = to_chars(html);
    let href = to_chars("href=\"/");
    let mut out = String::new();
    let mut idx: usize = 0;
    assert(out@ + rewrite_from(html@, base_path@, 0) =~= rewrite_from(html@, base_path@, 0));
    loop
        invariant
            idx <= v.len(),
            v@ == html@,
            href@ == "href=\"/"@,
            rewrite_from(html@, base_path@, 0) == out@ + rewrite_from(
                html@,
                base_path@,
                idx as int,
            ),
        ensures
            rewrite_from(html@, base_path@, 0) == out@ + html@.skip(idx as int),
            idx <= v.len(),
        decreases v.len() - idx,
    {
        match find_link(v.as_slice(), idx) {
            None => {
                break;
            },
            Some(start) => {
                proof {
                    lemma_next_link(html@, idx as int);
                }
                let value: usize = if text::matches_at(v.as_slice(), href.as_slice(), start) {
                    start + 6
                } else {
                    start + 5
                };
                let end = text::index_of_char(v.as_slice(), '"', value);
                if end >= v.len() {
                    break;
                }
                let ghost before = out@;
                push_chars(&mut out, slice_subrange(v.as_slice(), idx, value));
                let original = text::text_of(slice_subrange(v.as_slice(), value, end));
                let based = with_base_path(original.as_str(), base_path);
                out.append(based.as_str());
                out.push('"');
                assert(before + (html@.subrange(idx as int, value as int) + based@ + seq!['"']
                    + rewrite_from(html@, base_path@, end + 1)) =~= out@ + rewrite_from(
                    html@,
                    base_path@,
                    end + 1,
                ));
                idx = end + 1;
            },
        }
    }
    assert(html@.subrange(idx as int, html@.len() as int) =~= html@.skip(idx as int));
    push_chars(&mut out, slice_subrange(v.as_slice(), idx, v.len()));
    out
}

// ---------------------------------------------------------------------------
// Output paths.

/// The directory that the locale of a page adds to its route, or why the locale
/// is refused.
pub open spec fn locale_prefix(lang: Option<Seq<char>>, i18n: I18nConfig) -> Result<
    Option<Seq<char>>,
    Seq<char>,
> {
    let default = text::opt_text(i18n.default_locale);
    let chosen = if lang is Some {
        lang
    } else {
        default
    };
    match chosen {
        None => Ok(None),
        Some(locale) => match validation::segment_error(locale, "locale"@) {
            Some(m) => Err(m),
            None => if i18n.locales@.len() > 0 && !text::texts(i18n.locales@).contains(locale) {
                Err("locale '"@ + locale + "' is not in configured locales"@)
            } else if default == Some(locale) && !i18n.prefix_default_locale {
                Ok(None)
            } else {
                Ok(Some(locale))
            },
        },
    }
}

/// Computes [`locale_prefix`].
pub fn locale_prefix_for_output(lang: Option<&str>, i18n: &I18nConfig) -> (r: Result<
    Option<String>,
    Failure,
>)
    ensures
        opt_outcome(r) == locale_prefix(text::opt_str(lang), *i18n),
{
    let locale: &str = match lang {
        Some(l) => l,
        None => match &i18n.default_locale {
            Some(d) => d.as_str(),
            None => {
                return Ok(None);
            },
        },
    };
    match validation::validate_route_segment(locale, "locale") {
        Ok(_) => {},
        Err(e) => {
            return Err(e);
        },
    }
    if i18n.locales.len() > 0 && !text::has_text(&i18n.locales, locale) {
        let mut m = copy_text("locale '");
        m.append(locale);
        m.append("' is not in configured locales");
        return Err(failure(m));
    }
    let is_default = match &i18n.default_locale {
        Some(d) => same_text(d.as_str(), locale),
        None => false,
    };
    if is_default && !i18n.prefix_default_locale {
        return Ok(None);
    }
    Ok(Some(copy_text(locale)))
}

/// The output directory of a page with the locale directory `locale`.
pub open spec fn locale_root(output_root: Seq<char>, locale: Option<Seq<char>>) -> Seq<char> {
    match locale {
        Some(l) => fspath::join(output_root, l),
        None => output_root,
    }
}

/// The file of the page with the slug `slug` below `root`.
pub open spec fn slug_file(root: Seq<char>, slug: Seq<char>) -> Seq<char> {
    if slug == "index"@ {
        fspath::join(root, "index.html"@)
    } else {
        fspath::join(fspath::join(root, slug), "index.html"@)
    }
}

/// Why `source` has no place below `root`.
pub open spec fn outside_message(source: Seq<char>, root: Seq<char>) -> Seq<char> {
    source + " is not inside "@ + root
}

/// `candidate`, where it lies in the output directory.
pub open spec fn inside_or_error(output_root: Seq<char>, candidate: Seq<char>) -> Result<
    Seq<char>,
    Seq<char>,
> {
    match validation::escape_error(output_root, candidate) {
        Some(m) => Err(m),
        None => Ok(candidate),
    }
}

/// The file that a page is written to, or why it cannot be written.
pub open spec fn output_path(
    source: Seq<char>,
    content_root: Seq<char>,
    output_root: Seq<char>,
    slug: Option<Seq<char>>,
    lang: Option<Seq<char>>,
    i18n: I18nConfig,
) -> Result<Seq<char>, Seq<char>> {
    match locale_prefix(lang, i18n) {
        Err(m) => Err(m),
        Ok(locale) => {
            let root = locale_root(output_root, locale);
            match slug {
                Some(s) => match validation::segment_error(s, "slug"@) {
                    Some(m) => Err(m),
                    None => inside_or_error(output_root, slug_file(root, s)),
                },
                None => match fspath::strip_prefix(source, content_root) {
                    None => Err(outside_message(source, content_root)),
                    Some(rel) => inside_or_error(
                        output_root,
                        fspath::with_extension(fspath::join(root, rel), "html"@),
                    ),
                },
            }
        },
    }
}

/// The failure for a source outside its root.
fn outside(source: &str, root: &str) -> (r: Failure)
    ensures
        r.message@ == outside_message(source@, root@),
{
    let mut m = copy_text(source);
    m.append(" is not inside ");
    m.append(root);
    failure(m)
}

/// Computes [`inside_or_error`].
fn checked_inside(output_root: &str, candidate: String) -> (r: Result<String, Failure>)
    ensures
        failure::text_outcome(r) == inside_or_error(output_root@, candidate@),
{
    match validation::ensure_inside_output(output_root, candidate.as_str()) {
        Ok(_) => Ok(candidate),
        Err(e) => Err(e),
    }
}

/// Computes [`output_path`].
pub fn output_path_for(
    source: &str,
    content_root: &str,
    output_root: &str,
    slug: Option<&str>,
    lang: Option<&str>,
    i18n: &I18nConfig,
) -> (r: Result<String, Failure>)
    ensures
        failure::text_outcome(r) == output_path(
            source@,
            content_root@,
            output_root@,
            text::opt_str(slug),
            text::opt_str(lang),
            *i18n,
        ),
{
    let locale = match locale_prefix_for_output(lang, i18n) {
        Ok(l) => l,
        Err(e) => {
            return Err(e);
        },
    };
    let root = match &locale {
        Some(l) => fspath::path_join(output_root, l.as_str()),
        None => copy_text(output_root),
    };
    match slug {
        Some(s) => {
            match validation::validate_route_segment(s, "slug") {
                Ok(_) => {},
                Err(e) => {
                    return Err(e);
                },
            }
            let candidate = if same_text(s, "index") {
                fspath::path_join(root.as_str(), "index.html")
            } else {
                let dir = fspath::path_join(root.as_str(), s);
                fspath::path_join(dir.as_str(), "index.html")
            };
            checked_inside(output_root, candidate)
        },
        None => match fspath::relative_to(source, content_root) {
            None => Err(outside(source, content_root)),
            Some(rel) => {
                let target = fspath::path_join(root.as_str(), rel.as_str());
                let target = fspath::replace_extension(target.as_str(), "html");
                checked_inside(output_root, target)
            },
        },
    }
}

/// The file that an asset is written to, or why it cannot be written.
pub open spec fn asset_path(
    source: Seq<char>,
    content_root: Seq<char>,
    output_root: Seq<char>,
    force_ext: Option<Seq<char>>,
) -> Result<Seq<char>, Seq<char>> {
    match fspath::strip_prefix(source, content_root) {
        None => Err(outside_message(source, content_root)),
        Some(rel) => {
            let joined = fspath::join(output_root, rel);
            let target = match force_ext {
                Some(ext) => fspath::with_extension(joined, ext),
                None => joined,
            };
            inside_or_error(output_root, target)
        },
    }
}

/// Computes [`asset_path`].
pub fn asset_output_path(
    source: &str,
    content_root: &str,
    output_root: &str,
    force_ext: Option<&str>,
) -> (r: Result<String, Failure>)
    ensures
        failure::text_outcome(r) == asset_path(
            source@,
            content_root@,
            output_root@,
            text::opt_str(force_ext),
        ),
{
    match fspath::relative_to(source, content_root) {
        None => Err(outside(source, content_root)),
        Some(rel) => {
            let joined = fspath::path_join(output_root, rel.as_str());
            let target = match force_ext {
                Some(ext) => fspath::replace_extension(joined.as_str(), ext),
                None => joined,
            };
            checked_inside(output_root, target)
        },
    }
}

// ---------------------------------------------------------------------------
// Laws.

/// Trimming a run of `c` off the end leaves no `c` there.
proof fn lemma_trim_end_char(s: Seq<char>, c: char)
    ensures
        text::trim_end_char(s, c).len() > 0 ==> text::trim_end_char(s, c).last() != c,
        text::trim_end_char(s, c).len() <= s.len(),
        text::trim_end_char(s, c) == s.take(text::trim_end_char(s, c).len() as int),
        forall|i: int| text::trim_end_char(s, c).len() <= i < s.len() ==> s[i] == c,
    decreases s.len(),
{
    if s.len() > 0 && s.last() == c {
        lemma_trim_end_char(s.drop_last(), c);
        let n = text::trim_end_char(s, c).len() as int;
        assert(s.drop_last().take(n) =~= s.take(n));
        assert forall|i: int| n <= i < s.len() implies s[i] == c by {
            if i < s.len() - 1 {
                assert(s.drop_last()[i] == c);
            }
        }
    } else {
        assert(s.take(s.len() as int) =~= s);
    }
}

/// A normal base path begins with a slash, and ends with one only where it is
/// the root.
pub proof fn law_base_path_shape(input: Seq<char>)
    ensures
        normal_base_path(input).len() > 0,
        normal_base_path(input)[0] == '/',
        normal_base_path(input).last() == '/' ==> normal_base_path(input) == "/"@,
{
    reveal_strlit("/");
    let t = text::trim(input);
    if t.len() > 0 && t != "/"@ {
        lemma_trim_end_char(t, '/');
        let n = text::trim_end_char(t, '/');
        if n.len() == 0 {
            assert("/"@ + n =~= "/"@);
        } else if n[0] != '/' {
            assert(("/"@ + n).last() == n.last());
        }
    }
}

/// Text without white space at its ends is its own trimming.
proof fn lemma_trim_fixed(s: Seq<char>)
    requires
        s.len() > 0,
        !text::is_space(s[0]),
        !text::is_space(s.last()),
    ensures
        text::trim(s) == s,
{
}

/// Normalizing a base path twice is normalizing it once, unless white space
/// stands before the trailing slashes that normalizing cuts off.
pub proof fn law_base_path_idempotent(input: Seq<char>)
    requires
        text::trim_end_char(text::trim(input), '/').len() > 0 ==> !text::is_space(
            text::trim_end_char(text::trim(input), '/').last(),
        ),
    ensures
        normal_base_path(normal_base_path(input)) == normal_base_path(input),
{
    reveal_strlit("/");
    law_base_path_shape(input);
    let b = normal_base_path(input);
    let n = text::trim_end_char(text::trim(input), '/');
    assert(!text::is_space('/'));
    if b == "/"@ {
        assert(b.last() == '/');
        lemma_trim_fixed(b);
    } else {
        assert(b.last() == n.last());
        lemma_trim_fixed(b);
        assert(text::trim_end_char(b, '/') == b);
    }
}

/// Putting a URL below a base path twice is putting it there once.
pub proof fn law_base_path_once(url: Seq<char>, base_path: Seq<char>)
    ensures
        based_url(based_url(url, base_path), base_path) == based_url(url, base_path),
{
    reveal_strlit("/");
    reveal_strlit("//");
    let b = based_url(url, base_path);
    if b != url {
        assert(url[0] == '/');
        let short = text::trim_end_char(base_path, '/');
        lemma_trim_end_char(base_path, '/');
        let prefix = short + "/"@;
        let tail = if url == "/"@ {
            "/"@
        } else {
            url
        };
        assert(b =~= base_path + tail);
        assert(tail[0] == '/');
        if base_path.len() == short.len() {
            assert(base_path.take(base_path.len() as int) =~= base_path);
            assert(b.take(prefix.len() as int) =~= prefix);
        } else {
            assert(base_path[short.len() as int] == '/');
            assert(b.take(prefix.len() as int) =~= prefix);
        }
        assert(text::starts_with(b, prefix));
        if b == "/"@ {
            assert(b.len() == 1);
            assert(base_path.len() == 0);
            assert(base_path + "/"@ =~= "/"@);
        }
    }
}

/// A page without an absolute link is left as it is.
pub proof fn law_rewrite_keeps_other_pages(html: Seq<char>, base_path: Seq<char>)
    requires
        !text::contains_text(html, "href=\"/"@),
        !text::contains_text(html, "src=\"/"@),
    ensures
        rewritten(html, base_path) == html,
{
    text::lemma_find_from(html, "href=\"/"@, 0);
    text::lemma_find_from(html, "src=\"/"@, 0);
    assert(html.skip(0) =~= html);
}

/// Rewriting what follows position `i` is rewriting from there.
proof fn lemma_rewrite_shift(html: Seq<char>, base_path: Seq<char>, i: int, j: int)
    requires
        0 <= i,
        0 <= j,
        i + j <= html.len(),
    ensures
        rewrite_from(html.skip(i), base_path, j) == rewrite_from(html, base_path, i + j),
    decreases html.len() - i - j,
{
    let rest = html.skip(i);
    text::lemma_find_shift(html, "href=\"/"@, i, j);
    text::lemma_find_shift(html, "src=\"/"@, i, j);
    lemma_next_link(html, i + j);
    lemma_next_link(rest, j);
    match next_link(html, i + j) {
        None => {
            assert(rest.skip(j) =~= html.skip(i + j));
        },
        Some(start) => {
            reveal_strlit("href=\"/");
            assert(next_link(rest, j) == Some(start - i));
            assert(text::occurs_at(html, "href=\"/"@, start) == text::occurs_at(
                rest,
                "href=\"/"@,
                start - i,
            )) by {
                if start + 7 <= html.len() {
                    assert(html.subrange(start, start + 7) =~= rest.subrange(
                        start - i,
                        start - i + 7,
                    ));
                }
            }
            let value = link_value(html, start);
            assert(link_value(rest, start - i) == value - i);
            assert(rest.skip(value - i) =~= html.skip(value));
            let end = value_end(html, value);
            assert(value_end(rest, value - i) == end - i);
            text::lemma_char_index(html.skip(value), '"');
            if end < html.len() {
                assert(rest.subrange(j, value - i) =~= html.subrange(i + j, value));
                assert(rest.subrange(value - i, end - i) =~= html.subrange(value, end));
                lemma_rewrite_shift(html, base_path, i, end + 1 - i);
            } else {
                assert(rest.skip(j) =~= html.skip(i + j));
            }
        },
    }
}

/// The rest of a page behind a link of it, whose value begins at `value` and ends
/// at `end`.
proof fn lemma_rewrite_link(
    html: Seq<char>,
    base_path: Seq<char>,
    start: int,
    value: int,
    end: int,
)
    requires
        base_path != "/"@,
        next_link(html, 0) == Some(start),
        value == link_value(html, start),
        end == value_end(html, value),
        0 <= start < value <= end < html.len(),
    ensures
        rewritten(html, base_path) == html.take(value) + based_url(
            html.subrange(value, end),
            base_path,
        ) + seq!['"'] + rewritten(html.skip(end + 1), base_path),
{
    lemma_rewrite_shift(html, base_path, end + 1, 0);
    assert(html.subrange(0, value) =~= html.take(value));
}

/// Where the value `url` of a link ends that begins behind `head`.
proof fn lemma_value_end(head: Seq<char>, url: Seq<char>, tail: Seq<char>)
    requires
        !url.contains('"'),
    ensures
        value_end(head + url + seq!['"'] + tail, head.len() as int) == head.len() + url.len(),
{
    let rest = (head + url + seq!['"'] + tail).skip(head.len() as int);
    assert(rest =~= url + (seq!['"'] + tail));
    text::lemma_char_index(rest, '"');
    let n = text::char_index(rest, '"');
    assert(rest[url.len() as int] == '"');
    if n < url.len() {
        assert(url[n] == rest[n]);
        assert(url.contains('"'));
    }
}

/// `p` does not begin before `tail` in `before + tail`, where it does not stand in
/// `before`, and the first character of `tail` is none of its later ones.
proof fn lemma_none_before(before: Seq<char>, tail: Seq<char>, p: Seq<char>)
    requires
        !text::contains_text(before, p),
        tail.len() > 0,
        forall|k: int| 0 < k < p.len() ==> p[k] != tail[0],
    ensures
        forall|k: int| 0 <= k < before.len() ==> !#[trigger] text::occurs_at(before + tail, p, k),
{
    let s = before + tail;
    let n = before.len() as int;
    assert forall|k: int| 0 <= k < n implies !#[trigger] text::occurs_at(s, p, k) by {
        if text::occurs_at(s, p, k) {
            let found = s.subrange(k, k + p.len());
            if k + p.len() <= n {
                assert(before.subrange(k, k + p.len()) =~= found);
                assert(text::occurs_at(before, p, k));
            } else {
                assert(found[n - k] == s[n]);
                assert(p[n - k] == tail[0]);
            }
        }
    }
}

/// What precedes the value of an absolute link.
spec fn is_link_name(name: Seq<char>) -> bool {
    name == "href=\""@ || name == "src=\""@
}

/// The first absolute link of a page gets the base path.
proof fn lemma_first_link(
    before: Seq<char>,
    name: Seq<char>,
    url: Seq<char>,
    after: Seq<char>,
    base_path: Seq<char>,
)
    requires
        base_path != "/"@,
        is_link_name(name),
        !text::contains_text(before, "href=\"/"@),
        !text::contains_text(before, "src=\"/"@),
        url.len() > 0 && url[0] == '/',
        !url.contains('"'),
    ensures
        rewritten(before + name + url + seq!['"'] + after, base_path) == before + name + based_url(
            url,
            base_path,
        ) + seq!['"'] + rewritten(after, base_path),
{
    reveal_strlit("href=\"");
    reveal_strlit("href=\"/");
    reveal_strlit("src=\"");
    reveal_strlit("src=\"/");
    let href = "href=\"/"@;
    let src = "src=\"/"@;
    let head = before + name;
    let html = head + url + seq!['"'] + after;
    let tail = name + url + seq!['"'] + after;
    let n = before.len() as int;
    let m = name.len() as int;
    assert(html =~= before + tail);
    lemma_none_before(before, tail, href);
    lemma_none_before(before, tail, src);
    text::lemma_find_from(html, href, 0);
    text::lemma_find_from(html, src, 0);
    if name == "href=\""@ {
        assert(html.subrange(n, n + 7) =~= href);
        text::lemma_first_occurrence(html, href, 0, n);
        if text::occurs_at(html, src, n) {
            assert(html.subrange(n, n + 6)[0] == html[n]);
        }
    } else {
        assert(html.subrange(n, n + 6) =~= src);
        text::lemma_first_occurrence(html, src, 0, n);
        if text::occurs_at(html, href, n) {
            assert(html.subrange(n, n + 7)[0] == html[n]);
        }
    }
    assert(next_link(html, 0) == Some(n));
    assert(link_value(html, n) == n + m);
    lemma_value_end(head, url, after);
    lemma_rewrite_link(html, base_path, n, n + m, n + m + url.len());
    assert(html.take(n + m) =~= head);
    assert(html.subrange(n + m, n + m + url.len()) =~= url);
    assert(html.skip(n + m + url.len() + 1) =~= after);
}

/// The first absolute link of a page gets the base path; what stands before it
/// stays, and the rest of the page is treated in the same way.
pub proof fn law_link_gets_base_path(
    before: Seq<char>,
    url: Seq<char>,
    after: Seq<char>,
    base_path: Seq<char>,
)
    requires
        base_path != "/"@,
        !text::contains_text(before, "href=\"/"@),
        !text::contains_text(before, "src=\"/"@),
        url.len() > 0 && url[0] == '/',
        !url.contains('"'),
    ensures
        rewritten(before + "href=\""@ + url + seq!['"'] + after, base_path) == before + "href=\""@
            + based_url(url, base_path) + seq!['"'] + rewritten(after, base_path),
{
    lemma_first_link(before, "href=\""@, url, after, base_path);
}

/// Where the first absolute link of a page is the source of an image or a script,
/// it gets the base path; what stands before it stays, and the rest of the page is
/// treated in the same way.
pub proof fn law_source_gets_base_path(
    before: Seq<char>,
    url: Seq<char>,
    after: Seq<char>,
    base_path: Seq<char>,
)
    requires
        base_path != "/"@,
        !text::contains_text(before, "href=\"/"@),
        !text::contains_text(before, "src=\"/"@),
        url.len() > 0 && url[0] == '/',
        !url.contains('"'),
    ensures
        rewritten(before + "src=\""@ + url + seq!['"'] + after, base_path) == before + "src=\""@
            + based_url(url, base_path) + seq!['"'] + rewritten(after, base_path),
{
    lemma_first_link(before, "src=\""@, url, after, base_path);
}

/// A page is what stands before its first absolute link, the name and the value of
/// the link, and the rest.
proof fn lemma_split_at_link(html: Seq<char>, start: int, value: int, end: int)
    requires
        next_link(html, 0) == Some(start),
        value == link_value(html, start),
        end == value_end(html, value),
        0 <= start < value <= end < html.len(),
    ensures
        html == html.take(start) + html.subrange(start, value) + html.subrange(value, end)
            + seq!['"'] + html.skip(end + 1),
        !text::contains_text(html.take(start), "href=\"/"@),
        !text::contains_text(html.take(start), "src=\"/"@),
        is_link_name(html.subrange(start, value)),
        value < end && html[value] == '/',
        !html.subrange(value, end).contains('"'),
{
    reveal_strlit("href=\"");
    reveal_strlit("href=\"/");
    reveal_strlit("src=\"");
    reveal_strlit("src=\"/");
    let href = "href=\"/"@;
    let src = "src=\"/"@;
    let before = html.take(start);
    text::lemma_find_from(html, href, 0);
    text::lemma_find_from(html, src, 0);
    if text::contains_text(before, href) {
        let k = choose|k: int| text::occurs_at(before, href, k);
        assert(before.subrange(k, k + 7) =~= html.subrange(k, k + 7));
        assert(text::occurs_at(html, href, k));
    }
    if text::contains_text(before, src) {
        let k = choose|k: int| text::occurs_at(before, src, k);
        assert(before.subrange(k, k + 6) =~= html.subrange(k, k + 6));
        assert(text::occurs_at(html, src, k));
    }
    let rest = html.skip(value);
    text::lemma_char_index(rest, '"');
    assert(rest[end - value] == html[end]);
    if text::occurs_at(html, href, start) {
        let found = html.subrange(start, start + 7);
        assert(html.subrange(start, value) =~= found.take(6));
        assert(found.take(6) =~= "href=\""@);
        assert(found[6] == html[value]);
    } else {
        let found = html.subrange(start, start + 6);
        assert(text::occurs_at(html, src, start));
        assert(html.subrange(start, value) =~= found.take(5));
        assert(found.take(5) =~= "src=\""@);
        assert(found[5] == html[value]);
    }
    assert(rest[0] == html[value]);
    let url = html.subrange(value, end);
    if url.contains('"') {
        let k = choose|k: int| 0 <= k < url.len() && url[k] == '"';
        assert(rest[k] == url[k]);
    }
    assert(html =~= before + html.subrange(start, value) + url + seq!['"'] + html.skip(end + 1));
}

/// A link below the base path begins with a slash and holds no quote.
proof fn lemma_based_shape(url: Seq<char>, base_path: Seq<char>)
    requires
        url.len() > 0 && url[0] == '/',
        !url.contains('"'),
        base_path.len() > 0 && base_path[0] == '/',
        !base_path.contains('"'),
    ensures
        based_url(url, base_path).len() > 0,
        based_url(url, base_path)[0] == '/',
        !based_url(url, base_path).contains('"'),
{
    reveal_strlit("/");
    let b = based_url(url, base_path);
    if b.contains('"') {
        let k = choose|k: int| 0 <= k < b.len() && b[k] == '"';
        if b != url {
            if k < base_path.len() {
                assert(base_path[k] == '"');
            } else if url != "/"@ {
                assert(url[k - base_path.len()] == '"');
            }
        }
    }
}

proof fn lemma_rewrite_twice(html: Seq<char>, base_path: Seq<char>)
    requires
        base_path != "/"@,
        base_path.len() > 0 && base_path[0] == '/',
        !base_path.contains('"'),
    ensures
        rewritten(rewritten(html, base_path), base_path) == rewritten(html, base_path),
    decreases html.len(),
{
    lemma_next_link(html, 0);
    assert(html.skip(0) =~= html);
    match next_link(html, 0) {
        None => {},
        Some(start) => {
            let value = link_value(html, start);
            let end = value_end(html, value);
            text::lemma_char_index(html.skip(value), '"');
            if end < html.len() {
                let before = html.take(start);
                let name = html.subrange(start, value);
                let url = html.subrange(value, end);
                let after = html.skip(end + 1);
                lemma_split_at_link(html, start, value, end);
                assert(url[0] == html[value]);
                lemma_first_link(before, name, url, after, base_path);
                lemma_based_shape(url, base_path);
                lemma_first_link(
                    before,
                    name,
                    based_url(url, base_path),
                    rewritten(after, base_path),
                    base_path,
                );
                law_base_path_once(url, base_path);
                lemma_rewrite_twice(after, base_path);
            }
        },
    }
}

/// Rewriting the links of a page twice is rewriting them once: no link gets the
/// base path a second time. At the root, a page stays as it is.
pub proof fn law_rewrite_once(html: Seq<char>, input: Seq<char>)
    requires
        !normal_base_path(input).contains('"'),
    ensures
        rewritten(rewritten(html, normal_base_path(input)), normal_base_path(input)) == rewritten(
            html,
            normal_base_path(input),
        ),
        normal_base_path(input) == "/"@ ==> rewritten(html, normal_base_path(input)) == html,
{
    law_base_path_shape(input);
    if normal_base_path(input) != "/"@ {
        lemma_rewrite_twice(html, normal_base_path(input));
    }
}

/// A page with a usable slug and a usable locale always has a place: its file
/// lies in the output directory.
pub proof fn law_slug_route_inside_output(
    source: Seq<char>,
    content_root: Seq<char>,
    output_root: Seq<char>,
    slug: Seq<char>,
    lang: Option<Seq<char>>,
    i18n: I18nConfig,
)
    requires
        locale_prefix(lang, i18n) is Ok,
        validation::segment_error(slug, "slug"@) is None,
    ensures
        output_path(source, content_root, output_root, Some(slug), lang, i18n) is Ok,
        fspath::starts_with(
            output_path(source, content_root, output_root, Some(slug), lang, i18n)->Ok_0,
            output_root,
        ),
{
    reveal_strlit("index.html");
    let index = "index.html"@;
    assert(index.len() == 10 && index[0] == 'i');
    assert(!index.contains('/'));
    assert(fspath::plain_name(index));
    let locale = locale_prefix(lang, i18n)->Ok_0;
    let root = locale_root(output_root, locale);
    match locale {
        Some(l) => {
            validation::law_segment_is_plain_name(l, "locale"@);
            fspath::lemma_plain_name_parts(l, false);
            fspath::lemma_join_inside(output_root, l);
        },
        None => {
            assert(fspath::parts(root).take(fspath::parts(root).len() as int) =~= fspath::parts(
                root,
            ));
        },
    }
    assert(fspath::starts_with(root, output_root));
    validation::law_segment_is_plain_name(slug, "slug"@);
    fspath::lemma_plain_name_parts(slug, false);
    fspath::lemma_plain_name_parts(index, false);
    fspath::lemma_join_inside(root, index);
    fspath::lemma_join_inside(root, slug);
    fspath::lemma_join_inside(fspath::join(root, slug), index);
    fspath::lemma_starts_with_trans(fspath::join(root, index), root, output_root);
    fspath::lemma_starts_with_trans(fspath::join(root, slug), root, output_root);
    fspath::lemma_starts_with_trans(
        fspath::join(fspath::join(root, slug), index),
        fspath::join(root, slug),
        output_root,
    );
}

/// Whatever a page or an asset is, a file that it is given lies in the output
/// directory.
pub proof fn law_outputs_inside_output(
    source: Seq<char>,
    content_root: Seq<char>,
    output_root: Seq<char>,
    slug: Option<Seq<char>>,
    lang: Option<Seq<char>>,
    i18n: I18nConfig,
    force_ext: Option<Seq<char>>,
)
    ensures
        output_path(source, content_root, output_root, slug, lang, i18n) matches Ok(p)
            ==> fspath::starts_with(p, output_root),
        asset_path(source, content_root, output_root, force_ext) matches Ok(p)
            ==> fspath::starts_with(p, output_root),
{
}

// ---------------------------------------------------------------------------
// More laws.

/// A URL from the root of the site gets the base path before it, unless it is the base
/// path or below it already. All others stay: those of other sites, relative ones, and
/// all of them where the site has no base path.
pub proof fn law_base_path_of_a_url(url: Seq<char>, base_path: Seq<char>)
    requires
        base_path.len() > 0,
        base_path.last() != '/' || base_path == seq!['/'],
    ensures
        base_path == seq!['/'] ==> based_url(url, base_path) == url,
        url.len() == 0 || url[0] != '/' ==> based_url(url, base_path) == url,
        url.len() > 1 && url[0] == '/' && url[1] == '/' ==> based_url(url, base_path) == url,
        url == base_path ==> based_url(url, base_path) == url,
        text::starts_with(url, base_path + seq!['/']) ==> based_url(url, base_path) == url,
        base_path != seq!['/'] && url.len() > 0 && url[0] == '/' && !(url.len() > 1 && url[1]
            == '/') && url != base_path && !text::starts_with(url, base_path + seq!['/'])
            ==> based_url(url, base_path) == base_path + url,
{
    reveal_strlit("/");
    reveal_strlit("//");
    assert("/"@ =~= seq!['/']);
    if url.len() > 1 {
        assert("//"@ =~= url.take(2) <==> (url[0] == '/' && url[1] == '/')) by {
            if url[0] == '/' && url[1] == '/' {
                assert(url.take(2) =~= "//"@);
            }
            if url.take(2) == "//"@ {
                assert(url.take(2)[0] == url[0]);
                assert(url.take(2)[1] == url[1]);
            }
        }
    }
    if base_path != seq!['/'] {
        assert(text::trim_end_char(base_path, '/') == base_path);
        if text::starts_with(url, base_path + seq!['/']) {
            assert(url != seq!['/']) by {
                if url == seq!['/'] {
                    assert(url.len() == 1);
                }
            }
        }
    }
}

/// A base path is a name with one slash before it and none behind it, however it is
/// written; a blank one is the root.
pub proof fn law_base_path_is_its_name(name: Seq<char>)
    requires
        name.len() > 0,
        !text::is_space(name[0]) && !text::is_space(name.last()),
        name[0] != '/' && name.last() != '/',
    ensures
        normal_base_path(name) == seq!['/'] + name,
        normal_base_path(seq!['/'] + name) == seq!['/'] + name,
        normal_base_path(name + seq!['/']) == seq!['/'] + name,
        normal_base_path(seq!['/'] + name + seq!['/']) == seq!['/'] + name,
        normal_base_path(Seq::empty()) == seq!['/'],
        normal_base_path(seq!['/']) == seq!['/'],
{
    reveal_strlit("/");
    assert("/"@ =~= seq!['/']);
    let a = seq!['/'] + name;
    let b = name + seq!['/'];
    let c = seq!['/'] + name + seq!['/'];
    lemma_trim_fixed(name);
    lemma_trim_fixed(a);
    lemma_trim_fixed(b);
    lemma_trim_fixed(c);
    lemma_trim_fixed(seq!['/']);
    assert(b.drop_last() =~= name);
    assert(c.drop_last() =~= a);
    reveal_with_fuel(text::trim_end_char, 2);
    assert(text::trim_end_char(b, '/') == name);
    assert(text::trim_end_char(c, '/') == a);
    assert(a.len() > 1);
    assert(c.len() > 1);
    assert(name != "/"@);
    assert(b != "/"@);
}

/// The space round a base path counts for nothing.
pub proof fn law_base_path_is_trimmed(a: Seq<char>, b: Seq<char>)
    requires
        text::trim(a) == text::trim(b),
    ensures
        normal_base_path(a) == normal_base_path(b),
        normal_site_domain(Some(a)) == normal_site_domain(Some(b)),
{
}

/// A domain is taken with its scheme and without the slashes at its end; none and a
/// blank one are no domain, and one without `http://` or `https://` is refused.
pub proof fn law_site_domain(raw: Seq<char>, host: Seq<char>)
    ensures
        normal_site_domain(None) == Ok::<Option<Seq<char>>, Seq<char>>(None),
        normal_site_domain(Some(raw)) == Ok::<Option<Seq<char>>, Seq<char>>(None) <==> text::trim(
            raw,
        ).len() == 0,
        normal_site_domain(Some(raw)) is Err <==> text::trim(raw).len() > 0 && !text::starts_with(
            text::trim(raw),
            "http://"@,
        ) && !text::starts_with(text::trim(raw), "https://"@),
        host.len() > 0 && !text::is_space(host.last()) && host.last() != '/' ==> {
            let domain = "https://"@ + host;
            let plain = "http://"@ + host;
            &&& normal_site_domain(Some(domain)) == Ok::<Option<Seq<char>>, Seq<char>>(Some(domain))
            &&& normal_site_domain(Some(domain + seq!['/'])) == Ok::<Option<Seq<char>>, Seq<char>>(
                Some(domain),
            )
            &&& normal_site_domain(Some(plain)) == Ok::<Option<Seq<char>>, Seq<char>>(Some(plain))
        },
{
    reveal_strlit("http://");
    reveal_strlit("https://");
    if host.len() > 0 && !text::is_space(host.last()) && host.last() != '/' {
        let domain = "https://"@ + host;
        let plain = "http://"@ + host;
        let slash = domain + seq!['/'];
        assert(domain.take(8) =~= "https://"@);
        assert(slash.take(8) =~= "https://"@);
        assert(plain.take(7) =~= "http://"@);
        lemma_trim_fixed(domain);
        lemma_trim_fixed(plain);
        lemma_trim_fixed(slash);
        assert(slash.drop_last() =~= domain);
        reveal_with_fuel(text::trim_end_char, 2);
        assert(text::trim_end_char(slash, '/') == domain);
    }
}

/// A path of the site has the domain before it where there is one; a full URL stays.
pub proof fn law_canonical_url(path: Seq<char>, domain: Seq<char>)
    ensures
        path.len() > 0 && path[0] == '/' ==> canonical_url(path, Some(domain)) == domain + path,
        canonical_url(path, None) == path,
        canonical_url("http://"@ + path, Some(domain)) == "http://"@ + path,
        canonical_url("https://"@ + path, Some(domain)) == "https://"@ + path,
{
    reveal_strlit("http://");
    reveal_strlit("https://");
    assert(("http://"@ + path).take(7) =~= "http://"@);
    assert(("https://"@ + path).take(8) =~= "https://"@);
    if path.len() > 0 && path[0] == '/' {
        if text::starts_with(path, "http://"@) {
            assert(path.take(7)[0] == path[0]);
        }
        if text::starts_with(path, "https://"@) {
            assert(path.take(8)[0] == path[0]);
        }
    }
}

/// The URL of a file of the site is its path with one slash before it, behind the base
/// path.
pub proof fn law_site_url(path: Seq<char>, base_path: Seq<char>)
    requires
        path.len() > 0 && path[0] != '/',
        !text::contains_text(path, "//"@),
    ensures
        site_url(path, base_path) == based_url(seq!['/'] + path, base_path),
        site_url(seq!['/'] + path, base_path) == based_url(seq!['/'] + path, base_path),
{
    reveal_strlit("/");
    reveal_strlit("//");
    assert("/"@ =~= seq!['/']);
    let one = "/"@ + path;
    let two = "/"@ + (seq!['/'] + path);
    assert(!text::contains_text(one, "//"@)) by {
        if text::contains_text(one, "//"@) {
            let i = choose|i: int| text::occurs_at(one, "//"@, i);
            assert(one.subrange(i, i + 2) == "//"@);
            assert(one.subrange(i, i + 2)[0] == one[i]);
            assert(one.subrange(i, i + 2)[1] == one[i + 1]);
            if i > 0 {
                assert(path.subrange(i - 1, i + 1) =~= "//"@);
                assert(text::occurs_at(path, "//"@, i - 1));
            }
        }
    }
    text::law_replace_text(one, "//"@, "/"@);
    text::law_replace_text(two, "//"@, "/"@);
    text::law_replace_text(path, "//"@, "/"@);
    text::lemma_find_from(two, "//"@, 0);
    assert(two.subrange(0, 2) =~= "//"@);
    assert(text::occurs_at(two, "//"@, 0));
    assert(text::find(two, "//"@) == Some(0int));
    assert(two.skip(2) =~= path);
    assert(two.take(0) + "/"@ + path =~= one);
}

/// The locale of a page is the one that it names, or else the default one. Pages of the
/// default locale get no prefix unless that is asked for, and those of other locales do;
/// a locale that is not configured, or that no path can hold, is refused.
pub proof fn law_locale_prefix(lang: Seq<char>, i18n: I18nConfig)
    ensures
        i18n.default_locale is None ==> locale_prefix(None, i18n) == Ok::<
            Option<Seq<char>>,
            Seq<char>,
        >(None),
        i18n.default_locale matches Some(d) ==> locale_prefix(None, i18n) == locale_prefix(
            Some(d@),
            i18n,
        ),
        locale_prefix(Some(lang), i18n) is Ok <==> validation::segment_error(lang, "locale"@) is None
            && (i18n.locales@.len() == 0 || exists|k: int|
            0 <= k < i18n.locales@.len() && #[trigger] i18n.locales@[k]@ == lang),
        locale_prefix(Some(lang), i18n) is Ok ==> locale_prefix(Some(lang), i18n)->Ok_0 == (
        if text::opt_text(i18n.default_locale) == Some(lang) && !i18n.prefix_default_locale {
            None
        } else {
            Some(lang)
        }),
{
    let names = text::texts(i18n.locales@);
    if names.contains(lang) {
        let k = choose|k: int| 0 <= k < names.len() && names[k] == lang;
        assert(i18n.locales@[k]@ == lang);
    }
    if exists|k: int| 0 <= k < i18n.locales@.len() && #[trigger] i18n.locales@[k]@ == lang {
        let k = choose|k: int| 0 <= k < i18n.locales@.len() && #[trigger] i18n.locales@[k]@ == lang;
        assert(names[k] == lang);
    }
}

/// A page with a slug is written as the index of the directory of that name, below the
/// directory of its locale where it has one; the slug `index` names that directory itself.
pub proof fn law_places_of_pages(
    source: Seq<char>,
    content_root: Seq<char>,
    output_root: Seq<char>,
    slug: Seq<char>,
    lang: Option<Seq<char>>,
    i18n: I18nConfig,
)
    requires
        output_root.len() > 0 && output_root.last() != '/',
    ensures
        locale_prefix(lang, i18n) == Ok::<Option<Seq<char>>, Seq<char>>(None) && output_path(
            source,
            content_root,
            output_root,
            Some(slug),
            lang,
            i18n,
        ) is Ok && fspath::plain_name(slug) && slug != "index"@ ==> output_path(
            source,
            content_root,
            output_root,
            Some(slug),
            lang,
            i18n,
        )->Ok_0 == output_root + seq!['/'] + slug + "/index.html"@,
        locale_prefix(lang, i18n) == Ok::<Option<Seq<char>>, Seq<char>>(None) && output_path(
            source,
            content_root,
            output_root,
            Some("index"@),
            lang,
            i18n,
        ) is Ok ==> output_path(
            source,
            content_root,
            output_root,
            Some("index"@),
            lang,
            i18n,
        )->Ok_0 == output_root + "/index.html"@,
        (locale_prefix(lang, i18n) matches Ok(Some(l)) && fspath::plain_name(l)) && output_path(
            source,
            content_root,
            output_root,
            Some(slug),
            lang,
            i18n,
        ) is Ok && fspath::plain_name(slug) && slug != "index"@ ==> output_path(
            source,
            content_root,
            output_root,
            Some(slug),
            lang,
            i18n,
        )->Ok_0 == output_root + seq!['/'] + locale_prefix(lang, i18n)->Ok_0->Some_0 + seq!['/']
            + slug + "/index.html"@,
{
    reveal_strlit("index.html");
    reveal_strlit("/index.html");
    assert("/index.html"@ =~= seq!['/'] + "index.html"@);
    if fspath::plain_name(slug) {
        lemma_join_names(output_root, slug);
    }
    lemma_join_file(output_root);
    match locale_prefix(lang, i18n) {
        Ok(Some(l)) => {
            if fspath::plain_name(l) && fspath::plain_name(slug) {
                lemma_join_names(output_root, l);
                lemma_join_names(output_root + seq!['/'] + l, slug);
            }
        },
        _ => {},
    }
}

proof fn lemma_join_file(dir: Seq<char>)
    requires
        dir.len() > 0 && dir.last() != '/',
    ensures
        fspath::join(dir, "index.html"@) == dir + seq!['/'] + "index.html"@,
        dir + seq!['/'] + "index.html"@ == dir + "/index.html"@,
{
    reveal_strlit("index.html");
    reveal_strlit("/index.html");
    assert("index.html"@[0] == 'i');
    assert(dir + seq!['/'] + "index.html"@ =~= dir + "/index.html"@);
}

proof fn lemma_join_names(dir: Seq<char>, name: Seq<char>)
    requires
        dir.len() > 0 && dir.last() != '/',
        fspath::plain_name(name),
    ensures
        fspath::join(dir, name) == dir + seq!['/'] + name,
        (dir + seq!['/'] + name).last() != '/',
        fspath::join(dir + seq!['/'] + name, "index.html"@) == dir + seq!['/'] + name
            + "/index.html"@,
{
    fspath::law_join(dir, name);
    assert((dir + seq!['/'] + name).last() == name.last());
    if name.last() == '/' {
        assert(name[name.len() - 1] == '/');
        assert(name.contains('/'));
    }
    lemma_join_file(dir + seq!['/'] + name);
}

/// A page without a slug keeps its place in the tree, with the extension `html`. An asset
/// keeps its place too, and its name, unless it gets another extension.
pub proof fn law_files_keep_their_places(
    source: Seq<char>,
    content_root: Seq<char>,
    output_root: Seq<char>,
    dir: Seq<char>,
    stem: Seq<char>,
    ext: Seq<char>,
    force_ext: Seq<char>,
    lang: Option<Seq<char>>,
    i18n: I18nConfig,
)
    requires
        output_root.len() > 0 && output_root.last() != '/',
        dir.len() == 0 || (dir[0] != '/' && dir.last() == '/'),
        stem.len() > 0,
        force_ext.len() > 0,
        fspath::plain_name(stem + seq!['.'] + ext) && !ext.contains('.'),
        fspath::strip_prefix(source, content_root) == Some(dir + (stem + seq!['.'] + ext)),
    ensures
        locale_prefix(lang, i18n) == Ok::<Option<Seq<char>>, Seq<char>>(None) ==> (output_path(
            source,
            content_root,
            output_root,
            None,
            lang,
            i18n,
        ) matches Ok(p) ==> p == output_root + seq!['/'] + dir + stem + ".html"@),
        asset_path(source, content_root, output_root, None) matches Ok(p) ==> p == output_root
            + seq!['/'] + dir + stem + seq!['.'] + ext,
        asset_path(source, content_root, output_root, Some(force_ext)) matches Ok(p) ==> p
            == output_root + seq!['/'] + dir + stem + seq!['.'] + force_ext,
{
    reveal_strlit("html");
    reveal_strlit(".html");
    lemma_place_below(output_root, dir, stem, ext, "html"@);
    lemma_place_below(output_root, dir, stem, ext, force_ext);
    let below = output_root + seq!['/'] + dir + stem;
    assert(below + seq!['.'] + "html"@ =~= below + ".html"@);
}

proof fn lemma_place_below(
    output_root: Seq<char>,
    dir: Seq<char>,
    stem: Seq<char>,
    ext: Seq<char>,
    other: Seq<char>,
)
    requires
        output_root.len() > 0 && output_root.last() != '/',
        dir.len() == 0 || (dir[0] != '/' && dir.last() == '/'),
        stem.len() > 0,
        other.len() > 0,
        fspath::plain_name(stem + seq!['.'] + ext) && !ext.contains('.'),
    ensures
        fspath::join(output_root, dir + (stem + seq!['.'] + ext)) == output_root + seq!['/'] + dir
            + stem + seq!['.'] + ext,
        fspath::with_extension(
            fspath::join(output_root, dir + (stem + seq!['.'] + ext)),
            other,
        ) == output_root + seq!['/'] + dir + stem + seq!['.'] + other,
{
    let name = stem + seq!['.'] + ext;
    let rel = dir + name;
    fspath::lemma_plain_name_parts(name, false);
    assert(rel[0] == if dir.len() > 0 {
        dir[0]
    } else {
        name[0]
    });
    let below = output_root + seq!['/'] + dir;
    assert(below.last() == '/') by {
        if dir.len() > 0 {
            assert(below.last() == dir.last());
        }
    }
    assert(fspath::join(output_root, rel) =~= below + name);
    fspath::law_extension(below, stem, ext, other);
    assert(below + name =~= below + stem + seq!['.'] + ext);
}

/// A page of a locale with a prefix keeps its place below the directory of the locale. A
/// source that is not inside the content directory has no place.
pub proof fn law_pages_of_a_locale(
    source: Seq<char>,
    content_root: Seq<char>,
    output_root: Seq<char>,
    locale: Seq<char>,
    dir: Seq<char>,
    stem: Seq<char>,
    ext: Seq<char>,
    lang: Option<Seq<char>>,
    i18n: I18nConfig,
)
    requires
        output_root.len() > 0 && output_root.last() != '/',
        fspath::plain_name(locale),
        locale_prefix(lang, i18n) == Ok::<Option<Seq<char>>, Seq<char>>(Some(locale)),
        dir.len() == 0 || (dir[0] != '/' && dir.last() == '/'),
        stem.len() > 0,
        fspath::plain_name(stem + seq!['.'] + ext) && !ext.contains('.'),
    ensures
        fspath::strip_prefix(source, content_root) == Some(dir + (stem + seq!['.'] + ext)) ==> (
        output_path(source, content_root, output_root, None, lang, i18n) matches Ok(p) ==> p
            == output_root + seq!['/'] + locale + seq!['/'] + dir + stem + ".html"@),
        fspath::strip_prefix(source, content_root) is None ==> output_path(
            source,
            content_root,
            output_root,
            None,
            lang,
            i18n,
        ) == Err::<Seq<char>, Seq<char>>(source + " is not inside "@ + content_root),
        fspath::strip_prefix(source, content_root) is None ==> asset_path(
            source,
            content_root,
            output_root,
            None,
        ) == Err::<Seq<char>, Seq<char>>(source + " is not inside "@ + content_root),
{
    reveal_strlit("html");
    reveal_strlit(".html");
    lemma_join_names(output_root, locale);
    let root = output_root + seq!['/'] + locale;
    lemma_place_below(root, dir, stem, ext, "html"@);
    let below = root + seq!['/'] + dir + stem;
    assert(below + seq!['.'] + "html"@ =~= below + ".html"@);
}

} // verus!
