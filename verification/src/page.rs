//! Pages: from the text of a page to its HTML.
use vstd::prelude::*;
use vstd::string::*;

use crate::config::I18nConfig;
use crate::config::append_number;
use crate::failure;
use crate::failure::Failure;
use crate::fingerprint;
use crate::frontmatter;
use crate::frontmatter::FrontMatter;
use crate::fspath;
use crate::html;
use crate::islands;
use crate::json;
use crate::markdown;
use crate::markdown::Highlighter;
use crate::plugins::PluginPageIrV1;
use crate::route;
use crate::templates;
use crate::templates::TemplateSet;
use crate::text;
use crate::text::{concat, copy_text, same_text};

verus! {

// ---------------------------------------------------------------------------
// The content of a page.

/// The content of the page at `path` with this front matter and this body:
/// components expanded, Markdown rendered, headings collected.
pub fn build_page_ir(h: &Highlighter, path: &str, fm: &FrontMatter, body: &str) -> (r: PluginPageIrV1)
    requires
        h.wf(),
    ensures
        r.title@ == frontmatter::title_of(text::opt_text(fm.title), path@),
        r.content_html@ == markdown::page_html(
            islands::expanded(body@),
            markdown::md_events(islands::expanded(body@), markdown::EXTENSIONS),
        ),
        r.toc_html@ == html::toc_html(
            markdown::md_run(
                markdown::md_events(islands::expanded(body@), markdown::EXTENSIONS),
            ).toc,
        ),
{
    let expanded = islands::expand_component_shortcodes(body);
    let (content_html, toc) = markdown::markdown_to_html(h, expanded.as_str());
    let toc_html = html::build_toc_html(&toc);
    let title = frontmatter::page_title(fm, path);
    PluginPageIrV1 { title, content_html, toc_html }
}

// ---------------------------------------------------------------------------
// Images.

/// The URL of a file below the content directory, without the base path.
pub open spec fn content_url(rel: Seq<char>) -> Seq<char> {
    "/"@ + text::replace_char(rel, '\\', "/"@)
}

/// The URL of an image without its extension.
pub open spec fn image_stem(url: Seq<char>) -> Seq<char> {
    text::trim_end_text(text::trim_end_text(text::trim_end_text(url, ".png"@), ".jpg"@), ".jpeg"@)
}

/// The URL of the variant of an image with this width and format.
pub open spec fn variant_url(
    url: Seq<char>,
    width: u32,
    format: Seq<char>,
    base_path: Seq<char>,
) -> Seq<char> {
    route::based_url(
        image_stem(url) + "-w"@ + text::decimal(width as nat) + "."@ + format,
        base_path,
    )
}

/// The variants of one width, as JSON.
pub open spec fn variant_json(url: Seq<char>, width: u32, base_path: Seq<char>) -> Seq<char> {
    json::json_object(
        seq![
            json::json_member("width"@, text::decimal(width as nat)),
            json::json_member("webp"@, json::json_string(variant_url(url, width, "webp"@, base_path))),
            json::json_member("avif"@, json::json_string(variant_url(url, width, "avif"@, base_path))),
        ],
    )
}

/// An image with its variants, as JSON.
pub open spec fn image_json(rel: Seq<char>, widths: Seq<u32>, base_path: Seq<char>) -> Seq<char> {
    let url = content_url(rel);
    json::json_object(
        seq![
            json::json_member("source"@, json::json_string(route::based_url(url, base_path))),
            json::json_member(
                "variants"@,
                json::json_array(
                    Seq::new(widths.len(), |i: int| variant_json(url, widths[i], base_path)),
                ),
            ),
        ],
    )
}

/// The files that a page refers to, each with its variants, as JSON.
pub open spec fn images_json(
    deps: Seq<Seq<char>>,
    content_dir: Seq<char>,
    widths: Seq<u32>,
    base_path: Seq<char>,
) -> Seq<char> {
    json::json_object(
        seq![
            json::json_member(
                "list"@,
                json::json_array(
                    Seq::new(
                        deps.len(),
                        |i: int|
                            image_json(
                                fspath::strip_prefix(deps[i], content_dir).unwrap_or(Seq::empty()),
                                widths,
                                base_path,
                            ),
                    ),
                ),
            ),
        ],
    )
}

/// Computes [`variant_url`].
fn variant_link(stem: &str, width: u32, format: &str, base_path: &str) -> (r: String)
    ensures
        r@ == route::based_url(
            stem@ + "-w"@ + text::decimal(width as nat) + "."@ + format@,
            base_path@,
        ),
{
    let mut url = copy_text(stem);
    url.append("-w");
    append_number(&mut url, width as usize);
    url.append(".");
    url.append(format);
    route::with_base_path(url.as_str(), base_path)
}

/// A JSON string member.
fn string_member(name: &str, value: &str) -> (r: String)
    ensures
        r@ == json::json_member(name@, json::json_string(value@)),
{
    let v = json::json_string_text(value);
    json::member_text(name, v.as_str())
}

/// Computes [`variant_json`].
fn variant_object(url: &str, width: u32, base_path: &str) -> (r: String)
    ensures
        r@ == variant_json(url@, width, base_path@),
{
    let stem = text::trimmed_end_text(url, ".png");
    let stem = text::trimmed_end_text(stem.as_str(), ".jpg");
    let stem = text::trimmed_end_text(stem.as_str(), ".jpeg");
    let mut number = String::new();
    append_number(&mut number, width as usize);
    assert(number@ =~= text::decimal(width as nat));
    let webp = variant_link(stem.as_str(), width, "webp", base_path);
    let avif = variant_link(stem.as_str(), width, "avif", base_path);
    let mut items: Vec<String> = Vec::new();
    items.push(json::member_text("width", number.as_str()));
    items.push(string_member("webp", webp.as_str()));
    items.push(string_member("avif", avif.as_str()));
    assert(text::texts(items@) =~= seq![items@[0]@, items@[1]@, items@[2]@]);
    json::object_text(&items)
}

/// Computes [`image_json`].
fn image_object(rel: &str, widths: &Vec<u32>, base_path: &str) -> (r: String)
    ensures
        r@ == image_json(rel@, widths@, base_path@),
{
    let rel = text::replaced_char(rel, '\\', "/");
    let url = concat("/", rel.as_str());
    let mut variants: Vec<String> = Vec::new();
    let mut i: usize = 0;
    while i < widths.len()
        invariant
            i <= widths.len(),
            variants@.len() == i,
            forall|j: int|
                0 <= j < i ==> #[trigger] variants@[j]@ == variant_json(
                    url@,
                    widths@[j],
                    base_path@,
                ),
        decreases widths.len() - i,
    {
        variants.push(variant_object(url.as_str(), widths[i], base_path));
        i += 1;
    }
    assert(text::texts(variants@) =~= Seq::new(
        widths@.len(),
        |i: int| variant_json(url@, widths@[i], base_path@),
    ));
    let list = json::array_text(&variants);
    let source = route::with_base_path(url.as_str(), base_path);
    let mut items: Vec<String> = Vec::new();
    items.push(string_member("source", source.as_str()));
    items.push(json::member_text("variants", list.as_str()));
    assert(text::texts(items@) =~= seq![items@[0]@, items@[1]@]);
    json::object_text(&items)
}

/// The files in the content directory that a page refers to, each with its
/// variants, as JSON: [`images_json`].
pub fn build_page_image_helpers(
    page: &str,
    body: &str,
    content_dir: &str,
    widths: &Vec<u32>,
    base_path: &str,
) -> (r: String)
    ensures
        r@ == images_json(
            fingerprint::paths_inside(
                fingerprint::page_dependencies(page@, body@),
                content_dir@,
            ),
            content_dir@,
            widths@,
            base_path@,
        ),
{
    let deps = fingerprint::page_asset_candidates(page, body, content_dir);
    image_helpers_of(&deps, content_dir, widths, base_path)
}

/// Computes [`images_json`].
pub fn image_helpers_of(
    deps: &Vec<String>,
    content_dir: &str,
    widths: &Vec<u32>,
    base_path: &str,
) -> (r: String)
    ensures
        r@ == images_json(text::texts(deps@), content_dir@, widths@, base_path@),
{
    let ghost all = text::texts(deps@);
    let mut items: Vec<String> = Vec::new();
    let mut i: usize = 0;
    while i < deps.len()
        invariant
            i <= deps.len(),
            all == text::texts(deps@),
            items@.len() == i,
            forall|j: int|
                0 <= j < i ==> #[trigger] items@[j]@ == image_json(
                    fspath::strip_prefix(all[j], content_dir@).unwrap_or(Seq::empty()),
                    widths@,
                    base_path@,
                ),
        decreases deps.len() - i,
    {
        let rel = match fspath::relative_to(deps[i].as_str(), content_dir) {
            Some(rel) => rel,
            None => String::new(),
        };
        items.push(image_object(rel.as_str(), widths, base_path));
        i += 1;
    }
    let ghost want = Seq::new(
        all.len(),
        |i: int|
            image_json(
                fspath::strip_prefix(all[i], content_dir@).unwrap_or(Seq::empty()),
                widths@,
                base_path@,
            ),
    );
    assert(text::texts(items@) =~= want);
    let list = json::array_text(&items);
    let mut members: Vec<String> = Vec::new();
    members.push(json::member_text("list", list.as_str()));
    assert(text::texts(members@) =~= seq![members@[0]@]);
    json::object_text(&members)
}

// ---------------------------------------------------------------------------
// Alternates.

/// The route of the page with the slug `slug` in the locale directory `locale`.
pub open spec fn locale_route(slug: Seq<char>, locale: Option<Seq<char>>) -> Seq<char> {
    match locale {
        Some(l) => if slug == "index"@ {
            "/"@ + l + "/"@
        } else {
            "/"@ + l + "/"@ + slug + "/"@
        },
        None => if slug == "index"@ {
            "/"@
        } else {
            "/"@ + slug + "/"@
        },
    }
}

/// The page in one locale, as JSON.
pub open spec fn alternate_json(
    slug: Seq<char>,
    locale: Seq<char>,
    prefix: Option<Seq<char>>,
    base_path: Seq<char>,
) -> Seq<char> {
    json::json_object(
        seq![
            json::json_member("locale"@, json::json_string(locale)),
            json::json_member(
                "url"@,
                json::json_string(route::based_url(locale_route(slug, prefix), base_path)),
            ),
        ],
    )
}

/// The page in all of `locales`, or why one of them is refused.
pub open spec fn alternates(
    slug: Seq<char>,
    locales: Seq<Seq<char>>,
    i18n: I18nConfig,
    base_path: Seq<char>,
) -> Result<Seq<Seq<char>>, Seq<char>>
    decreases locales.len(),
{
    if locales.len() == 0 {
        Ok(Seq::empty())
    } else {
        match alternates(slug, locales.drop_last(), i18n, base_path) {
            Err(m) => Err(m),
            Ok(rest) => match route::locale_prefix(Some(locales.last()), i18n) {
                Err(m) => Err(m),
                Ok(prefix) => Ok(
                    rest.push(alternate_json(slug, locales.last(), prefix, base_path)),
                ),
            },
        }
    }
}

/// The slug that the routes of a page are made of.
pub open spec fn route_slug(slug: Option<Seq<char>>, path: Seq<char>) -> Seq<char> {
    match slug {
        Some(s) => s,
        None => fspath::file_stem(path).unwrap_or("index"@),
    }
}

/// The page in all locales, as JSON.
pub open spec fn alternates_json(
    slug: Seq<char>,
    i18n: I18nConfig,
    base_path: Seq<char>,
) -> Result<Seq<char>, Seq<char>> {
    match alternates(slug, text::texts(i18n.locales@), i18n, base_path) {
        Ok(items) => Ok(json::json_array(items)),
        Err(m) => Err(m),
    }
}

/// The first refused locale gives the error.
proof fn lemma_alternates_error(
    slug: Seq<char>,
    locales: Seq<Seq<char>>,
    i18n: I18nConfig,
    base_path: Seq<char>,
    n: int,
)
    requires
        0 <= n <= locales.len(),
        alternates(slug, locales.take(n), i18n, base_path) is Err,
    ensures
        alternates(slug, locales, i18n, base_path) == alternates(
            slug,
            locales.take(n),
            i18n,
            base_path,
        ),
    decreases locales.len() - n,
{
    if n == locales.len() {
        assert(locales.take(n) =~= locales);
    } else {
        assert(locales.take(n + 1).drop_last() =~= locales.take(n));
        lemma_alternates_error(slug, locales, i18n, base_path, n + 1);
    }
}

/// Computes [`locale_route`].
fn route_in_locale(slug: &str, locale: &Option<String>) -> (r: String)
    ensures
        r@ == locale_route(slug@, text::opt_text(*locale)),
{
    let mut out = copy_text("/");
    match locale {
        Some(l) => {
            out.append(l.as_str());
            out.append("/");
            if !same_text(slug, "index") {
                out.append(slug);
                out.append("/");
            }
        },
        None => {
            if !same_text(slug, "index") {
                out.append(slug);
                out.append("/");
            }
        },
    }
    out
}

/// Computes [`alternates_json`].
pub fn build_i18n_alternates(
    path: &str,
    fm: &FrontMatter,
    i18n: &I18nConfig,
    base_path: &str,
) -> (r: Result<String, Failure>)
    ensures
        failure::text_outcome(r) == alternates_json(
            route_slug(text::opt_text(fm.slug), path@),
            *i18n,
            base_path@,
        ),
{
    let slug = match &fm.slug {
        Some(s) => copy_text(s.as_str()),
        None => match fspath::path_stem(path) {
            Some(s) => s,
            None => copy_text("index"),
        },
    };
    let locales = &i18n.locales;
    let ghost all = text::texts(locales@);
    let mut items: Vec<String> = Vec::new();
    let mut i: usize = 0;
    assert(all.take(0) =~= Seq::empty());
    assert(text::texts(items@) =~= Seq::empty());
    while i < locales.len()
        invariant
            i <= locales.len(),
            *locales == i18n.locales,
            all == text::texts(locales@),
            slug@ == route_slug(text::opt_text(fm.slug), path@),
            alternates(slug@, all.take(i as int), *i18n, base_path@) == Ok::<
                Seq<Seq<char>>,
                Seq<char>,
            >(text::texts(items@)),
        decreases locales.len() - i,
    {
        assert(all.take(i + 1).drop_last() =~= all.take(i as int));
        assert(all.take(i + 1).last() == locales@[i as int]@);
        let locale = locales[i].as_str();
        match route::locale_prefix_for_output(Some(locale), i18n) {
            Ok(prefix) => {
                let url = route_in_locale(slug.as_str(), &prefix);
                let url = route::with_base_path(url.as_str(), base_path);
                let mut members: Vec<String> = Vec::new();
                members.push(string_member("locale", locale));
                members.push(string_member("url", url.as_str()));
                assert(text::texts(members@) =~= seq![members@[0]@, members@[1]@]);
                let item = json::object_text(&members);
                let ghost before = items@;
                let ghost it = item@;
                items.push(item);
                assert(text::texts(items@) =~= text::texts(before).push(it));
            },
            Err(e) => {
                proof {
                    lemma_alternates_error(slug@, all, *i18n, base_path@, i + 1);
                }
                return Err(e);
            },
        }
        i += 1;
    }
    assert(all.take(locales.len() as int) =~= all);
    Ok(json::array_text(&items))
}

// ---------------------------------------------------------------------------
// The values that a template sees.

/// The values for the head of a page, as JSON.
pub open spec fn seo_json(title: Seq<char>, canonical: Seq<char>) -> Seq<char> {
    json::json_object(
        seq![
            json::json_member("title"@, json::json_string(title)),
            json::json_member("description"@, json::json_string(title)),
            json::json_member("canonical"@, json::json_string(canonical)),
            json::json_member("og_image"@, "null"@),
            json::json_member("twitter_card"@, json::json_string("summary"@)),
            json::json_member("json_ld"@, "null"@),
            json::json_member("noindex"@, "false"@),
        ],
    )
}

/// Computes [`seo_json`].
pub fn seo_object(title: &str, canonical: &str) -> (r: String)
    ensures
        r@ == seo_json(title@, canonical@),
{
    let mut items: Vec<String> = Vec::new();
    items.push(string_member("title", title));
    items.push(string_member("description", title));
    items.push(string_member("canonical", canonical));
    items.push(json::member_text("og_image", "null"));
    items.push(string_member("twitter_card", "summary"));
    items.push(json::member_text("json_ld", "null"));
    items.push(json::member_text("noindex", "false"));
    assert(text::texts(items@) =~= seq![
        items@[0]@,
        items@[1]@,
        items@[2]@,
        items@[3]@,
        items@[4]@,
        items@[5]@,
        items@[6]@,
    ]);
    json::object_text(&items)
}

/// The values that a template sees: texts, and values that are JSON already.
#[derive(Debug)]
pub struct PageContext {
    pub title: String,
    pub content: String,
    pub toc: String,
    pub data_json: String,
    pub images_json: String,
    pub alternates_json: String,
    pub locale: String,
    pub canonical: String,
    pub base_path: String,
}

/// The values that a template sees, as JSON.
pub open spec fn context_json(c: PageContext) -> Seq<char> {
    json::json_object(
        seq![
            json::json_member("title"@, json::json_string(c.title@)),
            json::json_member("content"@, json::json_string(c.content@)),
            json::json_member("toc"@, json::json_string(c.toc@)),
            json::json_member("data"@, c.data_json@),
            json::json_member("images"@, c.images_json@),
            json::json_member("alternates"@, c.alternates_json@),
            json::json_member("locale"@, json::json_string(c.locale@)),
            json::json_member("seo"@, seo_json(c.title@, c.canonical@)),
            json::json_member("base_path"@, json::json_string(c.base_path@)),
            json::json_member(
                "base_href_prefix"@,
                json::json_string(route::href_prefix(c.base_path@)),
            ),
        ],
    )
}

/// Computes [`context_json`].
pub fn context_text(c: &PageContext) -> (r: String)
    ensures
        r@ == context_json(*c),
{
    let seo = seo_object(c.title.as_str(), c.canonical.as_str());
    let mut items: Vec<String> = Vec::new();
    items.push(string_member("title", c.title.as_str()));
    items.push(string_member("content", c.content.as_str()));
    items.push(string_member("toc", c.toc.as_str()));
    items.push(json::member_text("data", c.data_json.as_str()));
    items.push(json::member_text("images", c.images_json.as_str()));
    items.push(json::member_text("alternates", c.alternates_json.as_str()));
    items.push(string_member("locale", c.locale.as_str()));
    items.push(json::member_text("seo", seo.as_str()));
    items.push(string_member("base_path", c.base_path.as_str()));
    items.push(
        string_member("base_href_prefix", route::base_href_prefix(c.base_path.as_str())),
    );
    assert(text::texts(items@) =~= seq![
        items@[0]@,
        items@[1]@,
        items@[2]@,
        items@[3]@,
        items@[4]@,
        items@[5]@,
        items@[6]@,
        items@[7]@,
        items@[8]@,
        items@[9]@,
    ]);
    json::object_text(&items)
}

/// The locale of a page: its own, else the default one, else `und`.
pub open spec fn page_locale(lang: Option<Seq<char>>, i18n: I18nConfig) -> Seq<char> {
    match lang {
        Some(l) => l,
        None => match i18n.default_locale {
            Some(d) => d@,
            None => "und"@,
        },
    }
}

/// Computes [`page_locale`].
pub fn locale_of_page(fm: &FrontMatter, i18n: &I18nConfig) -> (r: String)
    ensures
        r@ == page_locale(text::opt_text(fm.lang), *i18n),
{
    match &fm.lang {
        Some(l) => copy_text(l.as_str()),
        None => match &i18n.default_locale {
            Some(d) => copy_text(d.as_str()),
            None => copy_text("und"),
        },
    }
}

/// The URL of the page that is written to `output`.
pub open spec fn page_url(
    output: Seq<char>,
    output_dir: Seq<char>,
    base_path: Seq<char>,
) -> Seq<char> {
    let rel = fspath::strip_prefix(output, output_dir).unwrap_or(output);
    route::site_url(
        text::trim_end_text(text::replace_char(rel, '\\', "/"@), "index.html"@),
        base_path,
    )
}

/// Computes [`page_url`].
pub fn url_of_page(output: &str, output_dir: &str, base_path: &str) -> (r: String)
    ensures
        r@ == page_url(output@, output_dir@, base_path@),
{
    let rel = match fspath::relative_to(output, output_dir) {
        Some(rel) => rel,
        None => copy_text(output),
    };
    let rel = text::replaced_char(rel.as_str(), '\\', "/");
    let rel = text::trimmed_end_text(rel.as_str(), "index.html");
    route::to_site_url(rel.as_str(), base_path)
}

// ---------------------------------------------------------------------------
// Rendering a page.

/// What a page is rendered with besides its content.
#[derive(Debug)]
pub struct PageSetting {
    pub path: String,
    pub content_dir: String,
    pub output_dir: String,
    pub output: String,
    pub base_path: String,
    pub data_json: String,
}

/// The values that the template of a page sees, or why it cannot be rendered.
pub open spec fn page_context_json(
    setting: PageSetting,
    fm: FrontMatter,
    body: Seq<char>,
    ir: PluginPageIrV1,
    widths: Seq<u32>,
    i18n: I18nConfig,
) -> Result<Seq<char>, Seq<char>> {
    match alternates_json(
        route_slug(text::opt_text(fm.slug), setting.path@),
        i18n,
        setting.base_path@,
    ) {
        Err(m) => Err(m),
        Ok(alternates) => Ok(
            json::json_object(
                seq![
                    json::json_member("title"@, json::json_string(ir.title@)),
                    json::json_member("content"@, json::json_string(ir.content_html@)),
                    json::json_member("toc"@, json::json_string(ir.toc_html@)),
                    json::json_member("data"@, setting.data_json@),
                    json::json_member(
                        "images"@,
                        images_json(
                            fingerprint::paths_inside(
                                fingerprint::page_dependencies(setting.path@, body),
                                setting.content_dir@,
                            ),
                            setting.content_dir@,
                            widths,
                            setting.base_path@,
                        ),
                    ),
                    json::json_member("alternates"@, alternates),
                    json::json_member(
                        "locale"@,
                        json::json_string(page_locale(text::opt_text(fm.lang), i18n)),
                    ),
                    json::json_member(
                        "seo"@,
                        seo_json(
                            ir.title@,
                            page_url(setting.output@, setting.output_dir@, setting.base_path@),
                        ),
                    ),
                    json::json_member("base_path"@, json::json_string(setting.base_path@)),
                    json::json_member(
                        "base_href_prefix"@,
                        json::json_string(route::href_prefix(setting.base_path@)),
                    ),
                ],
            ),
        ),
    }
}

/// Computes [`page_context_json`].
pub fn page_context(
    setting: &PageSetting,
    fm: &FrontMatter,
    body: &str,
    ir: &PluginPageIrV1,
    widths: &Vec<u32>,
    i18n: &I18nConfig,
) -> (r: Result<String, Failure>)
    ensures
        failure::text_outcome(r) == page_context_json(*setting, *fm, body@, *ir, widths@, *i18n),
{
    let base = setting.base_path.as_str();
    let alternates = match build_i18n_alternates(setting.path.as_str(), fm, i18n, base) {
        Ok(a) => a,
        Err(e) => {
            return Err(e);
        },
    };
    let images = build_page_image_helpers(
        setting.path.as_str(),
        body,
        setting.content_dir.as_str(),
        widths,
        base,
    );
    let context = PageContext {
        title: copy_text(ir.title.as_str()),
        content: copy_text(ir.content_html.as_str()),
        toc: copy_text(ir.toc_html.as_str()),
        data_json: copy_text(setting.data_json.as_str()),
        images_json: images,
        alternates_json: alternates,
        locale: locale_of_page(fm, i18n),
        canonical: url_of_page(setting.output.as_str(), setting.output_dir.as_str(), base),
        base_path: copy_text(base),
    };
    Ok(context_text(&context))
}

/// The HTML of a page before its last hook: the template that the page uses,
/// rendered with the values of the page.
pub fn render_page(
    set: &TemplateSet<'_>,
    rows: &Vec<(String, String)>,
    setting: &PageSetting,
    fm: &FrontMatter,
    body: &str,
    ir: &PluginPageIrV1,
    widths: &Vec<u32>,
    i18n: &I18nConfig,
) -> (r: Result<String, Failure>)
    requires
        crate::order::keys_increase(crate::order::rows(rows@)),
    ensures
        failure::text_outcome(r) == (match page_context_json(
            *setting,
            *fm,
            body@,
            *ir,
            widths@,
            *i18n,
        ) {
            Err(m) => Err(m),
            Ok(context) => templates::render_outcome(
                templates::rendered_template(
                    set.templates(),
                    templates::template_for(
                        setting.path@,
                        text::opt_text(fm.template),
                        crate::order::rows(rows@),
                    ),
                    context,
                ),
                "page"@,
            ),
        }),
{
    let name = templates::resolve_template_name(setting.path.as_str(), fm, rows);
    match page_context(setting, fm, body, ir, widths, i18n) {
        Ok(context) => templates::render_template(set, name.as_str(), context.as_str(), "page"),
        Err(e) => Err(e),
    }
}

/// The HTML of a page behind its last hook: its links below the base path, and its
/// islands compiled. Where it has islands, the links are rewritten once more, for
/// that of the islands' runtime. With it comes whether the page has islands.
pub fn finish_page(html: &str, base_path: &str) -> (r: (String, bool))
    ensures
        ({
            let linked = route::rewritten(html@, base_path@);
            let found = crate::pattern::matches_of(crate::pattern::ISLAND@, linked);
            let page = islands::islands_page(
                found,
                crate::pattern::gaps_of(crate::pattern::ISLAND@, linked),
            );
            &&& r.1 == (found.len() > 0)
            &&& r.0@ == (if found.len() > 0 {
                route::rewritten(page, base_path@)
            } else {
                linked
            })
        }),
{
    let linked = route::rewrite_html_absolute_links_with_base_path(html, base_path);
    let (page, has_islands) = islands::compile_islands(linked.as_str());
    if has_islands {
        let page = route::rewrite_html_absolute_links_with_base_path(page.as_str(), base_path);
        (page, true)
    } else {
        (page, false)
    }
}

// ---------------------------------------------------------------------------
// Laws.

/// What one locale of a page has in its list of alternates: its name, and the URL of
/// the page in it, below the base path. The directory of the locale stands before the
/// slug of the page; a page with the slug `index` is that directory.
pub open spec fn is_alternate(
    item: Seq<char>,
    slug: Seq<char>,
    locale: Seq<char>,
    i18n: I18nConfig,
    base_path: Seq<char>,
) -> bool {
    &&& json::has_member(item, "locale"@, json::json_string(locale))
    &&& route::locale_prefix(Some(locale), i18n) matches Ok(prefix) && {
        let dir = match prefix {
            Some(p) => "/"@ + p + "/"@,
            None => "/"@,
        };
        let url = if slug == "index"@ {
            dir
        } else {
            dir + slug + "/"@
        };
        json::has_member(item, "url"@, json::json_string(route::based_url(url, base_path)))
    }
}

/// The alternates of a page are one for each configured locale, in order, with its name
/// and the URL of the page in it. There are none to be had where a locale is refused,
/// and only then.
pub proof fn law_one_alternate_for_each_locale(
    slug: Seq<char>,
    locales: Seq<Seq<char>>,
    i18n: I18nConfig,
    base_path: Seq<char>,
)
    ensures
        alternates(slug, locales, i18n, base_path) matches Ok(items) ==> items.len()
            == locales.len() && (forall|i: int|
            0 <= i < locales.len() ==> is_alternate(
                #[trigger] items[i],
                slug,
                locales[i],
                i18n,
                base_path,
            )),
        alternates(slug, locales, i18n, base_path) is Ok <==> forall|i: int|
            0 <= i < locales.len() ==> route::locale_prefix(
                Some(#[trigger] locales[i]),
                i18n,
            ) is Ok,
    decreases locales.len(),
{
    if locales.len() > 0 {
        let front = locales.drop_last();
        law_one_alternate_for_each_locale(slug, front, i18n, base_path);
        assert forall|i: int| 0 <= i < front.len() implies front[i] == #[trigger] locales[i] by {}
        assert(locales[locales.len() - 1] == locales.last());
        match alternates(slug, locales, i18n, base_path) {
            Ok(items) => {
                let before = alternates(slug, front, i18n, base_path)->Ok_0;
                let prefix = route::locale_prefix(Some(locales.last()), i18n)->Ok_0;
                let url = route::based_url(locale_route(slug, prefix), base_path);
                let members = seq![
                    json::json_member("locale"@, json::json_string(locales.last())),
                    json::json_member("url"@, json::json_string(url)),
                ];
                json::law_object_has_its_members(
                    members,
                    0,
                    "locale"@,
                    json::json_string(locales.last()),
                );
                json::law_object_has_its_members(members, 1, "url"@, json::json_string(url));
                assert forall|i: int| 0 <= i < locales.len() implies is_alternate(
                    #[trigger] items[i],
                    slug,
                    locales[i],
                    i18n,
                    base_path,
                ) by {
                    if i < front.len() {
                        assert(items[i] == before[i]);
                        assert(front[i] == locales[i]);
                    } else {
                        assert(items[i] == json::json_object(members));
                    }
                }
                assert forall|i: int| 0 <= i < locales.len() implies route::locale_prefix(
                    Some(#[trigger] locales[i]),
                    i18n,
                ) is Ok by {
                    assert(is_alternate(items[i], slug, locales[i], i18n, base_path));
                }
            },
            Err(_) => {
                if forall|i: int|
                    0 <= i < locales.len() ==> route::locale_prefix(
                        Some(#[trigger] locales[i]),
                        i18n,
                    ) is Ok {
                    assert forall|i: int| 0 <= i < front.len() implies route::locale_prefix(
                        Some(#[trigger] front[i]),
                        i18n,
                    ) is Ok by {
                        assert(route::locale_prefix(Some(locales[i]), i18n) is Ok);
                    }
                }
            },
        }
    }
}

/// A template sees the title, the content and the table of contents of its page, the
/// data of the site, the images that the page refers to, one alternate for each
/// configured locale, the locale of the page, and the base path. The page cannot be
/// rendered exactly where a locale is refused.
pub proof fn law_template_sees_its_page(
    setting: PageSetting,
    fm: FrontMatter,
    body: Seq<char>,
    ir: PluginPageIrV1,
    widths: Seq<u32>,
    i18n: I18nConfig,
)
    ensures
        page_context_json(setting, fm, body, ir, widths, i18n) matches Ok(c) ==> {
            &&& json::has_member(c, "title"@, json::json_string(ir.title@))
            &&& json::has_member(c, "content"@, json::json_string(ir.content_html@))
            &&& json::has_member(c, "toc"@, json::json_string(ir.toc_html@))
            &&& json::has_member(c, "data"@, setting.data_json@)
            &&& json::has_member(
                c,
                "images"@,
                images_json(
                    fingerprint::paths_inside(
                        fingerprint::page_dependencies(setting.path@, body),
                        setting.content_dir@,
                    ),
                    setting.content_dir@,
                    widths,
                    setting.base_path@,
                ),
            )
            &&& alternates(
                match fm.slug {
                    Some(s) => s@,
                    None => fspath::file_stem(setting.path@).unwrap_or("index"@),
                },
                text::texts(i18n.locales@),
                i18n,
                setting.base_path@,
            ) matches Ok(items) && json::has_member(c, "alternates"@, json::json_array(items))
            &&& fm.lang matches Some(l) ==> json::has_member(
                c,
                "locale"@,
                json::json_string(l@),
            )
            &&& fm.lang is None ==> (i18n.default_locale matches Some(d) ==> json::has_member(
                c,
                "locale"@,
                json::json_string(d@),
            ))
            &&& fm.lang is None && i18n.default_locale is None ==> json::has_member(
                c,
                "locale"@,
                json::json_string("und"@),
            )
            &&& json::has_member(
                c,
                "seo"@,
                seo_json(
                    ir.title@,
                    page_url(setting.output@, setting.output_dir@, setting.base_path@),
                ),
            )
            &&& json::has_member(c, "base_path"@, json::json_string(setting.base_path@))
            &&& setting.base_path@ == "/"@ ==> json::has_member(
                c,
                "base_href_prefix"@,
                json::json_string(""@),
            )
            &&& setting.base_path@ != "/"@ ==> json::has_member(
                c,
                "base_href_prefix"@,
                json::json_string(setting.base_path@),
            )
        },
        page_context_json(setting, fm, body, ir, widths, i18n) is Ok <==> forall|i: int|
            0 <= i < i18n.locales@.len() ==> route::locale_prefix(
                Some((#[trigger] i18n.locales@[i])@),
                i18n,
            ) is Ok,
{
    let slug = route_slug(text::opt_text(fm.slug), setting.path@);
    let locales = text::texts(i18n.locales@);
    law_one_alternate_for_each_locale(slug, locales, i18n, setting.base_path@);
    assert forall|i: int| 0 <= i < locales.len() implies #[trigger] locales[i]
        == i18n.locales@[i]@ by {}
    let out = alternates(slug, locales, i18n, setting.base_path@);
    if forall|i: int|
        0 <= i < i18n.locales@.len() ==> route::locale_prefix(
            Some((#[trigger] i18n.locales@[i])@),
            i18n,
        ) is Ok {
        assert forall|i: int| 0 <= i < locales.len() implies route::locale_prefix(
            Some(#[trigger] locales[i]),
            i18n,
        ) is Ok by {
            assert(route::locale_prefix(Some(i18n.locales@[i]@), i18n) is Ok);
        }
    }
    if out is Ok {
        assert forall|i: int| 0 <= i < i18n.locales@.len() implies route::locale_prefix(
            Some((#[trigger] i18n.locales@[i])@),
            i18n,
        ) is Ok by {
            assert(route::locale_prefix(Some(locales[i]), i18n) is Ok);
        }
        let images = images_json(
            fingerprint::paths_inside(
                fingerprint::page_dependencies(setting.path@, body),
                setting.content_dir@,
            ),
            setting.content_dir@,
            widths,
            setting.base_path@,
        );
        let alts = json::json_array(out->Ok_0);
        let locale = json::json_string(page_locale(text::opt_text(fm.lang), i18n));
        let seo = seo_json(
            ir.title@,
            page_url(setting.output@, setting.output_dir@, setting.base_path@),
        );
        let base = json::json_string(setting.base_path@);
        let prefix = json::json_string(route::href_prefix(setting.base_path@));
        let items = seq![
            json::json_member("title"@, json::json_string(ir.title@)),
            json::json_member("content"@, json::json_string(ir.content_html@)),
            json::json_member("toc"@, json::json_string(ir.toc_html@)),
            json::json_member("data"@, setting.data_json@),
            json::json_member("images"@, images),
            json::json_member("alternates"@, alts),
            json::json_member("locale"@, locale),
            json::json_member("seo"@, seo),
            json::json_member("base_path"@, base),
            json::json_member("base_href_prefix"@, prefix),
        ];
        json::law_object_has_its_members(items, 0, "title"@, json::json_string(ir.title@));
        json::law_object_has_its_members(
            items,
            1,
            "content"@,
            json::json_string(ir.content_html@),
        );
        json::law_object_has_its_members(items, 2, "toc"@, json::json_string(ir.toc_html@));
        json::law_object_has_its_members(items, 3, "data"@, setting.data_json@);
        json::law_object_has_its_members(items, 4, "images"@, images);
        json::law_object_has_its_members(items, 5, "alternates"@, alts);
        json::law_object_has_its_members(items, 6, "locale"@, locale);
        json::law_object_has_its_members(items, 7, "seo"@, seo);
        json::law_object_has_its_members(items, 8, "base_path"@, base);
        json::law_object_has_its_members(items, 9, "base_href_prefix"@, prefix);
        assert(page_context_json(setting, fm, body, ir, widths, i18n)->Ok_0 == json::json_object(
            items,
        ));
    }
}

/// The values for the head of a page: its title, which describes it too, and its URL.
pub proof fn law_head_of_a_page(title: Seq<char>, canonical: Seq<char>)
    ensures
        json::has_member(seo_json(title, canonical), "title"@, json::json_string(title)),
        json::has_member(seo_json(title, canonical), "description"@, json::json_string(title)),
        json::has_member(seo_json(title, canonical), "canonical"@, json::json_string(canonical)),
        json::has_member(seo_json(title, canonical), "twitter_card"@, json::json_string("summary"@)),
        json::has_member(seo_json(title, canonical), "og_image"@, "null"@),
        json::has_member(seo_json(title, canonical), "json_ld"@, "null"@),
        json::has_member(seo_json(title, canonical), "noindex"@, "false"@),
{
    let items = seq![
        json::json_member("title"@, json::json_string(title)),
        json::json_member("description"@, json::json_string(title)),
        json::json_member("canonical"@, json::json_string(canonical)),
        json::json_member("og_image"@, "null"@),
        json::json_member("twitter_card"@, json::json_string("summary"@)),
        json::json_member("json_ld"@, "null"@),
        json::json_member("noindex"@, "false"@),
    ];
    json::law_object_has_its_members(items, 0, "title"@, json::json_string(title));
    json::law_object_has_its_members(items, 1, "description"@, json::json_string(title));
    json::law_object_has_its_members(items, 2, "canonical"@, json::json_string(canonical));
    json::law_object_has_its_members(items, 3, "og_image"@, "null"@);
    json::law_object_has_its_members(items, 4, "twitter_card"@, json::json_string("summary"@));
    json::law_object_has_its_members(items, 5, "json_ld"@, "null"@);
    json::law_object_has_its_members(items, 6, "noindex"@, "false"@);
}

/// An image has, for each width and in order, the width and the URLs of its variants:
/// the URL of the image without its extension, with the width and the new extension
/// behind it, below the base path.
pub proof fn law_image_has_its_variants(url: Seq<char>, width: u32, base_path: Seq<char>)
    ensures
        ({
            let v = variant_json(url, width, base_path);
            let stem = image_stem(url) + "-w"@ + text::decimal(width as nat);
            &&& json::has_member(v, "width"@, text::decimal(width as nat))
            &&& json::has_member(
                v,
                "webp"@,
                json::json_string(route::based_url(stem + ".webp"@, base_path)),
            )
            &&& json::has_member(
                v,
                "avif"@,
                json::json_string(route::based_url(stem + ".avif"@, base_path)),
            )
        }),
{
    let webp = json::json_string(variant_url(url, width, "webp"@, base_path));
    let avif = json::json_string(variant_url(url, width, "avif"@, base_path));
    let items = seq![
        json::json_member("width"@, text::decimal(width as nat)),
        json::json_member("webp"@, webp),
        json::json_member("avif"@, avif),
    ];
    json::law_object_has_its_members(items, 0, "width"@, text::decimal(width as nat));
    json::law_object_has_its_members(items, 1, "webp"@, webp);
    json::law_object_has_its_members(items, 2, "avif"@, avif);
    reveal_strlit(".");
    reveal_strlit("webp");
    reveal_strlit("avif");
    reveal_strlit(".webp");
    reveal_strlit(".avif");
    let stem = image_stem(url) + "-w"@ + text::decimal(width as nat);
    assert(stem + "."@ + "webp"@ =~= stem + ".webp"@);
    assert(stem + "."@ + "avif"@ =~= stem + ".avif"@);
}

/// The images of a page are listed in order, each with its own URL below the base path
/// and with one entry for each width.
pub proof fn law_images_of_a_page(
    deps: Seq<Seq<char>>,
    content_dir: Seq<char>,
    widths: Seq<u32>,
    base_path: Seq<char>,
    rel: Seq<char>,
)
    ensures
        json::has_member(
            images_json(deps, content_dir, widths, base_path),
            "list"@,
            json::json_array(
                Seq::new(
                    deps.len(),
                    |i: int|
                        image_json(
                            fspath::strip_prefix(deps[i], content_dir).unwrap_or(Seq::empty()),
                            widths,
                            base_path,
                        ),
                ),
            ),
        ),
        json::has_member(
            image_json(rel, widths, base_path),
            "source"@,
            json::json_string(
                route::based_url("/"@ + text::replace_char(rel, '\\', "/"@), base_path),
            ),
        ),
        json::has_member(
            image_json(rel, widths, base_path),
            "variants"@,
            json::json_array(
                Seq::new(
                    widths.len(),
                    |i: int|
                        variant_json(
                            "/"@ + text::replace_char(rel, '\\', "/"@),
                            widths[i],
                            base_path,
                        ),
                ),
            ),
        ),
{
    let list = json::json_array(
        Seq::new(
            deps.len(),
            |i: int|
                image_json(
                    fspath::strip_prefix(deps[i], content_dir).unwrap_or(Seq::empty()),
                    widths,
                    base_path,
                ),
        ),
    );
    json::law_object_has_its_members(seq![json::json_member("list"@, list)], 0, "list"@, list);
    let url = content_url(rel);
    let source = json::json_string(route::based_url(url, base_path));
    let variants = json::json_array(
        Seq::new(widths.len(), |i: int| variant_json(url, widths[i], base_path)),
    );
    assert(Seq::new(widths.len(), |i: int| variant_json(url, widths[i], base_path)) =~= Seq::new(
        widths.len(),
        |i: int|
            variant_json("/"@ + text::replace_char(rel, '\\', "/"@), widths[i], base_path),
    ));
    let items = seq![
        json::json_member("source"@, source),
        json::json_member("variants"@, variants),
    ];
    json::law_object_has_its_members(items, 0, "source"@, source);
    json::law_object_has_its_members(items, 1, "variants"@, variants);
}

/// The extension of an image is no part of the URLs of its variants.
pub proof fn law_image_stem(stem: Seq<char>)
    requires
        !text::ends_with(stem, ".png"@),
        !text::ends_with(stem, ".jpg"@),
        !text::ends_with(stem, ".jpeg"@),
    ensures
        image_stem(stem) == stem,
        image_stem(stem + ".png"@) == stem,
        image_stem(stem + ".jpg"@) == stem,
        image_stem(stem + ".jpeg"@) == stem,
{
    reveal_strlit(".png");
    reveal_strlit(".jpg");
    reveal_strlit(".jpeg");
    text::law_trim_ending(stem, ".png"@);
    text::law_trim_ending(stem, ".jpg"@);
    text::law_trim_ending(stem, ".jpeg"@);
    let j = stem + ".jpg"@;
    let e = stem + ".jpeg"@;
    text::law_trim_ending(j, ".png"@);
    text::law_trim_ending(e, ".png"@);
    text::law_trim_ending(e, ".jpg"@);
    assert(!text::ends_with(j, ".png"@)) by {
        assert(j.skip(j.len() - 4)[1] == 'j');
    }
    assert(!text::ends_with(e, ".png"@)) by {
        assert(e.skip(e.len() - 4)[1] == 'p' && e.skip(e.len() - 4)[0] == 'j');
    }
    assert(!text::ends_with(e, ".jpg"@)) by {
        assert(e.skip(e.len() - 4)[0] == 'j');
    }
}

/// The URL of a page is the path of its file below the output directory, without the
/// name `index.html`, below the base path.
pub proof fn law_page_url(
    output: Seq<char>,
    output_dir: Seq<char>,
    rel: Seq<char>,
    base_path: Seq<char>,
)
    requires
        !rel.contains('\\'),
        !text::ends_with(rel, "index.html"@),
        !text::contains_text("/"@ + rel, "//"@),
    ensures
        fspath::strip_prefix(output, output_dir) == Some(rel) ==> page_url(
            output,
            output_dir,
            base_path,
        ) == route::based_url("/"@ + rel, base_path),
        fspath::strip_prefix(output, output_dir) == Some(rel + "index.html"@) ==> page_url(
            output,
            output_dir,
            base_path,
        ) == route::based_url("/"@ + rel, base_path),
{
    reveal_strlit("index.html");
    reveal_strlit("//");
    text::lemma_replace_char_none(rel, '\\', "/"@);
    let full = rel + "index.html"@;
    assert(!full.contains('\\')) by {
        if full.contains('\\') {
            let k = choose|k: int| 0 <= k < full.len() && full[k] == '\\';
            if k < rel.len() {
                assert(rel[k] == '\\');
            } else {
                assert("index.html"@[k - rel.len()] == '\\');
            }
        }
    }
    text::lemma_replace_char_none(full, '\\', "/"@);
    text::law_trim_ending(rel, "index.html"@);
    text::law_replace_text("/"@ + rel, "//"@, "/"@);
}

/// The values that a template sees have each its name.
pub proof fn law_context_has_its_values(c: PageContext)
    ensures
        json::has_member(context_json(c), "title"@, json::json_string(c.title@)),
        json::has_member(context_json(c), "content"@, json::json_string(c.content@)),
        json::has_member(context_json(c), "toc"@, json::json_string(c.toc@)),
        json::has_member(context_json(c), "data"@, c.data_json@),
        json::has_member(context_json(c), "images"@, c.images_json@),
        json::has_member(context_json(c), "alternates"@, c.alternates_json@),
        json::has_member(context_json(c), "locale"@, json::json_string(c.locale@)),
        json::has_member(context_json(c), "seo"@, seo_json(c.title@, c.canonical@)),
        json::has_member(context_json(c), "base_path"@, json::json_string(c.base_path@)),
        json::has_member(
            context_json(c),
            "base_href_prefix"@,
            json::json_string(
                if c.base_path@ == "/"@ {
                    ""@
                } else {
                    c.base_path@
                },
            ),
        ),
{
    let items = seq![
        json::json_member("title"@, json::json_string(c.title@)),
        json::json_member("content"@, json::json_string(c.content@)),
        json::json_member("toc"@, json::json_string(c.toc@)),
        json::json_member("data"@, c.data_json@),
        json::json_member("images"@, c.images_json@),
        json::json_member("alternates"@, c.alternates_json@),
        json::json_member("locale"@, json::json_string(c.locale@)),
        json::json_member("seo"@, seo_json(c.title@, c.canonical@)),
        json::json_member("base_path"@, json::json_string(c.base_path@)),
        json::json_member(
            "base_href_prefix"@,
            json::json_string(route::href_prefix(c.base_path@)),
        ),
    ];
    json::law_object_has_its_members(items, 0, "title"@, json::json_string(c.title@));
    json::law_object_has_its_members(items, 1, "content"@, json::json_string(c.content@));
    json::law_object_has_its_members(items, 2, "toc"@, json::json_string(c.toc@));
    json::law_object_has_its_members(items, 3, "data"@, c.data_json@);
    json::law_object_has_its_members(items, 4, "images"@, c.images_json@);
    json::law_object_has_its_members(items, 5, "alternates"@, c.alternates_json@);
    json::law_object_has_its_members(items, 6, "locale"@, json::json_string(c.locale@));
    json::law_object_has_its_members(items, 7, "seo"@, seo_json(c.title@, c.canonical@));
    json::law_object_has_its_members(items, 8, "base_path"@, json::json_string(c.base_path@));
    json::law_object_has_its_members(
        items,
        9,
        "base_href_prefix"@,
        json::json_string(route::href_prefix(c.base_path@)),
    );
}

} // verus!
