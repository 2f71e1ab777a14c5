//! Tests of markdown, islands, links and pages.
use nanoss::config::I18nConfig;
use nanoss::frontmatter::{page_title, should_render_content, FrontMatter};
use nanoss::html::{build_toc_html, escape_html, sanitize_language_token, slugify, TocItem};
use nanoss::islands::{
    compile_islands, expand_component_shortcodes, inject_islands_runtime_script,
    islands_runtime_path, ISLANDS_RUNTIME,
};
use nanoss::markdown::{finish_code_block, highlight_code_block, markdown_to_html, Highlighter};
use nanoss::page::{
    build_i18n_alternates, build_page_image_helpers, build_page_ir, finish_page, locale_of_page,
    render_page, seo_object, url_of_page, PageSetting,
};
use nanoss::templates::{load_templates, TemplateFile, TemplateSet};

#[test]
fn lib_compile_islands_injects_runtime_script() {
    let (html, has_islands) = compile_islands(
        r#"<!doctype html><html><body><p>x</p><island name="counter" props='{"step":1}'></island></body></html>"#,
    );
    assert!(has_islands);
    assert!(html.contains("data-island=\"counter\""));
    assert!(html.contains("/_nanoss/islands-runtime.js"));
    let script_pos =
        html.find("/_nanoss/islands-runtime.js").expect("runtime script should be injected");
    let body_close_pos = html.find("</body>").expect("should contain body close");
    assert!(script_pos < body_close_pos, "runtime script must be before </body>");
}

#[test]
fn tests_compile_islands_injects_runtime_script() {
    let (html, has_islands) = compile_islands(
        r#"<!doctype html><html><body><p>x</p><island name="counter" props='{"step":1}'></island></body></html>"#,
    );
    assert!(has_islands);
    assert!(html.contains("data-island=\"counter\""));
    assert!(html.contains("/_nanoss/islands-runtime.js"));
}

#[test]
fn islands_runtime_exposes_register_api() {
    assert_eq!(islands_runtime_path("public"), "public/_nanoss/islands-runtime.js");
    assert!(ISLANDS_RUNTIME.contains("window.NanossIslands"));
    assert!(ISLANDS_RUNTIME.contains("register(name, handler)"));
    assert!(ISLANDS_RUNTIME.contains("hydrate(targetName)"));
}

#[test]
fn pages_without_islands_stay_as_they_are() {
    let (html, has_islands) = compile_islands("<body><p>x</p></body>");
    assert!(!has_islands);
    assert_eq!(html, "<body><p>x</p></body>");
}

#[test]
fn the_runtime_script_comes_before_the_last_end_of_the_body() {
    let html = inject_islands_runtime_script("<body>a</body><body>b</body>");
    assert!(html.starts_with("<body>a</body><body>b<script"));
    assert!(html.ends_with("\n</body>"));
    let html = inject_islands_runtime_script("<p>b</p></html>");
    assert!(html.starts_with("<p>b</p><script") && html.ends_with("\n</html>"));
    let html = inject_islands_runtime_script("<p>b</p>");
    assert!(html.starts_with("<p>b</p>\n<script"));
}

#[test]
fn components_become_blocks_or_islands() {
    assert_eq!(
        expand_component_shortcodes("a {{< note text=\"x < y\" >}} b"),
        "a <div class=\"nanoss-component nanoss-component-note\">x &lt; y</div> b"
    );
    assert_eq!(
        expand_component_shortcodes("{{< box >}}"),
        "<div class=\"nanoss-component nanoss-component-box\">component: box</div>"
    );
    let island = expand_component_shortcodes("{{< count mode=\"island\" step=\"2\" >}}");
    assert!(island.starts_with("<island name=\"component-count\" props='"), "{island}");
    assert!(island.contains("step") && !island.contains("mode"));
    assert_eq!(expand_component_shortcodes("plain {{ text }}"), "plain {{ text }}");
}

#[test]
fn html_is_escaped() {
    assert_eq!(escape_html("<a href=\"x\">'&'</a>"), "&lt;a href=&quot;x&quot;&gt;&#39;&amp;&#39;&lt;/a&gt;");
    assert_eq!(sanitize_language_token("c++ x-1_y"), "cx-1_y");
}

#[test]
fn slugs_are_lower_case_words() {
    assert_eq!(slugify("Hello, World!"), "hello-world");
    assert_eq!(slugify("  --A  B--  "), "a-b");
    assert_eq!(slugify("ÄÖ"), "");
    assert_eq!(slugify("Version 2.0"), "version-2-0");
}

#[test]
fn the_table_of_contents_links_to_its_headings() {
    assert_eq!(build_toc_html(&Vec::new()), "");
    let items = vec![TocItem { level: 2, id: "a".to_string(), text: "A".to_string() }];
    assert_eq!(
        build_toc_html(&items),
        "<ul><li class=\"toc-level-2\"><a href=\"#a\">A</a></li></ul>"
    );
}

#[test]
fn markdown_headings_get_identifiers() {
    let h = Highlighter::new();
    let (html, toc) = markdown_to_html(&h, "# Hello `World`\n\ntext **bold**\n\n## Next\n");
    assert!(html.contains("<h1 id=\"hello-world\">Hello <code>World</code></h1>"), "{html}");
    assert!(html.contains("<p>text <strong>bold</strong></p>"), "{html}");
    let seen: Vec<(u8, &str, &str)> =
        toc.iter().map(|t| (t.level, t.id.as_str(), t.text.as_str())).collect();
    assert_eq!(seen, vec![(1, "hello-world", "Hello World"), (2, "next", "Next")]);
}

#[test]
fn markdown_supports_tables_footnotes_and_struck_text() {
    let h = Highlighter::new();
    let (html, _) = markdown_to_html(&h, "|a|b|\n|-|-|\n|1|2|\n\nnote[^1]\n\n[^1]: text\n\n~~gone~~\n");
    assert!(html.contains("<table>"), "{html}");
    assert!(html.contains("footnote-definition"), "{html}");
    assert!(html.contains("<del>gone</del>"), "{html}");
}

#[test]
fn code_blocks_are_highlighted() {
    let h = Highlighter::new();
    let block = highlight_code_block(&h, "rust", "fn main() {}\n");
    assert!(block.starts_with("<pre"), "{block}");
    assert!(block.contains("<span"), "{block}");
    // The background of the theme `base16-ocean.dark`.
    assert!(block.contains("#2b303b"), "{block}");
    let (html, _) = markdown_to_html(&h, "```rust\nfn main() {}\n```\n");
    assert!(html.contains(&block), "{html}");
}

#[test]
fn code_that_cannot_be_highlighted_is_escaped() {
    assert_eq!(
        finish_code_block(None, "c++", "a < b"),
        "<pre><code class=\"language-c\">a &lt; b</code></pre>"
    );
    assert_eq!(finish_code_block(None, "", "x"), "<pre><code>x</code></pre>");
    assert_eq!(finish_code_block(Some("<pre>y</pre>".to_string()), "", "x"), "<pre>y</pre>");
}

fn front(title: Option<&str>, slug: Option<&str>) -> FrontMatter {
    FrontMatter {
        title: title.map(|t| t.to_string()),
        slug: slug.map(|t| t.to_string()),
        ..FrontMatter::default()
    }
}

#[test]
fn titles_fall_back_to_the_file_name() {
    assert_eq!(page_title(&front(Some("T"), None), "content/a.md"), "T");
    assert_eq!(page_title(&front(None, None), "content/a.md"), "a");
    assert_eq!(page_title(&front(None, None), "/"), "Untitled");
}

#[test]
fn drafts_and_future_pages_are_held_back() {
    let mut fm = FrontMatter::default();
    assert!(should_render_content(&fm, false, "2026-01-01"));
    fm.draft = Some(true);
    assert!(!should_render_content(&fm, false, "2026-01-01"));
    assert!(should_render_content(&fm, true, "2026-01-01"));
    fm.draft = Some(false);
    fm.date = Some("2026-01-02".to_string());
    assert!(!should_render_content(&fm, false, "2026-01-01"));
    assert!(should_render_content(&fm, false, "2026-01-02"));
}

fn i18n(prefix: bool) -> I18nConfig {
    I18nConfig {
        locales: vec!["en".to_string(), "zh".to_string()],
        default_locale: Some("en".to_string()),
        prefix_default_locale: prefix,
    }
}

#[test]
fn every_locale_has_an_alternate() {
    let json =
        build_i18n_alternates("content/hello.md", &FrontMatter::default(), &i18n(false), "/docs")
            .unwrap();
    assert_eq!(
        json,
        "[{\"locale\":\"en\",\"url\":\"/docs/hello/\"},{\"locale\":\"zh\",\"url\":\"/docs/zh/hello/\"}]"
    );
    let json =
        build_i18n_alternates("content/index.md", &FrontMatter::default(), &i18n(true), "/")
            .unwrap();
    assert_eq!(json, "[{\"locale\":\"en\",\"url\":\"/en/\"},{\"locale\":\"zh\",\"url\":\"/zh/\"}]");
}

#[test]
fn page_images_list_their_variants() {
    let json = build_page_image_helpers(
        "content/posts/a.md",
        "![c](cover.png) [far](https://example.com/x.png) ![abs](/x.png)",
        "content",
        &vec![480],
        "/",
    );
    assert_eq!(
        json,
        "{\"list\":[{\"source\":\"/posts/cover.png\",\"variants\":[{\"width\":480,\
         \"webp\":\"/posts/cover-w480.webp\",\"avif\":\"/posts/cover-w480.avif\"}]}]}"
    );
}

#[test]
fn locales_and_urls_of_pages() {
    let mut fm = FrontMatter::default();
    assert_eq!(locale_of_page(&fm, &i18n(false)), "en");
    assert_eq!(locale_of_page(&fm, &I18nConfig::default()), "und");
    fm.lang = Some("zh".to_string());
    assert_eq!(locale_of_page(&fm, &i18n(false)), "zh");
    assert_eq!(url_of_page("public/a/index.html", "public", "/"), "/a/");
    assert_eq!(url_of_page("public/index.html", "public", "/docs"), "/docs/");
    assert!(seo_object("T", "/a/").contains("\"canonical\":\"/a/\""));
}

fn setting() -> PageSetting {
    PageSetting {
        path: "content/a.md".to_string(),
        content_dir: "content".to_string(),
        output_dir: "public".to_string(),
        output: "public/a/index.html".to_string(),
        base_path: "/docs".to_string(),
        data_json: "{\"site\":{\"name\":\"nanoss\"}}".to_string(),
    }
}

fn rows(files: &[(&str, &str)]) -> Vec<(String, String)> {
    let files: Vec<TemplateFile> = files
        .iter()
        .map(|(p, s)| TemplateFile { path: format!("t/{p}"), source: s.to_string() })
        .collect();
    load_templates("theme", &Vec::new(), "t", &files).unwrap()
}

#[test]
fn pages_are_rendered_through_their_template() {
    let rows = rows(&[(
        "page.html",
        "<title>{{ title }}</title>{{ content | safe }}|{{ data.site.name }}|{{ locale }}|\
         {{ base_path }}|{{ base_href_prefix }}|{{ seo.canonical }}|{{ toc | safe }}",
    )]);
    let set = TemplateSet::new(&rows).unwrap();
    let h = Highlighter::new();
    let fm = front(Some("A & B"), None);
    let ir = build_page_ir(&h, "content/a.md", &fm, "# Head\n");
    assert_eq!(ir.title, "A & B");
    let html = render_page(&set, &rows, &setting(), &fm, "# Head\n", &ir, &vec![], &i18n(false))
        .unwrap();
    assert!(html.starts_with("<title>A &amp; B</title><h1 id=\"head\">Head</h1>"), "{html}");
    assert!(html.contains("|nanoss|en|&#x2f;docs|&#x2f;docs|"), "{html}");
    assert!(html.ends_with("<ul><li class=\"toc-level-1\"><a href=\"#head\">Head</a></li></ul>"));
}

#[test]
fn a_template_that_is_named_is_taken() {
    let rows = rows(&[("page.html", "page"), ("special.html", "special {{ title }}")]);
    let set = TemplateSet::new(&rows).unwrap();
    let h = Highlighter::new();
    let mut fm = front(Some("T"), None);
    fm.template = Some("special.html".to_string());
    let ir = build_page_ir(&h, "content/a.md", &fm, "");
    let html =
        render_page(&set, &rows, &setting(), &fm, "", &ir, &vec![], &I18nConfig::default()).unwrap();
    assert_eq!(html, "special T");
}

#[test]
fn templates_that_do_not_parse_or_render_are_refused() {
    let broken = rows(&[("page.html", "{% if %}")]);
    let e = TemplateSet::new(&broken).err().unwrap();
    assert_eq!(e.message, "failed to register template page.html");
    let failing = rows(&[("page.html", "{{ title.x.y }}")]);
    let set = TemplateSet::new(&failing).unwrap();
    let h = Highlighter::new();
    let fm = front(Some("T"), None);
    let ir = build_page_ir(&h, "content/a.md", &fm, "");
    let e = render_page(&set, &failing, &setting(), &fm, "", &ir, &vec![], &I18nConfig::default())
        .err()
        .unwrap();
    assert!(e.message.contains("failed to render page template"), "{}", e.message);
}

#[test]
fn finished_pages_have_their_links_rewritten_and_their_islands_compiled() {
    let (html, has_islands) = finish_page("<body><a href=\"/x\">x</a></body>", "/docs");
    assert!(!has_islands);
    assert_eq!(html, "<body><a href=\"/docs/x\">x</a></body>");
    let (html, has_islands) =
        finish_page("<body><island name=\"c\" props='{}'></island></body>", "/");
    assert!(has_islands);
    assert!(html.contains("data-island=\"c\""));
    assert!(html.contains("<script type=\"module\" src=\"/_nanoss/islands-runtime.js\"></script>"));
}

#[test]
fn links_in_the_values_of_an_island_get_the_base_path() {
    let (html, has_islands) = finish_page(
        "<body><island name=\"c\" props='<a href=\"/x\">'></island></body>",
        "/docs",
    );
    assert!(has_islands);
    assert!(html.contains("/docs/x"), "{html}");
    assert!(!html.contains("/docs/docs"), "{html}");
}

#[test]
fn the_runtime_of_the_islands_is_found_below_the_base_path() {
    let (html, has_islands) = finish_page(
        "<body><img src=\"/a.png\"><island name=\"c\" props='{}'></island></body>",
        "/docs",
    );
    assert!(has_islands);
    assert!(html.contains("<img src=\"/docs/a.png\">"));
    assert!(html
        .contains("<script type=\"module\" src=\"/docs/_nanoss/islands-runtime.js\"></script>"));
    assert!(!html.contains("\"/_nanoss/"));
}

#[test]
fn each_heading_with_a_text_has_one_entry() {
    let h = Highlighter::new();
    let (_, toc) = markdown_to_html(
        &h,
        "# A\n\ntext\n\n###### B `c`\n\n##\n\n```\n# no heading\n```\n\n## A\n",
    );
    let entries: Vec<(u8, &str, &str)> =
        toc.iter().map(|e| (e.level, e.id.as_str(), e.text.as_str())).collect();
    assert_eq!(entries, [(1, "a", "A"), (6, "b-c", "B c"), (2, "a", "A")]);
}

#[test]
fn the_state_of_the_templates_is_printed_in_order() {
    let names: Vec<String> = (0..40).map(|i| format!("t{i}.html")).collect();
    let mut files: Vec<(&str, &str)> = names.iter().map(|n| (n.as_str(), "x")).collect();
    files.push(("page.html", "{{ debug() }}"));
    let rows = rows(&files);
    let h = Highlighter::new();
    let fm = front(Some("T"), None);
    let ir = build_page_ir(&h, "content/a.md", &fm, "");
    let render = || {
        let set = TemplateSet::new(&rows).unwrap();
        render_page(&set, &rows, &setting(), &fm, "", &ir, &vec![], &I18nConfig::default()).unwrap()
    };
    assert!(render().contains("t39.html"));
    assert_eq!(render(), render());
}

#[test]
fn data_reaches_a_template_as_it_was_read() {
    let deep = format!("{}1.0000000000000002{}", "[".repeat(127), "]".repeat(127));
    let mut at = setting();
    at.data_json = format!("{{\"deep\":{deep},\"n\":9007199254740993,\"f\":123456789.12345679}}");
    let rows = rows(&[("page.html", "{{ data.deep }}|{{ data.n }}|{{ data.f }}")]);
    let set = TemplateSet::new(&rows).unwrap();
    let h = Highlighter::new();
    let fm = front(Some("T"), None);
    let ir = build_page_ir(&h, "content/a.md", &fm, "");
    let html =
        render_page(&set, &rows, &at, &fm, "", &ir, &vec![], &I18nConfig::default()).unwrap();
    assert_eq!(html, format!("{deep}|9007199254740993|123456789.12345679"));
}
