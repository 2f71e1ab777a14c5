//! Tests of routes, base paths and the requests of the development server.
use nanoss::config::I18nConfig;
use nanoss::route::{
    asset_output_path, base_href_prefix, canonicalize_site_url, locale_prefix_for_output,
    normalize_base_path, normalize_site_domain, output_path_for,
    rewrite_html_absolute_links_with_base_path, to_site_url, with_base_path,
};
use nanoss::server::{
    choose_mount_path, directory_index, normalize_mount_path, resolve_request, route_for_mount, serving_line,
};

fn i18n(prefix: bool) -> I18nConfig {
    I18nConfig {
        locales: vec!["en".to_string(), "zh".to_string()],
        default_locale: Some("en".to_string()),
        prefix_default_locale: prefix,
    }
}

fn output(slug: Option<&str>, lang: Option<&str>, i18n: &I18nConfig) -> Result<String, String> {
    output_path_for("root/content/hello.md", "root/content", "root/public", slug, lang, i18n)
        .map_err(|e| e.message)
}

#[test]
fn tests_output_path_respects_i18n_default_locale_prefix_strategy() {
    let plain = i18n(false);
    let en = output(Some("hello"), Some("en"), &plain).unwrap();
    let zh = output(Some("hello"), Some("zh"), &plain).unwrap();
    assert_eq!(en, "root/public/hello/index.html");
    assert_eq!(zh, "root/public/zh/hello/index.html");
    let en_prefixed = output(Some("hello"), Some("en"), &i18n(true)).unwrap();
    assert_eq!(en_prefixed, "root/public/en/hello/index.html");
}

#[test]
fn lib_output_path_respects_i18n_default_locale_prefix_strategy() {
    let plain = i18n(false);
    assert_eq!(
        output(Some("hello"), Some("en"), &plain).unwrap(),
        "root/public/hello/index.html"
    );
    assert_eq!(
        output(Some("hello"), Some("zh"), &plain).unwrap(),
        "root/public/zh/hello/index.html"
    );
    assert_eq!(
        output(Some("hello"), Some("en"), &i18n(true)).unwrap(),
        "root/public/en/hello/index.html"
    );
}

#[test]
fn mount_path_routing_and_normalization_work() {
    assert_eq!(normalize_mount_path("/").unwrap(), "/");
    assert_eq!(normalize_mount_path("/nanoss/").unwrap(), "/nanoss");
    assert!(normalize_mount_path("nanoss").is_err());

    assert_eq!(route_for_mount("/nanoss", "/nanoss"), Some("/".to_string()));
    assert_eq!(
        route_for_mount("/nanoss/cli.html", "/nanoss"),
        Some("/cli.html".to_string())
    );
    assert_eq!(route_for_mount("/cli.html", "/nanoss"), None);
}

#[test]
fn mount_paths_have_to_start_at_the_root() {
    assert_eq!(
        normalize_mount_path("docs").unwrap_err().message,
        "mount_path must start with '/'"
    );
    assert_eq!(normalize_mount_path("   ").unwrap(), "/");
    assert_eq!(normalize_mount_path(" /a/b// ").unwrap(), "/a/b");
}

#[test]
fn the_mount_path_of_the_command_line_counts_first() {
    assert_eq!(choose_mount_path(Some("/a"), Some("/b")).unwrap(), "/a");
    assert_eq!(choose_mount_path(None, Some("/b/")).unwrap(), "/b");
    assert_eq!(choose_mount_path(None, None).unwrap(), "/");
    assert!(choose_mount_path(None, Some("b")).is_err());
}

#[test]
fn requests_are_resolved_below_the_output() {
    let at = |url: &str, mount: &str| resolve_request(url, mount, "public");
    assert_eq!(at("/", "/").unwrap(), "public/index.html");
    assert_eq!(at("/a/b.css?v=1", "/").unwrap(), "public/a/b.css");
    assert_eq!(at("/docs", "/docs").unwrap(), "public/index.html");
    assert_eq!(at("/docs/x.html", "/docs").unwrap(), "public/x.html");
    assert_eq!(at("/other/x.html", "/docs"), None);
    assert_eq!(directory_index("public/a"), "public/a/index.html");
}

#[test]
fn the_serving_line_names_the_address() {
    assert_eq!(
        serving_line("public", "127.0.0.1:1111", "/"),
        "Serving public at http://127.0.0.1:1111"
    );
    assert_eq!(
        serving_line("public", "127.0.0.1:1111", "/docs"),
        "Serving public at http://127.0.0.1:1111/docs"
    );
}

#[test]
fn base_paths_have_one_form() {
    for (given, normal) in [("/", "/"), ("", "/"), ("docs", "/docs"), (" /docs/ ", "/docs"), ("/a/b", "/a/b")] {
        assert_eq!(normalize_base_path(given), normal, "{given:?}");
        assert_eq!(normalize_base_path(normal), normal);
    }
    assert_eq!(base_href_prefix("/"), "");
    assert_eq!(base_href_prefix("/docs"), "/docs");
}

#[test]
fn domains_have_one_form() {
    assert_eq!(normalize_site_domain(None).unwrap(), None);
    assert_eq!(normalize_site_domain(Some("  ")).unwrap(), None);
    assert_eq!(
        normalize_site_domain(Some(" https://example.com/ ")).unwrap(),
        Some("https://example.com".to_string())
    );
    assert_eq!(
        normalize_site_domain(Some("example.com")).unwrap_err().message,
        "site_domain must start with http:// or https://"
    );
}

#[test]
fn urls_get_the_base_path() {
    assert_eq!(with_base_path("/a", "/"), "/a");
    assert_eq!(with_base_path("/a", "/docs"), "/docs/a");
    assert_eq!(to_site_url("a/b/", "/docs"), "/docs/a/b/");
    assert_eq!(canonicalize_site_url("/a", Some("https://e.com")), "https://e.com/a");
    assert_eq!(canonicalize_site_url("/a", None), "/a");
}

#[test]
fn absolute_links_of_a_page_get_the_base_path() {
    let page = "<a href=\"/x\"><img src=\"/y.png\"><a href=\"https://e.com\"><a href=\"#z\">";
    assert_eq!(rewrite_html_absolute_links_with_base_path(page, "/"), page);
    let based = rewrite_html_absolute_links_with_base_path(page, "/docs");
    assert!(based.contains("href=\"/docs/x\""), "{based}");
    assert!(based.contains("href=\"https://e.com\""), "{based}");
    assert!(based.contains("href=\"#z\""), "{based}");
}

#[test]
fn outputs_of_pages_follow_their_sources() {
    let none = I18nConfig::default();
    assert_eq!(output(None, None, &none).unwrap(), "root/public/hello.html");
    assert_eq!(output(Some("a-b"), None, &none).unwrap(), "root/public/a-b/index.html");
    assert!(output(Some("../x"), None, &none).is_err());
    assert!(output(None, Some("e/n"), &none).is_err());
    let outside = output_path_for("elsewhere/a.md", "content", "public", None, None, &none);
    assert_eq!(outside.unwrap_err().message, "elsewhere/a.md is not inside content");
    assert_eq!(locale_prefix_for_output(Some("zh"), &i18n(false)).unwrap(), Some("zh".to_string()));
    assert_eq!(locale_prefix_for_output(Some("en"), &i18n(false)).unwrap(), None);
}

#[test]
fn outputs_of_assets_follow_their_sources() {
    let at = |source: &str, ext: Option<&str>| {
        asset_output_path(source, "content", "public", ext).map_err(|e| e.message)
    };
    assert_eq!(at("content/css/a.scss", Some("css")).unwrap(), "public/css/a.css");
    assert_eq!(at("content/a.png", None).unwrap(), "public/a.png");
    assert_eq!(at("a.png", None).unwrap_err(), "a.png is not inside content");
}

#[test]
fn each_absolute_link_gets_the_base_path_once() {
    let rewrite = |html: &str| rewrite_html_absolute_links_with_base_path(html, "/docs");
    assert_eq!(
        rewrite("a<a href=\"/x\">b<a href=\"/\">c<img src=\"/y.png\">"),
        "a<a href=\"/docs/x\">b<a href=\"/docs/\">c<img src=\"/docs/y.png\">"
    );
    assert_eq!(
        rewrite("<img src=\"/y.png\"><a href=\"/x\">"),
        "<img src=\"/docs/y.png\"><a href=\"/docs/x\">"
    );
    assert_eq!(
        rewrite("<img src=\"/a.png\"><a href=\"/b\">x</a>"),
        "<img src=\"/docs/a.png\"><a href=\"/docs/b\">x</a>"
    );
    assert_eq!(rewrite("<a href=\"/docs/x\">"), "<a href=\"/docs/x\">");
    assert_eq!(rewrite("<a href=\"//cdn/x\">"), "<a href=\"//cdn/x\">");
    assert_eq!(rewrite("<a href=\"/open"), "<a href=\"/open");
}

#[test]
fn rewriting_links_twice_is_rewriting_them_once() {
    let page = "<img src=\"/a.png\"><a href=\"/\">h</a><script src=\"/s.js\"></script><a href=\"/o";
    let once = rewrite_html_absolute_links_with_base_path(page, "/docs");
    assert_eq!(
        once,
        "<img src=\"/docs/a.png\"><a href=\"/docs/\">h</a><script src=\"/docs/s.js\"></script><a href=\"/o"
    );
    assert_eq!(rewrite_html_absolute_links_with_base_path(&once, "/docs"), once);
    assert_eq!(rewrite_html_absolute_links_with_base_path(page, "/"), page);
}
