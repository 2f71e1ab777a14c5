//! Tests of templates, fingerprints, data and the lists of a site.
use nanoss::config::{I18nConfig, RemoteDataSourceConfig};
use nanoss::data::{
    data_format, data_key, is_fetching_method, load_data_context, read_value, remote_cache_path,
    resolve_remote, settle_remote, wants_fetch, DataFile, DataFormat,
};
use nanoss::fingerprint::{
    combine_fingerprints, compute_page_asset_dependency_hash, compute_page_build_hash,
    compute_template_dependency_hash, content_hash, digest_text, discover_page_asset_dependencies,
    extract_asset_like_refs, hashed_file_content, is_external_ref, normalize_ref,
    page_asset_candidates, page_fingerprint, read_for_query, HashedFile, SourceFile,
};
use nanoss::frontmatter::FrontMatter;
use nanoss::organization::{
    collect_content_entries, collect_list_pages, generate_content_organization_outputs,
    ContentEntry, ContentFile, SiteRoots,
};
use nanoss::seo::{generate_robots_txt, generate_sitemap_and_feed};
use nanoss::templates::{
    load_templates, resolve_template_name, TemplateFile, TemplateSet, DEFAULT_PAGE_TEMPLATE,
};

fn owned(v: &[&str]) -> Vec<String> {
    v.iter().map(|s| s.to_string()).collect()
}

fn template(path: &str, source: &str) -> TemplateFile {
    TemplateFile { path: path.to_string(), source: source.to_string() }
}

fn hashed(path: &str, text: &str) -> HashedFile {
    HashedFile { path: path.to_string(), text: text.to_string() }
}

#[test]
fn tests_page_template_prefers_site_over_theme() {
    let theme = vec![template("theme/templates/page.html", "theme")];
    let site = vec![template("site/page.html", "site")];
    let rows = load_templates("theme/templates", &theme, "site", &site).unwrap();
    let chosen = rows.iter().find(|(name, _)| name == "page.html").unwrap();
    assert_eq!(chosen.1, "site");
}

#[test]
fn lib_page_template_prefers_site_over_theme() {
    let theme = vec![template("theme/templates/page.html", "theme")];
    let site = vec![template("site/page.html", "site")];
    let rows = load_templates("theme/templates", &theme, "site", &site).unwrap();
    assert_eq!(rows, vec![("page.html".to_string(), "site".to_string())]);
}

#[test]
fn a_site_without_templates_has_the_default_one() {
    let rows = load_templates("theme", &Vec::new(), "site", &Vec::new()).unwrap();
    assert_eq!(rows, vec![("page.html".to_string(), DEFAULT_PAGE_TEMPLATE.to_string())]);
    assert!(TemplateSet::new(&rows).is_ok());
}

#[test]
fn templates_are_chosen_by_name_then_by_directory() {
    let site = vec![
        template("site/page.html", "p"),
        template("site/posts.html", "d"),
        template("site/x/y.html", "n"),
    ];
    let rows = load_templates("theme", &Vec::new(), "site", &site).unwrap();
    let mut fm = FrontMatter::default();
    assert_eq!(resolve_template_name("content/posts/a.md", &fm, &rows), "posts.html");
    assert_eq!(resolve_template_name("content/a.md", &fm, &rows), "page.html");
    fm.template = Some("x/y.html".to_string());
    assert_eq!(resolve_template_name("content/posts/a.md", &fm, &rows), "x/y.html");
    fm.template = Some("missing.html".to_string());
    assert_eq!(resolve_template_name("content/posts/a.md", &fm, &rows), "posts.html");
}

#[test]
fn tests_template_hash_includes_theme_templates() {
    let site = vec![hashed("page.html", "site-v1")];
    let before =
        compute_template_dependency_hash(&site, &vec![hashed("theme/page.html", "theme-v1")]);
    let after =
        compute_template_dependency_hash(&site, &vec![hashed("theme/page.html", "theme-v2")]);
    assert_ne!(before, after);
}

#[test]
fn lib_template_hash_includes_theme_templates() {
    let site = vec![hashed("page.html", "site-v1")];
    let v1 = compute_template_dependency_hash(&site, &vec![hashed("t/page.html", "theme-v1")]);
    let v2 = compute_template_dependency_hash(&site, &vec![hashed("t/page.html", "theme-v2")]);
    assert_ne!(v1, v2);
}

#[test]
fn template_fingerprints_do_not_depend_on_the_order_of_files() {
    let (a, b) = (|| hashed("a.html", "1"), || hashed("b.html", "2"));
    assert_eq!(
        compute_template_dependency_hash(&vec![a(), b()], &Vec::new()),
        compute_template_dependency_hash(&vec![b(), a()], &Vec::new())
    );
    assert_ne!(
        compute_template_dependency_hash(&vec![a(), b()], &Vec::new()),
        compute_template_dependency_hash(&vec![a()], &vec![b()])
    );
}

#[test]
fn digests_are_those_of_blake3() {
    assert_eq!(digest_text("abc"), blake3::hash(b"abc").to_hex().to_string());
    let source = SourceFile { path: "p".to_string(), content: "abc".to_string() };
    assert_eq!(content_hash(&source), digest_text("abc"));
    assert_eq!(combine_fingerprints("a", "b"), "a:b");
    assert!(page_fingerprint(&source).contains(&digest_text("abc")));
    assert_eq!(
        hashed_file_content(&Some(vec![0xff, 0x00])),
        blake3::hash(&[0xff, 0x00]).to_hex().to_string()
    );
    assert_eq!(read_for_query(&Some(b"text".to_vec())), "text");
    assert_ne!(read_for_query(&Some(vec![0xff])), "");
}

#[test]
fn page_fingerprints_follow_what_the_page_uses() {
    let files = || vec![hashed("content/a.png", "x")];
    let base = compute_page_build_hash("# A", &files(), "t1");
    assert_eq!(base, compute_page_build_hash("# A", &files(), "t1"));
    assert_ne!(base, compute_page_build_hash("# B", &files(), "t1"));
    assert_ne!(base, compute_page_build_hash("# A", &files(), "t2"));
    assert_ne!(base, compute_page_build_hash("# A", &vec![hashed("content/a.png", "y")], "t1"));
    assert_eq!(compute_page_asset_dependency_hash(&Vec::new()), "page-assets:v1");
}

#[test]
fn references_are_found_in_pages() {
    let page = "![a](img/a.png \"t\") [b](b.pdf) <img src='c.jpg'> <a href=\"https://e.com\">";
    let mut refs = extract_asset_like_refs(page);
    refs.sort();
    assert_eq!(refs, owned(&["b.pdf", "c.jpg", "https://e.com", "img/a.png"]));
    assert!(is_external_ref("https://e.com") && is_external_ref("#top"));
    assert!(is_external_ref("mailto:a@b") && is_external_ref("data:x"));
    assert!(!is_external_ref("img/a.png"));
    assert_eq!(normalize_ref("a.png?x#y"), Some("a.png".to_string()));
    assert_eq!(normalize_ref("?x"), None);
    let mut deps = discover_page_asset_dependencies("content/posts/p.md", page);
    deps.sort();
    assert_eq!(
        deps,
        owned(&["content/posts/b.pdf", "content/posts/c.jpg", "content/posts/img/a.png"])
    );
    assert_eq!(page_asset_candidates("other/p.md", page, "content"), Vec::<String>::new());
}

#[test]
fn tests_data_context_supports_json_yaml_toml() {
    let file = |path: &str, raw: &str| DataFile { path: path.to_string(), raw: raw.to_string() };
    let files = vec![
        file("data/site.json", r#"{"name":"nanoss"}"#),
        file("data/theme.yaml", "kind: blog"),
        file("data/build.toml", "mode = 'fast'"),
    ];
    let json = load_data_context("data", &files, &Vec::new()).unwrap();
    let data: serde_json::Value = serde_json::from_str(&json).unwrap();
    let obj = data.as_object().unwrap();
    assert!(obj.contains_key("site"));
    assert!(obj.contains_key("theme"));
    assert!(obj.contains_key("build"));
    assert_eq!(data["site"]["name"], "nanoss");
    assert_eq!(data["theme"]["kind"], "blog");
    assert_eq!(data["build"]["mode"], "fast");
}

#[test]
fn lib_data_context_supports_json_yaml_toml() {
    let file = |path: &str, raw: &str| DataFile { path: path.to_string(), raw: raw.to_string() };
    let files = vec![
        file("data/site.json", r#"{"name":"nanoss"}"#),
        file("data/theme.yaml", "kind: blog"),
        file("data/build.toml", "mode = 'fast'"),
    ];
    let json = load_data_context("data", &files, &Vec::new()).unwrap();
    for key in ["site", "theme", "build"] {
        assert!(json.contains(&format!("\"{key}\":")));
    }
}

#[test]
fn data_keys_follow_the_paths_of_files() {
    assert_eq!(data_key("a/b.json"), "a.b");
    assert_eq!(data_key("x.toml"), "x");
    assert!(matches!(data_format("a.json"), Some(DataFormat::Json)));
    assert!(matches!(data_format("a.yml"), Some(DataFormat::Yaml)));
    assert!(matches!(data_format("a.toml"), Some(DataFormat::Toml)));
    assert!(data_format("a.txt").is_none());
    let quoted =
        vec![DataFile { path: "data/say \"hi\".json".to_string(), raw: "1".to_string() }];
    let json = load_data_context("data", &quoted, &Vec::new()).unwrap();
    assert_eq!(json, "{\"say \\\"hi\\\"\":1}");
}

#[test]
fn data_that_does_not_parse_is_refused() {
    for (path, raw) in [("data/a.json", "{"), ("data/a.yaml", "a: [1"), ("data/a.toml", "= 1")] {
        let files = vec![DataFile { path: path.to_string(), raw: raw.to_string() }];
        let e = load_data_context("data", &files, &Vec::new()).unwrap_err();
        assert!(e.message.contains(path), "{}", e.message);
    }
    assert_eq!(read_value(DataFormat::Json, " [1, 2] ").unwrap(), "[1,2]");
}

#[test]
fn remote_values_replace_local_ones() {
    let files = vec![DataFile { path: "data/a.json".to_string(), raw: "1".to_string() }];
    let remote = vec![("a".to_string(), "2".to_string()), ("b".to_string(), "3".to_string())];
    assert_eq!(load_data_context("data", &files, &remote).unwrap(), "{\"a\":2,\"b\":3}");
}

#[test]
fn remote_sources_fall_back_to_what_was_kept() {
    let at = |fetched: Option<&str>, kept: Option<&str>, fail_fast: bool| {
        resolve_remote("k", "public", fetched, kept, fail_fast).map_err(|e| e.message)
    };
    let fresh = at(Some("{\"a\":1}"), Some("2"), false).unwrap();
    assert_eq!(fresh.value, Some("{\"a\":1}".to_string()));
    assert_eq!(fresh.keep, Some("{\n  \"a\": 1\n}".to_string()));
    let kept = at(None, Some("2"), true).unwrap();
    assert_eq!((kept.value, kept.keep), (Some("2".to_string()), None));
    let nothing = at(None, None, false).unwrap();
    assert_eq!((nothing.value, nothing.keep), (None, None));
    assert_eq!(
        at(None, None, true).unwrap_err(),
        "remote data source 'k' failed and no cache is available"
    );
    assert_eq!(
        at(Some("{"), None, false).unwrap_err(),
        "failed to decode remote json for source 'k'"
    );
    assert_eq!(
        at(None, Some("{"), false).unwrap_err(),
        "failed to parse cached remote data public/.nanoss-cache/remote-data/k.json"
    );
    assert_eq!(remote_cache_path("public", "k"), "public/.nanoss-cache/remote-data/k.json");
    assert!(settle_remote("k", "f", None, None, false).unwrap().value.is_none());
}

#[test]
fn only_get_requests_are_made() {
    assert!(is_fetching_method("GET") && !is_fetching_method("get"));
    assert!(!is_fetching_method("POST"));
    let source = |method: &str| RemoteDataSourceConfig {
        url: "https://e.com".to_string(),
        method: method.to_string(),
        fail_fast: false,
    };
    assert!(wants_fetch(&source("Get")));
    assert!(wants_fetch(&source("get")));
    assert!(!wants_fetch(&source("gët")));
    assert!(!wants_fetch(&source("DELETE")));
}

fn post(path: &str, title: &str, date: Option<&str>, tags: &[&str], cats: &[&str]) -> ContentFile {
    ContentFile {
        path: path.to_string(),
        front: FrontMatter {
            title: Some(title.to_string()),
            date: date.map(|d| d.to_string()),
            tags: Some(owned(tags)),
            categories: Some(owned(cats)),
            ..FrontMatter::default()
        },
    }
}

fn roots() -> SiteRoots {
    SiteRoots {
        content_dir: "content".to_string(),
        output_dir: "public".to_string(),
        base_path: "/".to_string(),
    }
}

fn entries(files: Vec<ContentFile>) -> Vec<ContentEntry> {
    collect_content_entries(&files, &roots(), &I18nConfig::default(), false, "2026-06-01").unwrap()
}

#[test]
fn tests_organization_pages_use_theme_template() {
    let theme = vec![template(
        "theme/templates/page.html",
        "<!doctype html><html><body><div id=\"theme-marker\">{{ title }}</div>{{ content | safe }}</body></html>",
    )];
    let rows = load_templates("theme/templates", &theme, "none", &Vec::new()).unwrap();
    let set = TemplateSet::new(&rows).unwrap();
    let list = entries(vec![
        post("content/post-a.md", "Post A", None, &["rust"], &[]),
        post("content/post-b.md", "Post B", None, &[], &["notes"]),
    ]);
    let files =
        generate_content_organization_outputs(&set, &list, "public", "{}", "/").unwrap();
    for path in
        ["public/posts/index.html", "public/tags/rust/index.html", "public/categories/notes/index.html"]
    {
        let file = files.iter().find(|f| f.path == path).unwrap();
        assert!(file.content.contains("theme-marker"), "{path}");
    }
}

#[test]
fn lib_organization_pages_use_theme_template() {
    let theme = vec![template("t/page.html", "<i id=\"theme-marker\">{{ content | safe }}</i>")];
    let rows = load_templates("t", &theme, "none", &Vec::new()).unwrap();
    let set = TemplateSet::new(&rows).unwrap();
    let list = entries(vec![
        post("content/post-a.md", "Post A", None, &["rust"], &[]),
        post("content/post-b.md", "Post B", None, &[], &["notes"]),
    ]);
    let files =
        generate_content_organization_outputs(&set, &list, "public", "{}", "/").unwrap();
    assert_eq!(files.len(), 3);
    assert!(files.iter().all(|f| f.content.contains("theme-marker")));
    for path in
        ["public/posts/index.html", "public/tags/rust/index.html", "public/categories/notes/index.html"]
    {
        assert!(files.iter().any(|f| f.path == path), "{path}");
    }
}

#[test]
fn entries_are_listed_latest_first() {
    let mut draft = post("content/d.md", "D", None, &[], &[]);
    draft.front.draft = Some(true);
    let list = entries(vec![
        post("content/a.md", "A", Some("2026-01-01"), &[], &[]),
        post("content/n.md", "N", None, &[], &[]),
        post("content/b.md", "B", Some("2026-02-01"), &[], &[]),
        post("content/f.md", "F", Some("2027-01-01"), &[], &[]),
        draft,
    ]);
    let titles: Vec<&str> = list.iter().map(|e| e.title.as_str()).collect();
    assert_eq!(titles, vec!["B", "A", "N"]);
    assert_eq!(list[0].url, "/b.html");
}

#[test]
fn posts_are_paginated_and_grouped() {
    let files: Vec<ContentFile> = (0..11)
        .map(|i| post(&format!("content/p{i}.md"), &format!("P{i}"), None, &["Two Words"], &[]))
        .collect();
    let pages = collect_list_pages(&entries(files), "public");
    let paths: Vec<&str> = pages.iter().map(|p| p.path.as_str()).collect();
    assert_eq!(
        paths,
        vec![
            "public/posts/index.html",
            "public/posts/page/2/index.html",
            "public/tags/two-words/index.html",
        ]
    );
    assert_eq!(pages[1].body, "<h1>Posts</h1><ul><li><a href=\"/p10.html\">P10</a></li></ul>");
    assert_eq!(pages[2].body.matches("<li>").count(), 11);
    assert_eq!(pages[2].title, "Tags: Two Words");
}

#[test]
fn sitemaps_and_feeds_list_the_entries() {
    let list = entries(vec![post("content/a.md", "A", None, &[], &[])]);
    let files = generate_sitemap_and_feed(&list, "public", Some("https://example.com"));
    let get = |path: &str| &files.iter().find(|f| f.path == path).unwrap().content;
    assert!(get("public/sitemap.xml").contains("<loc>https://example.com/a.html</loc>"));
    assert!(files
        .iter()
        .any(|f| f.content.contains("<item><title>A</title><link>https://example.com/a.html</link>")));
}

#[test]
fn large_sites_have_several_sitemaps() {
    let many: Vec<ContentEntry> = (0..5001)
        .map(|i| ContentEntry {
            title: "T".to_string(),
            url: format!("/{i}.html"),
            date: None,
            tags: Vec::new(),
            categories: Vec::new(),
        })
        .collect();
    let files = generate_sitemap_and_feed(&many, "public", None);
    let get = |path: &str| &files.iter().find(|f| f.path == path).unwrap().content;
    assert_eq!(get("public/sitemap-1.xml").matches("<loc>").count(), 5000);
    assert_eq!(get("public/sitemap-2.xml").matches("<loc>").count(), 1);
    assert!(get("public/sitemap.xml").contains("sitemap-2.xml"));
}

#[test]
fn robots_are_told_of_the_sitemap() {
    let file = generate_robots_txt("public", Some("https://example.com"), "/", false);
    assert_eq!(file.path, "public/robots.txt");
    assert!(file.content.contains("Sitemap: https://example.com/sitemap.xml"));
    assert_eq!(
        generate_robots_txt("public", None, "/", true).content,
        "User-agent: *\nDisallow: /\n"
    );
    assert!(generate_robots_txt("public", Some("https://e.com"), "/docs", false)
        .content
        .ends_with("Sitemap: https://e.com/docs/sitemap.xml\n"));
}

#[test]
fn a_changed_theme_template_counts_among_others() {
    let site = || vec![hashed("a.html", "1"), hashed("z.html", "2")];
    let theme = |text: &str| {
        vec![hashed("t/a.html", "3"), hashed("t/page.html", text), hashed("t/z.html", "4")]
    };
    let v1 = compute_template_dependency_hash(&site(), &theme("v1"));
    assert_ne!(v1, compute_template_dependency_hash(&site(), &theme("v2")));
    assert_eq!(v1, compute_template_dependency_hash(&site(), &theme("v1")));
}
