//! Tests of the pipeline, its cache, its assets and its reports.
use nanoss::assets::{
    collect_classes, finish_css, optimize_css, process_script_asset, tailwind_command,
    tailwind_css, timeout_message, wait_step, CssFault, ScriptAction, WaitStep,
};
use nanoss::cache::{
    cache_path, schema_warning, BuildCache, CacheImageRecord, CacheRecord,
    BUILD_CACHE_SCHEMA_VERSION,
};
use nanoss::config::{
    default_remote_data_method, BuildConfig, BuildReport, BuildScope, I18nConfig, ImageBuildConfig,
    JsBackend, TailwindBackend, TailwindConfig,
};
use nanoss::images::{
    encode_webp, image_record, is_image_extension, plan_image_variants, sorted_widths,
    variant_output, VariantFormat,
};
use nanoss::links::{
    after_head, collect_external_links, judge_links, link_is_broken, tally, LinkCheckReport,
    StatusStep,
};
use nanoss::metrics::{escape_json, labels_to_json, StdoutMetricsCollector};
use nanoss::observability::{build_id, event_line, report_path, report_text, write_build_report};
use nanoss::pipeline::{
    classify_file, plan_build, plan_file, scope_includes_entry, scope_paths, scope_paths_set,
    BuildSession, Decision, FileKind, FileTask,
};
use nanoss::semantic::{semantic_index_path, semantic_tokens, token_bytes};

fn owned(v: &[&str]) -> Vec<String> {
    v.iter().map(|s| s.to_string()).collect()
}

fn config() -> BuildConfig {
    BuildConfig {
        content_dir: "content".to_string(),
        static_dir: "static".to_string(),
        output_dir: "public".to_string(),
        template_dir: None,
        theme_dir: None,
        plugin_paths: Vec::new(),
        plugin_init_config_json: "{}".to_string(),
        plugin_timeout_ms: 2_000,
        plugin_memory_limit_mb: 128,
        check_external_links: true,
        fail_on_broken_links: true,
        js_backend: JsBackend::Passthrough,
        tailwind: None,
        enable_ai_index: false,
        max_frontmatter_bytes: 64 * 1024,
        max_file_bytes: 100,
        max_total_files: 5,
        command_timeout_secs: 120,
        base_path: "/docs/".to_string(),
        site_domain: Some("https://example.com/".to_string()),
        images: ImageBuildConfig::default(),
        remote_data_sources: Vec::new(),
        i18n: I18nConfig::default(),
        build_scope: BuildScope::Full,
        include_drafts: false,
    }
}

fn record(hash: &str, output: &str) -> CacheRecord {
    CacheRecord { hash: hash.to_string(), output: output.to_string() }
}

#[test]
fn tests_build_cache_schema_mismatch_resets() {
    let mut kept = BuildCache::with_version(1);
    kept.put_page("k", record("h", "o"));
    let cache = kept.accepted();
    assert_eq!(cache.schema_version(), BUILD_CACHE_SCHEMA_VERSION);
    assert_eq!(cache.page_count(), 0);
    assert_eq!(
        schema_warning(1),
        "warning: cache schema mismatch 1 != 3, resetting cache"
    );
}

#[test]
fn lib_build_cache_schema_mismatch_resets() {
    let mut kept = BuildCache::with_version(1);
    kept.put_page("k", record("h", "o"));
    let cache = kept.accepted();
    assert_eq!(cache.schema_version(), BUILD_CACHE_SCHEMA_VERSION);
    assert!(cache.page_output("k", "h").is_none());
}

#[test]
fn caches_of_this_form_are_kept() {
    let mut kept = BuildCache::default();
    kept.put_page("k", record("h", "o"));
    kept.put_asset("a", record("g", "p"));
    let cache = kept.accepted();
    assert_eq!(cache.page_output("k", "h"), Some("o".to_string()));
    assert_eq!(cache.page_output("k", "x"), None);
    assert_eq!(cache.asset_output("a", "g"), Some("p".to_string()));
    assert_eq!(cache.asset_at(0).0, "a");
    assert_eq!(cache.page_at(0).1.output, "o");
    assert_eq!(cache_path("public"), "public/.nanoss-cache.json");
}

#[test]
fn plans_hold_the_normal_forms() {
    let plan = plan_build(&config()).unwrap();
    assert_eq!(plan.base_path, "/docs");
    assert_eq!(plan.site_domain, Some("https://example.com".to_string()));
    assert_eq!(plan.cache_file, "public/.nanoss-cache.json");
    let mut c = config();
    c.site_domain = Some("example.com".to_string());
    assert_eq!(
        plan_build(&c).unwrap_err().message,
        "site_domain must start with http:// or https://"
    );
    c.max_file_bytes = 0;
    assert_eq!(
        plan_build(&c).unwrap_err().message,
        "max_file_bytes must be greater than zero"
    );
}

#[test]
fn files_are_classified_by_their_extension() {
    for (path, kind) in [
        ("a.md", FileKind::Page),
        ("a.PNG", FileKind::Image),
        ("a.jpeg", FileKind::Image),
        ("a.scss", FileKind::Sass),
        ("a.sass", FileKind::Sass),
        ("a.css", FileKind::Css),
        ("a.js", FileKind::Script),
        ("a.mjs", FileKind::Script),
        ("a.cjs", FileKind::Script),
        ("a.ts", FileKind::Script),
        ("a.MD", FileKind::Other),
        ("a.txt", FileKind::Other),
        ("a", FileKind::Other),
    ] {
        assert_eq!(classify_file(path), kind, "{path}");
    }
    assert!(is_image_extension("TIFF") && !is_image_extension("svg"));
}

#[test]
fn files_get_their_tasks() {
    let c = config();
    assert!(matches!(plan_file(&c, "content/a.md", 100).unwrap(), FileTask::Page));
    let target = |path: &str| match plan_file(&c, path, 1).unwrap() {
        FileTask::Asset { target, .. } => target,
        FileTask::Page => panic!("a page"),
    };
    assert_eq!(target("content/x/a.scss"), "public/x/a.css");
    assert_eq!(target("content/a.ts"), "public/a.js");
    assert_eq!(target("content/a.js"), "public/a.js");
    assert_eq!(target("content/a.png"), "public/a.png");
    assert_eq!(
        plan_file(&c, "content/a.png", 101).unwrap_err().message,
        "file exceeds configured size limit (100 bytes): content/a.png"
    );
    assert_eq!(
        plan_file(&c, "other/a.png", 1).unwrap_err().message,
        "other/a.png is not inside content"
    );
}

#[test]
fn scopes_decide_which_files_are_taken() {
    let page = BuildScope::SinglePage { path: "content\\a.md".to_string() };
    let named = scope_paths_set(&scope_paths(&page));
    assert_eq!(named, owned(&["content/a.md"]));
    assert!(scope_includes_entry(&page, &named, "content/a.md", "content/a.md"));
    assert!(!scope_includes_entry(&page, &named, "content/b.md", "content/b.md"));
    let assets = BuildScope::AssetsOnly { paths: owned(&["a.css", "b.md"]) };
    let named = scope_paths_set(&scope_paths(&assets));
    assert!(scope_includes_entry(&assets, &named, "a.css", "a.css"));
    assert!(!scope_includes_entry(&assets, &named, "b.md", "b.md"));
    assert!(!scope_includes_entry(&assets, &named, "c.css", "c.css"));
    assert!(scope_includes_entry(&BuildScope::Full, &Vec::new(), "x", "x"));
}

#[test]
fn a_session_counts_what_it_settles() {
    let c = config();
    let mut cache = BuildCache::default();
    cache.put_page("content/kept.md", record("h1", "public/kept.html"));
    cache.put_asset("content/kept.png", record("h2", "public/kept.png"));
    let mut s = BuildSession::new(&c, &Vec::new(), cache, true);

    assert!(s.consider("content/kept.md", "content/kept.md").unwrap());
    assert_eq!(s.known_page("content/kept.md", "h1"), Some("public/kept.html".to_string()));
    assert_eq!(s.decide_page("content/kept.md", "h1", true), Decision::Keep);

    assert!(s.consider("content/new.md", "content/new.md").unwrap());
    assert_eq!(s.decide_page("content/new.md", "h3", true), Decision::Build);
    assert!(s.needs_runtime(true) && !s.needs_runtime(false));
    s.record_page("content/new.md", "h3", "public/new.html", true);
    assert!(!s.needs_runtime(true));

    assert!(s.consider("content/kept.png", "x").unwrap());
    assert_eq!(
        s.decide_asset(FileKind::Image, "content/kept.png", "h2", true),
        Decision::Keep
    );

    assert!(s.consider("content/a.scss", "x").unwrap());
    assert_eq!(s.decide_asset(FileKind::Sass, "content/a.scss", "h4", false), Decision::Build);
    s.record_asset(FileKind::Sass, "content/a.scss", "h4", "public/a.css", None);

    assert!(s.consider("content/b.png", "x").unwrap());
    let image = CacheImageRecord {
        hash: "h5".to_string(),
        output: "public/b.png".to_string(),
        width: None,
        height: None,
        variants: Vec::new(),
    };
    s.record_asset(FileKind::Image, "content/b.png", "h5", "public/b.png", Some(image));

    let e = s.consider("content/c.png", "x").unwrap_err();
    assert_eq!(e.message, "file count exceeds configured limit: 6 > 5");

    let e = s.count_links(&LinkCheckReport { checked: 3, broken: 1 }).unwrap_err();
    assert_eq!(e.message, "external link check failed: 1 broken links");
    s.count_indexed(2);
    assert!(s.writes_lists());
    let (report, cache) = s.finish();
    let expected = BuildReport {
        rendered_pages: 1,
        skipped_pages: 1,
        compiled_sass: 1,
        copied_assets: 2,
        checked_external_links: 3,
        broken_external_links: 1,
        processed_scripts: 0,
        compiled_tailwind: true,
        island_pages: 1,
        ai_indexed_pages: 2,
        processed_images: 1,
    };
    assert_eq!(report, expected);
    assert_eq!(cache.page_output("content/new.md", "h3"), Some("public/new.html".to_string()));
    assert_eq!(cache.page_count(), 2);
    assert_eq!(cache.asset_count(), 3);
    assert_eq!(cache.image_count(), 1);
    assert_eq!(cache.image_at(0).0, "content/b.png");
}

#[test]
fn outputs_that_are_gone_are_built_again() {
    let c = config();
    let mut cache = BuildCache::default();
    cache.put_page("a.md", record("h", "o"));
    let mut s = BuildSession::new(&c, &Vec::new(), cache, false);
    assert!(s.consider("a.md", "a.md").unwrap());
    assert_eq!(s.decide_page("a.md", "h", false), Decision::Build);
    assert_eq!(s.decide_page("a.md", "other", true), Decision::Build);
    assert_eq!(s.report().skipped_pages, 0);
}

#[test]
fn a_build_of_assets_writes_no_lists() {
    let mut c = config();
    c.build_scope = BuildScope::AssetsOnly { paths: owned(&["content/a.css"]) };
    let mut s = BuildSession::new(&c, &owned(&["content/a.css"]), BuildCache::default(), false);
    assert!(!s.writes_lists());
    assert!(s.consider("content/a.css", "content/a.css").unwrap());
    assert!(!s.consider("content/b.css", "content/b.css").unwrap());
    s.record_asset(FileKind::Css, "content/a.css", "h", "public/a.css", None);
    assert_eq!(s.report().copied_assets, 1);
}

#[test]
fn reports_are_summed_up() {
    let report = BuildReport { rendered_pages: 2, compiled_tailwind: true, ..BuildReport::default() };
    assert_eq!(
        report.summary(),
        "Built 2 pages (skipped 0, 0 with islands), compiled 0 Sass files, copied 0 assets, \
         processed 0 scripts, processed 0 images, tailwind: true, ai_indexed_pages: 0, \
         checked 0 external links (0 broken)."
    );
    assert_eq!(report_path("public"), "public/_nanoss/build-report.json");
    let compact: serde_json::Value =
        serde_json::from_str(&report_text("build-1", 7, &report)).unwrap();
    assert_eq!(compact["rendered_pages"], 2);
    assert_eq!(compact["duration_ms"], 7);
    let pretty = write_build_report("build-1", 7, &report).unwrap();
    assert!(pretty.contains("\n  \"build_id\": \"build-1\""));
    let reread: serde_json::Value = serde_json::from_str(&pretty).unwrap();
    assert_eq!(reread, compact);
    assert_eq!(default_remote_data_method(), "GET");
}

#[test]
fn events_have_one_line() {
    assert_eq!(build_id(1234, 5), "build-1234-5");
    assert_eq!(
        event_line("build_start", "build-1", "{\"a\":1}"),
        "{\"build_id\":\"build-1\",\"payload\":{\"a\":1},\"stage\":\"build_start\"}"
    );
}

#[test]
fn metrics_have_one_line() {
    assert_eq!(escape_json("a\"b\\c\nd"), "a\\\"b\\\\c\\nd");
    assert_eq!(labels_to_json(&[]), "{}");
    assert_eq!(labels_to_json(&[("a", "1"), ("b", "2")]), "{\"a\":\"1\",\"b\":\"2\"}");
    let collector = StdoutMetricsCollector;
    assert_eq!(
        collector.counter_line("n", &[("k", "v")]),
        "{\"metric_type\":\"counter\",\"name\":\"n\",\"labels\":{\"k\":\"v\"}}"
    );
    assert_eq!(
        collector.histogram_line("n", "1.5", &[]),
        "{\"metric_type\":\"histogram\",\"name\":\"n\",\"value\":1.5,\"labels\":{}}"
    );
}

fn variants(webp: bool, widths: Vec<u32>) -> Vec<(VariantFormat, u32, String)> {
    let images =
        ImageBuildConfig { enabled: true, generate_webp: webp, generate_avif: false, widths };
    plan_image_variants("public/cover.png", &images, 16)
        .into_iter()
        .map(|v| (v.format, v.width, v.output))
        .collect()
}

#[test]
fn tests_process_image_asset_generates_webp_variant() {
    let images = ImageBuildConfig {
        enabled: true,
        generate_webp: true,
        generate_avif: false,
        widths: vec![8],
    };
    let planned = plan_image_variants("public/cover.png", &images, 16);
    let record = image_record("h", "public/cover.png", Some((16, 16)), &planned);
    assert_eq!(record.width, Some(16));
    assert!(record.variants.iter().any(|v| v.format == "webp" && v.width == Some(8)));
    let img = image::RgbaImage::from_pixel(8, 8, image::Rgba([255, 0, 0, 255]));
    let bytes = encode_webp(&img.into_raw(), 8, 8).unwrap();
    let decoded = image::load_from_memory(&bytes).unwrap().to_rgba8();
    assert_eq!(decoded.dimensions(), (8, 8));
    assert_eq!(decoded.get_pixel(3, 3).0, [255, 0, 0, 255]);
}

#[test]
fn variants_fit_the_image() {
    assert_eq!(
        variants(true, vec![32, 8, 8, 16]),
        vec![
            (VariantFormat::Original, 8, "public/cover-w8.png".to_string()),
            (VariantFormat::Webp, 8, "public/cover-w8.webp".to_string()),
            (VariantFormat::Webp, 16, "public/cover-w16.webp".to_string()),
            (VariantFormat::Webp, 16, "public/cover-w16.webp".to_string()),
        ]
    );
    assert_eq!(variants(false, vec![]), vec![]);
    assert_eq!(sorted_widths(&vec![3, 1, 3, 2]), vec![1, 2, 3]);
    assert_eq!(variant_output("a/x", VariantFormat::Original, 9), "a/x-w9.img");
    let unopened = image_record("h", "t", None, &Vec::new());
    assert!(unopened.width.is_none() && unopened.variants.is_empty());
}

#[test]
fn empty_webp_images_are_refused() {
    assert_eq!(
        encode_webp(&Vec::new(), 0, 5).unwrap_err().message,
        "failed to encode webp variant"
    );
}

#[test]
fn scripts_are_copied_or_bundled() {
    let run = |source: &str, backend: JsBackend| {
        process_script_asset(source, "content", "public", backend).map_err(|e| e.message)
    };
    assert!(matches!(
        run("content/a.ts", JsBackend::Passthrough).unwrap(),
        ScriptAction::Copy { target } if target == "public/a.js"
    ));
    match run("content/a.js", JsBackend::Esbuild).unwrap() {
        ScriptAction::Run { target, command } => {
            assert_eq!(target, "public/a.js");
            assert_eq!(command.binary, "esbuild");
            assert_eq!(
                command.args,
                owned(&["content/a.js", "--bundle", "--minify", "--outfile", "public/a.js"])
            );
        }
        ScriptAction::Copy { .. } => panic!("copied"),
    }
    assert_eq!(
        run("a.js", JsBackend::Passthrough).unwrap_err(),
        "a.js is not inside content"
    );
}

fn tailwind(minify: bool) -> TailwindConfig {
    TailwindConfig {
        backend: TailwindBackend::Rswind,
        input_css: "in.css".to_string(),
        output_css: "out.css".to_string(),
        binary: "tailwindcss".to_string(),
        minify,
    }
}

#[test]
fn tailwind_is_run_on_its_files() {
    let command = tailwind_command(&tailwind(true));
    assert_eq!(command.binary, "tailwindcss");
    assert_eq!(command.args, owned(&["-i", "in.css", "-o", "out.css", "--minify"]));
    assert_eq!(tailwind_command(&tailwind(false)).args.len(), 4);
}

#[test]
fn classes_of_the_content_are_collected() {
    let files = owned(&["<p class=\"flex  p-4\">", "no classes", "<b class='flex'>"]);
    assert_eq!(collect_classes(&files), owned(&["flex", "p-4", "flex"]));
    let css = tailwind_css(&tailwind(false), &files).unwrap();
    assert!(css.contains(".flex"), "{css}");
    let small = tailwind_css(&tailwind(true), &files).unwrap();
    assert!(small.len() < css.len() && small.contains(".flex"), "{small}");
}

#[test]
fn style_sheets_are_minified() {
    let css = optimize_css("a.css", "a {\n  color: #ff0000;\n}\n").unwrap();
    assert_eq!(css, "a{color:red}");
    let e = optimize_css("a.css", "a { color: red; } }").unwrap_err();
    assert!(e.message.starts_with("failed to parse CSS a.css: "), "{}", e.message);
    assert_eq!(
        finish_css("a.css", Err(CssFault::Print("x".to_string()))).unwrap_err().message,
        "failed to process CSS a.css"
    );
    assert_eq!(finish_css("a.css", Ok("b".to_string())).unwrap(), "b");
}

#[test]
fn commands_are_given_their_time() {
    assert!(matches!(wait_step(true, 9_999_999, 1), WaitStep::Done));
    assert!(matches!(wait_step(false, 999, 0), WaitStep::Wait));
    assert!(matches!(wait_step(false, 1000, 0), WaitStep::Kill));
    assert!(matches!(wait_step(false, 119_999, 120), WaitStep::Wait));
    assert_eq!(timeout_message(0), "child process timed out after 1s");
    assert_eq!(timeout_message(120), "child process timed out after 120s");
}

#[test]
fn external_links_are_checked_once() {
    let pages = owned(&[
        "<a href=\"https://a.com\"><a href='http://b.com/x'><a href=\"/local\">",
        "<a href=\"https://a.com\"><a href=\"https://c.com\">",
    ]);
    let mut found = collect_external_links(&pages);
    found.sort();
    assert_eq!(found, owned(&["http://b.com/x", "https://a.com", "https://c.com"]));
    assert!(matches!(after_head(Some(200)), StatusStep::Known(200)));
    assert!(matches!(after_head(Some(405)), StatusStep::TryGet));
    assert!(matches!(after_head(None), StatusStep::TryGet));
    assert!(link_is_broken(None) && link_is_broken(Some(404)) && !link_is_broken(Some(399)));
    let report = tally(&vec![Some(200), None, Some(500)]);
    assert_eq!((report.checked, report.broken), (3, 2));
    assert!(judge_links(false, 3).is_ok() && judge_links(true, 0).is_ok());
}

#[test]
fn semantic_tokens_are_words() {
    assert_eq!(semantic_tokens("Hello, wörld-2!"), owned(&["Hello", "wörld", "2"]));
    assert_eq!(semantic_tokens(" .,"), Vec::<String>::new());
    let bytes = token_bytes("abc");
    assert_eq!(bytes, blake3::hash(b"abc").as_bytes().to_vec());
    assert_eq!(semantic_index_path("public"), "public/search/semantic-index.json");
}

#[test]
fn days_are_counted_from_1970() {
    let at = |days: u64| nanoss::calendar::day_after(days).text();
    assert_eq!(at(0), "1970-01-01");
    assert_eq!(at(58), "1970-02-28");
    assert_eq!(at(59), "1970-03-01");
    assert_eq!(at(789), "1972-02-29");
    assert_eq!(at(11_016), "2000-02-29");
    assert_eq!(at(20_453), "2025-12-31");
    assert_eq!(at(20_454), "2026-01-01");
}

#[test]
fn a_second_build_of_unchanged_pages_keeps_them_all() {
    let c = config();
    let pages = [("a.md", "h1", "a.html"), ("b.md", "h2", "b.html"), ("c.md", "h3", "c.html")];
    let build = |cache: BuildCache| {
        let mut s = BuildSession::new(&c, &Vec::new(), cache, false);
        for (path, hash, output) in pages {
            assert!(s.consider(path, path).unwrap());
            let exists = s.known_page(path, hash).is_some();
            if s.decide_page(path, hash, exists) == Decision::Build {
                s.record_page(path, hash, output, false);
            }
        }
        s.finish()
    };
    let (first, cache) = build(BuildCache::default());
    assert_eq!((first.rendered_pages, first.skipped_pages), (3, 0));
    let (second, cache) = build(cache);
    assert_eq!((second.rendered_pages, second.skipped_pages), (0, 3));
    assert_eq!(cache.page_count(), 3);
}
