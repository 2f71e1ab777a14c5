//! Tests of the checks.
use nanoss::config::{BuildConfig, BuildScope, I18nConfig, ImageBuildConfig, JsBackend};
use nanoss::validation::{
    ensure_binary_name_safe, ensure_inside_output, split_frontmatter, validate_build_config,
    validate_frontmatter_size, validate_route_segment,
};

fn config() -> BuildConfig {
    BuildConfig {
        content_dir: "content".to_string(),
        static_dir: "static".to_string(),
        output_dir: "public".to_string(),
        template_dir: None,
        theme_dir: None,
        plugin_paths: Vec::new(),
        plugin_init_config_json: "{}".to_string(),
        plugin_timeout_ms: 2_000,
        plugin_memory_limit_mb: 128,
        check_external_links: false,
        fail_on_broken_links: false,
        js_backend: JsBackend::Passthrough,
        tailwind: None,
        enable_ai_index: false,
        max_frontmatter_bytes: 64 * 1024,
        max_file_bytes: 10 * 1024 * 1024,
        max_total_files: 100_000,
        command_timeout_secs: 120,
        base_path: "/".to_string(),
        site_domain: None,
        images: ImageBuildConfig::default(),
        remote_data_sources: Vec::new(),
        i18n: I18nConfig::default(),
        build_scope: BuildScope::Full,
        include_drafts: false,
    }
}

fn refusal(c: &BuildConfig) -> Option<String> {
    validate_build_config(c).err().map(|e| e.message)
}

#[test]
fn tests_route_segment_rejects_traversal() {
    assert!(validate_route_segment("../etc", "slug").is_err());
    assert!(validate_route_segment("ok-slug_1", "slug").is_ok());
}

#[test]
fn lib_route_segment_rejects_traversal() {
    assert!(validate_route_segment("../etc", "slug").is_err());
    assert!(validate_route_segment("ok-slug_1", "slug").is_ok());
}

#[test]
fn route_segments_are_single_names() {
    for bad in ["", "a/b", "a\\b", "..", "a.b", "a b", "é"] {
        assert!(validate_route_segment(bad, "lang").is_err(), "{bad:?}");
    }
    let message = |v: &str| validate_route_segment(v, "lang").unwrap_err().message;
    assert_eq!(message(""), "lang cannot be empty");
    assert_eq!(message("a/b"), "lang contains invalid path traversal characters");
    assert_eq!(message("a b"), "lang may only contain [a-zA-Z0-9_-]");
    for good in ["a", "A-1_b", "0"] {
        assert!(validate_route_segment(good, "lang").is_ok(), "{good:?}");
    }
}

#[test]
fn build_configs_are_checked_in_order() {
    assert_eq!(refusal(&config()), None);
    let mut c = config();
    c.max_frontmatter_bytes = 0;
    assert_eq!(refusal(&c).unwrap(), "max_frontmatter_bytes must be greater than zero");
    let mut c = config();
    c.max_file_bytes = 0;
    assert_eq!(refusal(&c).unwrap(), "max_file_bytes must be greater than zero");
    let mut c = config();
    c.max_total_files = 0;
    assert_eq!(refusal(&c).unwrap(), "max_total_files must be greater than zero");
    let mut c = config();
    c.base_path = "docs".to_string();
    assert_eq!(refusal(&c).unwrap(), "base_path must start with '/'");
    let mut c = config();
    c.images.widths = vec![480, 0];
    assert_eq!(refusal(&c).unwrap(), "image width variants must be > 0");
    let mut c = config();
    c.i18n.default_locale = Some("e/n".to_string());
    assert_eq!(
        refusal(&c).unwrap(),
        "default_locale contains invalid path traversal characters"
    );
    let mut c = config();
    c.i18n.locales = vec!["en".to_string(), "z h".to_string()];
    assert_eq!(refusal(&c).unwrap(), "locale may only contain [a-zA-Z0-9_-]");
}

#[test]
fn binary_names_are_plain() {
    assert!(ensure_binary_name_safe("tailwindcss").is_ok());
    let message = |b: &str| ensure_binary_name_safe(b).unwrap_err().message;
    assert_eq!(message(" \t"), "binary name cannot be empty");
    assert_eq!(message("a\nb"), "binary name contains invalid control characters");
    assert_eq!(message("a\rb"), "binary name contains invalid control characters");
}

#[test]
fn candidates_outside_the_output_are_refused() {
    assert!(ensure_inside_output("public", "public/a/index.html").is_ok());
    assert!(ensure_inside_output("public", "publicity/index.html").is_err());
    assert_eq!(
        ensure_inside_output("public", "/etc/hosts").unwrap_err().message,
        "target path escapes output directory: /etc/hosts"
    );
}

#[test]
fn front_matter_is_split_off() {
    let (front, body) = split_frontmatter("---\ntitle: A\n---\n\nHello");
    assert_eq!(front.unwrap().trim(), "title: A");
    assert_eq!(body.trim(), "Hello");
    let (front, body) = split_frontmatter("no front matter");
    assert!(front.is_none());
    assert_eq!(body, "no front matter");
}

#[test]
fn large_front_matter_is_refused() {
    let raw = "---\ntitle: A long title\n---\n\nHello";
    assert!(validate_frontmatter_size(raw, 1000).is_ok());
    assert_eq!(
        validate_frontmatter_size(raw, 3).unwrap_err().message,
        "frontmatter size 19 exceeds limit 3"
    );
    // The size is counted in bytes.
    assert!(validate_frontmatter_size("---\nt: é\n---\n", 5).is_ok());
    assert_eq!(
        validate_frontmatter_size("---\nt: é\n---\n", 4).unwrap_err().message,
        "frontmatter size 5 exceeds limit 4"
    );
    assert!(validate_frontmatter_size("no front matter", 3).is_ok());
}
