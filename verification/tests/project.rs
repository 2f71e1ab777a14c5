//! Tests of the project, its plugins, its themes and its watcher.
use nanoss::config::{BuildScope, JsBackend, TailwindBackend};
use nanoss::project::{
    choose_config_file, config_beside_content, resolve_build, BuildArgs, ProjectConfig,
};
use nanoss::registry::{
    disable_plugin, enable_plugin, ensure_plugin_compatible, installed_message, judge_plugin,
    list_plugins, plan_install, plugin_install_path, PluginRegistry, PluginRegistryEntry,
};
use nanoss::theme::{
    copies_static, site_static_output, theme_dir_for, theme_line, theme_manifest,
    theme_page_template, theme_static_output, validate_theme_dir, StaticSource,
};
use nanoss::watch::{
    build_scope_for, classify_watch_change, plan_watch, rebuild_finish_line, rebuild_scope_line,
    rebuild_start_line, ChangeKind, RebuildScope,
};

fn owned(v: &[&str]) -> Vec<String> {
    v.iter().map(|s| s.to_string()).collect()
}

fn args() -> BuildArgs {
    BuildArgs {
        content_dir: "content".to_string(),
        static_dir: "static".to_string(),
        output_dir: "public".to_string(),
        template_dir: Some("templates".to_string()),
        theme: None,
        check_external_links: false,
        fail_on_broken_links: false,
        plugin_paths: Vec::new(),
        js_backend: JsBackend::Passthrough,
        tailwind_input: None,
        tailwind_output: None,
        tailwind_bin: "tailwindcss".to_string(),
        tailwind_minify: true,
        tailwind_backend: TailwindBackend::Standalone,
        enable_ai_index: false,
        base_path: Some("/".to_string()),
        site_domain: None,
        include_drafts: false,
        config: None,
    }
}

fn entry(id: &str, min: &str) -> PluginRegistryEntry {
    PluginRegistryEntry {
        id: id.to_string(),
        version: "0.1.0".to_string(),
        min_host_version: min.to_string(),
        wasm_path: format!("store/{id}.wasm"),
        official: true,
    }
}

#[test]
fn plugin_install_and_enable_roundtrip() {
    let mut registry = PluginRegistry::default();
    let entry = plan_install("demo", "0.1.0", "demo.wasm", "0.1.0", true).unwrap();
    assert_eq!(entry.wasm_path, ".nanoss/plugins/store/demo/0.1.0/demo.wasm");
    assert_eq!(entry.wasm_path, plugin_install_path("demo", "0.1.0"));
    assert_eq!(
        installed_message("Installed", &entry),
        "Installed plugin demo@0.1.0 -> .nanoss/plugins/store/demo/0.1.0/demo.wasm"
    );
    registry.install(entry, "0.1.0").unwrap();
    let mut enabled: Vec<String> = Vec::new();
    assert_eq!(enable_plugin(&registry, &mut enabled, "demo").unwrap(), "Enabled plugin demo");
    assert!(enabled.contains(&"demo".to_string()));
    assert_eq!(
        list_plugins(&registry, &enabled),
        owned(&["demo 0.1.0 (enabled) -> .nanoss/plugins/store/demo/0.1.0/demo.wasm"])
    );
    assert_eq!(disable_plugin(&mut enabled, "demo"), "Disabled plugin demo");
    assert!(enabled.is_empty());
    assert_eq!(
        enable_plugin(&registry, &mut enabled, "other").unwrap_err().message,
        "plugin 'other' is not installed"
    );
}

#[test]
fn plugins_come_from_wasm_files() {
    let e = plan_install("demo", "0.1.0", "demo.txt", "0.1.0", true).unwrap_err();
    assert_eq!(e.message, "plugin source must be a .wasm file");
    assert_eq!(list_plugins(&PluginRegistry::default(), &Vec::new()), owned(&["No plugins installed."]));
}

#[test]
fn installing_again_replaces_the_entry() {
    let mut registry = PluginRegistry::default();
    registry.install(entry("b", "0.1.0"), "0.1.0").unwrap();
    registry.install(entry("a", "0.1.0"), "0.1.0").unwrap();
    let mut again = entry("b", "0.1.0");
    again.version = "0.2.0".to_string();
    registry.install(again, "0.1.0").unwrap();
    assert_eq!(registry.count(), 2);
    assert_eq!(registry.at(0).0, "a");
    assert_eq!(registry.find("b").unwrap().version, "0.2.0");
    assert!(registry.find("c").is_none());
    assert!(registry.install(entry("c", "9.0.0"), "0.1.0").is_err());
    assert!(registry.find("c").is_none());
}

#[test]
fn plugins_need_a_host_that_is_new_enough() {
    assert!(ensure_plugin_compatible(&entry("p", "0.1.0"), "0.1.0").unwrap().is_empty());
    assert_eq!(
        ensure_plugin_compatible(&entry("p", "0.2.0"), "0.1.0").unwrap_err().message,
        "plugin p requires host >= 0.2.0, current 0.1.0"
    );
    assert_eq!(
        ensure_plugin_compatible(&entry("p", "x"), "0.1.0").unwrap_err().message,
        "invalid plugin min_host_version for p"
    );
    assert_eq!(
        ensure_plugin_compatible(&entry("p", "0.1.0"), "x").unwrap_err().message,
        "invalid host semver"
    );
    // A pre-release comes before its release.
    assert!(ensure_plugin_compatible(&entry("p", "1.0.0"), "1.0.0-alpha").is_err());
    assert!(ensure_plugin_compatible(&entry("p", "1.0.0-alpha"), "1.0.0").is_ok());
}

#[test]
fn old_plugins_are_noted() {
    let notes = ensure_plugin_compatible(&entry("p", "0.1.0"), "1.4.0").unwrap();
    assert_eq!(
        notes,
        owned(&[
            "warning: plugin p targets host major 0 but current major is 1 (legacy compatibility mode)",
            "hint: plugin p is older than two host minor versions; consider upgrading plugin for latest v2 payload support",
        ])
    );
    assert_eq!(
        judge_plugin("p", "m", "h", Some((1, 3, 0)), Some((1, 1, 0)), false).unwrap(),
        Vec::<String>::new()
    );
    assert!(judge_plugin("p", "m", "h", None, Some((1, 1, 0)), false).is_err());
}

#[test]
fn theme_validate_reports_missing_files() {
    let dir = theme_dir_for("broken");
    assert_eq!(dir, ".nanoss/themes/broken");
    assert_eq!(theme_manifest(&dir), ".nanoss/themes/broken/theme.toml");
    assert_eq!(theme_page_template(&dir), ".nanoss/themes/broken/templates/page.html");
    let err = validate_theme_dir(&dir, true, false, false).unwrap_err();
    assert!(err.message.contains("theme.toml"));
    assert_eq!(
        validate_theme_dir(&dir, false, false, false).unwrap_err().message,
        "theme directory not found: .nanoss/themes/broken"
    );
    assert_eq!(
        validate_theme_dir(&dir, true, true, false).unwrap_err().message,
        "theme missing templates/page.html: .nanoss/themes/broken"
    );
    assert!(validate_theme_dir(&dir, true, true, true).is_ok());
}

#[test]
fn the_active_theme_is_marked() {
    assert_eq!(theme_line("dark", Some("dark")), "* dark");
    assert_eq!(theme_line("dark", Some("light")), "  dark");
    assert_eq!(theme_line("dark", None), "  dark");
}

#[test]
fn tests_copy_theme_static_skips_existing_output() {
    let target =
        theme_static_output("theme/static/assets/logo.txt", "theme/static", "out").unwrap();
    assert_eq!(target, "out/assets/logo.txt");
    assert!(!copies_static(StaticSource::Theme, true));
    assert!(copies_static(StaticSource::Theme, false));
    assert_eq!(
        theme_static_output("x", "theme/static", "out").unwrap_err().message,
        "failed to relativize theme static x"
    );
}

#[test]
fn tests_copy_site_static_assets_overwrites_existing_output() {
    let target = site_static_output("static/assets/logo.txt", "static", "out").unwrap();
    assert_eq!(target, "out/assets/logo.txt");
    assert!(copies_static(StaticSource::Site, true));
    assert_eq!(
        site_static_output("x", "static", "out").unwrap_err().message,
        "failed to relativize static asset x"
    );
}

#[test]
fn build_prefers_content_parent_project_config() {
    let beside = config_beside_content("examples/e2e/content");
    assert_eq!(beside, Some("examples/e2e/nanoss.toml".to_string()));
    assert_eq!(
        choose_config_file(None, "examples/e2e/content", true),
        "examples/e2e/nanoss.toml"
    );
    assert_eq!(choose_config_file(None, "examples/e2e/content", false), "nanoss.toml");
    assert_eq!(choose_config_file(Some("x.toml"), "examples/e2e/content", true), "x.toml");
    assert_eq!(choose_config_file(None, "content", true), "nanoss.toml");

    let mut project = ProjectConfig::default();
    project.build.base_path = Some("/".to_string());
    project.build.site_domain = Some("https://example.com".to_string());
    let (config, notes) =
        resolve_build(&args(), project, &PluginRegistry::default(), "0.1.0", BuildScope::Full)
            .unwrap();
    assert_eq!(config.base_path, "/");
    assert_eq!(config.site_domain, Some("https://example.com".to_string()));
    assert!(notes.is_empty());
}

#[test]
fn the_command_line_goes_before_the_project() {
    let mut project = ProjectConfig::default();
    project.build.base_path = Some("/project".to_string());
    project.theme_name = Some("light".to_string());
    project.plugins.config_json = Some("{\"a\":1}".to_string());
    let mut a = args();
    a.base_path = Some("/args".to_string());
    a.theme = Some("dark".to_string());
    a.tailwind_input = Some("in.css".to_string());
    let (config, _) =
        resolve_build(&a, project, &PluginRegistry::default(), "0.1.0", BuildScope::Full).unwrap();
    assert_eq!(config.base_path, "/args");
    assert_eq!(config.theme_dir, Some(".nanoss/themes/dark".to_string()));
    assert_eq!(config.plugin_init_config_json, "{\"a\":1}");
    assert!(config.tailwind.is_none());
    assert_eq!(config.max_file_bytes, 10 * 1024 * 1024);
    assert_eq!(config.max_frontmatter_bytes, 64 * 1024);
    let mut a = args();
    a.base_path = None;
    a.tailwind_input = Some("in.css".to_string());
    a.tailwind_output = Some("out.css".to_string());
    let (config, _) = resolve_build(
        &a,
        ProjectConfig::default(),
        &PluginRegistry::default(),
        "0.1.0",
        BuildScope::Full,
    )
    .unwrap();
    assert_eq!(config.base_path, "/");
    assert_eq!(config.plugin_init_config_json, "{}");
    assert_eq!(config.tailwind.unwrap().output_css, "out.css");
}

#[test]
fn enabled_plugins_join_those_of_the_command_line() {
    let mut registry = PluginRegistry::default();
    registry.put("b", entry("b", "0.1.0"));
    registry.put("z", entry("z", "9.0.0"));
    let mut project = ProjectConfig::default();
    project.plugins.enabled = owned(&["b", "gone"]);
    let mut a = args();
    a.plugin_paths = owned(&["z/own.wasm", "a.wasm", "store/b.wasm"]);
    let (config, _) = resolve_build(&a, project, &registry, "0.1.0", BuildScope::Full).unwrap();
    assert_eq!(config.plugin_paths, owned(&["a.wasm", "store/b.wasm", "z/own.wasm"]));
    let mut project = ProjectConfig::default();
    project.plugins.enabled = owned(&["z"]);
    let e = resolve_build(&a, project, &registry, "0.1.0", BuildScope::Full).err().unwrap();
    assert_eq!(e.message, "plugin z requires host >= 9.0.0, current 0.1.0");
}

#[test]
fn changes_are_classified() {
    let kind = |paths: &[&str]| classify_watch_change(Some("templates"), &owned(paths));
    assert_eq!(kind(&[]), ChangeKind::Unknown);
    assert_eq!(kind(&["templates/page.html"]), ChangeKind::Template);
    assert_eq!(kind(&["x/.nanoss/themes/t/page.html", "a.md"]), ChangeKind::Template);
    assert_eq!(kind(&["content/a.md"]), ChangeKind::SinglePage);
    assert_eq!(kind(&["content/a.html"]), ChangeKind::AssetsOnly);
    assert_eq!(kind(&["a.css", "b.png"]), ChangeKind::AssetsOnly);
    assert_eq!(kind(&["a.md", "b.png"]), ChangeKind::Mixed);
    assert_eq!(kind(&["a.md", "b.md"]), ChangeKind::Mixed);
    assert_eq!(classify_watch_change(None, &owned(&["templates/p.html"])), ChangeKind::AssetsOnly);
}

#[test]
fn changes_decide_the_scope_of_the_rebuild() {
    let scope = |paths: &[&str]| {
        let changed = owned(paths);
        build_scope_for(classify_watch_change(None, &changed).rebuild_scope(), &changed)
    };
    assert!(matches!(scope(&["a.md"]), BuildScope::SinglePage { path } if path == "a.md"));
    assert!(
        matches!(scope(&["a.css", "b.js"]), BuildScope::AssetsOnly { paths } if paths.len() == 2)
    );
    assert!(matches!(scope(&["a.md", "b.js"]), BuildScope::Full));
    assert!(matches!(scope(&[]), BuildScope::Full));
    assert!(matches!(build_scope_for(RebuildScope::SinglePage, &owned(&["a.css"])), BuildScope::Full));
}

#[test]
fn rebuilds_are_logged() {
    assert_eq!(
        rebuild_scope_line(RebuildScope::SinglePage),
        "{\"stage\":\"rebuild_scope\",\"scope\":\"SinglePage\"}"
    );
    assert_eq!(
        rebuild_start_line(ChangeKind::Mixed, &owned(&["a\"b", "c"])),
        "{\"stage\":\"watch_rebuild_start\",\"change_kind\":\"mixed\",\"changed\":[\"a\\\"b\",\"c\"]}"
    );
    assert_eq!(
        rebuild_finish_line(ChangeKind::AssetsOnly),
        "{\"stage\":\"watch_rebuild_finish\",\"change_kind\":\"assets_only\",\"status\":\"ok\"}"
    );
}

#[test]
fn what_exists_is_watched() {
    let plan = plan_watch("content", Some("templates"), false, Some("t"), true);
    assert_eq!(plan.dirs, owned(&["content", ".nanoss/themes/t"]));
    assert_eq!(
        plan.warning.unwrap(),
        "warning: template directory not found, skipping watch: templates"
    );
    let plan = plan_watch("content", Some("templates"), true, Some("t"), false);
    assert_eq!(plan.dirs, owned(&["content", "templates"]));
    assert!(plan.warning.is_none());
}
