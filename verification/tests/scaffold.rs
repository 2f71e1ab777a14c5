//! Tests of the scaffolds.
use nanoss::config::I18nConfig;
use nanoss::frontmatter::FrontMatter;
use nanoss::markdown::Highlighter;
use nanoss::page::{build_page_ir, finish_page, render_page, PageSetting};
use nanoss::pipeline::{classify_file, FileKind};
use nanoss::route::output_path_for;
use nanoss::scaffold::{
    choice_step, choose_kind, ci_file, create_if_missing, create_page_scaffold, create_scaffold,
    create_site_scaffold, deploy_file, generated_message, path_to_check, prompt_new_kind, run_new,
    starter_page_template, starter_site_css, starter_theme_css, starter_theme_template, ChoiceStep,
    CiProvider, DeployTarget, FileAction, NewCommand, NewKind, NewPlan, Scaffold,
};
use nanoss::templates::{load_templates, TemplateFile, TemplateSet};

fn paths(s: &Scaffold) -> Vec<&str> {
    s.files.iter().map(|f| f.path.as_str()).collect()
}

fn content<'a>(s: &'a Scaffold, path: &str) -> &'a str {
    s.files.iter().find(|f| f.path == path).unwrap().content.as_str()
}

#[test]
fn prompt_new_kind_accepts_numeric_and_text() {
    let mut out = String::new();
    let kind = prompt_new_kind("demo", "2\n", &mut out).unwrap();
    assert!(matches!(kind, NewKind::Theme));

    let mut out = String::new();
    let kind = prompt_new_kind("demo", "plugin\n", &mut out).unwrap();
    assert!(matches!(kind, NewKind::Plugin));
}

#[test]
fn the_question_is_repeated_three_times() {
    let mut out = String::new();
    let kind = prompt_new_kind("demo", "x\n\n PAGE \n", &mut out).unwrap();
    assert_eq!(kind, NewKind::Page);
    assert_eq!(
        out,
        "Select type for 'demo':\n  1) site\n  2) theme\n  3) page\n  4) plugin\n\
         Enter choice [1-4]: invalid choice, please enter 1/2/3/4\n\
         Enter choice [1-4]: invalid choice, please enter 1/2/3/4\nEnter choice [1-4]: "
    );
    let mut out = String::new();
    let e = prompt_new_kind("demo", "x\ny\nz\n1\n", &mut out).unwrap_err();
    assert_eq!(e.message, "too many invalid selections");
    assert_eq!(out.matches("invalid choice").count(), 3);
    let mut out = String::new();
    assert!(prompt_new_kind("demo", "", &mut out).is_err());
}

#[test]
fn kinds_are_chosen_by_number_or_name() {
    assert_eq!(choose_kind("1\n"), Some(NewKind::Site));
    assert_eq!(choose_kind("Theme"), Some(NewKind::Theme));
    assert_eq!(choose_kind(" 3 "), Some(NewKind::Page));
    assert_eq!(choose_kind("4"), Some(NewKind::Plugin));
    assert_eq!(choose_kind("5"), None);
    assert!(matches!(choice_step("1", 1), ChoiceStep::Chosen(NewKind::Site)));
    assert!(matches!(choice_step("?", 2), ChoiceStep::Again(_)));
    assert!(matches!(choice_step("?", 1), ChoiceStep::GivenUp(_, _)));
}

#[test]
fn init_creates_starter_and_is_idempotent() {
    let first = create_site_scaffold(".");
    for name in ["nanoss.toml", "content/index.md", "templates/page.html"] {
        let path = format!("./{name}");
        assert!(paths(&first).contains(&path.as_str()), "{path}");
        assert_eq!(create_if_missing(&path, false, false), (FileAction::Write, None));
        assert_eq!(
            create_if_missing(&path, true, false),
            (FileAction::Skip, Some(format!("skip existing {path}")))
        );
        assert_eq!(
            create_if_missing(&path, true, true),
            (FileAction::Overwrite, Some(format!("overwrite {path}")))
        );
    }
    assert_eq!(first.message, "Initialized Nanoss starter at .");
    assert_eq!(content(&first, "./templates/page.html"), starter_page_template());
    assert_eq!(content(&first, "./content/styles/site.css"), starter_site_css());
}

#[test]
fn init_then_build_succeeds() {
    let site = create_site_scaffold(".");
    let index = content(&site, "./content/index.md");
    let (front, body) = index.split_once("\n---\n").unwrap();
    assert_eq!(front, "---\ntitle: Home");
    let fm = FrontMatter { title: Some("Home".to_string()), ..FrontMatter::default() };
    let i18n = I18nConfig {
        locales: vec!["en".to_string(), "zh".to_string()],
        default_locale: Some("en".to_string()),
        prefix_default_locale: false,
    };
    assert_eq!(classify_file("content/index.md"), FileKind::Page);
    let output =
        output_path_for("content/index.md", "content", "public", None, None, &i18n).unwrap();
    assert_eq!(output, "public/index.html");

    let source = content(&site, "./templates/page.html").to_string();
    let files = vec![TemplateFile { path: "templates/page.html".to_string(), source }];
    let rows = load_templates("", &Vec::new(), "templates", &files).unwrap();
    let set = TemplateSet::new(&rows).unwrap();
    let ir = build_page_ir(&Highlighter::new(), "content/index.md", &fm, body);
    let setting = PageSetting {
        path: "content/index.md".to_string(),
        content_dir: "content".to_string(),
        output_dir: "public".to_string(),
        output,
        base_path: "/".to_string(),
        data_json: "{}".to_string(),
    };
    let widths = vec![480, 768, 1200];
    let html = render_page(&set, &rows, &setting, &fm, body, &ir, &widths, &i18n).unwrap();
    let (html, has_islands) = finish_page(&html, "/");
    assert!(!has_islands);
    assert!(html.contains("<title>Home</title>"), "{html}");
    assert!(html.contains("<h1 id=\"welcome-to-nanoss\">Welcome to Nanoss</h1>"), "{html}");
}

#[test]
fn new_subcommands_create_expected_scaffold() {
    let make = |kind: NewKind, name: &str| create_scaffold(kind, name, false, false).unwrap();
    assert!(paths(&make(NewKind::Site, "demo-site")).contains(&"demo-site/nanoss.toml"));
    let theme = make(NewKind::Theme, "demo-theme");
    assert!(paths(&theme).contains(&".nanoss/themes/demo-theme/theme.toml"));
    assert_eq!(
        content(&theme, ".nanoss/themes/demo-theme/templates/page.html"),
        starter_theme_template()
    );
    assert_eq!(
        content(&theme, ".nanoss/themes/demo-theme/static/theme.css"),
        starter_theme_css()
    );
    let page = make(NewKind::Page, "guide/getting-started");
    assert!(paths(&page).contains(&"content/guide/getting-started.md"));
    let plugin = make(NewKind::Plugin, "demo-plugin");
    assert!(paths(&plugin).contains(&"plugins/demo-plugin/Cargo.toml"));
    assert!(content(&plugin, "plugins/demo-plugin/Cargo.toml")
        .contains("name = \"nanoss-plugin-demo_plugin\""));
    assert_eq!(plugin.dirs, vec!["plugins/demo-plugin/src".to_string()]);
}

#[test]
fn new_site_requires_force_when_dir_exists() {
    let e = create_scaffold(NewKind::Site, "demo", true, false).unwrap_err();
    assert!(e.message.contains("already exists"));
    assert_eq!(
        e.message,
        "target directory already exists: demo (use -f/--force to continue)"
    );
    let forced = create_scaffold(NewKind::Site, "demo", true, true).unwrap();
    assert!(paths(&forced).contains(&"demo/nanoss.toml"));
}

#[test]
fn themes_and_plugins_that_exist_need_force() {
    assert_eq!(
        create_scaffold(NewKind::Theme, "t", true, false).unwrap_err().message,
        "theme already exists: .nanoss/themes/t (use -f/--force to continue)"
    );
    assert_eq!(
        create_scaffold(NewKind::Plugin, "p", true, false).unwrap_err().message,
        "plugin scaffold already exists: plugins/p (use -f/--force to continue)"
    );
    assert!(create_scaffold(NewKind::Page, "p", true, false).is_ok());
    assert_eq!(path_to_check(NewKind::Page, "p"), None);
    assert_eq!(path_to_check(NewKind::Plugin, "p"), Some("plugins/p".to_string()));
}

#[test]
fn new_pages_are_named_after_their_file() {
    let page = create_page_scaffold("guide/getting-started");
    assert_eq!(
        page.files[0].content,
        "---\ntitle: getting started\nslug: getting-started\n---\n\n# getting started\n\nWrite your content here.\n"
    );
    assert_eq!(page.message, "Created page content/guide/getting-started.md");
    assert_eq!(create_page_scaffold("a.markdown").files[0].path, "content/a.markdown");
    assert!(create_page_scaffold("..").files[0].content.contains("slug: new-page"));
}

#[test]
fn requests_for_something_new_are_read() {
    let command = |force: bool| {
        Some(NewCommand { kind: NewKind::Site, name: "a".to_string(), force })
    };
    assert!(matches!(
        run_new(command(false), None, true).unwrap(),
        NewPlan::Create { kind: NewKind::Site, force: true, .. }
    ));
    assert!(matches!(
        run_new(command(false), None, false).unwrap(),
        NewPlan::Create { force: false, .. }
    ));
    assert!(matches!(run_new(None, Some("a".to_string()), false).unwrap(), NewPlan::Ask { .. }));
    assert_eq!(
        run_new(None, None, false).unwrap_err().message,
        "usage: nanoss new <name> or nanoss new <site|theme|page|plugin> <value>"
    );
    assert_eq!(
        run_new(command(false), Some("b".to_string()), false).unwrap_err().message,
        "when using explicit new type, do not pass extra unnamed args"
    );
}

#[test]
fn generate_ci_writes_github_workflow() {
    let file = ci_file(CiProvider::Github, "public");
    assert_eq!(file.path, ".github/workflows/nanoss.yml");
    assert!(file.content.contains("cargo run -p nanoss-cli -- build"));
    assert!(file.content.ends_with("          path: public\n"));
    assert_eq!(generated_message(&file), "Generated .github/workflows/nanoss.yml");
    let file = ci_file(CiProvider::Gitlab, "out");
    assert_eq!(file.path, ".gitlab-ci.yml");
    assert!(file.content.ends_with("  artifacts:\n    paths:\n      - out\n"));
}

#[test]
fn deployments_name_the_output() {
    let file = deploy_file(DeployTarget::Netlify, "out");
    assert_eq!(file.path, "netlify.toml");
    assert_eq!(
        file.content,
        "[build]\ncommand = \"cargo run -p nanoss-cli -- build --output-dir out\"\npublish = \"out\"\n"
    );
    let file = deploy_file(DeployTarget::Vercel, "out");
    assert_eq!(file.path, "vercel.json");
    let value: serde_json::Value = serde_json::from_str(&file.content).unwrap();
    assert_eq!(value["outputDirectory"], "out");
    let file = deploy_file(DeployTarget::CloudflarePages, "out");
    assert_eq!(file.path, "wrangler.toml");
    assert!(file.content.ends_with("build_output_dir = \"out\"\n"));
}
