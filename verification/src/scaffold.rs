//! Scaffolds: the files that a new site, theme, page or plugin starts from, and
//! the files that a deployment or a continuous integration needs.
use vstd::prelude::*;
use vstd::slice::slice_subrange;
use vstd::string::*;

use crate::failure;
use crate::failure::{failure, Failure};
use crate::fspath;
use crate::organization::{FileView, OutputFile};
use crate::project::PROJECT_CONFIG_FILE;
use crate::text;
use crate::text::{concat, copy_text, same_text};
use crate::theme;

verus! {

/// The page template of a new site.
pub const STARTER_PAGE: &'static str = r#"<!doctype html>
<html lang="en">
<head>
  <meta charset="utf-8" />
  <meta name="viewport" content="width=device-width, initial-scale=1" />
  <meta name="description" content="{{ seo.description }}" />
  <link rel="canonical" href="{{ seo.canonical }}" />
  <meta property="og:title" content="{{ seo.title }}" />
  <meta property="og:description" content="{{ seo.description }}" />
  <meta property="og:type" content="article" />
  <meta property="og:url" content="{{ seo.canonical }}" />
  {% if seo.og_image %}
  <meta property="og:image" content="{{ seo.og_image }}" />
  {% endif %}
  <meta name="twitter:card" content="{{ seo.twitter_card }}" />
  <meta name="twitter:title" content="{{ seo.title }}" />
  <meta name="twitter:description" content="{{ seo.description }}" />
  {% if seo.og_image %}
  <meta name="twitter:image" content="{{ seo.og_image }}" />
  {% endif %}
  {% if seo.noindex %}
  <meta name="robots" content="noindex,nofollow" />
  {% endif %}
  <title>{{ title }}</title>
  {% if seo.json_ld %}
  <script type="application/ld+json">{{ seo.json_ld | safe }}</script>
  {% endif %}
  <link rel="stylesheet" href="{{ base_href_prefix }}/styles/site.css" />
</head>
<body>
  <header class="topbar">
    <div class="container brand">Nanoss</div>
  </header>
  <main class="container layout">
    {% if toc %}
    <aside class="toc-card" aria-label="Table of contents">
      <h2>On this page</h2>
      {{ toc | safe }}
    </aside>
    {% endif %}
    <article class="content-card">
      {{ content | safe }}
    </article>
  </main>
  <script src="{{ base_href_prefix }}/scripts/site.js"></script>
</body>
</html>
"#;

/// The style sheet of a new site.
pub const STARTER_SITE_CSS: &'static str = r#":root {
  --bg: #0b1020;
  --panel: #111936;
  --panel-2: #162345;
  --text: #e8ecf8;
  --muted: #98a2b3;
  --accent: #7dd3fc;
  --line: #26314f;
}

* { box-sizing: border-box; }
body {
  margin: 0;
  font-family: Inter, system-ui, -apple-system, Segoe UI, Roboto, Helvetica, Arial, sans-serif;
  background: radial-gradient(circle at 20% 0%, #101a38 0%, var(--bg) 45%);
  color: var(--text);
}

.container { max-width: 1080px; margin: 0 auto; padding: 0 20px; }
.topbar {
  border-bottom: 1px solid var(--line);
  background: rgba(11, 16, 32, 0.7);
  backdrop-filter: blur(6px);
}
.brand { font-weight: 700; padding: 16px 20px; letter-spacing: 0.2px; }

.layout {
  display: grid;
  gap: 18px;
  grid-template-columns: minmax(220px, 280px) 1fr;
  padding-top: 22px;
  padding-bottom: 36px;
}
.toc-card, .content-card {
  border: 1px solid var(--line);
  border-radius: 14px;
  background: linear-gradient(180deg, var(--panel-2), var(--panel));
}
.toc-card { padding: 14px 16px; position: sticky; top: 16px; height: fit-content; }
.toc-card h2 { margin: 0 0 10px; font-size: 14px; color: var(--muted); text-transform: uppercase; letter-spacing: 0.6px; }
.content-card { padding: 20px 24px; min-height: 70vh; }

a { color: var(--accent); text-decoration: none; }
a:hover { text-decoration: underline; }
pre {
  overflow-x: auto;
  border: 1px solid var(--line);
  border-radius: 10px;
  padding: 12px;
  background: #0b1329;
}
code { font-family: ui-monospace, SFMono-Regular, Menlo, Monaco, Consolas, monospace; }

@media (max-width: 900px) {
  .layout { grid-template-columns: 1fr; }
  .toc-card { position: static; }
}

@media (prefers-color-scheme: light) {
  :root {
    --bg: #f4f7fb;
    --panel: #ffffff;
    --panel-2: #ffffff;
    --text: #0f172a;
    --muted: #475569;
    --accent: #0369a1;
    --line: #dbe4f0;
  }
  body {
    background: linear-gradient(180deg, #f7fbff 0%, var(--bg) 38%);
  }
  .topbar {
    background: rgba(255, 255, 255, 0.75);
  }
  pre {
    background: #f8fafc;
  }
}
"#;

/// The page template of a new theme.
pub const STARTER_THEME: &'static str = r#"<!doctype html>
<html lang="en">
<head>
  <meta charset="utf-8" />
  <meta name="viewport" content="width=device-width, initial-scale=1" />
  <title>{{ title }}</title>
  <link rel="stylesheet" href="{{ base_href_prefix }}/theme.css" />
</head>
<body>
  <main class="container">
    {% if toc %}
    <nav class="toc">{{ toc | safe }}</nav>
    {% endif %}
    <article class="content">{{ content | safe }}</article>
  </main>
</body>
</html>
"#;

/// The style sheet of a new theme.
pub const STARTER_THEME_CSS: &'static str = r#":root { color-scheme: dark light; }
body {
  margin: 0;
  background: #0f172a;
  color: #e5e7eb;
  font-family: Inter, system-ui, sans-serif;
}
.container { max-width: 900px; margin: 0 auto; padding: 28px 20px 48px; }
.toc, .content {
  border: 1px solid #334155;
  border-radius: 12px;
  background: #111827;
}
.toc { padding: 12px 14px; margin-bottom: 14px; }
.content { padding: 20px; }
a { color: #7dd3fc; }
pre { overflow-x: auto; background: #0b1222; border-radius: 10px; padding: 12px; }

@media (prefers-color-scheme: light) {
  body {
    background: #f8fafc;
    color: #0f172a;
  }
  .toc, .content {
    border-color: #dbe4f0;
    background: #ffffff;
  }
  a { color: #0369a1; }
  pre { background: #f1f5f9; }
}
"#;

/// The configuration of a new site.
pub const STARTER_CONFIG: &'static str = "[build]\nbase_path = \"/\"\n# site_domain = \"https://example.com\"\n\n[build.images]\nenabled = true\ngenerate_webp = true\ngenerate_avif = false\nwidths = [480, 768, 1200]\n\n[build.i18n]\nlocales = [\"en\", \"zh\"]\ndefault_locale = \"en\"\nprefix_default_locale = false\n\n[server]\n# mount_path = \"/nanoss\"\n";

/// The first page of a new site.
pub const STARTER_INDEX: &'static str = "---\ntitle: Home\n---\n\n# Welcome to Nanoss\n\nThis site is scaffolded by `nanoss init/new`.\n";

/// The script of a new site.
pub const STARTER_SCRIPT: &'static str = "console.log(\"nanoss starter loaded\");\n";

/// The source of a new plugin.
pub const STARTER_PLUGIN: &'static str = "//! Minimal Nanoss plugin scaffold.\n// TODO: implement exports based on nanoss plugin WIT bindings.\n";

/// The description of a new plugin.
pub const STARTER_PLUGIN_README: &'static str = "# Nanoss Plugin Scaffold\n\nBuild this crate for wasm32 and install with `nanoss plugin install`.\n";

/// The page template of a new site.
pub fn starter_page_template() -> (r: &'static str)
    ensures
        r@ == STARTER_PAGE@,
{
    STARTER_PAGE
}

/// The style sheet of a new site.
pub fn starter_site_css() -> (r: &'static str)
    ensures
        r@ == STARTER_SITE_CSS@,
{
    STARTER_SITE_CSS
}

/// The page template of a new theme.
pub fn starter_theme_template() -> (r: &'static str)
    ensures
        r@ == STARTER_THEME@,
{
    STARTER_THEME
}

/// The style sheet of a new theme.
pub fn starter_theme_css() -> (r: &'static str)
    ensures
        r@ == STARTER_THEME_CSS@,
{
    STARTER_THEME_CSS
}

/// What is laid out for something new: directories to create, files to write,
/// and what is said once they stand.
#[derive(Debug)]
pub struct Scaffold {
    pub dirs: Vec<String>,
    pub files: Vec<OutputFile>,
    pub message: String,
}

/// What a scaffold holds.
pub struct ScaffoldView {
    pub dirs: Seq<Seq<char>>,
    pub files: Seq<FileView>,
    pub message: Seq<char>,
}

impl View for Scaffold {
    type V = ScaffoldView;

    open spec fn view(&self) -> ScaffoldView {
        ScaffoldView {
            dirs: text::texts(self.dirs@),
            files: file_views(self.files@),
            message: self.message@,
        }
    }
}

/// What files hold.
pub open spec fn file_views(v: Seq<OutputFile>) -> Seq<FileView> {
    Seq::new(v.len(), |i: int| v[i]@)
}

/// A scaffold, or why there is none.
pub open spec fn scaffold_outcome(r: Result<Scaffold, Failure>) -> Result<ScaffoldView, Seq<char>> {
    match r {
        Ok(s) => Ok(s@),
        Err(e) => Err(e.message@),
    }
}

/// The file `name` below `dir`.
pub open spec fn file_at(dir: Seq<char>, name: Seq<char>, content: Seq<char>) -> FileView {
    FileView { path: fspath::join(dir, name), content }
}

/// Adds the file [`file_at`] to `files`.
fn push_file(files: &mut Vec<OutputFile>, dir: &str, name: &str, content: &str)
    ensures
        file_views(final(files)@) == file_views(old(files)@).push(file_at(dir@, name@, content@)),
{
    let ghost before = files@;
    files.push(OutputFile { path: fspath::path_join(dir, name), content: copy_text(content) });
    assert(file_views(files@) =~= file_views(before).push(file_at(dir@, name@, content@)));
}

/// The one text `s`.
fn one_text(s: String) -> (r: Vec<String>)
    ensures
        text::texts(r@) == seq![s@],
{
    let mut v: Vec<String> = Vec::new();
    v.push(s);
    assert(text::texts(v@) =~= seq![s@]);
    v
}

// ---------------------------------------------------------------------------
// Files that may stand already.

/// What is done with a file of a scaffold.
#[derive(Debug, Clone, Copy, PartialEq, Eq, Structural)]
pub enum FileAction {
    Write,
    Overwrite,
    Skip,
}

/// What is done with a file of a scaffold: one that stands already is
/// overwritten only by force.
pub open spec fn file_action(exists: bool, force: bool) -> FileAction {
    if !exists {
        FileAction::Write
    } else if force {
        FileAction::Overwrite
    } else {
        FileAction::Skip
    }
}

/// What is said of it.
pub open spec fn file_note(action: FileAction, path: Seq<char>) -> Option<Seq<char>> {
    match action {
        FileAction::Write => None,
        FileAction::Overwrite => Some("overwrite "@ + path),
        FileAction::Skip => Some("skip existing "@ + path),
    }
}

/// What is done with the file at `path`, and what is said of it.
pub fn create_if_missing(path: &str, exists: bool, force: bool) -> (r: (FileAction, Option<String>))
    ensures
        r.0 == file_action(exists, force),
        text::opt_text(r.1) == file_note(r.0, path@),
{
    if !exists {
        (FileAction::Write, None)
    } else if force {
        (FileAction::Overwrite, Some(concat("overwrite ", path)))
    } else {
        (FileAction::Skip, Some(concat("skip existing ", path)))
    }
}

/// Laying the same files out twice changes nothing the second time, unless it is
/// forced: what stands is left as it is.
pub proof fn law_scaffold_keeps_what_stands(exists: bool)
    ensures
        exists ==> file_action(exists, false) == FileAction::Skip,
        file_action(exists, true) != FileAction::Skip,
{
}

/// The refusal of something that stands already.
pub open spec fn exists_error(what: Seq<char>, path: Seq<char>) -> Seq<char> {
    what + path + " (use -f/--force to continue)"@
}

/// The failure [`exists_error`].
fn exists_failure(what: &str, path: &str) -> (r: Failure)
    ensures
        r.message@ == exists_error(what@, path@),
{
    let mut m = copy_text(what);
    m.append(path);
    m.append(" (use -f/--force to continue)");
    failure(m)
}

// ---------------------------------------------------------------------------
// Sites.

/// The scaffold of a site at `root`.
pub open spec fn site_scaffold(root: Seq<char>) -> ScaffoldView {
    ScaffoldView {
        dirs: seq![root],
        files: Seq::empty().push(file_at(root, PROJECT_CONFIG_FILE@, STARTER_CONFIG@)).push(
            file_at(root, "content/index.md"@, STARTER_INDEX@),
        ).push(file_at(root, "content/styles/site.css"@, STARTER_SITE_CSS@)).push(
            file_at(root, "content/scripts/site.js"@, STARTER_SCRIPT@),
        ).push(file_at(root, "static/.gitkeep"@, ""@)).push(
            file_at(root, "templates/page.html"@, STARTER_PAGE@),
        ),
        message: "Initialized Nanoss starter at "@ + root,
    }
}

/// The scaffold of a site.
pub fn create_site_scaffold(root: &str) -> (r: Scaffold)
    ensures
        r@ == site_scaffold(root@),
{
    let mut files: Vec<OutputFile> = Vec::new();
    assert(file_views(files@) =~= Seq::empty());
    push_file(&mut files, root, PROJECT_CONFIG_FILE, STARTER_CONFIG);
    push_file(&mut files, root, "content/index.md", STARTER_INDEX);
    push_file(&mut files, root, "content/styles/site.css", starter_site_css());
    push_file(&mut files, root, "content/scripts/site.js", STARTER_SCRIPT);
    push_file(&mut files, root, "static/.gitkeep", "");
    push_file(&mut files, root, "templates/page.html", starter_page_template());
    Scaffold {
        dirs: one_text(copy_text(root)),
        files,
        message: concat("Initialized Nanoss starter at ", root),
    }
}

/// The scaffold of a new site: a directory that stands already is taken only by
/// force.
pub open spec fn new_site(root: Seq<char>, exists: bool, force: bool) -> Result<
    ScaffoldView,
    Seq<char>,
> {
    if exists && !force {
        Err(exists_error("target directory already exists: "@, root))
    } else {
        Ok(site_scaffold(root))
    }
}

/// Computes [`new_site`].
pub fn create_new_site_scaffold(root: &str, exists: bool, force: bool) -> (r: Result<
    Scaffold,
    Failure,
>)
    ensures
        scaffold_outcome(r) == new_site(root@, exists, force),
{
    if exists && !force {
        return Err(exists_failure("target directory already exists: ", root));
    }
    Ok(create_site_scaffold(root))
}

// ---------------------------------------------------------------------------
// Themes.

/// The manifest of a new theme.
pub open spec fn theme_toml(name: Seq<char>) -> Seq<char> {
    "name = \""@ + name + "\"\nversion = \"0.1.0\"\n"@
}

/// The scaffold of a theme in `dir`.
pub open spec fn theme_scaffold(dir: Seq<char>, name: Seq<char>) -> ScaffoldView {
    ScaffoldView {
        dirs: seq![fspath::join(dir, "templates"@), fspath::join(dir, "static"@)],
        files: Seq::empty().push(file_at(dir, "theme.toml"@, theme_toml(name))).push(
            file_at(dir, "templates/page.html"@, STARTER_THEME@),
        ).push(file_at(dir, "static/theme.css"@, STARTER_THEME_CSS@)).push(
            file_at(dir, "static/.gitkeep"@, ""@),
        ),
        message: "Created theme at "@ + dir,
    }
}

/// The scaffold of a new theme.
pub open spec fn new_theme(name: Seq<char>, exists: bool, force: bool) -> Result<
    ScaffoldView,
    Seq<char>,
> {
    if exists && !force {
        Err(exists_error("theme already exists: "@, theme::theme_dir(name)))
    } else {
        Ok(theme_scaffold(theme::theme_dir(name), name))
    }
}

/// Computes [`new_theme`].
pub fn create_theme_scaffold(name: &str, exists: bool, force: bool) -> (r: Result<Scaffold, Failure>)
    ensures
        scaffold_outcome(r) == new_theme(name@, exists, force),
{
    let dir = theme::theme_dir_for(name);
    if exists && !force {
        return Err(exists_failure("theme already exists: ", dir.as_str()));
    }
    let mut dirs = one_text(fspath::path_join(dir.as_str(), "templates"));
    let ghost first = dirs@;
    dirs.push(fspath::path_join(dir.as_str(), "static"));
    assert(text::texts(dirs@) =~= seq![
        fspath::join(dir@, "templates"@),
        fspath::join(dir@, "static"@),
    ]) by {
        assert(text::texts(first)[0] == fspath::join(dir@, "templates"@));
        assert(text::texts(first).len() == 1);
    }
    let mut manifest = concat("name = \"", name);
    manifest.append("\"\nversion = \"0.1.0\"\n");
    let mut files: Vec<OutputFile> = Vec::new();
    assert(file_views(files@) =~= Seq::empty());
    push_file(&mut files, dir.as_str(), "theme.toml", manifest.as_str());
    push_file(&mut files, dir.as_str(), "templates/page.html", starter_theme_template());
    push_file(&mut files, dir.as_str(), "static/theme.css", starter_theme_css());
    push_file(&mut files, dir.as_str(), "static/.gitkeep", "");
    Ok(Scaffold { dirs, files, message: concat("Created theme at ", dir.as_str()) })
}

// ---------------------------------------------------------------------------
// Pages.

/// The file of a new page: a name without an extension gets that of pages.
pub open spec fn page_file(path: Seq<char>) -> Seq<char> {
    if fspath::extension(path) is None {
        fspath::with_extension(path, "md"@)
    } else {
        path
    }
}

/// The slug of a new page.
pub open spec fn page_slug(path: Seq<char>) -> Seq<char> {
    fspath::file_stem(page_file(path)).unwrap_or("new-page"@)
}

/// The text of a new page.
pub open spec fn page_text(path: Seq<char>) -> Seq<char> {
    let slug = page_slug(path);
    let title = text::replace_char(slug, '-', " "@);
    "---\ntitle: "@ + title + "\nslug: "@ + slug + "\n---\n\n# "@ + title
        + "\n\nWrite your content here.\n"@
}

/// The scaffold of a new page.
pub open spec fn page_scaffold(path: Seq<char>) -> ScaffoldView {
    ScaffoldView {
        dirs: Seq::empty(),
        files: Seq::empty().push(file_at("content"@, page_file(path), page_text(path))),
        message: "Created page "@ + fspath::join("content"@, page_file(path)),
    }
}

/// Computes [`page_scaffold`].
pub fn create_page_scaffold(path: &str) -> (r: Scaffold)
    ensures
        r@ == page_scaffold(path@),
{
    let rel = match fspath::path_extension(path) {
        None => fspath::replace_extension(path, "md"),
        Some(_) => copy_text(path),
    };
    let slug = match fspath::path_stem(rel.as_str()) {
        Some(s) => s,
        None => copy_text("new-page"),
    };
    let title = text::replaced_char(slug.as_str(), '-', " ");
    let mut body = concat("---\ntitle: ", title.as_str());
    body.append("\nslug: ");
    body.append(slug.as_str());
    body.append("\n---\n\n# ");
    body.append(title.as_str());
    body.append("\n\nWrite your content here.\n");
    let mut files: Vec<OutputFile> = Vec::new();
    assert(file_views(files@) =~= Seq::empty());
    push_file(&mut files, "content", rel.as_str(), body.as_str());
    let target = fspath::path_join("content", rel.as_str());
    let dirs: Vec<String> = Vec::new();
    assert(text::texts(dirs@) =~= Seq::empty());
    Scaffold { dirs, files, message: concat("Created page ", target.as_str()) }
}

// ---------------------------------------------------------------------------
// Plugins.

/// The manifest of a new plugin.
pub open spec fn plugin_toml(name: Seq<char>) -> Seq<char> {
    "[package]\nname = \"nanoss-plugin-"@ + text::replace_char(name, '-', "_"@)
        + "\"\nversion = \"0.1.0\"\nedition = \"2021\"\n\n[lib]\ncrate-type = [\"cdylib\"]\n"@
}

/// The scaffold of a plugin in `dir`.
pub open spec fn plugin_scaffold(dir: Seq<char>, name: Seq<char>) -> ScaffoldView {
    ScaffoldView {
        dirs: seq![fspath::join(dir, "src"@)],
        files: Seq::empty().push(file_at(dir, "Cargo.toml"@, plugin_toml(name))).push(
            file_at(dir, "src/lib.rs"@, STARTER_PLUGIN@),
        ).push(file_at(dir, "README.md"@, STARTER_PLUGIN_README@)),
        message: "Created plugin scaffold "@ + dir,
    }
}

/// The scaffold of a new plugin.
pub open spec fn new_plugin(root: Seq<char>, name: Seq<char>, exists: bool, force: bool) -> Result<
    ScaffoldView,
    Seq<char>,
> {
    if exists && !force {
        Err(exists_error("plugin scaffold already exists: "@, fspath::join(root, name)))
    } else {
        Ok(plugin_scaffold(fspath::join(root, name), name))
    }
}

/// Computes [`new_plugin`].
pub fn create_plugin_scaffold(root: &str, name: &str, exists: bool, force: bool) -> (r: Result<
    Scaffold,
    Failure,
>)
    ensures
        scaffold_outcome(r) == new_plugin(root@, name@, exists, force),
{
    let dir = fspath::path_join(root, name);
    if exists && !force {
        return Err(exists_failure("plugin scaffold already exists: ", dir.as_str()));
    }
    let crate_name = text::replaced_char(name, '-', "_");
    let mut manifest = concat("[package]\nname = \"nanoss-plugin-", crate_name.as_str());
    manifest.append(
        "\"\nversion = \"0.1.0\"\nedition = \"2021\"\n\n[lib]\ncrate-type = [\"cdylib\"]\n",
    );
    let mut files: Vec<OutputFile> = Vec::new();
    assert(file_views(files@) =~= Seq::empty());
    push_file(&mut files, dir.as_str(), "Cargo.toml", manifest.as_str());
    push_file(&mut files, dir.as_str(), "src/lib.rs", STARTER_PLUGIN);
    push_file(&mut files, dir.as_str(), "README.md", STARTER_PLUGIN_README);
    Ok(
        Scaffold {
            dirs: one_text(fspath::path_join(dir.as_str(), "src")),
            files,
            message: concat("Created plugin scaffold ", dir.as_str()),
        },
    )
}

// ---------------------------------------------------------------------------
// What is asked for.

/// What can be created.
#[derive(Debug, Clone, Copy, PartialEq, Eq, Structural)]
pub enum NewKind {
    Site,
    Theme,
    Page,
    Plugin,
}

/// A request whose kind is named.
#[derive(Debug)]
pub struct NewCommand {
    pub kind: NewKind,
    pub name: String,
    pub force: bool,
}

/// What a request asks for: something of a known kind, or a question about the
/// kind of what is named.
#[derive(Debug)]
pub enum NewPlan {
    Create { kind: NewKind, name: String, force: bool },
    Ask { name: String },
}

/// What `nanoss new` does with its arguments.
pub fn run_new(command: Option<NewCommand>, name: Option<String>, force: bool) -> (r: Result<
    NewPlan,
    Failure,
>)
    ensures
        match (command, name) {
            (Some(c), None) => r == Ok::<NewPlan, Failure>(
                (NewPlan::Create { kind: c.kind, name: c.name, force: force || c.force }),
            ),
            (None, Some(n)) => r == Ok::<NewPlan, Failure>((NewPlan::Ask { name: n })),
            (None, None) => r matches Err(e) && e.message@
                == "usage: nanoss new <name> or nanoss new <site|theme|page|plugin> <value>"@,
            (Some(_), Some(_)) => r matches Err(e) && e.message@
                == "when using explicit new type, do not pass extra unnamed args"@,
        },
{
    match (command, name) {
        (Some(c), None) => Ok(
            NewPlan::Create { kind: c.kind, name: c.name, force: force || c.force },
        ),
        (None, Some(n)) => Ok(NewPlan::Ask { name: n }),
        (None, None) => Err(
            failure(
                copy_text(
                    "usage: nanoss new <name> or nanoss new <site|theme|page|plugin> <value>",
                ),
            ),
        ),
        (Some(_), Some(_)) => Err(
            failure(copy_text("when using explicit new type, do not pass extra unnamed args")),
        ),
    }
}

/// Where new plugins go.
pub const PLUGINS_DIR: &'static str = "plugins";

/// The directory whose existence counts against something new.
pub open spec fn taken_path(kind: NewKind, name: Seq<char>) -> Option<Seq<char>> {
    match kind {
        NewKind::Site => Some(name),
        NewKind::Theme => Some(theme::theme_dir(name)),
        NewKind::Page => None,
        NewKind::Plugin => Some(fspath::join(PLUGINS_DIR@, name)),
    }
}

/// Computes [`taken_path`].
pub fn path_to_check(kind: NewKind, name: &str) -> (r: Option<String>)
    ensures
        text::opt_text(r) == taken_path(kind, name@),
{
    match kind {
        NewKind::Site => Some(copy_text(name)),
        NewKind::Theme => Some(theme::theme_dir_for(name)),
        NewKind::Page => None,
        NewKind::Plugin => Some(fspath::path_join(PLUGINS_DIR, name)),
    }
}

/// The scaffold of something new.
pub open spec fn new_scaffold(kind: NewKind, name: Seq<char>, exists: bool, force: bool) -> Result<
    ScaffoldView,
    Seq<char>,
> {
    match kind {
        NewKind::Site => new_site(name, exists, force),
        NewKind::Theme => new_theme(name, exists, force),
        NewKind::Page => Ok(page_scaffold(name)),
        NewKind::Plugin => new_plugin(PLUGINS_DIR@, name, exists, force),
    }
}

/// Computes [`new_scaffold`].
pub fn create_scaffold(kind: NewKind, name: &str, exists: bool, force: bool) -> (r: Result<
    Scaffold,
    Failure,
>)
    ensures
        scaffold_outcome(r) == new_scaffold(kind, name@, exists, force),
{
    match kind {
        NewKind::Site => create_new_site_scaffold(name, exists, force),
        NewKind::Theme => create_theme_scaffold(name, exists, force),
        NewKind::Page => Ok(create_page_scaffold(name)),
        NewKind::Plugin => create_plugin_scaffold(PLUGINS_DIR, name, exists, force),
    }
}

/// Nothing that stands is taken without force, and nothing is refused otherwise.
pub proof fn law_new_needs_force(kind: NewKind, name: Seq<char>, exists: bool, force: bool)
    ensures
        new_scaffold(kind, name, exists, force) is Err <==> exists && !force && taken_path(
            kind,
            name,
        ) is Some,
{
}

// ---------------------------------------------------------------------------
// The question for the kind.

/// The text of the question.
pub open spec fn question(name: Seq<char>) -> Seq<char> {
    "Select type for '"@ + name + "':\n  1) site\n  2) theme\n  3) page\n  4) plugin\n"@
        + CHOICE_PROMPT@
}

/// What invites a choice.
pub const CHOICE_PROMPT: &'static str = "Enter choice [1-4]: ";

/// What follows a choice that is none.
pub const INVALID_CHOICE: &'static str = "invalid choice, please enter 1/2/3/4\n";

/// Computes [`question`].
pub fn new_kind_question(name: &str) -> (r: String)
    ensures
        r@ == question(name@),
{
    let mut out = concat("Select type for '", name);
    out.append("':\n  1) site\n  2) theme\n  3) page\n  4) plugin\n");
    out.append(CHOICE_PROMPT);
    out
}

/// The kind that a line chooses, by number or by name.
pub open spec fn chosen(line: Seq<char>) -> Option<NewKind> {
    let c = text::ascii_lower(text::trim(line));
    if c == "1"@ || c == "site"@ {
        Some(NewKind::Site)
    } else if c == "2"@ || c == "theme"@ {
        Some(NewKind::Theme)
    } else if c == "3"@ || c == "page"@ {
        Some(NewKind::Page)
    } else if c == "4"@ || c == "plugin"@ {
        Some(NewKind::Plugin)
    } else {
        None
    }
}

/// Computes [`chosen`].
pub fn choose_kind(line: &str) -> (r: Option<NewKind>)
    ensures
        r == chosen(line@),
{
    let trimmed = text::trimmed(line);
    let c = text::to_ascii_lower(trimmed.as_str());
    let c = c.as_str();
    if same_text(c, "1") || same_text(c, "site") {
        Some(NewKind::Site)
    } else if same_text(c, "2") || same_text(c, "theme") {
        Some(NewKind::Theme)
    } else if same_text(c, "3") || same_text(c, "page") {
        Some(NewKind::Page)
    } else if same_text(c, "4") || same_text(c, "plugin") {
        Some(NewKind::Plugin)
    } else {
        None
    }
}

/// How many lines are read before the question is given up.
pub const CHOICE_ATTEMPTS: usize = 3;

/// What follows a line that was read: a kind, another try after some text, or the
/// end after some text.
#[derive(Debug)]
pub enum ChoiceStep {
    Chosen(NewKind),
    Again(String),
    GivenUp(String, Failure),
}

/// The text after a choice that is none.
pub open spec fn retry_text() -> Seq<char> {
    INVALID_CHOICE@ + CHOICE_PROMPT@
}

/// What follows the line that was read with `left` tries left, itself among them.
pub fn choice_step(line: &str, left: usize) -> (r: ChoiceStep)
    ensures
        match r {
            ChoiceStep::Chosen(kind) => chosen(line@) == Some(kind),
            ChoiceStep::Again(said) => chosen(line@) is None && left > 1 && said@ == retry_text(),
            ChoiceStep::GivenUp(said, e) => chosen(line@) is None && left <= 1 && said@
                == retry_text() && e.message@ == "too many invalid selections"@,
        },
{
    match choose_kind(line) {
        Some(kind) => ChoiceStep::Chosen(kind),
        None => {
            let said = concat(INVALID_CHOICE, CHOICE_PROMPT);
            if left > 1 {
                ChoiceStep::Again(said)
            } else {
                ChoiceStep::GivenUp(said, failure(copy_text("too many invalid selections")))
            }
        },
    }
}

/// How long the first line of `s` is, with its end.
pub open spec fn line_len(s: Seq<char>) -> int {
    let i = text::char_index(s, '\n');
    if i < s.len() {
        i + 1
    } else {
        s.len() as int
    }
}

/// What is said and chosen when the answers are the lines of `input`: past its end
/// every line is empty.
pub open spec fn prompt_run(input: Seq<char>, left: nat) -> (Seq<char>, Result<NewKind, Seq<char>>)
    decreases left,
{
    if left == 0 {
        (Seq::empty(), Err("too many invalid selections"@))
    } else {
        let n = line_len(input);
        match chosen(input.take(n)) {
            Some(kind) => (Seq::empty(), Ok(kind)),
            None => {
                let rest = prompt_run(input.skip(n), (left - 1) as nat);
                (retry_text() + rest.0, rest.1)
            },
        }
    }
}

/// Asks for the kind of `name`, with the lines of `input` as the answers, and
/// writes what is said to `output`.
pub fn prompt_new_kind(name: &str, input: &str, output: &mut String) -> (r: Result<
    NewKind,
    Failure,
>)
    ensures
        final(output)@ == old(output)@ + question(name@) + prompt_run(
            input@,
            CHOICE_ATTEMPTS as nat,
        ).0,
        failure::outcome(r) == prompt_run(input@, CHOICE_ATTEMPTS as nat).1,
{
    let asked = new_kind_question(name);
    output.append(asked.as_str());
    let v = text::to_chars(input);
    let mut at: usize = 0;
    let mut left: usize = CHOICE_ATTEMPTS;
    let ghost whole = prompt_run(input@, CHOICE_ATTEMPTS as nat);
    let ghost mut said: Seq<char> = Seq::empty();
    let ghost start = output@;
    assert(v@.skip(0) =~= input@);
    assert(said + whole.0 =~= whole.0);
    while left > 0
        invariant
            left <= CHOICE_ATTEMPTS,
            at <= v.len(),
            v@ == input@,
            start == old(output)@ + question(name@),
            output@ == start + said,
            whole == prompt_run(input@, CHOICE_ATTEMPTS as nat),
            whole.0 == said + prompt_run(v@.skip(at as int), left as nat).0,
            whole.1 == prompt_run(v@.skip(at as int), left as nat).1,
        decreases left,
    {
        let ghost rest = v@.skip(at as int);
        let i = text::index_of_char(v.as_slice(), '\n', at);
        let end: usize = if i < v.len() {
            i + 1
        } else {
            i
        };
        assert(end == at + line_len(rest));
        let line = text::text_of(slice_subrange(v.as_slice(), at, end));
        assert(line@ =~= rest.take(line_len(rest)));
        assert(rest.skip(line_len(rest)) =~= v@.skip(end as int));
        match choice_step(line.as_str(), left) {
            ChoiceStep::Chosen(kind) => {
                assert(output@ =~= start + whole.0);
                return Ok(kind);
            },
            ChoiceStep::Again(more) => {
                output.append(more.as_str());
            },
            ChoiceStep::GivenUp(more, e) => {
                output.append(more.as_str());
                assert(prompt_run(v@.skip(end as int), 0).0 =~= Seq::empty());
                assert(output@ =~= start + whole.0);
                return Err(e);
            },
        }
        proof {
            let later = prompt_run(v@.skip(end as int), (left - 1) as nat).0;
            assert(said + (retry_text() + later) =~= (said + retry_text()) + later);
            assert(start + said + retry_text() =~= start + (said + retry_text()));
            said = said + retry_text();
        }
        at = end;
        left = left - 1;
    }
    assert(output@ =~= start + whole.0);
    Err(failure(copy_text("too many invalid selections")))
}

// ---------------------------------------------------------------------------
// Deployment and continuous integration.

/// Where a site is deployed to.
#[derive(Debug, Clone, Copy, PartialEq, Eq, Structural)]
pub enum DeployTarget {
    Netlify,
    Vercel,
    CloudflarePages,
}

/// The file that a deployment needs.
pub open spec fn deploy_view(target: DeployTarget, output_dir: Seq<char>) -> FileView {
    match target {
        DeployTarget::Netlify => FileView {
            path: "netlify.toml"@,
            content: "[build]\ncommand = \"cargo run -p nanoss-cli -- build --output-dir "@
                + output_dir + "\"\npublish = \""@ + output_dir + "\"\n"@,
        },
        DeployTarget::Vercel => FileView {
            path: "vercel.json"@,
            content: "{\n  \"buildCommand\": \"cargo run -p nanoss-cli -- build --output-dir "@
                + output_dir + "\",\n  \"outputDirectory\": \""@ + output_dir + "\"\n}\n"@,
        },
        DeployTarget::CloudflarePages => FileView {
            path: "wrangler.toml"@,
            content:
                "name = \"nanoss-site\"\ncompatibility_date = \"2026-01-01\"\n[pages]\nbuild_output_dir = \""@
                + output_dir + "\"\n"@,
        },
    }
}

/// `before`, `dir`, `between`, `dir` and `after`, one after another.
fn twice(before: &str, dir: &str, between: &str, after: &str) -> (r: String)
    ensures
        r@ == before@ + dir@ + between@ + dir@ + after@,
{
    let mut out = concat(before, dir);
    out.append(between);
    out.append(dir);
    out.append(after);
    out
}

/// Computes [`deploy_view`].
pub fn deploy_file(target: DeployTarget, output_dir: &str) -> (r: OutputFile)
    ensures
        r@ == deploy_view(target, output_dir@),
{
    match target {
        DeployTarget::Netlify => OutputFile {
            path: copy_text("netlify.toml"),
            content: twice(
                "[build]\ncommand = \"cargo run -p nanoss-cli -- build --output-dir ",
                output_dir,
                "\"\npublish = \"",
                "\"\n",
            ),
        },
        DeployTarget::Vercel => OutputFile {
            path: copy_text("vercel.json"),
            content: twice(
                "{\n  \"buildCommand\": \"cargo run -p nanoss-cli -- build --output-dir ",
                output_dir,
                "\",\n  \"outputDirectory\": \"",
                "\"\n}\n",
            ),
        },
        DeployTarget::CloudflarePages => {
            let mut content = concat(
                "name = \"nanoss-site\"\ncompatibility_date = \"2026-01-01\"\n[pages]\nbuild_output_dir = \"",
                output_dir,
            );
            content.append("\"\n");
            OutputFile { path: copy_text("wrangler.toml"), content }
        },
    }
}

/// Who runs the continuous integration.
#[derive(Debug, Clone, Copy, PartialEq, Eq, Structural)]
pub enum CiProvider {
    Github,
    Gitlab,
}

/// The file that a continuous integration needs.
pub open spec fn ci_view(provider: CiProvider, output_dir: Seq<char>) -> FileView {
    match provider {
        CiProvider::Github => FileView {
            path: ".github/workflows/nanoss.yml"@,
            content:
                "name: nanoss\non: [push, pull_request]\njobs:\n  build:\n    runs-on: ubuntu-latest\n    steps:\n      - uses: actions/checkout@v4\n      - uses: dtolnay/rust-toolchain@stable\n      - run: cargo run -p nanoss-cli -- build --output-dir "@
                + output_dir
                + "\n      - run: bash scripts/bench_gate.sh bench/thresholds.toml\n      - uses: actions/upload-artifact@v4\n        with:\n          name: site\n          path: "@
                + output_dir + "\n"@,
        },
        CiProvider::Gitlab => FileView {
            path: ".gitlab-ci.yml"@,
            content:
                "stages:\n  - build\nbuild:\n  stage: build\n  image: rust:latest\n  script:\n    - cargo run -p nanoss-cli -- build --output-dir "@
                + output_dir
                + "\n    - bash scripts/bench_gate.sh bench/thresholds.toml\n  artifacts:\n    paths:\n      - "@
                + output_dir + "\n"@,
        },
    }
}

/// Computes [`ci_view`].
pub fn ci_file(provider: CiProvider, output_dir: &str) -> (r: OutputFile)
    ensures
        r@ == ci_view(provider, output_dir@),
{
    match provider {
        CiProvider::Github => OutputFile {
            path: copy_text(".github/workflows/nanoss.yml"),
            content: twice(
                "name: nanoss\non: [push, pull_request]\njobs:\n  build:\n    runs-on: ubuntu-latest\n    steps:\n      - uses: actions/checkout@v4\n      - uses: dtolnay/rust-toolchain@stable\n      - run: cargo run -p nanoss-cli -- build --output-dir ",
                output_dir,
                "\n      - run: bash scripts/bench_gate.sh bench/thresholds.toml\n      - uses: actions/upload-artifact@v4\n        with:\n          name: site\n          path: ",
                "\n",
            ),
        },
        CiProvider::Gitlab => OutputFile {
            path: copy_text(".gitlab-ci.yml"),
            content: twice(
                "stages:\n  - build\nbuild:\n  stage: build\n  image: rust:latest\n  script:\n    - cargo run -p nanoss-cli -- build --output-dir ",
                output_dir,
                "\n    - bash scripts/bench_gate.sh bench/thresholds.toml\n  artifacts:\n    paths:\n      - ",
                "\n",
            ),
        },
    }
}

/// What is said of a file that was generated.
pub fn generated_message(file: &OutputFile) -> (r: String)
    ensures
        r@ == "Generated "@ + file@.path,
{
    concat("Generated ", file.path.as_str())
}

// ---------------------------------------------------------------------------
// More laws.

/// A new site has its configuration, a page, a style sheet, a script, a place for static
/// files and a template, each with its starter text and below the directory of the site.
pub proof fn law_files_of_a_new_site(root: Seq<char>)
    requires
        root.len() > 0 && root.last() != '/',
    ensures
        ({
            let s = site_scaffold(root);
            &&& s.dirs == seq![root]
            &&& s.files == seq![
                FileView { path: root + "/nanoss.toml"@, content: STARTER_CONFIG@ },
                FileView { path: root + "/content/index.md"@, content: STARTER_INDEX@ },
                FileView { path: root + "/content/styles/site.css"@, content: STARTER_SITE_CSS@ },
                FileView { path: root + "/content/scripts/site.js"@, content: STARTER_SCRIPT@ },
                FileView { path: root + "/static/.gitkeep"@, content: ""@ },
                FileView { path: root + "/templates/page.html"@, content: STARTER_PAGE@ },
            ]
            &&& s.message == "Initialized Nanoss starter at "@ + root
        }),
{
    reveal_strlit("nanoss.toml");
    reveal_strlit("/nanoss.toml");
    reveal_strlit("content/index.md");
    reveal_strlit("/content/index.md");
    reveal_strlit("content/styles/site.css");
    reveal_strlit("/content/styles/site.css");
    reveal_strlit("content/scripts/site.js");
    reveal_strlit("/content/scripts/site.js");
    reveal_strlit("static/.gitkeep");
    reveal_strlit("/static/.gitkeep");
    reveal_strlit("templates/page.html");
    reveal_strlit("/templates/page.html");
    assert(fspath::join(root, "nanoss.toml"@) =~= root + "/nanoss.toml"@);
    assert(fspath::join(root, "content/index.md"@) =~= root + "/content/index.md"@);
    assert(fspath::join(root, "content/styles/site.css"@) =~= root + "/content/styles/site.css"@);
    assert(fspath::join(root, "content/scripts/site.js"@) =~= root + "/content/scripts/site.js"@);
    assert(fspath::join(root, "static/.gitkeep"@) =~= root + "/static/.gitkeep"@);
    assert(fspath::join(root, "templates/page.html"@) =~= root + "/templates/page.html"@);
    assert(site_scaffold(root).files =~= seq![
        FileView { path: root + "/nanoss.toml"@, content: STARTER_CONFIG@ },
        FileView { path: root + "/content/index.md"@, content: STARTER_INDEX@ },
        FileView { path: root + "/content/styles/site.css"@, content: STARTER_SITE_CSS@ },
        FileView { path: root + "/content/scripts/site.js"@, content: STARTER_SCRIPT@ },
        FileView { path: root + "/static/.gitkeep"@, content: ""@ },
        FileView { path: root + "/templates/page.html"@, content: STARTER_PAGE@ },
    ]);
}

/// A new theme has a manifest with its name, a template and a style sheet; a new plugin
/// has a manifest with its name, a source file and a readme.
pub proof fn law_files_of_a_new_part(dir: Seq<char>, name: Seq<char>)
    requires
        dir.len() > 0 && dir.last() != '/',
    ensures
        ({
            let s = theme_scaffold(dir, name);
            &&& s.files.len() == 4
            &&& s.files[0].path == dir + "/theme.toml"@
            &&& text::starts_with(s.files[0].content, "name = \""@ + name + "\"\n"@)
            &&& s.files[1] == (FileView {
                path: dir + "/templates/page.html"@,
                content: STARTER_THEME@,
            })
            &&& s.files[2] == (FileView {
                path: dir + "/static/theme.css"@,
                content: STARTER_THEME_CSS@,
            })
            &&& s.files[3] == (FileView { path: dir + "/static/.gitkeep"@, content: ""@ })
            &&& s.dirs == seq![dir + "/templates"@, dir + "/static"@]
        }),
        ({
            let s = plugin_scaffold(dir, name);
            &&& s.files.len() == 3
            &&& s.files[0].path == dir + "/Cargo.toml"@
            &&& text::starts_with(
                s.files[0].content,
                "[package]\nname = \"nanoss-plugin-"@ + text::replace_char(name, '-', seq!['_'])
                    + "\"\n"@,
            )
            &&& s.files[1] == (FileView { path: dir + "/src/lib.rs"@, content: STARTER_PLUGIN@ })
            &&& s.files[2] == (FileView {
                path: dir + "/README.md"@,
                content: STARTER_PLUGIN_README@,
            })
            &&& s.dirs == seq![dir + "/src"@]
        }),
{
    reveal_strlit("theme.toml");
    reveal_strlit("/theme.toml");
    reveal_strlit("templates/page.html");
    reveal_strlit("/templates/page.html");
    reveal_strlit("static/theme.css");
    reveal_strlit("/static/theme.css");
    reveal_strlit("static/.gitkeep");
    reveal_strlit("/static/.gitkeep");
    reveal_strlit("templates");
    reveal_strlit("/templates");
    reveal_strlit("static");
    reveal_strlit("/static");
    reveal_strlit("Cargo.toml");
    reveal_strlit("/Cargo.toml");
    reveal_strlit("src/lib.rs");
    reveal_strlit("/src/lib.rs");
    reveal_strlit("README.md");
    reveal_strlit("/README.md");
    reveal_strlit("src");
    reveal_strlit("/src");
    reveal_strlit("_");
    reveal_strlit("\"\n");
    reveal_strlit("\"\nversion = \"0.1.0\"\n");
    reveal_strlit(
        "\"\nversion = \"0.1.0\"\nedition = \"2021\"\n\n[lib]\ncrate-type = [\"cdylib\"]\n",
    );
    assert("_"@ =~= seq!['_']);
    assert(fspath::join(dir, "theme.toml"@) =~= dir + "/theme.toml"@);
    assert(fspath::join(dir, "templates/page.html"@) =~= dir + "/templates/page.html"@);
    assert(fspath::join(dir, "static/theme.css"@) =~= dir + "/static/theme.css"@);
    assert(fspath::join(dir, "static/.gitkeep"@) =~= dir + "/static/.gitkeep"@);
    assert(fspath::join(dir, "templates"@) =~= dir + "/templates"@);
    assert(fspath::join(dir, "static"@) =~= dir + "/static"@);
    assert(fspath::join(dir, "Cargo.toml"@) =~= dir + "/Cargo.toml"@);
    assert(fspath::join(dir, "src/lib.rs"@) =~= dir + "/src/lib.rs"@);
    assert(fspath::join(dir, "README.md"@) =~= dir + "/README.md"@);
    assert(fspath::join(dir, "src"@) =~= dir + "/src"@);
    let t = "name = \""@ + name + "\"\n"@;
    assert(theme_toml(name).take(t.len() as int) =~= t);
    let p = "[package]\nname = \"nanoss-plugin-"@ + text::replace_char(name, '-', seq!['_'])
        + "\"\n"@;
    assert(plugin_toml(name).take(p.len() as int) =~= p);
}

/// A new page is a Markdown file in the content directory. It has the name of the file as
/// its slug, and that with spaces for dashes as its title.
pub proof fn law_new_page(dir: Seq<char>, slug: Seq<char>)
    requires
        dir.len() == 0 || dir.last() == '/',
        fspath::plain_name(slug) && !slug.contains('.'),
    ensures
        page_file(dir + slug) == dir + slug + ".md"@,
        page_slug(dir + slug) == slug,
        ({
            let title = text::replace_char(slug, '-', seq![' ']);
            page_text(dir + slug) == "---\ntitle: "@ + title + "\nslug: "@ + slug
                + "\n---\n\n# "@ + title + "\n\nWrite your content here.\n"@
        }),
        page_scaffold(dir + slug).files.len() == 1,
        page_scaffold(dir + slug).files[0].content == page_text(dir + slug),
        dir.len() == 0 ==> page_scaffold(dir + slug).files[0].path == "content/"@ + slug + ".md"@,
{
    reveal_strlit("md");
    reveal_strlit(".md");
    reveal_strlit(" ");
    reveal_strlit("content");
    reveal_strlit("content/");
    assert(" "@ =~= seq![' ']);
    assert(!slug.skip(1).contains('.')) by {
        if slug.skip(1).contains('.') {
            let k = choose|k: int| 0 <= k < slug.skip(1).len() && slug.skip(1)[k] == '.';
            assert(slug[k + 1] == '.');
        }
    }
    fspath::law_extension(dir, slug, "md"@, "md"@);
    assert(dir + slug + seq!['.'] + "md"@ =~= dir + slug + ".md"@);
    let name = slug + seq!['.'] + "md"@;
    assert(fspath::plain_name(name)) by {
        if name.contains('/') {
            let k = choose|k: int| 0 <= k < name.len() && name[k] == '/';
            if k < slug.len() {
                assert(slug[k] == '/');
            }
        }
        assert(name.len() >= 4);
    }
    assert(dir + slug + ".md"@ =~= dir + name);
    assert(!"md"@.contains('.')) by {
        if "md"@.contains('.') {
            let k = choose|k: int| 0 <= k < "md"@.len() && "md"@[k] == '.';
            assert("md"@[k] == 'm' || "md"@[k] == 'd');
        }
    }
    if dir.len() == 0 {
        fspath::lemma_plain_name_parts(name, false);
        assert(dir + name =~= name);
        assert("content"@ + seq!['/'] =~= "content/"@);
        assert(fspath::join("content"@, name) =~= "content/"@ + slug + ".md"@);
    }
}

/// A kind is chosen by its number or by its name, in any case and with space around it.
pub proof fn law_choices(line: Seq<char>)
    ensures
        ({
            let c = text::ascii_lower(text::trim(line));
            &&& chosen(line) == Some(NewKind::Site) <==> c == seq!['1'] || c == "site"@
            &&& chosen(line) == Some(NewKind::Theme) <==> c == seq!['2'] || c == "theme"@
            &&& chosen(line) == Some(NewKind::Page) <==> c == seq!['3'] || c == "page"@
            &&& chosen(line) == Some(NewKind::Plugin) <==> c == seq!['4'] || c == "plugin"@
        }),
{
    let c = text::ascii_lower(text::trim(line));
    reveal_strlit("1");
    reveal_strlit("2");
    reveal_strlit("3");
    reveal_strlit("4");
    reveal_strlit("site");
    reveal_strlit("theme");
    reveal_strlit("page");
    reveal_strlit("plugin");
    assert("1"@ =~= seq!['1']);
    assert("2"@ =~= seq!['2']);
    assert("3"@ =~= seq!['3']);
    assert("4"@ =~= seq!['4']);
    assert("1"@[0] == '1' && "2"@[0] == '2' && "3"@[0] == '3' && "4"@[0] == '4');
    assert("site"@[0] == 's' && "page"@[0] == 'p');
    assert("site"@.len() == 4 && "theme"@.len() == 5 && "page"@.len() == 4 && "plugin"@.len() == 6);
    assert("1"@.len() == 1 && "2"@.len() == 1 && "3"@.len() == 1 && "4"@.len() == 1);
    assert(chosen(line) == Some(NewKind::Site) <==> c == "1"@ || c == "site"@);
    assert(chosen(line) == Some(NewKind::Theme) <==> c == "2"@ || c == "theme"@);
    assert(chosen(line) == Some(NewKind::Page) <==> c == "3"@ || c == "page"@);
    assert(chosen(line) == Some(NewKind::Plugin) <==> c == "4"@ || c == "plugin"@);
}

/// The question is asked until a line chooses a kind, and three times at most: a line that
/// chooses none is answered, and the next line counts.
pub proof fn law_question_is_asked_again(line: Seq<char>, rest: Seq<char>, left: nat)
    requires
        !line.contains('\n'),
        left > 0,
    ensures
        ({
            let input = line + seq!['\n'] + rest;
            &&& chosen(line + seq!['\n']) is Some ==> prompt_run(input, left) == (
                Seq::<char>::empty(),
                Ok::<NewKind, Seq<char>>(chosen(line + seq!['\n']).unwrap()),
            )
            &&& chosen(line + seq!['\n']) is None ==> prompt_run(input, left).1 == prompt_run(
                rest,
                (left - 1) as nat,
            ).1 && prompt_run(input, left).0 == INVALID_CHOICE@ + CHOICE_PROMPT@ + prompt_run(
                rest,
                (left - 1) as nat,
            ).0
        }),
        prompt_run(rest, 0).1 is Err,
        CHOICE_ATTEMPTS == 3,
{
    let input = line + seq!['\n'] + rest;
    text::lemma_char_index(input, '\n');
    let n = text::char_index(input, '\n');
    assert(input[line.len() as int] == '\n');
    assert(n == line.len()) by {
        if n < line.len() {
            assert(line[n] == input[n]);
            assert(line.contains('\n'));
        }
    }
    assert(input.take(n + 1) =~= line + seq!['\n']);
    assert(input.skip(n + 1) =~= rest);
}

/// The files for a host and for a service that builds the site name the output directory
/// twice: as what is built, and as what is published.
pub proof fn law_published_directory(dir: Seq<char>)
    ensures
        deploy_view(DeployTarget::Netlify, dir).path == "netlify.toml"@,
        text::ends_with(
            deploy_view(DeployTarget::Netlify, dir).content,
            "publish = \""@ + dir + "\"\n"@,
        ),
        text::starts_with(
            deploy_view(DeployTarget::Netlify, dir).content,
            "[build]\ncommand = \"cargo run -p nanoss-cli -- build --output-dir "@ + dir + "\"\n"@,
        ),
        deploy_view(DeployTarget::Vercel, dir).path == "vercel.json"@,
        text::ends_with(
            deploy_view(DeployTarget::Vercel, dir).content,
            "\"outputDirectory\": \""@ + dir + "\"\n}\n"@,
        ),
        text::starts_with(
            deploy_view(DeployTarget::Vercel, dir).content,
            "{\n  \"buildCommand\": \"cargo run -p nanoss-cli -- build --output-dir "@ + dir
                + "\",\n"@,
        ),
        deploy_view(DeployTarget::CloudflarePages, dir).path == "wrangler.toml"@,
        text::ends_with(
            deploy_view(DeployTarget::CloudflarePages, dir).content,
            "build_output_dir = \""@ + dir + "\"\n"@,
        ),
        ci_view(CiProvider::Github, dir).path == ".github/workflows/nanoss.yml"@,
        text::ends_with(ci_view(CiProvider::Github, dir).content, "path: "@ + dir + "\n"@),
        ci_view(CiProvider::Gitlab, dir).path == ".gitlab-ci.yml"@,
        text::ends_with(ci_view(CiProvider::Gitlab, dir).content, "      - "@ + dir + "\n"@),
{
    reveal_strlit("\"\npublish = \"");
    reveal_strlit("publish = \"");
    reveal_strlit("\"\n");
    let n = deploy_view(DeployTarget::Netlify, dir).content;
    let tail = "publish = \""@ + dir + "\"\n"@;
    assert(n.skip(n.len() - tail.len()) =~= tail);
    let head = "[build]\ncommand = \"cargo run -p nanoss-cli -- build --output-dir "@ + dir
        + "\"\n"@;
    assert(n.take(head.len() as int) =~= head);
    reveal_strlit("\",\n  \"outputDirectory\": \"");
    reveal_strlit("\"outputDirectory\": \"");
    reveal_strlit("\",\n");
    reveal_strlit("\"\n}\n");
    let v = deploy_view(DeployTarget::Vercel, dir).content;
    let vt = "\"outputDirectory\": \""@ + dir + "\"\n}\n"@;
    assert(v.skip(v.len() - vt.len()) =~= vt);
    let vh = "{\n  \"buildCommand\": \"cargo run -p nanoss-cli -- build --output-dir "@ + dir
        + "\",\n"@;
    assert(v.take(vh.len() as int) =~= vh);
    reveal_strlit("build_output_dir = \"");
    reveal_strlit(
        "name = \"nanoss-site\"\ncompatibility_date = \"2026-01-01\"\n[pages]\nbuild_output_dir = \"",
    );
    let c = deploy_view(DeployTarget::CloudflarePages, dir).content;
    let ct = "build_output_dir = \""@ + dir + "\"\n"@;
    assert(c.skip(c.len() - ct.len()) =~= ct);
    lemma_published_by_services(dir);
}

proof fn lemma_published_by_services(dir: Seq<char>)
    ensures
        text::ends_with(ci_view(CiProvider::Github, dir).content, "path: "@ + dir + "\n"@),
        text::ends_with(ci_view(CiProvider::Gitlab, dir).content, "      - "@ + dir + "\n"@),
{
    reveal_strlit("path: ");
    reveal_strlit("      - ");
    reveal_strlit("\n");
    reveal_strlit(
        "\n      - run: bash scripts/bench_gate.sh bench/thresholds.toml\n      - uses: actions/upload-artifact@v4\n        with:\n          name: site\n          path: ",
    );
    reveal_strlit(
        "\n    - bash scripts/bench_gate.sh bench/thresholds.toml\n  artifacts:\n    paths:\n      - ",
    );
    let g = ci_view(CiProvider::Github, dir).content;
    let gt = "path: "@ + dir + "\n"@;
    assert(g.skip(g.len() - gt.len()) =~= gt);
    let l = ci_view(CiProvider::Gitlab, dir).content;
    let lt = "      - "@ + dir + "\n"@;
    assert(l.skip(l.len() - lt.len()) =~= lt);
}

/// A file that is there is passed over or overwritten with a note that ends with its path;
/// a new one is written without a note. What stands in the way is told with its path.
pub proof fn law_notes(path: Seq<char>, what: Seq<char>, there: bool, force: bool)
    ensures
        !there ==> file_action(there, force) == FileAction::Write,
        there && force ==> file_action(there, force) == FileAction::Overwrite,
        file_note(FileAction::Write, path) is None,
        file_note(FileAction::Overwrite, path) == Some("overwrite "@ + path),
        file_note(FileAction::Skip, path) == Some("skip existing "@ + path),
        text::starts_with(exists_error(what, path), what + path),
{
    let m = exists_error(what, path);
    assert(m.take((what + path).len() as int) =~= what + path);
}

/// Each kind of thing is made where it belongs: a site at its name, a theme among the
/// themes, a plugin among the plugins, and a page in the content.
pub proof fn law_new_things_have_their_places(name: Seq<char>, there: bool, force: bool)
    requires
        !there || force,
    ensures
        new_scaffold(NewKind::Site, name, there, force) == new_site(name, there, force),
        new_site(name, there, force) matches Ok(s) && s == site_scaffold(name),
        new_scaffold(NewKind::Theme, name, there, force) == new_theme(name, there, force),
        new_theme(name, there, force) matches Ok(s) && s == theme_scaffold(
            theme::theme_dir(name),
            name,
        ),
        new_scaffold(NewKind::Page, name, there, force) matches Ok(s) && s == page_scaffold(name),
        new_scaffold(NewKind::Plugin, name, there, force) == new_plugin(
            "plugins"@,
            name,
            there,
            force,
        ),
        new_plugin("plugins"@, name, there, force) matches Ok(s) && s == plugin_scaffold(
            fspath::join("plugins"@, name),
            name,
        ),
{
}

} // verus!
