//! Themes: where they live, and which are complete.
use vstd::prelude::*;
use vstd::string::*;

use crate::failure;
use crate::failure::{failure, Failure};
use crate::fspath;
use crate::text;
use crate::text::{concat, copy_text, same_text};

verus! {

/// The directory that themes live in.
pub const THEMES_DIR: &'static str = ".nanoss/themes";

/// The directory of the theme with this name.
pub open spec fn theme_dir(name: Seq<char>) -> Seq<char> {
    fspath::join(THEMES_DIR@, name)
}

/// The directory of the selected theme.
pub open spec fn selected_theme(name: Option<Seq<char>>) -> Option<Seq<char>> {
    match name {
        Some(n) => Some(theme_dir(n)),
        None => None,
    }
}

/// Computes [`theme_dir`].
pub fn theme_dir_for(name: &str) -> (r: String)
    ensures
        r@ == theme_dir(name@),
{
    fspath::path_join(THEMES_DIR, name)
}

/// The files that a theme has to have: its manifest and its page template.
pub fn theme_manifest(dir: &str) -> (r: String)
    ensures
        r@ == fspath::join(dir@, "theme.toml"@),
{
    fspath::path_join(dir, "theme.toml")
}

/// The page template of a theme.
pub fn theme_page_template(dir: &str) -> (r: String)
    ensures
        r@ == fspath::join(fspath::join(dir@, "templates"@), "page.html"@),
{
    let templates = fspath::path_join(dir, "templates");
    fspath::path_join(templates.as_str(), "page.html")
}

/// Why the theme in `dir` is not complete, given what of it exists.
pub open spec fn theme_error(
    dir: Seq<char>,
    dir_exists: bool,
    manifest_exists: bool,
    template_exists: bool,
) -> Option<Seq<char>> {
    if !dir_exists {
        Some("theme directory not found: "@ + dir)
    } else if !manifest_exists {
        Some("theme missing theme.toml: "@ + dir)
    } else if !template_exists {
        Some("theme missing templates/page.html: "@ + dir)
    } else {
        None
    }
}

/// Accepts a theme that is complete.
pub fn validate_theme_dir(
    dir: &str,
    dir_exists: bool,
    manifest_exists: bool,
    template_exists: bool,
) -> (r: Result<(), Failure>)
    ensures
        failure::refusal(r) == theme_error(dir@, dir_exists, manifest_exists, template_exists),
{
    if !dir_exists {
        Err(failure(concat("theme directory not found: ", dir)))
    } else if !manifest_exists {
        Err(failure(concat("theme missing theme.toml: ", dir)))
    } else if !template_exists {
        Err(failure(concat("theme missing templates/page.html: ", dir)))
    } else {
        Ok(())
    }
}

/// The line of a theme in the list of themes: the active one is marked.
pub fn theme_line(name: &str, current: Option<&str>) -> (r: String)
    ensures
        r@ == (if text::opt_str(current).unwrap_or(Seq::empty()) == name@ {
            "* "@
        } else {
            "  "@
        }) + name@,
{
    let active = match current {
        Some(c) => same_text(c, name),
        None => {
            assert(name@.len() == 0 ==> name@ =~= Seq::<char>::empty());
            name.is_empty()
        },
    };
    if active {
        concat("* ", name)
    } else {
        concat("  ", name)
    }
}

/// Where a theme's file is written to in the output, and whether it is: a file
/// that the site has written already stays.
pub open spec fn theme_static_target(
    path: Seq<char>,
    static_root: Seq<char>,
    output_dir: Seq<char>,
) -> Result<Seq<char>, Seq<char>> {
    match fspath::strip_prefix(path, static_root) {
        Some(rel) => Ok(fspath::join(output_dir, rel)),
        None => Err("failed to relativize theme static "@ + path),
    }
}

/// Computes [`theme_static_target`].
pub fn theme_static_output(path: &str, static_root: &str, output_dir: &str) -> (r: Result<
    String,
    Failure,
>)
    ensures
        failure::text_outcome(r) == theme_static_target(path@, static_root@, output_dir@),
{
    match fspath::relative_to(path, static_root) {
        Some(rel) => Ok(fspath::path_join(output_dir, rel.as_str())),
        None => Err(failure(concat("failed to relativize theme static ", path))),
    }
}

/// Where a file of the site's static directory is written to in the output.
pub open spec fn site_static_target(
    path: Seq<char>,
    static_dir: Seq<char>,
    output_dir: Seq<char>,
) -> Result<Seq<char>, Seq<char>> {
    match fspath::strip_prefix(path, static_dir) {
        Some(rel) => Ok(fspath::join(output_dir, rel)),
        None => Err("failed to relativize static asset "@ + path),
    }
}

/// Computes [`site_static_target`].
pub fn site_static_output(path: &str, static_dir: &str, output_dir: &str) -> (r: Result<
    String,
    Failure,
>)
    ensures
        failure::text_outcome(r) == site_static_target(path@, static_dir@, output_dir@),
{
    match fspath::relative_to(path, static_dir) {
        Some(rel) => Ok(fspath::path_join(output_dir, rel.as_str())),
        None => Err(failure(concat("failed to relativize static asset ", path))),
    }
}

/// Where a static file comes from.
#[derive(Debug, Clone, Copy, PartialEq, Eq, Structural)]
pub enum StaticSource {
    Site,
    Theme,
}

/// Whether a static file is copied: a file of the site always, a file of a theme
/// only where nothing stands at its target.
pub fn copies_static(source: StaticSource, target_exists: bool) -> (r: bool)
    ensures
        r == (source == StaticSource::Site || !target_exists),
{
    match source {
        StaticSource::Site => true,
        StaticSource::Theme => !target_exists,
    }
}

/// A theme has a directory of its name among the themes. It can be used where that, its
/// manifest and its page template are there.
pub proof fn law_themes(name: Seq<char>, dir: Seq<char>, a: bool, b: bool, c: bool)
    ensures
        fspath::plain_name(name) ==> theme_dir(name) == ".nanoss/themes/"@ + name,
        selected_theme(None) is None,
        selected_theme(Some(name)) == Some(theme_dir(name)),
        theme_error(dir, a, b, c) is None <==> a && b && c,
        theme_error(dir, a, b, c) matches Some(m) ==> text::ends_with(m, dir),
        theme_error(dir, false, b, c) == Some("theme directory not found: "@ + dir),
        theme_error(dir, true, false, c) == Some("theme missing theme.toml: "@ + dir),
{
    reveal_strlit(".nanoss/themes");
    reveal_strlit(".nanoss/themes/");
    if fspath::plain_name(name) {
        fspath::law_join(THEMES_DIR@, name);
        assert(".nanoss/themes"@ + seq!['/'] =~= ".nanoss/themes/"@);
    }
    let m1 = "theme directory not found: "@ + dir;
    let m2 = "theme missing theme.toml: "@ + dir;
    let m3 = "theme missing templates/page.html: "@ + dir;
    assert(m1.skip(m1.len() - dir.len()) =~= dir);
    assert(m2.skip(m2.len() - dir.len()) =~= dir);
    assert(m3.skip(m3.len() - dir.len()) =~= dir);
}

/// A static file, of the site or of the theme, keeps its place below the output
/// directory.
pub proof fn law_static_files_keep_their_places(
    path: Seq<char>,
    static_root: Seq<char>,
    output_dir: Seq<char>,
    rel: Seq<char>,
)
    requires
        output_dir.len() > 0 && output_dir.last() != '/',
        rel.len() > 0 && rel[0] != '/',
    ensures
        fspath::strip_prefix(path, static_root) == Some(rel) ==> theme_static_target(
            path,
            static_root,
            output_dir,
        ) == Ok::<Seq<char>, Seq<char>>(output_dir + seq!['/'] + rel) && site_static_target(
            path,
            static_root,
            output_dir,
        ) == Ok::<Seq<char>, Seq<char>>(output_dir + seq!['/'] + rel),
        fspath::strip_prefix(path, static_root) is None ==> theme_static_target(
            path,
            static_root,
            output_dir,
        ) is Err && site_static_target(path, static_root, output_dir) is Err,
{
}

} // verus!
