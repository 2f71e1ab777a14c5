//! Watching: what a change of files asks to be built again.
use vstd::prelude::*;
use vstd::string::*;

use crate::config::BuildScope;
use crate::fspath;
use crate::text;
use crate::text::copy_text;
use crate::theme;

verus! {

/// What kind of files has changed.
#[derive(Debug, Clone, Copy, PartialEq, Eq, Structural)]
pub enum ChangeKind {
    Unknown,
    Template,
    SinglePage,
    AssetsOnly,
    Mixed,
}

/// A template below the template directory, or below a theme.
pub open spec fn is_template(path: Seq<char>, template_dir: Option<Seq<char>>) -> bool {
    fspath::extension(path) == Some("html"@) && ((match template_dir {
        Some(dir) => fspath::starts_with(path, dir),
        None => false,
    }) || text::contains_text(path, ".nanoss/themes/"@))
}

/// A page.
pub open spec fn is_page(path: Seq<char>) -> bool {
    fspath::extension(path) == Some("md"@)
}

/// Some changed file is a template.
pub open spec fn any_template(changed: Seq<Seq<char>>, template_dir: Option<Seq<char>>) -> bool {
    exists|i: int| 0 <= i < changed.len() && is_template(#[trigger] changed[i], template_dir)
}

/// Some changed file is a page.
pub open spec fn any_page(changed: Seq<Seq<char>>) -> bool {
    exists|i: int| 0 <= i < changed.len() && is_page(#[trigger] changed[i])
}

/// The kind of a change.
pub open spec fn change_kind(changed: Seq<Seq<char>>, template_dir: Option<Seq<char>>) -> ChangeKind {
    if changed.len() == 0 {
        ChangeKind::Unknown
    } else if any_template(changed, template_dir) {
        ChangeKind::Template
    } else if changed.len() == 1 && is_page(changed[0]) {
        ChangeKind::SinglePage
    } else if !any_page(changed) {
        ChangeKind::AssetsOnly
    } else {
        ChangeKind::Mixed
    }
}

/// Decides [`is_template`].
fn path_is_template(path: &str, template_dir: Option<&str>) -> (r: bool)
    ensures
        r == is_template(path@, text::opt_str(template_dir)),
{
    if !fspath::extension_is(path, "html") {
        return false;
    }
    let below = match template_dir {
        Some(dir) => fspath::path_starts_with(path, dir),
        None => false,
    };
    below || text::has_part(path, ".nanoss/themes/")
}

/// Computes [`change_kind`].
pub fn classify_watch_change(template_dir: Option<&str>, changed: &Vec<String>) -> (r: ChangeKind)
    ensures
        r == change_kind(text::texts(changed@), text::opt_str(template_dir)),
{
    let ghost all = text::texts(changed@);
    let ghost dir = text::opt_str(template_dir);
    if changed.len() == 0 {
        return ChangeKind::Unknown;
    }
    let mut pages: bool = false;
    let mut i: usize = 0;
    while i < changed.len()
        invariant
            i <= changed.len(),
            all == text::texts(changed@),
            dir == text::opt_str(template_dir),
            changed.len() > 0,
            forall|j: int| 0 <= j < i ==> !is_template(#[trigger] all[j], dir),
            pages == (exists|j: int| 0 <= j < i && is_page(#[trigger] all[j])),
        decreases changed.len() - i,
    {
        assert(all[i as int] == changed@[i as int]@);
        if path_is_template(changed[i].as_str(), template_dir) {
            return ChangeKind::Template;
        }
        if fspath::extension_is(changed[i].as_str(), "md") {
            assert(is_page(all[i as int]));
            pages = true;
        }
        i += 1;
    }
    if changed.len() == 1 && pages {
        ChangeKind::SinglePage
    } else if !pages {
        ChangeKind::AssetsOnly
    } else {
        ChangeKind::Mixed
    }
}

impl ChangeKind {
    /// The name of the kind in log lines.
    pub fn name(&self) -> (r: &'static str)
        ensures
            r@ == kind_name(*self),
    {
        match self {
            ChangeKind::Unknown => "unknown",
            ChangeKind::Template => "template",
            ChangeKind::SinglePage => "single_page",
            ChangeKind::AssetsOnly => "assets_only",
            ChangeKind::Mixed => "mixed",
        }
    }

    /// What the change asks to be built again.
    pub fn rebuild_scope(&self) -> (r: RebuildScope)
        ensures
            r == scope_of_kind(*self),
    {
        match self {
            ChangeKind::Unknown => RebuildScope::Full,
            ChangeKind::Template => RebuildScope::Template,
            ChangeKind::SinglePage => RebuildScope::SinglePage,
            ChangeKind::AssetsOnly => RebuildScope::AssetsOnly,
            ChangeKind::Mixed => RebuildScope::Mixed,
        }
    }
}

/// The name of a kind in log lines.
pub open spec fn kind_name(kind: ChangeKind) -> Seq<char> {
    match kind {
        ChangeKind::Unknown => "unknown"@,
        ChangeKind::Template => "template"@,
        ChangeKind::SinglePage => "single_page"@,
        ChangeKind::AssetsOnly => "assets_only"@,
        ChangeKind::Mixed => "mixed"@,
    }
}

/// What is built again.
#[derive(Debug, Clone, Copy, PartialEq, Eq, Structural)]
pub enum RebuildScope {
    Full,
    SinglePage,
    AssetsOnly,
    Template,
    Mixed,
}

/// What a change asks to be built again.
pub open spec fn scope_of_kind(kind: ChangeKind) -> RebuildScope {
    match kind {
        ChangeKind::Unknown => RebuildScope::Full,
        ChangeKind::Template => RebuildScope::Template,
        ChangeKind::SinglePage => RebuildScope::SinglePage,
        ChangeKind::AssetsOnly => RebuildScope::AssetsOnly,
        ChangeKind::Mixed => RebuildScope::Mixed,
    }
}

/// The name of a scope in log lines.
pub open spec fn scope_name(scope: RebuildScope) -> Seq<char> {
    match scope {
        RebuildScope::Full => "Full"@,
        RebuildScope::SinglePage => "SinglePage"@,
        RebuildScope::AssetsOnly => "AssetsOnly"@,
        RebuildScope::Template => "Template"@,
        RebuildScope::Mixed => "Mixed"@,
    }
}

/// The index of the first page among the changed files.
pub open spec fn first_page(changed: Seq<Seq<char>>) -> Option<Seq<char>>
    decreases changed.len(),
{
    if changed.len() == 0 {
        None
    } else if is_page(changed[0]) {
        Some(changed[0])
    } else {
        first_page(changed.skip(1))
    }
}

/// `r` is the scope of the build that a rebuild runs: one page, the changed
/// assets, or all.
pub open spec fn is_build_scope(scope: RebuildScope, changed: Seq<Seq<char>>, r: BuildScope) -> bool {
    match scope {
        RebuildScope::SinglePage => match first_page(changed) {
            Some(p) => r matches BuildScope::SinglePage { path } && path@ == p,
            None => r == BuildScope::Full,
        },
        RebuildScope::AssetsOnly => r matches BuildScope::AssetsOnly { paths }
            && text::texts(paths@) == changed,
        _ => r == BuildScope::Full,
    }
}

/// The scope of the build that a rebuild runs.
pub fn build_scope_for(scope: RebuildScope, changed: &Vec<String>) -> (r: BuildScope)
    ensures
        is_build_scope(scope, text::texts(changed@), r),
{
    match scope {
        RebuildScope::SinglePage => {
            let ghost all = text::texts(changed@);
            let mut i: usize = 0;
            assert(all.skip(0) =~= all);
            while i < changed.len()
                invariant
                    i <= changed.len(),
                    all == text::texts(changed@),
                    first_page(all) == first_page(all.skip(i as int)),
                    scope == RebuildScope::SinglePage,
                decreases changed.len() - i,
            {
                assert(all.skip(i as int)[0] == changed@[i as int]@);
                if fspath::extension_is(changed[i].as_str(), "md") {
                    return BuildScope::SinglePage { path: copy_text(changed[i].as_str()) };
                }
                assert(all.skip(i as int).skip(1) =~= all.skip(i + 1));
                i += 1;
            }
            BuildScope::Full
        },
        RebuildScope::AssetsOnly => BuildScope::AssetsOnly { paths: text::copy_texts(changed) },
        RebuildScope::Template | RebuildScope::Mixed | RebuildScope::Full => BuildScope::Full,
    }
}

/// A change of one page alone builds that page alone; a change of assets alone
/// builds those alone; any other change builds the whole site.
pub proof fn law_change_decides_scope(
    changed: Seq<Seq<char>>,
    template_dir: Option<Seq<char>>,
    r: BuildScope,
)
    requires
        is_build_scope(scope_of_kind(change_kind(changed, template_dir)), changed, r),
    ensures
        r matches BuildScope::SinglePage { path } ==> changed.len() == 1 && path@ == changed[0]
            && is_page(changed[0]),
        r matches BuildScope::AssetsOnly { paths } ==> text::texts(paths@) == changed && !any_page(
            changed,
        ) && !any_template(changed, template_dir),
        any_template(changed, template_dir) ==> r == BuildScope::Full,
{
    if changed.len() == 1 {
        assert(first_page(changed) == if is_page(changed[0]) {
            Some(changed[0])
        } else {
            None
        }) by {
            reveal_with_fuel(first_page, 2);
        }
    }
}

/// The line that tells the scope of a rebuild.
pub fn rebuild_scope_line(scope: RebuildScope) -> (r: String)
    ensures
        r@ == "{\"stage\":\"rebuild_scope\",\"scope\":\""@ + scope_name(scope) + "\"}"@,
{
    let mut out = copy_text("{\"stage\":\"rebuild_scope\",\"scope\":\"");
    match scope {
        RebuildScope::Full => {
            out.append("Full");
        },
        RebuildScope::SinglePage => {
            out.append("SinglePage");
        },
        RebuildScope::AssetsOnly => {
            out.append("AssetsOnly");
        },
        RebuildScope::Template => {
            out.append("Template");
        },
        RebuildScope::Mixed => {
            out.append("Mixed");
        },
    }
    out.append("\"}");
    out
}

/// The line that tells that a rebuild begins.
pub fn rebuild_start_line(kind: ChangeKind, changed: &Vec<String>) -> (r: String)
    ensures
        r@ == "{\"stage\":\"watch_rebuild_start\",\"change_kind\":\""@ + kind_name(kind)
            + "\",\"changed\":"@ + crate::json::json_array(
            Seq::new(changed@.len(), |i: int| crate::json::json_string(changed@[i]@)),
        ) + "}"@,
{
    let mut items: Vec<String> = Vec::new();
    let mut i: usize = 0;
    while i < changed.len()
        invariant
            i <= changed.len(),
            items@.len() == i,
            forall|j: int|
                0 <= j < i ==> #[trigger] items@[j]@ == crate::json::json_string(changed@[j]@),
        decreases changed.len() - i,
    {
        items.push(crate::json::json_string_text(changed[i].as_str()));
        i += 1;
    }
    assert(text::texts(items@) =~= Seq::new(
        changed@.len(),
        |i: int| crate::json::json_string(changed@[i]@),
    ));
    let list = crate::json::array_text(&items);
    let mut out = copy_text("{\"stage\":\"watch_rebuild_start\",\"change_kind\":\"");
    out.append(kind.name());
    out.append("\",\"changed\":");
    out.append(list.as_str());
    out.append("}");
    out
}

/// The line that tells that a rebuild has ended.
pub fn rebuild_finish_line(kind: ChangeKind) -> (r: String)
    ensures
        r@ == "{\"stage\":\"watch_rebuild_finish\",\"change_kind\":\""@ + kind_name(kind)
            + "\",\"status\":\"ok\"}"@,
{
    let mut out = copy_text("{\"stage\":\"watch_rebuild_finish\",\"change_kind\":\"");
    out.append(kind.name());
    out.append("\",\"status\":\"ok\"}");
    out
}

/// What is watched, and what is said of what is not.
#[derive(Debug)]
pub struct WatchPlan {
    pub dirs: Vec<String>,
    pub warning: Option<String>,
}

/// The directories that are watched: the content, the templates and the theme,
/// where they exist.
pub open spec fn watched_dirs(
    content_dir: Seq<char>,
    template_dir: Option<Seq<char>>,
    template_exists: bool,
    theme_name: Option<Seq<char>>,
    theme_exists: bool,
) -> Seq<Seq<char>> {
    seq![content_dir] + (match template_dir {
        Some(dir) if template_exists => seq![dir],
        _ => Seq::empty(),
    }) + (match theme_name {
        Some(name) if theme_exists => seq![theme::theme_dir(name)],
        _ => Seq::empty(),
    })
}

/// What is watched while a site is served. A template directory that does not
/// exist is left out with a warning, a theme silently.
pub fn plan_watch(
    content_dir: &str,
    template_dir: Option<&str>,
    template_exists: bool,
    theme_name: Option<&str>,
    theme_exists: bool,
) -> (r: WatchPlan)
    ensures
        text::texts(r.dirs@) == watched_dirs(
            content_dir@,
            text::opt_str(template_dir),
            template_exists,
            text::opt_str(theme_name),
            theme_exists,
        ),
        text::opt_text(r.warning) == (match template_dir {
            Some(dir) if !template_exists => Some(
                "warning: template directory not found, skipping watch: "@ + dir@,
            ),
            _ => None,
        }),
{
    let mut dirs: Vec<String> = Vec::new();
    dirs.push(copy_text(content_dir));
    let mut warning: Option<String> = None;
    match template_dir {
        Some(dir) => {
            if template_exists {
                dirs.push(copy_text(dir));
            } else {
                warning = Some(
                    text::concat("warning: template directory not found, skipping watch: ", dir),
                );
            }
        },
        None => {},
    }
    match theme_name {
        Some(name) => {
            if theme_exists {
                dirs.push(theme::theme_dir_for(name));
            }
        },
        None => {},
    }
    assert(text::texts(dirs@) =~= watched_dirs(
        content_dir@,
        text::opt_str(template_dir),
        template_exists,
        text::opt_str(theme_name),
        theme_exists,
    ));
    WatchPlan { dirs, warning }
}

// ---------------------------------------------------------------------------
// More laws.

/// A change of nothing is unknown. A template among what has changed decides; without one
/// a page alone is a change of that page, files without a page are a change of assets,
/// and all else is mixed.
pub proof fn law_kinds_of_changes(changed: Seq<Seq<char>>, template_dir: Option<Seq<char>>)
    ensures
        change_kind(changed, template_dir) == ChangeKind::Unknown <==> changed.len() == 0,
        change_kind(changed, template_dir) == ChangeKind::Template <==> exists|i: int|
            0 <= i < changed.len() && is_template(#[trigger] changed[i], template_dir),
        change_kind(changed, template_dir) == ChangeKind::SinglePage <==> changed.len() == 1
            && fspath::extension(changed[0]) == Some("md"@),
        change_kind(changed, template_dir) == ChangeKind::AssetsOnly <==> changed.len() > 0 && (
        forall|i: int|
            0 <= i < changed.len() ==> fspath::extension(#[trigger] changed[i]) != Some("md"@)
                && !is_template(changed[i], template_dir)),
{
    reveal_strlit("md");
    reveal_strlit("html");
    assert("md"@.len() == 2 && "html"@.len() == 4);
    if changed.len() == 1 {
        assert(any_template(changed, template_dir) <==> is_template(changed[0], template_dir));
    }
    if any_template(changed, template_dir) {
        let i = choose|i: int|
            0 <= i < changed.len() && is_template(#[trigger] changed[i], template_dir);
        assert(is_template(changed[i], template_dir));
    }
    if any_page(changed) {
        let i = choose|i: int| 0 <= i < changed.len() && is_page(#[trigger] changed[i]);
        assert(fspath::extension(changed[i]) == Some("md"@));
    }
    if changed.len() > 0 && !any_template(changed, template_dir) && !any_page(changed) {
        assert forall|i: int| 0 <= i < changed.len() implies fspath::extension(
            #[trigger] changed[i],
        ) != Some("md"@) && !is_template(changed[i], template_dir) by {
            assert(!is_page(changed[i]));
        }
    }
}

/// A template is an HTML file below the directory of templates, or below that of the
/// themes.
pub proof fn law_templates(path: Seq<char>, dir: Seq<char>)
    ensures
        is_template(path, None) <==> fspath::extension(path) == Some("html"@)
            && text::contains_text(path, ".nanoss/themes/"@),
        is_template(path, Some(dir)) <==> fspath::extension(path) == Some("html"@) && (
        fspath::starts_with(path, dir) || text::contains_text(path, ".nanoss/themes/"@)),
{
}

/// A change of one page builds that page, and one of assets builds those; everything else
/// builds all.
pub proof fn law_what_is_rebuilt(changed: Seq<Seq<char>>, template_dir: Option<Seq<char>>, r: BuildScope)
    requires
        is_build_scope(scope_of_kind(change_kind(changed, template_dir)), changed, r),
    ensures
        change_kind(changed, template_dir) == ChangeKind::SinglePage ==> r is SinglePage,
        change_kind(changed, template_dir) == ChangeKind::AssetsOnly ==> r is AssetsOnly,
        change_kind(changed, template_dir) == ChangeKind::Mixed ==> r is Full,
        change_kind(changed, template_dir) == ChangeKind::Unknown ==> r is Full,
{
}

/// The content is always watched; the templates and the theme are where they are there.
pub proof fn law_watched_directories(
    content: Seq<char>,
    templates: Option<Seq<char>>,
    templates_exist: bool,
    theme_name: Option<Seq<char>>,
    theme_exists: bool,
)
    ensures
        ({
            let dirs = watched_dirs(
                content,
                templates,
                templates_exist,
                theme_name,
                theme_exists,
            );
            &&& dirs[0] == content
            &&& dirs.len() == 1 + (if templates is Some && templates_exist {
                1int
            } else {
                0
            }) + (if theme_name is Some && theme_exists {
                1int
            } else {
                0
            })
            &&& templates is Some && templates_exist ==> dirs[1] == templates.unwrap()
            &&& theme_name is Some && theme_exists ==> dirs.last() == theme::theme_dir(
                theme_name.unwrap(),
            )
        }),
{
}

/// Each kind of change and each scope has a name of its own in the log.
pub proof fn law_names_in_the_log(a: ChangeKind, b: ChangeKind, c: RebuildScope, d: RebuildScope)
    ensures
        kind_name(a) == kind_name(b) ==> a == b,
        scope_name(c) == scope_name(d) ==> c == d,
        kind_name(ChangeKind::SinglePage) == "single_page"@,
        kind_name(ChangeKind::AssetsOnly) == "assets_only"@,
        kind_name(ChangeKind::Mixed) == "mixed"@,
        kind_name(ChangeKind::Template) == "template"@,
        scope_name(RebuildScope::Full) == "Full"@,
        scope_name(RebuildScope::Mixed) == "Mixed"@,
{
    reveal_strlit("unknown");
    reveal_strlit("template");
    reveal_strlit("single_page");
    reveal_strlit("assets_only");
    reveal_strlit("mixed");
    assert("unknown"@[0] == 'u' && "template"@[0] == 't' && "single_page"@[0] == 's');
    assert("assets_only"@[0] == 'a' && "mixed"@[0] == 'm');
    reveal_strlit("Full");
    reveal_strlit("SinglePage");
    reveal_strlit("AssetsOnly");
    reveal_strlit("Template");
    reveal_strlit("Mixed");
    assert("Full"@[0] == 'F' && "SinglePage"@[0] == 'S' && "AssetsOnly"@[0] == 'A');
    assert("Template"@[0] == 'T' && "Mixed"@[0] == 'M');
}

} // verus!
