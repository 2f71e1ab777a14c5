//! The project: its configuration file, and the configuration of a build that
//! follows from it and from the command line.
use vstd::prelude::*;
use vstd::string::*;

use crate::config::{
    BuildConfig, BuildScope, I18nConfig, ImageBuildConfig, JsBackend, RemoteDataSourceConfig,
    TailwindBackend, TailwindConfig,
};
use crate::failure::Failure;
use crate::fspath;
use crate::order;
use crate::pathorder;
use crate::registry;
use crate::registry::{PluginRegistry, PluginView};
use crate::text;
use crate::text::{copy_opt, copy_text};
use crate::theme;

verus! {

/// The name of the configuration file of a project.
pub const PROJECT_CONFIG_FILE: &'static str = "nanoss.toml";

/// The file that the plugin registry is kept in.
pub const PLUGIN_REGISTRY_FILE: &'static str = ".nanoss/plugins/registry.json";

/// What a project says of its builds.
#[derive(Debug)]
pub struct BuildSection {
    pub base_path: Option<String>,
    pub site_domain: Option<String>,
    pub images: ImageBuildConfig,
    pub data_sources: Vec<(String, RemoteDataSourceConfig)>,
    pub i18n: I18nConfig,
}

/// What a project says of its plugins: those that are enabled, in order, and
/// what they are configured with, as JSON.
#[derive(Debug)]
pub struct PluginsSection {
    pub enabled: Vec<String>,
    pub config_json: Option<String>,
}

/// The configuration of a project.
#[derive(Debug)]
pub struct ProjectConfig {
    pub build: BuildSection,
    pub mount_path: Option<String>,
    pub theme_name: Option<String>,
    pub plugins: PluginsSection,
}

impl Default for ProjectConfig {
    fn default() -> (r: Self)
        ensures
            r.build.base_path is None && r.build.site_domain is None,
            r.build.images.enabled && !r.build.images.generate_webp
                && !r.build.images.generate_avif && r.build.images.widths@.len() == 0,
            r.build.data_sources@.len() == 0,
            r.build.i18n.locales@.len() == 0 && r.build.i18n.default_locale is None
                && !r.build.i18n.prefix_default_locale,
            r.mount_path is None && r.theme_name is None,
            r.plugins.enabled@.len() == 0 && r.plugins.config_json is None,
    {
        ProjectConfig {
            build: BuildSection {
                base_path: None,
                site_domain: None,
                images: ImageBuildConfig::default(),
                data_sources: Vec::new(),
                i18n: I18nConfig::default(),
            },
            mount_path: None,
            theme_name: None,
            plugins: PluginsSection { enabled: Vec::new(), config_json: None },
        }
    }
}

// ---------------------------------------------------------------------------
// Which configuration file counts.

/// The configuration file beside the content directory.
pub open spec fn beside_content(content_dir: Seq<char>) -> Option<Seq<char>> {
    match fspath::parent(content_dir) {
        Some(dir) => Some(fspath::join(dir, PROJECT_CONFIG_FILE@)),
        None => None,
    }
}

/// Computes [`beside_content`].
pub fn config_beside_content(content_dir: &str) -> (r: Option<String>)
    ensures
        text::opt_text(r) == beside_content(content_dir@),
{
    match fspath::path_parent(content_dir) {
        Some(dir) => Some(fspath::path_join(dir.as_str(), PROJECT_CONFIG_FILE)),
        None => None,
    }
}

/// The configuration file that counts: the one that is named, else the one
/// beside the content directory where it exists, else the one in the current
/// directory.
pub open spec fn config_file(
    named: Option<Seq<char>>,
    content_dir: Seq<char>,
    beside_exists: bool,
) -> Seq<char> {
    match named {
        Some(path) => path,
        None => match beside_content(content_dir) {
            Some(path) if beside_exists => path,
            _ => PROJECT_CONFIG_FILE@,
        },
    }
}

/// Computes [`config_file`].
pub fn choose_config_file(named: Option<&str>, content_dir: &str, beside_exists: bool) -> (r: String)
    ensures
        r@ == config_file(text::opt_str(named), content_dir@, beside_exists),
{
    match named {
        Some(path) => copy_text(path),
        None => match config_beside_content(content_dir) {
            Some(path) => {
                if beside_exists {
                    path
                } else {
                    copy_text(PROJECT_CONFIG_FILE)
                }
            },
            None => copy_text(PROJECT_CONFIG_FILE),
        },
    }
}

// ---------------------------------------------------------------------------
// The configuration of a build.

/// What the command line says of a build.
#[derive(Debug)]
pub struct BuildArgs {
    pub content_dir: String,
    pub static_dir: String,
    pub output_dir: String,
    pub template_dir: Option<String>,
    pub theme: Option<String>,
    pub check_external_links: bool,
    pub fail_on_broken_links: bool,
    pub plugin_paths: Vec<String>,
    pub js_backend: JsBackend,
    pub tailwind_input: Option<String>,
    pub tailwind_output: Option<String>,
    pub tailwind_bin: String,
    pub tailwind_minify: bool,
    pub tailwind_backend: TailwindBackend,
    pub enable_ai_index: bool,
    pub base_path: Option<String>,
    pub site_domain: Option<String>,
    pub include_drafts: bool,
    pub config: Option<String>,
}

/// The first of two texts that is there.
pub open spec fn first_of(a: Option<Seq<char>>, b: Option<Seq<char>>) -> Option<Seq<char>> {
    if a is Some {
        a
    } else {
        b
    }
}

/// Computes [`first_of`].
fn either_opt(a: &Option<String>, b: &Option<String>) -> (r: Option<String>)
    ensures
        text::opt_text(r) == first_of(text::opt_text(*a), text::opt_text(*b)),
{
    match a {
        Some(s) => Some(copy_text(s.as_str())),
        None => copy_opt(b),
    }
}

/// Whether the host can run a plugin.
pub open spec fn entry_compatibility(entry: PluginView, host: Seq<char>) -> Result<
    Seq<Seq<char>>,
    Seq<char>,
> {
    registry::compatibility(
        entry.id,
        entry.min_host_version,
        host,
        registry::version_numbers(host),
        registry::version_numbers(entry.min_host_version),
        registry::version_lt(host, entry.min_host_version),
    )
}

/// The files of the enabled plugins that are installed, and the notes on them;
/// or why the first that the host cannot run is refused.
pub open spec fn enabled_plugins(
    enabled: Seq<Seq<char>>,
    rows: Seq<(Seq<char>, PluginView)>,
    host: Seq<char>,
) -> Result<(Seq<Seq<char>>, Seq<Seq<char>>), Seq<char>>
    decreases enabled.len(),
{
    if enabled.len() == 0 {
        Ok((Seq::empty(), Seq::empty()))
    } else {
        match enabled_plugins(enabled.drop_last(), rows, host) {
            Err(m) => Err(m),
            Ok((paths, notes)) => match order::get(rows, enabled.last()) {
                None => Ok((paths, notes)),
                Some(entry) => match entry_compatibility(entry, host) {
                    Err(m) => Err(m),
                    Ok(more) => Ok((paths.push(entry.wasm_path), notes + more)),
                },
            },
        }
    }
}

/// The first error is the error.
proof fn lemma_enabled_error(
    enabled: Seq<Seq<char>>,
    rows: Seq<(Seq<char>, PluginView)>,
    host: Seq<char>,
    n: int,
)
    requires
        0 <= n <= enabled.len(),
        enabled_plugins(enabled.take(n), rows, host) is Err,
    ensures
        enabled_plugins(enabled, rows, host) == enabled_plugins(enabled.take(n), rows, host),
    decreases enabled.len() - n,
{
    if n == enabled.len() {
        assert(enabled.take(n) =~= enabled);
    } else {
        assert(enabled.take(n + 1).drop_last() =~= enabled.take(n));
        lemma_enabled_error(enabled, rows, host, n + 1);
    }
}

/// Paths and notes, with errors given by their messages.
pub open spec fn plugins_outcome(r: Result<(Vec<String>, Vec<String>), Failure>) -> Result<
    (Seq<Seq<char>>, Seq<Seq<char>>),
    Seq<char>,
> {
    match r {
        Ok((paths, notes)) => Ok((text::texts(paths@), text::texts(notes@))),
        Err(e) => Err(e.message@),
    }
}

/// Computes [`enabled_plugins`].
pub fn collect_enabled_plugins(enabled: &Vec<String>, plugins: &PluginRegistry, host_version: &str) -> (r:
    Result<(Vec<String>, Vec<String>), Failure>)
    requires
        plugins.wf(),
    ensures
        plugins_outcome(r) == enabled_plugins(
            text::texts(enabled@),
            plugins.rows(),
            host_version@,
        ),
{
    let ghost all = text::texts(enabled@);
    let ghost rows = plugins.rows();
    let mut paths: Vec<String> = Vec::new();
    let mut notes: Vec<String> = Vec::new();
    let mut i: usize = 0;
    assert(all.take(0) =~= Seq::empty());
    assert(text::texts(paths@) =~= Seq::empty());
    assert(text::texts(notes@) =~= Seq::empty());
    while i < enabled.len()
        invariant
            i <= enabled.len(),
            plugins.wf(),
            all == text::texts(enabled@),
            rows == plugins.rows(),
            enabled_plugins(all.take(i as int), rows, host_version@) == Ok::<
                (Seq<Seq<char>>, Seq<Seq<char>>),
                Seq<char>,
            >((text::texts(paths@), text::texts(notes@))),
        decreases enabled.len() - i,
    {
        assert(all.take(i + 1).drop_last() =~= all.take(i as int));
        assert(all.take(i + 1).last() == enabled@[i as int]@);
        match plugins.find(enabled[i].as_str()) {
            None => {},
            Some(entry) => match registry::ensure_plugin_compatible(entry, host_version) {
                Ok(more) => {
                    let mut more = more;
                    let ghost p = paths@;
                    let ghost n = notes@;
                    let ghost m = more@;
                    paths.push(copy_text(entry.wasm_path.as_str()));
                    notes.append(&mut more);
                    assert(text::texts(paths@) =~= text::texts(p).push(entry.wasm_path@));
                    assert(text::texts(notes@) =~= text::texts(n) + text::texts(m));
                },
                Err(e) => {
                    proof {
                        lemma_enabled_error(all, rows, host_version@, i + 1);
                    }
                    return Err(e);
                },
            },
        }
        i += 1;
    }
    assert(all.take(enabled.len() as int) =~= all);
    Ok((paths, notes))
}

/// How Tailwind is run: only where both its input and its output are named.
pub open spec fn tailwind_matches(args: BuildArgs, tailwind: Option<TailwindConfig>) -> bool {
    match (args.tailwind_input, args.tailwind_output) {
        (Some(input), Some(output)) => tailwind matches Some(t) && t.backend
            == args.tailwind_backend && t.input_css@ == input@ && t.output_css@ == output@
            && t.binary@ == args.tailwind_bin@ && t.minify == args.tailwind_minify,
        _ => tailwind is None,
    }
}

/// `c` is the configuration of the build that the command line and the project
/// ask for, with the files `plugins` of the enabled plugins.
pub open spec fn is_resolved(
    c: BuildConfig,
    args: BuildArgs,
    project: ProjectConfig,
    plugins: Seq<Seq<char>>,
    scope: BuildScope,
) -> bool {
    &&& c.content_dir@ == args.content_dir@
    &&& c.static_dir@ == args.static_dir@
    &&& c.output_dir@ == args.output_dir@
    &&& text::opt_text(c.template_dir) == text::opt_text(args.template_dir)
    &&& text::opt_text(c.theme_dir) == theme::selected_theme(
        first_of(text::opt_text(args.theme), text::opt_text(project.theme_name)),
    )
    &&& text::texts(c.plugin_paths@) == pathorder::distinct_paths(
        text::texts(args.plugin_paths@) + plugins,
    )
    &&& c.plugin_init_config_json@ == text::opt_text(project.plugins.config_json).unwrap_or("{}"@)
    &&& c.plugin_timeout_ms == 2000
    &&& c.plugin_memory_limit_mb == 128
    &&& c.check_external_links == args.check_external_links
    &&& c.fail_on_broken_links == args.fail_on_broken_links
    &&& c.js_backend == args.js_backend
    &&& tailwind_matches(args, c.tailwind)
    &&& c.enable_ai_index == args.enable_ai_index
    &&& c.max_frontmatter_bytes == 65_536
    &&& c.max_file_bytes == 10_485_760
    &&& c.max_total_files == 100_000
    &&& c.command_timeout_secs == 120
    &&& c.base_path@ == first_of(
        text::opt_text(args.base_path),
        text::opt_text(project.build.base_path),
    ).unwrap_or("/"@)
    &&& text::opt_text(c.site_domain) == first_of(
        text::opt_text(args.site_domain),
        text::opt_text(project.build.site_domain),
    )
    &&& c.images == project.build.images
    &&& c.remote_data_sources == project.build.data_sources
    &&& c.i18n == project.build.i18n
    &&& c.build_scope == scope
    &&& c.include_drafts == args.include_drafts
}

/// The configuration of a build and the notes on its plugins, from the command
/// line, the project and the installed plugins. What the command line says goes
/// before what the project says.
pub fn resolve_build(
    args: &BuildArgs,
    project: ProjectConfig,
    plugins: &PluginRegistry,
    host_version: &str,
    scope: BuildScope,
) -> (r: Result<(BuildConfig, Vec<String>), Failure>)
    requires
        plugins.wf(),
    ensures
        match r {
            Ok((config, notes)) => enabled_plugins(
                text::texts(project.plugins.enabled@),
                plugins.rows(),
                host_version@,
            ) matches Ok((paths, said)) && is_resolved(config, *args, project, paths, scope)
                && text::texts(notes@) == said,
            Err(e) => enabled_plugins(
                text::texts(project.plugins.enabled@),
                plugins.rows(),
                host_version@,
            ) == Err::<(Seq<Seq<char>>, Seq<Seq<char>>), Seq<char>>(e.message@),
        },
{
    let (mut paths, notes) = match collect_enabled_plugins(
        &project.plugins.enabled,
        plugins,
        host_version,
    ) {
        Ok(found) => found,
        Err(e) => {
            return Err(e);
        },
    };
    let ghost found = paths@;
    let mut all = text::copy_texts(&args.plugin_paths);
    let ghost own = all@;
    all.append(&mut paths);
    assert(text::texts(all@) =~= text::texts(own) + text::texts(found));
    let plugin_paths = pathorder::sort_paths(&all);
    let base_path = match either_opt(&args.base_path, &project.build.base_path) {
        Some(p) => p,
        None => copy_text("/"),
    };
    let site_domain = either_opt(&args.site_domain, &project.build.site_domain);
    let theme_name = either_opt(&args.theme, &project.theme_name);
    let theme_dir = match &theme_name {
        Some(name) => Some(theme::theme_dir_for(name.as_str())),
        None => None,
    };
    let tailwind = match (&args.tailwind_input, &args.tailwind_output) {
        (Some(input), Some(output)) => Some(
            TailwindConfig {
                backend: args.tailwind_backend,
                input_css: copy_text(input.as_str()),
                output_css: copy_text(output.as_str()),
                binary: copy_text(args.tailwind_bin.as_str()),
                minify: args.tailwind_minify,
            },
        ),
        _ => None,
    };
    let plugin_init_config_json = match &project.plugins.config_json {
        Some(json) => copy_text(json.as_str()),
        None => copy_text("{}"),
    };
    let config = BuildConfig {
        content_dir: copy_text(args.content_dir.as_str()),
        static_dir: copy_text(args.static_dir.as_str()),
        output_dir: copy_text(args.output_dir.as_str()),
        template_dir: copy_opt(&args.template_dir),
        theme_dir,
        plugin_paths,
        plugin_init_config_json,
        plugin_timeout_ms: 2000,
        plugin_memory_limit_mb: 128,
        check_external_links: args.check_external_links,
        fail_on_broken_links: args.fail_on_broken_links,
        js_backend: args.js_backend,
        tailwind,
        enable_ai_index: args.enable_ai_index,
        max_frontmatter_bytes: 65_536,
        max_file_bytes: 10_485_760,
        max_total_files: 100_000,
        command_timeout_secs: 120,
        base_path,
        site_domain,
        images: project.build.images,
        remote_data_sources: project.build.data_sources,
        i18n: project.build.i18n,
        build_scope: scope,
        include_drafts: args.include_drafts,
    };
    Ok((config, notes))
}

/// What the command line says of the base path and the domain of a site goes
/// before what its project says, and without either a site stands at the root.
pub proof fn law_command_line_first(
    c: BuildConfig,
    args: BuildArgs,
    project: ProjectConfig,
    plugins: Seq<Seq<char>>,
    scope: BuildScope,
)
    requires
        is_resolved(c, args, project, plugins, scope),
    ensures
        args.base_path matches Some(p) ==> c.base_path@ == p@,
        args.base_path is None && project.build.base_path is None ==> c.base_path@ == "/"@,
        args.site_domain matches Some(d) ==> text::opt_text(c.site_domain) == Some(d@),
{
}

// ---------------------------------------------------------------------------
// More laws.

/// What the command line says of a build is what is built with; what it leaves open, the
/// project says, and what neither says has its default.
pub proof fn law_settings_are_taken(
    c: BuildConfig,
    args: BuildArgs,
    project: ProjectConfig,
    plugins: Seq<Seq<char>>,
    scope: BuildScope,
)
    requires
        is_resolved(c, args, project, plugins, scope),
    ensures
        c.content_dir@ == args.content_dir@,
        c.static_dir@ == args.static_dir@,
        c.output_dir@ == args.output_dir@,
        args.template_dir matches Some(d) ==> c.template_dir is Some && c.template_dir.unwrap()@
            == d@,
        args.template_dir is None ==> c.template_dir is None,
        args.theme matches Some(t) ==> c.theme_dir is Some && c.theme_dir.unwrap()@
            == theme::theme_dir(t@),
        args.theme is None && project.theme_name is Some ==> c.theme_dir is Some
            && c.theme_dir.unwrap()@ == theme::theme_dir(project.theme_name.unwrap()@),
        args.theme is None && project.theme_name is None ==> c.theme_dir is None,
        args.base_path is None && project.build.base_path is Some ==> c.base_path@
            == project.build.base_path.unwrap()@,
        args.site_domain is None && project.build.site_domain is Some ==> c.site_domain is Some
            && c.site_domain.unwrap()@ == project.build.site_domain.unwrap()@,
        args.site_domain is None && project.build.site_domain is None ==> c.site_domain is None,
        project.plugins.config_json matches Some(j) ==> c.plugin_init_config_json@ == j@,
        project.plugins.config_json is None ==> c.plugin_init_config_json@ == "{}"@,
        c.check_external_links == args.check_external_links,
        c.fail_on_broken_links == args.fail_on_broken_links,
        c.js_backend == args.js_backend,
        c.enable_ai_index == args.enable_ai_index,
        c.include_drafts == args.include_drafts,
        c.images == project.build.images,
        c.remote_data_sources == project.build.data_sources,
        c.i18n == project.build.i18n,
        c.build_scope == scope,
        c.plugin_timeout_ms == 2000 && c.plugin_memory_limit_mb == 128,
        c.max_frontmatter_bytes == 64 * 1024 && c.max_file_bytes == 10 * 1024 * 1024,
        c.max_total_files == 100_000 && c.command_timeout_secs == 120,
        c.tailwind is Some <==> args.tailwind_input is Some && args.tailwind_output is Some,
        c.tailwind matches Some(t) ==> t.input_css@ == args.tailwind_input.unwrap()@
            && t.output_css@ == args.tailwind_output.unwrap()@ && t.binary@ == args.tailwind_bin@
            && t.minify == args.tailwind_minify && t.backend == args.tailwind_backend,
{
}

/// Every plugin of the command line and every enabled one is loaded, and no other.
pub proof fn law_plugins_are_loaded(
    c: BuildConfig,
    args: BuildArgs,
    project: ProjectConfig,
    plugins: Seq<Seq<char>>,
    scope: BuildScope,
)
    requires
        is_resolved(c, args, project, plugins, scope),
    ensures
        forall|k: int|
            0 <= k < c.plugin_paths@.len() ==> (text::texts(args.plugin_paths@) + plugins).contains(
                #[trigger] text::texts(c.plugin_paths@)[k],
            ),
        forall|i: int|
            0 <= i < args.plugin_paths@.len() + plugins.len() ==> exists|k: int|
                0 <= k < c.plugin_paths@.len() && fspath::parts(
                    #[trigger] text::texts(c.plugin_paths@)[k],
                ) == fspath::parts(#[trigger] (text::texts(args.plugin_paths@) + plugins)[i]),
{
    pathorder::law_distinct_paths_are_kept(text::texts(args.plugin_paths@) + plugins);
}

/// The plugins that a project enables are loaded from the files under which they are
/// installed, in order; those that are not installed are passed over. All of the installed
/// ones have to fit the host.
pub proof fn law_enabled_plugins(
    enabled: Seq<Seq<char>>,
    rows: Seq<(Seq<char>, PluginView)>,
    host: Seq<char>,
)
    ensures
        enabled_plugins(enabled, rows, host) is Ok <==> forall|i: int|
            0 <= i < enabled.len() && order::get(rows, #[trigger] enabled[i]) is Some
                ==> entry_compatibility(order::get(rows, enabled[i]).unwrap(), host) is Ok,
        enabled_plugins(enabled, rows, host) is Ok ==> enabled_plugins(enabled, rows, host)->Ok_0.0
            == enabled.filter(|id: Seq<char>| order::get(rows, id) is Some).map_values(
            |id: Seq<char>| order::get(rows, id).unwrap().wasm_path,
        ),
    decreases enabled.len(),
{
    reveal(Seq::filter);
    let installed = |id: Seq<char>| order::get(rows, id) is Some;
    let file = |id: Seq<char>| order::get(rows, id).unwrap().wasm_path;
    if enabled.len() > 0 {
        let front = enabled.drop_last();
        let last = enabled.last();
        law_enabled_plugins(front, rows, host);
        assert(enabled[enabled.len() - 1] == last);
        if enabled_plugins(enabled, rows, host) is Ok {
            assert forall|i: int|
                0 <= i < enabled.len() && order::get(
                    rows,
                    #[trigger] enabled[i],
                ) is Some implies entry_compatibility(
                order::get(rows, enabled[i]).unwrap(),
                host,
            ) is Ok by {
                if i < front.len() {
                    assert(front[i] == enabled[i]);
                }
            }
            let kept = front.filter(installed);
            assert(kept.push(last).map_values(file) =~= kept.map_values(file).push(file(last)));
        } else if enabled_plugins(front, rows, host) is Err {
            let i = choose|i: int|
                0 <= i < front.len() && order::get(rows, #[trigger] front[i]) is Some
                    && !(entry_compatibility(order::get(rows, front[i]).unwrap(), host) is Ok);
            assert(enabled[i] == front[i]);
        }
    } else {
        assert(enabled.filter(installed).map_values(file) =~= Seq::empty());
    }
}

/// The configuration of a project is the file that is named; else the one beside the
/// content, where there is one; else the one in the working directory.
pub proof fn law_configuration_file(
    path: Seq<char>,
    above: Seq<char>,
    site: Seq<char>,
    content: Seq<char>,
    dir: Seq<char>,
)
    requires
        above.len() == 0 || above.last() == '/',
        fspath::plain_name(site),
        fspath::plain_name(content),
    ensures
        config_file(Some(path), dir, true) == path,
        config_file(Some(path), dir, false) == path,
        config_file(None, dir, false) == "nanoss.toml"@,
        config_file(None, above + site + seq!['/'] + content, true) == above + site
            + "/nanoss.toml"@,
{
    fspath::law_parent(above, site, content);
    reveal_strlit("nanoss.toml");
    reveal_strlit("/nanoss.toml");
    let d = above + site;
    assert(d.last() == site.last());
    assert(site[site.len() - 1] == site.last());
    assert("nanoss.toml"@[0] == 'n');
    assert(d + seq!['/'] + "nanoss.toml"@ =~= d + "/nanoss.toml"@);
}

/// Every note on an enabled plugin is passed on, in the order of the plugins.
pub proof fn law_notes_on_plugins(
    enabled: Seq<Seq<char>>,
    rows: Seq<(Seq<char>, PluginView)>,
    host: Seq<char>,
)
    requires
        enabled_plugins(enabled, rows, host) is Ok,
    ensures
        enabled_plugins(enabled, rows, host)->Ok_0.1 == Seq::new(
            enabled.len(),
            |i: int|
                match order::get(rows, enabled[i]) {
                    Some(entry) => entry_compatibility(entry, host)->Ok_0,
                    None => Seq::empty(),
                },
        ).flatten(),
    decreases enabled.len(),
{
    let all = Seq::new(
        enabled.len(),
        |i: int|
            match order::get(rows, enabled[i]) {
                Some(entry) => entry_compatibility(entry, host)->Ok_0,
                None => Seq::empty(),
            },
    );
    all.lemma_flatten_and_flatten_alt_are_equivalent();
    if enabled.len() > 0 {
        let front = enabled.drop_last();
        law_notes_on_plugins(front, rows, host);
        let rest = Seq::new(
            front.len(),
            |i: int|
                match order::get(rows, front[i]) {
                    Some(entry) => entry_compatibility(entry, host)->Ok_0,
                    None => Seq::empty(),
                },
        );
        rest.lemma_flatten_and_flatten_alt_are_equivalent();
        assert(all.drop_last() =~= rest);
        assert(enabled_plugins(enabled, rows, host)->Ok_0.1 =~= rest.flatten_alt() + all.last());
    }
}

/// Whether an installed plugin fits is decided by its own id and version and by those of
/// the host.
pub proof fn law_entries_are_judged(entry: PluginView, host: Seq<char>)
    ensures
        entry_compatibility(entry, host) is Ok <==> registry::version_numbers(host) is Some
            && registry::version_numbers(entry.min_host_version) is Some && !registry::version_lt(
            host,
            entry.min_host_version,
        ),
        entry_compatibility(entry, host) matches Ok(notes) ==> notes
            == registry::compatibility_notes(
            entry.id,
            registry::version_numbers(entry.min_host_version).unwrap(),
            registry::version_numbers(host).unwrap(),
        ),
{
}

} // verus!
