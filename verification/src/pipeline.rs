//! The pipeline of a build: which files it takes, what each of them becomes, and
//! what is counted and remembered of it.
use vstd::prelude::*;
use vstd::string::*;

use crate::cache;
use crate::cache::{BuildCache, CacheImageRecord, CacheRecord, ImageView, RecordView};
use crate::config;
use crate::config::{BuildConfig, BuildReport, BuildScope};
use crate::failure;
use crate::failure::{failure, Failure};
use crate::fspath;
use crate::images;
use crate::links;
use crate::links::LinkCheckReport;
use crate::order;
use crate::route;
use crate::text;
use crate::text::{copy_text, same_text};
use crate::validation;

verus! {

// ---------------------------------------------------------------------------
// The plan of a build.

/// What a build works with: the base path and the domain in their normal forms,
/// and the file of the build cache.
#[derive(Debug)]
pub struct SitePlan {
    pub base_path: String,
    pub site_domain: Option<String>,
    pub cache_file: String,
}

/// What a plan holds.
pub struct PlanView {
    pub base_path: Seq<char>,
    pub site_domain: Option<Seq<char>>,
    pub cache_file: Seq<char>,
}

impl View for SitePlan {
    type V = PlanView;

    open spec fn view(&self) -> PlanView {
        PlanView {
            base_path: self.base_path@,
            site_domain: text::opt_text(self.site_domain),
            cache_file: self.cache_file@,
        }
    }
}

/// The plan of a build with this configuration, or why it is refused.
pub open spec fn site_plan(c: BuildConfig) -> Result<PlanView, Seq<char>> {
    match validation::config_error(c) {
        Some(m) => Err(m),
        None => match route::normal_site_domain(text::opt_text(c.site_domain)) {
            Err(m) => Err(m),
            Ok(domain) => Ok(
                PlanView {
                    base_path: route::normal_base_path(c.base_path@),
                    site_domain: domain,
                    cache_file: cache::cache_file(c.output_dir@),
                },
            ),
        },
    }
}

/// A plan, or why there is none.
pub open spec fn plan_outcome(r: Result<SitePlan, Failure>) -> Result<PlanView, Seq<char>> {
    match r {
        Ok(p) => Ok(p@),
        Err(e) => Err(e.message@),
    }
}

/// Computes [`site_plan`].
pub fn plan_build(config: &BuildConfig) -> (r: Result<SitePlan, Failure>)
    ensures
        plan_outcome(r) == site_plan(*config),
{
    match validation::validate_build_config(config) {
        Ok(_) => {},
        Err(e) => {
            return Err(e);
        },
    }
    let domain = match &config.site_domain {
        Some(d) => route::normalize_site_domain(Some(d.as_str())),
        None => route::normalize_site_domain(None),
    };
    match domain {
        Err(e) => Err(e),
        Ok(site_domain) => Ok(
            SitePlan {
                base_path: route::normalize_base_path(config.base_path.as_str()),
                site_domain,
                cache_file: cache::cache_path(config.output_dir.as_str()),
            },
        ),
    }
}

// ---------------------------------------------------------------------------
// The scope of a build.

/// A path with one kind of separator.
pub open spec fn normal_path(path: Seq<char>) -> Seq<char> {
    text::replace_char(path, '\\', "/"@)
}

/// Computes [`normal_path`].
pub fn normalize_fs_path(path: &str) -> (r: String)
    ensures
        r@ == normal_path(path@),
{
    text::replaced_char(path, '\\', "/")
}

/// The paths that a scope names.
pub open spec fn named_paths(scope: BuildScope) -> Seq<Seq<char>> {
    match scope {
        BuildScope::Full => Seq::empty(),
        BuildScope::SinglePage { path } => seq![path@],
        BuildScope::AssetsOnly { paths } => text::texts(paths@),
    }
}

/// Computes [`named_paths`].
pub fn scope_paths(scope: &BuildScope) -> (r: Vec<String>)
    ensures
        text::texts(r@) == named_paths(*scope),
{
    match scope {
        BuildScope::Full => {
            let v: Vec<String> = Vec::new();
            assert(text::texts(v@) =~= Seq::empty());
            v
        },
        BuildScope::SinglePage { path } => {
            let mut v: Vec<String> = Vec::new();
            v.push(copy_text(path.as_str()));
            assert(text::texts(v@) =~= seq![path@]);
            v
        },
        BuildScope::AssetsOnly { paths } => text::copy_texts(paths),
    }
}

/// Paths with one kind of separator.
pub open spec fn normal_paths(paths: Seq<Seq<char>>) -> Seq<Seq<char>> {
    Seq::new(paths.len(), |i: int| normal_path(paths[i]))
}

/// Computes [`normal_paths`].
pub fn scope_paths_set(paths: &Vec<String>) -> (r: Vec<String>)
    ensures
        text::texts(r@) == normal_paths(text::texts(paths@)),
{
    let mut out: Vec<String> = Vec::new();
    let mut i: usize = 0;
    while i < paths.len()
        invariant
            i <= paths.len(),
            out@.len() == i,
            forall|j: int| 0 <= j < i ==> #[trigger] out@[j]@ == normal_path(paths@[j]@),
        decreases paths.len() - i,
    {
        out.push(normalize_fs_path(paths[i].as_str()));
        i += 1;
    }
    assert(text::texts(out@) =~= normal_paths(text::texts(paths@)));
    out
}

/// The file at `path`, which resolves to `resolved`, is in the scope whose paths
/// are `named`. A scope of assets holds no page, whatever it names.
pub open spec fn in_scope(
    scope: BuildScope,
    named: Seq<Seq<char>>,
    path: Seq<char>,
    resolved: Seq<char>,
) -> bool {
    match scope {
        BuildScope::Full => true,
        BuildScope::SinglePage { path: _ } => fspath::extension(path) == Some("md"@)
            && named.contains(normal_path(resolved)),
        BuildScope::AssetsOnly { paths: _ } => fspath::extension(path) != Some("md"@)
            && named.contains(normal_path(resolved)),
    }
}

/// Decides [`in_scope`].
pub fn scope_includes_entry(scope: &BuildScope, named: &Vec<String>, path: &str, resolved: &str) -> (r:
    bool)
    ensures
        r == in_scope(*scope, text::texts(named@), path@, resolved@),
{
    match scope {
        BuildScope::Full => true,
        BuildScope::SinglePage { path: _ } => {
            let name = normalize_fs_path(resolved);
            fspath::extension_is(path, "md") && text::has_text(named, name.as_str())
        },
        BuildScope::AssetsOnly { paths: _ } => {
            let name = normalize_fs_path(resolved);
            !fspath::extension_is(path, "md") && text::has_text(named, name.as_str())
        },
    }
}

// ---------------------------------------------------------------------------
// What a file is.

/// What is done with a content file.
#[derive(Debug, Clone, Copy, PartialEq, Eq, Structural)]
pub enum FileKind {
    Page,
    Image,
    Sass,
    Css,
    Script,
    Other,
}

/// What is done with a file that has this extension.
pub open spec fn kind_of_extension(ext: Seq<char>) -> FileKind {
    if ext == "md"@ {
        FileKind::Page
    } else if images::image_suffix(text::ascii_lower(ext)) {
        FileKind::Image
    } else if ext == "scss"@ || ext == "sass"@ {
        FileKind::Sass
    } else if ext == "css"@ {
        FileKind::Css
    } else if ext == "js"@ || ext == "mjs"@ || ext == "cjs"@ || ext == "ts"@ {
        FileKind::Script
    } else {
        FileKind::Other
    }
}

/// What is done with the file at `path`.
pub open spec fn kind_of(path: Seq<char>) -> FileKind {
    match fspath::extension(path) {
        Some(ext) => kind_of_extension(ext),
        None => FileKind::Other,
    }
}

/// Computes [`kind_of`].
pub fn classify_file(path: &str) -> (r: FileKind)
    ensures
        r == kind_of(path@),
{
    match fspath::path_extension(path) {
        None => FileKind::Other,
        Some(ext) => {
            let e = ext.as_str();
            if same_text(e, "md") {
                FileKind::Page
            } else if images::is_image_extension(e) {
                FileKind::Image
            } else if same_text(e, "scss") || same_text(e, "sass") {
                FileKind::Sass
            } else if same_text(e, "css") {
                FileKind::Css
            } else if same_text(e, "js") || same_text(e, "mjs") || same_text(e, "cjs")
                || same_text(e, "ts") {
                FileKind::Script
            } else {
                FileKind::Other
            }
        },
    }
}

/// The extension that the file at `path` has once it is written, where it changes.
pub open spec fn forced_extension(path: Seq<char>) -> Option<Seq<char>> {
    if kind_of(path) == FileKind::Sass {
        Some("css"@)
    } else if fspath::extension(path) == Some("ts"@) {
        Some("js"@)
    } else {
        None
    }
}

/// Where the asset at `path` is written to.
pub open spec fn asset_target(c: BuildConfig, path: Seq<char>) -> Result<Seq<char>, Seq<char>> {
    route::asset_path(path, c.content_dir@, c.output_dir@, forced_extension(path))
}

/// Computes [`asset_target`].
pub fn plan_asset(config: &BuildConfig, path: &str) -> (r: Result<String, Failure>)
    ensures
        failure::text_outcome(r) == asset_target(*config, path@),
{
    let kind = classify_file(path);
    let forced: Option<&str> = if kind == FileKind::Sass {
        Some("css")
    } else if fspath::extension_is(path, "ts") {
        Some("js")
    } else {
        None
    };
    route::asset_output_path(
        path,
        config.content_dir.as_str(),
        config.output_dir.as_str(),
        forced,
    )
}

// ---------------------------------------------------------------------------
// The session of a build.

/// The report after an asset whose output is still good.
pub open spec fn after_kept_asset(r: BuildReport, kind: FileKind) -> BuildReport {
    if kind == FileKind::Image {
        BuildReport { copied_assets: (r.copied_assets + 1) as usize, ..r }
    } else {
        r
    }
}

/// The report after an asset that was written.
pub open spec fn after_built_asset(r: BuildReport, kind: FileKind) -> BuildReport {
    match kind {
        FileKind::Image => BuildReport {
            copied_assets: (r.copied_assets + 1) as usize,
            processed_images: (r.processed_images + 1) as usize,
            ..r
        },
        FileKind::Sass => BuildReport { compiled_sass: (r.compiled_sass + 1) as usize, ..r },
        FileKind::Script => BuildReport {
            processed_scripts: (r.processed_scripts + 1) as usize,
            ..r
        },
        _ => BuildReport { copied_assets: (r.copied_assets + 1) as usize, ..r },
    }
}

/// The report after a page whose output is still good.
pub open spec fn after_kept_page(r: BuildReport) -> BuildReport {
    BuildReport { skipped_pages: (r.skipped_pages + 1) as usize, ..r }
}

/// The report after a page that was written.
pub open spec fn after_built_page(r: BuildReport, has_islands: bool) -> BuildReport {
    BuildReport {
        rendered_pages: (r.rendered_pages + 1) as usize,
        island_pages: if has_islands {
            (r.island_pages + 1) as usize
        } else {
            r.island_pages
        },
        ..r
    }
}

/// Whether the output of an earlier build is kept.
#[derive(Debug, Clone, Copy, PartialEq, Eq, Structural)]
pub enum Decision {
    Keep,
    Build,
}

/// The output of an earlier build is kept where one is known and it still exists.
pub open spec fn decision(known: Option<Seq<char>>, exists: bool) -> Decision {
    if known is Some && exists {
        Decision::Keep
    } else {
        Decision::Build
    }
}

/// Whether a file is taken, or why not.
pub open spec fn admission(in_scope: bool, count: int, limit: usize) -> Result<bool, Seq<char>> {
    if !in_scope {
        Ok(false)
    } else {
        match count_error(count, limit) {
            Some(m) => Err(m),
            None => Ok(true),
        }
    }
}

/// How many files a report accounts for.
pub open spec fn settled(r: BuildReport) -> int {
    r.rendered_pages + r.skipped_pages + r.compiled_sass + r.copied_assets + r.processed_scripts
}

/// A build that is under way: what it has counted, what it remembers, and whether
/// a file that was taken is still to be settled.
#[derive(Debug)]
pub struct BuildSession<'a> {
    config: &'a BuildConfig,
    named: Vec<String>,
    files: usize,
    open_file: bool,
    runtime: bool,
    known: BuildCache,
    done: BuildReport,
}

impl<'a> BuildSession<'a> {
    /// The configuration of the build.
    pub closed spec fn config(&self) -> BuildConfig {
        *self.config
    }

    /// The paths of the scope, resolved and in their normal form.
    pub closed spec fn named(&self) -> Seq<Seq<char>> {
        text::texts(self.named@)
    }

    /// How many files were taken.
    pub closed spec fn files(&self) -> usize {
        self.files
    }

    /// The last file that was taken is still to be settled.
    pub closed spec fn is_open(&self) -> bool {
        self.open_file
    }

    /// The runtime of the islands is written.
    pub closed spec fn has_runtime(&self) -> bool {
        self.runtime
    }

    /// The records of the pages.
    pub closed spec fn pages(&self) -> Seq<(Seq<char>, RecordView)> {
        self.known.page_rows()
    }

    /// The records of the assets.
    pub closed spec fn assets(&self) -> Seq<(Seq<char>, RecordView)> {
        self.known.asset_rows()
    }

    /// The records of the images.
    pub closed spec fn images(&self) -> Seq<(Seq<char>, ImageView)> {
        self.known.image_rows()
    }

    /// The version of the form that the records are kept in.
    pub closed spec fn cache_version(&self) -> u32 {
        self.known.version()
    }

    /// What was done so far.
    pub closed spec fn done(&self) -> BuildReport {
        self.done
    }

    /// Every file that the report accounts for was taken, no more files were taken
    /// than the configuration allows, and no table names a path twice.
    pub open spec fn wf(&self) -> bool {
        &&& settled(self.done()) + (if self.is_open() {
            1int
        } else {
            0int
        }) <= self.files()
        &&& self.files() <= self.config().max_total_files
        &&& self.done().island_pages <= self.done().rendered_pages
        &&& self.done().processed_images <= self.done().copied_assets
        &&& order::keys_increase(self.pages())
        &&& order::keys_increase(self.assets())
        &&& order::keys_increase(self.images())
    }

    /// `other` has the same configuration and scope.
    pub open spec fn same_setting(&self, other: &Self) -> bool {
        &&& self.config() == other.config()
        &&& self.named() == other.named()
        &&& self.cache_version() == other.cache_version()
    }

    /// `other` remembers the same.
    pub open spec fn same_records(&self, other: &Self) -> bool {
        &&& self.pages() == other.pages()
        &&& self.assets() == other.assets()
        &&& self.images() == other.images()
    }

    /// A build that begins: with this configuration, the paths that its scope
    /// resolves to, the records of earlier builds, and whether the Tailwind style
    /// sheet was generated.
    pub fn new(
        config: &'a BuildConfig,
        resolved: &Vec<String>,
        known: BuildCache,
        compiled_tailwind: bool,
    ) -> (r: Self)
        requires
            known.wf(),
        ensures
            r.wf(),
            r.config() == *config,
            r.named() == normal_paths(text::texts(resolved@)),
            r.files() == 0,
            !r.is_open(),
            !r.has_runtime(),
            r.pages() == known.page_rows(),
            r.assets() == known.asset_rows(),
            r.images() == known.image_rows(),
            r.cache_version() == known.version(),
            r.done() == (BuildReport { compiled_tailwind, ..config::empty_report() }),
    {
        let mut done = BuildReport::default();
        done.compiled_tailwind = compiled_tailwind;
        BuildSession {
            config,
            named: scope_paths_set(resolved),
            files: 0,
            open_file: false,
            runtime: false,
            known,
            done,
        }
    }

    /// Whether the file at `path` is in the scope of the build.
    fn includes(&self, path: &str, resolved: &str) -> (r: bool)
        ensures
            r == in_scope(self.config().build_scope, self.named(), path@, resolved@),
    {
        scope_includes_entry(&self.config.build_scope, &self.named, path, resolved)
    }

    /// Takes one more file, as long as the configuration allows one.
    fn take_file(&mut self) -> (r: Result<(), Failure>)
        requires
            old(self).wf(),
        ensures
            final(self).wf(),
            final(self).same_setting(old(self)),
            final(self).same_records(old(self)),
            final(self).done() == old(self).done(),
            final(self).has_runtime() == old(self).has_runtime(),
            failure::refusal(r) == count_error(
                old(self).files() + 1,
                old(self).config().max_total_files,
            ),
            r is Ok ==> final(self).files() == old(self).files() + 1 && final(self).is_open(),
            r is Err ==> final(self).files() == old(self).files() && final(self).is_open() == old(
                self,
            ).is_open(),
    {
        if self.files >= self.config.max_total_files {
            let mut m = copy_text("file count exceeds configured limit: ");
            let n = text::decimal_text(self.files as u128 + 1);
            m.append(n.as_str());
            m.append(" > ");
            config::append_number(&mut m, self.config.max_total_files);
            return Err(failure(m));
        }
        self.files = self.files + 1;
        self.open_file = true;
        Ok(())
    }

    /// Takes the file at `path`, which resolves to `resolved`, where it is in the
    /// scope of the build and the configuration allows one more. Any other file is
    /// passed by.
    pub fn consider(&mut self, path: &str, resolved: &str) -> (r: Result<bool, Failure>)
        requires
            old(self).wf(),
        ensures
            final(self).wf(),
            final(self).same_setting(old(self)),
            final(self).same_records(old(self)),
            final(self).done() == old(self).done(),
            final(self).has_runtime() == old(self).has_runtime(),
            failure::outcome(r) == admission(
                in_scope(old(self).config().build_scope, old(self).named(), path@, resolved@),
                old(self).files() + 1,
                old(self).config().max_total_files,
            ),
            r == Ok::<bool, Failure>(true) ==> final(self).files() == old(self).files() + 1
                && final(self).is_open(),
            r != Ok::<bool, Failure>(true) ==> final(self).files() == old(self).files()
                && final(self).is_open() == old(self).is_open(),
    {
        if !self.includes(path, resolved) {
            return Ok(false);
        }
        match self.take_file() {
            Ok(_) => Ok(true),
            Err(e) => Err(e),
        }
    }

    /// The file that an earlier build wrote for the page at `path` from sources
    /// with this fingerprint. Where it still exists, the page is kept.
    pub fn known_page(&self, path: &str, hash: &str) -> (r: Option<String>)
        requires
            self.wf(),
        ensures
            text::opt_text(r) == cache::recorded_output(self.pages(), path@, hash@),
    {
        self.known.page_output(path, hash)
    }

    /// The file that an earlier build wrote for the asset at `path` from a source
    /// with this digest. Where it still exists, the asset is kept.
    pub fn known_asset(&self, path: &str, hash: &str) -> (r: Option<String>)
        requires
            self.wf(),
        ensures
            text::opt_text(r) == cache::recorded_output(self.assets(), path@, hash@),
    {
        self.known.asset_output(path, hash)
    }

    /// Settles a page whose output is still good.
    fn keep_page(&mut self)
        requires
            old(self).wf(),
            old(self).is_open(),
        ensures
            final(self).wf(),
            final(self).same_setting(old(self)),
            final(self).same_records(old(self)),
            final(self).files() == old(self).files(),
            !final(self).is_open(),
            final(self).has_runtime() == old(self).has_runtime(),
            final(self).done() == after_kept_page(old(self).done()),
    {
        self.open_file = false;
        self.done.skipped_pages = self.done.skipped_pages + 1;
    }

    /// Keeps the page at `path` where an earlier build wrote it from sources with
    /// this fingerprint and its output still exists. Any other page is to be built.
    pub fn decide_page(&mut self, path: &str, hash: &str, output_exists: bool) -> (r: Decision)
        requires
            old(self).wf(),
            old(self).is_open(),
        ensures
            final(self).wf(),
            final(self).same_setting(old(self)),
            final(self).same_records(old(self)),
            final(self).files() == old(self).files(),
            final(self).has_runtime() == old(self).has_runtime(),
            r == decision(
                cache::recorded_output(old(self).pages(), path@, hash@),
                output_exists,
            ),
            r == Decision::Keep ==> !final(self).is_open() && final(self).done()
                == after_kept_page(old(self).done()),
            r == Decision::Build ==> final(self).is_open() && final(self).done()
                == old(self).done(),
    {
        match self.known_page(path, hash) {
            Some(_) => {
                if output_exists {
                    self.keep_page();
                    return Decision::Keep;
                }
                Decision::Build
            },
            None => Decision::Build,
        }
    }

    /// Whether the runtime of the islands is to be written before a page: once in
    /// a build, before the first page that has islands.
    pub fn needs_runtime(&self, has_islands: bool) -> (r: bool)
        ensures
            r == (has_islands && !self.has_runtime()),
    {
        has_islands && !self.runtime
    }

    /// Settles a page that was written to `output` from sources with this
    /// fingerprint.
    pub fn record_page(&mut self, path: &str, hash: &str, output: &str, has_islands: bool)
        requires
            old(self).wf(),
            old(self).is_open(),
        ensures
            final(self).wf(),
            final(self).same_setting(old(self)),
            final(self).files() == old(self).files(),
            !final(self).is_open(),
            final(self).has_runtime() == (old(self).has_runtime() || has_islands),
            final(self).pages() == order::put(
                old(self).pages(),
                path@,
                (RecordView { hash: hash@, output: output@ }),
            ),
            final(self).assets() == old(self).assets(),
            final(self).images() == old(self).images(),
            final(self).done() == after_built_page(old(self).done(), has_islands),
            cache::recorded_output(final(self).pages(), path@, hash@) == Some(output@),
    {
        proof {
            cache::law_record_is_found(
                self.pages(),
                path@,
                RecordView { hash: hash@, output: output@ },
                hash@,
                path@,
            );
        }
        self.open_file = false;
        if has_islands {
            self.runtime = true;
            self.done.island_pages = self.done.island_pages + 1;
        }
        self.known.put_page(
            path,
            CacheRecord { hash: copy_text(hash), output: copy_text(output) },
        );
        self.done.rendered_pages = self.done.rendered_pages + 1;
    }

    /// Settles an asset whose output is still good: only images are counted.
    fn keep_asset(&mut self, kind: FileKind)
        requires
            old(self).wf(),
            old(self).is_open(),
            kind != FileKind::Page,
        ensures
            final(self).wf(),
            final(self).same_setting(old(self)),
            final(self).same_records(old(self)),
            final(self).files() == old(self).files(),
            !final(self).is_open(),
            final(self).has_runtime() == old(self).has_runtime(),
            final(self).done() == after_kept_asset(old(self).done(), kind),
    {
        self.open_file = false;
        if kind == FileKind::Image {
            self.done.copied_assets = self.done.copied_assets + 1;
        }
    }

    /// Keeps the asset at `path` where an earlier build wrote it from a source with
    /// this digest and its output still exists. Any other asset is to be built.
    pub fn decide_asset(
        &mut self,
        kind: FileKind,
        path: &str,
        hash: &str,
        output_exists: bool,
    ) -> (r: Decision)
        requires
            old(self).wf(),
            old(self).is_open(),
            kind != FileKind::Page,
        ensures
            final(self).wf(),
            final(self).same_setting(old(self)),
            final(self).same_records(old(self)),
            final(self).files() == old(self).files(),
            final(self).has_runtime() == old(self).has_runtime(),
            r == decision(
                cache::recorded_output(old(self).assets(), path@, hash@),
                output_exists,
            ),
            r == Decision::Keep ==> !final(self).is_open() && final(self).done()
                == after_kept_asset(old(self).done(), kind),
            r == Decision::Build ==> final(self).is_open() && final(self).done()
                == old(self).done(),
    {
        match self.known_asset(path, hash) {
            Some(_) => {
                if output_exists {
                    self.keep_asset(kind);
                    return Decision::Keep;
                }
                Decision::Build
            },
            None => Decision::Build,
        }
    }

    /// Settles an asset that was written to `output` from a source with this
    /// digest, and for an image what is known of it.
    pub fn record_asset(
        &mut self,
        kind: FileKind,
        path: &str,
        hash: &str,
        output: &str,
        image: Option<CacheImageRecord>,
    )
        requires
            old(self).wf(),
            old(self).is_open(),
            kind != FileKind::Page,
        ensures
            final(self).wf(),
            final(self).same_setting(old(self)),
            final(self).files() == old(self).files(),
            !final(self).is_open(),
            final(self).has_runtime() == old(self).has_runtime(),
            final(self).pages() == old(self).pages(),
            final(self).assets() == order::put(
                old(self).assets(),
                path@,
                (RecordView { hash: hash@, output: output@ }),
            ),
            final(self).images() == (match image {
                Some(i) => order::put(old(self).images(), path@, i@),
                None => old(self).images(),
            }),
            final(self).done() == after_built_asset(old(self).done(), kind),
            cache::recorded_output(final(self).assets(), path@, hash@) == Some(output@),
    {
        proof {
            cache::law_record_is_found(
                self.assets(),
                path@,
                RecordView { hash: hash@, output: output@ },
                hash@,
                path@,
            );
        }
        self.open_file = false;
        self.known.put_asset(
            path,
            CacheRecord { hash: copy_text(hash), output: copy_text(output) },
        );
        match image {
            Some(i) => {
                self.known.put_image(path, i);
            },
            None => {},
        }
        match kind {
            FileKind::Image => {
                self.done.processed_images = self.done.processed_images + 1;
                self.done.copied_assets = self.done.copied_assets + 1;
            },
            FileKind::Sass => {
                self.done.compiled_sass = self.done.compiled_sass + 1;
            },
            FileKind::Script => {
                self.done.processed_scripts = self.done.processed_scripts + 1;
            },
            FileKind::Css | FileKind::Other | FileKind::Page => {
                self.done.copied_assets = self.done.copied_assets + 1;
            },
        }
    }

    /// Counts the external links, and fails where the configuration says so.
    pub fn count_links(&mut self, found: &LinkCheckReport) -> (r: Result<(), Failure>)
        requires
            old(self).wf(),
        ensures
            final(self).wf(),
            final(self).same_setting(old(self)),
            final(self).same_records(old(self)),
            final(self).files() == old(self).files(),
            final(self).is_open() == old(self).is_open(),
            final(self).has_runtime() == old(self).has_runtime(),
            final(self).done() == (BuildReport {
                checked_external_links: found.checked,
                broken_external_links: found.broken,
                ..old(self).done()
            }),
            failure::refusal(r) == links::links_error(
                old(self).config().fail_on_broken_links,
                found.broken,
            ),
    {
        self.done.checked_external_links = found.checked;
        self.done.broken_external_links = found.broken;
        links::judge_links(self.config.fail_on_broken_links, found.broken)
    }

    /// Counts the pages that the semantic index holds.
    pub fn count_indexed(&mut self, pages: usize)
        requires
            old(self).wf(),
        ensures
            final(self).wf(),
            final(self).same_setting(old(self)),
            final(self).same_records(old(self)),
            final(self).files() == old(self).files(),
            final(self).is_open() == old(self).is_open(),
            final(self).has_runtime() == old(self).has_runtime(),
            final(self).done() == (BuildReport { ai_indexed_pages: pages, ..old(self).done() }),
    {
        self.done.ai_indexed_pages = pages;
    }

    /// Whether the lists, the sitemap and the feed are written: not where only
    /// assets have changed.
    pub fn writes_lists(&self) -> (r: bool)
        ensures
            r == !(self.config().build_scope is AssetsOnly),
    {
        match &self.config.build_scope {
            BuildScope::AssetsOnly { paths: _ } => false,
            BuildScope::Full => true,
            BuildScope::SinglePage { path: _ } => true,
        }
    }

    /// What was done so far.
    pub fn report(&self) -> (r: BuildReport)
        ensures
            r == self.done(),
    {
        self.done
    }

    /// The report of the build, and the records for the next.
    pub fn finish(self) -> (r: (BuildReport, BuildCache))
        requires
            self.wf(),
        ensures
            r.0 == self.done(),
            r.1.wf(),
            r.1.page_rows() == self.pages(),
            r.1.asset_rows() == self.assets(),
            r.1.image_rows() == self.images(),
            r.1.version() == self.cache_version(),
    {
        (self.done, self.known)
    }
}

/// Why no further file is taken.
pub open spec fn count_error(count: int, limit: usize) -> Option<Seq<char>> {
    if count > limit {
        Some(
            "file count exceeds configured limit: "@ + text::decimal(count as nat) + " > "@
                + text::decimal(limit as nat),
        )
    } else {
        None
    }
}

/// Why a file is too large.
pub open spec fn size_error(path: Seq<char>, bytes: u64, limit: u64) -> Option<Seq<char>> {
    if bytes > limit {
        Some(
            "file exceeds configured size limit ("@ + text::decimal(limit as nat) + " bytes): "@
                + path,
        )
    } else {
        None
    }
}

/// Accepts a file that is no larger than the configuration allows.
pub fn check_file_size(config: &BuildConfig, path: &str, bytes: u64) -> (r: Result<(), Failure>)
    ensures
        failure::refusal(r) == size_error(path@, bytes, config.max_file_bytes),
{
    if bytes > config.max_file_bytes {
        let mut m = copy_text("file exceeds configured size limit (");
        let n = text::decimal_text(config.max_file_bytes as u128);
        m.append(n.as_str());
        m.append(" bytes): ");
        m.append(path);
        return Err(failure(m));
    }
    Ok(())
}

/// What is to be done with a file that was taken: a page is read, an asset goes to
/// its target.
#[derive(Debug)]
pub enum FileTask {
    Page,
    Asset { kind: FileKind, target: String },
}

/// What is to be done with a file.
pub enum TaskView {
    Page,
    Asset { kind: FileKind, target: Seq<char> },
}

impl View for FileTask {
    type V = TaskView;

    open spec fn view(&self) -> TaskView {
        match self {
            FileTask::Page => TaskView::Page,
            FileTask::Asset { kind, target } => TaskView::Asset { kind: *kind, target: target@ },
        }
    }
}

/// What is to be done with the file at `path`, or why it is refused.
pub open spec fn task_of(c: BuildConfig, path: Seq<char>, bytes: u64) -> Result<TaskView, Seq<char>> {
    match size_error(path, bytes, c.max_file_bytes) {
        Some(m) => Err(m),
        None => if kind_of(path) == FileKind::Page {
            Ok(TaskView::Page)
        } else {
            match asset_target(c, path) {
                Ok(target) => Ok(TaskView::Asset { kind: kind_of(path), target }),
                Err(m) => Err(m),
            }
        },
    }
}

/// A task, or why there is none.
pub open spec fn task_outcome(r: Result<FileTask, Failure>) -> Result<TaskView, Seq<char>> {
    match r {
        Ok(t) => Ok(t@),
        Err(e) => Err(e.message@),
    }
}

/// Computes [`task_of`].
pub fn plan_file(config: &BuildConfig, path: &str, bytes: u64) -> (r: Result<FileTask, Failure>)
    ensures
        task_outcome(r) == task_of(*config, path@, bytes),
{
    match check_file_size(config, path, bytes) {
        Ok(_) => {},
        Err(e) => {
            return Err(e);
        },
    }
    let kind = classify_file(path);
    if kind == FileKind::Page {
        return Ok(FileTask::Page);
    }
    match plan_asset(config, path) {
        Ok(target) => Ok(FileTask::Asset { kind, target }),
        Err(e) => Err(e),
    }
}

// ---------------------------------------------------------------------------
// Laws.

/// At every moment of a build its report accounts for no file that was not taken,
/// no more files were taken than the configuration allows, and of the pages and
/// assets it accounts for no more have islands or are images than there are.
pub proof fn law_report_counts_files(s: BuildSession<'_>)
    requires
        s.wf(),
    ensures
        settled(s.done()) <= s.files() <= s.config().max_total_files,
        s.done().island_pages <= s.done().rendered_pages,
        s.done().processed_images <= s.done().copied_assets,
{
}

/// The records after all of `later` were put, in order.
pub open spec fn records_after(
    before: Seq<(Seq<char>, RecordView)>,
    later: Seq<(Seq<char>, RecordView)>,
) -> Seq<(Seq<char>, RecordView)>
    decreases later.len(),
{
    if later.len() == 0 {
        before
    } else {
        order::put(records_after(before, later.drop_last()), later.last().0, later.last().1)
    }
}

/// What was recorded of a page or an asset is kept in a later build as long as its
/// fingerprint stays and its output exists, whatever was recorded of others since;
/// with any other fingerprint, or without its output, it is built again.
pub proof fn law_unchanged_sources_are_kept(
    before: Seq<(Seq<char>, RecordView)>,
    path: Seq<char>,
    record: RecordView,
    later: Seq<(Seq<char>, RecordView)>,
    hash: Seq<char>,
    exists: bool,
)
    requires
        forall|i: int| 0 <= i < later.len() ==> (#[trigger] later[i]).0 != path,
    ensures
        decision(
            cache::recorded_output(
                records_after(order::put(before, path, record), later),
                path,
                hash,
            ),
            exists,
        ) == (if hash == record.hash && exists {
            Decision::Keep
        } else {
            Decision::Build
        }),
    decreases later.len(),
{
    let after = order::put(before, path, record);
    if later.len() == 0 {
        order::law_get_after_put(before, path, record, path);
    } else {
        let front = later.drop_last();
        assert forall|i: int| 0 <= i < front.len() implies (#[trigger] front[i]).0 != path by {
            assert(later[i].0 != path);
        }
        law_unchanged_sources_are_kept(before, path, record, front, hash, exists);
        assert(later[later.len() - 1].0 != path);
        order::law_get_after_put(
            records_after(after, front),
            later.last().0,
            later.last().1,
            path,
        );
    }
}

/// A page as a build comes upon it: its source, the fingerprint of what it is made
/// from, and where it is written.
pub struct FoundPage {
    pub path: Seq<char>,
    pub hash: Seq<char>,
    pub output: Seq<char>,
    pub has_islands: bool,
}

/// A site between two pages: what is recorded of its pages, which files there are,
/// and what was done so far.
pub struct SiteState {
    pub pages: Seq<(Seq<char>, RecordView)>,
    pub files: Set<Seq<char>>,
    pub done: BuildReport,
}

/// What is decided of a page: [`BuildSession::decide_page`] is told whether the
/// file exists that is recorded of it.
pub open spec fn page_decision(s: SiteState, p: FoundPage) -> Decision {
    let known = cache::recorded_output(s.pages, p.path, p.hash);
    decision(known, known is Some && s.files.contains(known->0))
}

/// The site after a page, as [`BuildSession::decide_page`] and
/// [`BuildSession::record_page`] leave it, and the writing of the page between them.
pub open spec fn after_page(s: SiteState, p: FoundPage) -> SiteState {
    match page_decision(s, p) {
        Decision::Keep => SiteState { done: after_kept_page(s.done), ..s },
        Decision::Build => SiteState {
            pages: order::put(s.pages, p.path, RecordView { hash: p.hash, output: p.output }),
            files: s.files.insert(p.output),
            done: after_built_page(s.done, p.has_islands),
        },
    }
}

/// The site after all of `found`, in order.
pub open spec fn after_pages(s: SiteState, found: Seq<FoundPage>) -> SiteState
    decreases found.len(),
{
    if found.len() == 0 {
        s
    } else {
        after_page(after_pages(s, found.drop_last()), found.last())
    }
}

/// No two of the pages have one source.
pub open spec fn distinct_sources(found: Seq<FoundPage>) -> bool {
    forall|i: int, j: int|
        0 <= i < j < found.len() ==> (#[trigger] found[i]).path != (#[trigger] found[j]).path
}

/// The report has room for `n` more pages.
pub open spec fn has_room(r: BuildReport, n: nat) -> bool {
    &&& r.rendered_pages + r.skipped_pages + n <= usize::MAX
    &&& r.island_pages <= r.rendered_pages
}

/// A build settles every page, and leaves each one to be kept.
proof fn lemma_pages_settled(s: SiteState, found: Seq<FoundPage>)
    requires
        distinct_sources(found),
        has_room(s.done, found.len()),
    ensures
        ({
            let after = after_pages(s, found);
            &&& after.done.rendered_pages + after.done.skipped_pages == s.done.rendered_pages
                + s.done.skipped_pages + found.len()
            &&& after.done.island_pages <= after.done.rendered_pages
            &&& forall|i: int|
                0 <= i < found.len() ==> page_decision(after, #[trigger] found[i]) == Decision::Keep
        }),
    decreases found.len(),
{
    if found.len() > 0 {
        let front = found.drop_last();
        let p = found.last();
        let before = after_pages(s, front);
        let after = after_pages(s, found);
        let record = RecordView { hash: p.hash, output: p.output };
        assert forall|i: int, j: int| 0 <= i < j < front.len() implies (#[trigger] front[i]).path
            != (#[trigger] front[j]).path by {
            assert(found[i].path != found[j].path);
        }
        lemma_pages_settled(s, front);
        order::law_get_after_put(before.pages, p.path, record, p.path);
        assert forall|i: int| 0 <= i < found.len() implies page_decision(
            after,
            #[trigger] found[i],
        ) == Decision::Keep by {
            if i < front.len() {
                assert(front[i] == found[i]);
                assert(found[i].path != found[found.len() - 1].path);
                order::law_get_after_put(before.pages, p.path, record, found[i].path);
            }
        }
    }
}

/// A build that finds every page to be kept changes nothing but its count.
proof fn lemma_pages_kept(s: SiteState, found: Seq<FoundPage>)
    requires
        forall|i: int|
            0 <= i < found.len() ==> page_decision(s, #[trigger] found[i]) == Decision::Keep,
        has_room(s.done, found.len()),
    ensures
        ({
            let after = after_pages(s, found);
            &&& after.pages == s.pages
            &&& after.files == s.files
            &&& after.done == BuildReport {
                skipped_pages: (s.done.skipped_pages + found.len()) as usize,
                ..s.done
            }
        }),
    decreases found.len(),
{
    if found.len() > 0 {
        let front = found.drop_last();
        assert forall|i: int| 0 <= i < front.len() implies page_decision(s, #[trigger] front[i])
            == Decision::Keep by {
            assert(front[i] == found[i]);
        }
        lemma_pages_kept(s, front);
        assert(page_decision(s, found[found.len() - 1]) == Decision::Keep);
    }
}

/// A second build of unchanged pages renders none of them and skips them all, as
/// long as it finds what the first one recorded and no file has gone since: the
/// records stay, no file is added, and as many pages are skipped as the first build
/// rendered and skipped together.
pub proof fn law_rebuild_keeps_every_page(
    first: SiteState,
    found: Seq<FoundPage>,
    second: SiteState,
)
    requires
        distinct_sources(found),
        has_room(first.done, found.len()),
        has_room(second.done, found.len()),
        second.pages == after_pages(first, found).pages,
        after_pages(first, found).files.subset_of(second.files),
    ensures
        after_pages(second, found).pages == second.pages,
        after_pages(second, found).files == second.files,
        after_pages(second, found).done.rendered_pages == second.done.rendered_pages,
        after_pages(second, found).done.skipped_pages - second.done.skipped_pages == found.len(),
        (after_pages(first, found).done.rendered_pages - first.done.rendered_pages) + (after_pages(
            first,
            found,
        ).done.skipped_pages - first.done.skipped_pages) == found.len(),
{
    lemma_pages_settled(first, found);
    let after = after_pages(first, found);
    assert forall|i: int| 0 <= i < found.len() implies page_decision(second, #[trigger] found[i])
        == Decision::Keep by {
        assert(page_decision(after, found[i]) == Decision::Keep);
    }
    lemma_pages_kept(second, found);
}

/// No asset is written outside the output directory.
pub proof fn law_assets_stay_inside_output(c: BuildConfig, path: Seq<char>)
    ensures
        asset_target(c, path) matches Ok(target) ==> fspath::starts_with(target, c.output_dir@),
{
    route::law_outputs_inside_output(
        path,
        c.content_dir@,
        c.output_dir@,
        None,
        None,
        c.i18n,
        forced_extension(path),
    );
}

/// A full build takes every file; a build of one page takes no other kind of file;
/// a build of assets takes no page.
pub proof fn law_scope_decides_kind(
    scope: BuildScope,
    named: Seq<Seq<char>>,
    path: Seq<char>,
    resolved: Seq<char>,
)
    ensures
        scope is Full ==> in_scope(scope, named, path, resolved),
        scope is SinglePage && in_scope(scope, named, path, resolved) ==> kind_of(path)
            == FileKind::Page,
        scope is AssetsOnly && in_scope(scope, named, path, resolved) ==> kind_of(path)
            != FileKind::Page,
{
}

// ---------------------------------------------------------------------------
// More laws.

/// The extension of a file says how it is treated; that of an image in any case.
pub proof fn law_kinds_of_files(path: Seq<char>, ext: Seq<char>)
    requires
        fspath::extension(path) == Some(ext),
    ensures
        kind_of(path) == FileKind::Page <==> ext == "md"@,
        kind_of(path) == FileKind::Sass <==> ext == "scss"@ || ext == "sass"@,
        kind_of(path) == FileKind::Css <==> ext == "css"@,
        kind_of(path) == FileKind::Script <==> ext == "js"@ || ext == "mjs"@ || ext == "cjs"@ || ext
            == "ts"@,
        kind_of(path) == FileKind::Image <==> {
            let e = text::ascii_lower(ext);
            e == "png"@ || e == "jpg"@ || e == "jpeg"@ || e == "gif"@ || e == "webp"@ || e
                == "avif"@ || e == "bmp"@ || e == "tiff"@
        },
        forced_extension(path) == Some("css"@) <==> ext == "scss"@ || ext == "sass"@,
        forced_extension(path) == Some("js"@) <==> ext == "ts"@,
        ext != "scss"@ && ext != "sass"@ && ext != "ts"@ ==> forced_extension(path) is None,
{
    reveal_strlit("md");
    reveal_strlit("scss");
    reveal_strlit("sass");
    reveal_strlit("css");
    reveal_strlit("js");
    reveal_strlit("mjs");
    reveal_strlit("cjs");
    reveal_strlit("ts");
    reveal_strlit("png");
    reveal_strlit("jpg");
    reveal_strlit("jpeg");
    reveal_strlit("gif");
    reveal_strlit("webp");
    reveal_strlit("avif");
    reveal_strlit("bmp");
    reveal_strlit("tiff");
    let e = text::ascii_lower(ext);
    if ext == "md"@ || ext == "scss"@ || ext == "sass"@ || ext == "css"@ || ext == "js"@ || ext
        == "mjs"@ || ext == "cjs"@ || ext == "ts"@ {
        assert(e.len() == ext.len());
        assert(forall|i: int| 0 <= i < ext.len() ==> e[i] == ext[i]);
    }
    assert("css"@[0] == 'c' && "js"@[0] == 'j');
    assert("mjs"@[0] == 'm' && "cjs"@[1] == 'j' && "css"@[1] == 's');
    assert("ts"@[0] == 't' && "md"@[0] == 'm');
    assert("png"@[0] == 'p' && "jpg"@[0] == 'j' && "gif"@[0] == 'g' && "bmp"@[0] == 'b');
    assert("jpeg"@[0] == 'j' && "webp"@[0] == 'w' && "avif"@[0] == 'a' && "tiff"@[0] == 't');
    if e == "png"@ || e == "jpg"@ || e == "jpeg"@ || e == "gif"@ || e == "webp"@ || e == "avif"@
        || e == "bmp"@ || e == "tiff"@ {
        assert(e[0] == 'p' || e[0] == 'j' || e[0] == 'g' || e[0] == 'w' || e[0] == 'a' || e[0] == 'b'
            || e[0] == 't');
    }
}

/// Paths are compared with forward slashes, all else in them as it is.
pub proof fn law_paths_have_forward_slashes(path: Seq<char>)
    ensures
        normal_path(path).len() == path.len(),
        forall|i: int|
            0 <= i < path.len() ==> #[trigger] normal_path(path)[i] == (if path[i] == '\\' {
                '/'
            } else {
                path[i]
            }),
    decreases path.len(),
{
    reveal_strlit("/");
    if path.len() > 0 {
        law_paths_have_forward_slashes(path.drop_last());
        assert forall|i: int| 0 <= i < path.len() implies #[trigger] normal_path(path)[i] == (
        if path[i] == '\\' {
            '/'
        } else {
            path[i]
        }) by {
            if i < path.len() - 1 {
                assert(normal_path(path)[i] == normal_path(path.drop_last())[i]);
                assert(path.drop_last()[i] == path[i]);
            }
        }
    }
}

/// A build of one page, or of some assets, takes the files that are named and no others:
/// of the named ones pages only, or all but pages.
pub proof fn law_scope_takes_named_files(
    scope: BuildScope,
    named: Seq<Seq<char>>,
    path: Seq<char>,
    resolved: Seq<char>,
)
    ensures
        scope is SinglePage ==> (in_scope(scope, named, path, resolved) <==> fspath::extension(path)
            == Some("md"@) && exists|k: int|
            0 <= k < named.len() && #[trigger] named[k] == normal_path(resolved)),
        scope is AssetsOnly ==> (in_scope(scope, named, path, resolved) <==> fspath::extension(path)
            != Some("md"@) && exists|k: int|
            0 <= k < named.len() && #[trigger] named[k] == normal_path(resolved)),
        scope is Full ==> named_paths(scope).len() == 0,
        scope matches BuildScope::SinglePage { path: one } ==> named_paths(scope) == seq![one@],
        scope matches BuildScope::AssetsOnly { paths } ==> named_paths(scope).len()
            == paths@.len() && forall|k: int|
            0 <= k < paths@.len() ==> #[trigger] named_paths(scope)[k] == paths@[k]@,
        normal_paths(named).len() == named.len(),
        forall|k: int|
            0 <= k < named.len() ==> #[trigger] normal_paths(named)[k] == normal_path(named[k]),
{
}

/// Each file that is built or kept counts once in the report, in the column of its kind.
pub proof fn law_report_columns(r: BuildReport, kind: FileKind, has_islands: bool)
    requires
        settled(r) < usize::MAX,
        r.processed_images < usize::MAX,
        r.island_pages < usize::MAX,
    ensures
        settled(after_built_asset(r, kind)) == settled(r) + 1,
        settled(after_kept_page(r)) == settled(r) + 1,
        settled(after_built_page(r, has_islands)) == settled(r) + 1,
        after_kept_page(r).skipped_pages == r.skipped_pages + 1,
        after_built_page(r, has_islands).rendered_pages == r.rendered_pages + 1,
        after_built_page(r, true).island_pages == r.island_pages + 1,
        after_built_page(r, false).island_pages == r.island_pages,
        after_built_asset(r, FileKind::Sass).compiled_sass == r.compiled_sass + 1,
        after_built_asset(r, FileKind::Script).processed_scripts == r.processed_scripts + 1,
        after_built_asset(r, FileKind::Image).processed_images == r.processed_images + 1,
        after_built_asset(r, FileKind::Image).copied_assets == r.copied_assets + 1,
        after_built_asset(r, FileKind::Css).copied_assets == r.copied_assets + 1,
        after_built_asset(r, FileKind::Other).copied_assets == r.copied_assets + 1,
        after_kept_asset(r, FileKind::Image).copied_assets == r.copied_assets + 1,
        kind != FileKind::Image ==> after_kept_asset(r, kind) == r,
        kind != FileKind::Image ==> after_built_asset(r, kind).processed_images
            == r.processed_images,
        after_built_asset(r, kind).rendered_pages == r.rendered_pages,
        after_built_asset(r, kind).skipped_pages == r.skipped_pages,
        after_built_asset(r, kind).compiled_tailwind == r.compiled_tailwind,
        after_built_page(r, has_islands).compiled_tailwind == r.compiled_tailwind,
        after_kept_page(r).compiled_tailwind == r.compiled_tailwind,
{
}

/// What is known and still there is kept, and all else is built. A file out of scope is
/// passed over; one in scope is taken as long as the limit on files allows it.
pub proof fn law_decisions(known: Option<Seq<char>>, exists: bool, count: int, limit: usize)
    ensures
        decision(known, exists) == Decision::Keep <==> known is Some && exists,
        admission(false, count, limit) == Ok::<bool, Seq<char>>(false),
        count <= limit ==> admission(true, count, limit) == Ok::<bool, Seq<char>>(true),
        count > limit ==> admission(true, count, limit) is Err,
{
}

/// A file is too large where it has more bytes than the limit, and not at the limit.
/// Pages are read, and all other files go to their target.
pub proof fn law_tasks(c: BuildConfig, path: Seq<char>, bytes: u64)
    ensures
        bytes > c.max_file_bytes ==> task_of(c, path, bytes) is Err,
        bytes <= c.max_file_bytes && fspath::extension(path) == Some("md"@) ==> task_of(
            c,
            path,
            bytes,
        ) == Ok::<TaskView, Seq<char>>(TaskView::Page),
        bytes <= c.max_file_bytes && fspath::extension(path) != Some("md"@) ==> match asset_target(
            c,
            path,
        ) {
            Ok(t) => task_of(c, path, bytes) == Ok::<TaskView, Seq<char>>(
                TaskView::Asset { kind: kind_of(path), target: t },
            ),
            Err(m) => task_of(c, path, bytes) == Err::<TaskView, Seq<char>>(m),
        },
{
}

/// A build is planned exactly where its configuration and its domain are accepted; its
/// plan has both as they are used.
pub proof fn law_plans(c: BuildConfig)
    ensures
        site_plan(c) is Ok <==> validation::config_error(c) is None && route::normal_site_domain(
            text::opt_text(c.site_domain),
        ) is Ok,
        site_plan(c) matches Ok(p) ==> p.base_path == route::normal_base_path(c.base_path@) && Ok::<
            Option<Seq<char>>,
            Seq<char>,
        >(p.site_domain) == route::normal_site_domain(text::opt_text(c.site_domain)) && p.cache_file
            == fspath::join(c.output_dir@, ".nanoss-cache.json"@),
        validation::config_error(c) matches Some(m) ==> site_plan(c) == Err::<PlanView, Seq<char>>(
            m,
        ),
{
}

} // verus!
