//! What a build is configured with, and what it reports.
use vstd::prelude::*;
use vstd::string::*;

use crate::text;
use crate::text::copy_text;

verus! {

/// Which of the content files a build processes.
#[derive(Debug)]
pub enum BuildScope {
    Full,
    SinglePage { path: String },
    AssetsOnly { paths: Vec<String> },
}

impl Default for BuildScope {
    fn default() -> (r: Self)
        ensures
            r == BuildScope::Full,
    {
        BuildScope::Full
    }
}

/// Which variants of an image are generated.
#[derive(Debug)]
pub struct ImageBuildConfig {
    pub enabled: bool,
    pub generate_webp: bool,
    pub generate_avif: bool,
    pub widths: Vec<u32>,
}

impl Default for ImageBuildConfig {
    fn default() -> (r: Self)
        ensures
            r.enabled && !r.generate_webp && !r.generate_avif,
            r.widths@.len() == 0,
    {
        ImageBuildConfig {
            enabled: true,
            generate_webp: false,
            generate_avif: false,
            widths: Vec::new(),
        }
    }
}

/// A source of remote data.
#[derive(Debug)]
pub struct RemoteDataSourceConfig {
    pub url: String,
    pub method: String,
    pub fail_fast: bool,
}

/// The method of a remote data source that names none.
pub fn default_remote_data_method() -> (r: String)
    ensures
        r@ == "GET"@,
{
    copy_text("GET")
}

/// The locales of a site.
#[derive(Debug)]
pub struct I18nConfig {
    pub locales: Vec<String>,
    pub default_locale: Option<String>,
    pub prefix_default_locale: bool,
}

impl Default for I18nConfig {
    fn default() -> (r: Self)
        ensures
            r.locales@.len() == 0,
            r.default_locale is None,
            !r.prefix_default_locale,
    {
        I18nConfig { locales: Vec::new(), default_locale: None, prefix_default_locale: false }
    }
}

/// How scripts are processed.
#[derive(Debug, Clone, Copy, PartialEq, Eq, Structural)]
pub enum JsBackend {
    Passthrough,
    Esbuild,
}

/// What generates the Tailwind style sheet.
#[derive(Debug, Clone, Copy, PartialEq, Eq, Structural)]
pub enum TailwindBackend {
    Standalone,
    Rswind,
}

/// How the Tailwind style sheet is generated.
#[derive(Debug)]
pub struct TailwindConfig {
    pub backend: TailwindBackend,
    pub input_css: String,
    pub output_css: String,
    pub binary: String,
    pub minify: bool,
}

/// The configuration of a build.
#[derive(Debug)]
pub struct BuildConfig {
    pub content_dir: String,
    pub static_dir: String,
    pub output_dir: String,
    pub template_dir: Option<String>,
    pub theme_dir: Option<String>,
    pub plugin_paths: Vec<String>,
    pub plugin_init_config_json: String,
    pub plugin_timeout_ms: u64,
    pub plugin_memory_limit_mb: u64,
    pub check_external_links: bool,
    pub fail_on_broken_links: bool,
    pub js_backend: JsBackend,
    pub tailwind: Option<TailwindConfig>,
    pub enable_ai_index: bool,
    pub max_frontmatter_bytes: usize,
    pub max_file_bytes: u64,
    pub max_total_files: usize,
    pub command_timeout_secs: u64,
    pub base_path: String,
    pub site_domain: Option<String>,
    pub images: ImageBuildConfig,
    pub remote_data_sources: Vec<(String, RemoteDataSourceConfig)>,
    pub i18n: I18nConfig,
    pub build_scope: BuildScope,
    pub include_drafts: bool,
}

/// What a build has done.
#[derive(Debug, Clone, Copy, PartialEq, Eq, Structural)]
pub struct BuildReport {
    pub rendered_pages: usize,
    pub skipped_pages: usize,
    pub compiled_sass: usize,
    pub copied_assets: usize,
    pub checked_external_links: usize,
    pub broken_external_links: usize,
    pub processed_scripts: usize,
    pub compiled_tailwind: bool,
    pub island_pages: usize,
    pub ai_indexed_pages: usize,
    pub processed_images: usize,
}

/// The report of a build that has done nothing.
pub open spec fn empty_report() -> BuildReport {
    BuildReport {
        rendered_pages: 0,
        skipped_pages: 0,
        compiled_sass: 0,
        copied_assets: 0,
        checked_external_links: 0,
        broken_external_links: 0,
        processed_scripts: 0,
        compiled_tailwind: false,
        island_pages: 0,
        ai_indexed_pages: 0,
        processed_images: 0,
    }
}

impl Default for BuildReport {
    fn default() -> (r: Self)
        ensures
            r == empty_report(),
    {
        BuildReport {
            rendered_pages: 0,
            skipped_pages: 0,
            compiled_sass: 0,
            copied_assets: 0,
            checked_external_links: 0,
            broken_external_links: 0,
            processed_scripts: 0,
            compiled_tailwind: false,
            island_pages: 0,
            ai_indexed_pages: 0,
            processed_images: 0,
        }
    }
}

/// The sentence that tells what a build has done.
pub open spec fn report_summary(r: BuildReport) -> Seq<char> {
    "Built "@ + text::decimal(r.rendered_pages as nat) + " pages (skipped "@ + text::decimal(
        r.skipped_pages as nat,
    ) + ", "@ + text::decimal(r.island_pages as nat) + " with islands), compiled "@ + text::decimal(
        r.compiled_sass as nat,
    ) + " Sass files, copied "@ + text::decimal(r.copied_assets as nat) + " assets, processed "@
        + text::decimal(r.processed_scripts as nat) + " scripts, processed "@ + text::decimal(
        r.processed_images as nat,
    ) + " images, tailwind: "@ + (if r.compiled_tailwind {
        "true"@
    } else {
        "false"@
    }) + ", ai_indexed_pages: "@ + text::decimal(r.ai_indexed_pages as nat) + ", checked "@
        + text::decimal(r.checked_external_links as nat) + " external links ("@ + text::decimal(
        r.broken_external_links as nat,
    ) + " broken)."@
}

/// Appends the decimal digits of `n`.
pub fn append_number(out: &mut String, n: usize)
    ensures
        final(out)@ == old(out)@ + text::decimal(n as nat),
{
    let d = text::decimal_text(n as u128);
    out.append(d.as_str());
}

impl BuildReport {
    /// The sentence that tells what the build has done.
    pub fn summary(&self) -> (r: String)
        ensures
            r@ == report_summary(*self),
    {
        let mut out = copy_text("Built ");
        append_number(&mut out, self.rendered_pages);
        out.append(" pages (skipped ");
        append_number(&mut out, self.skipped_pages);
        out.append(", ");
        append_number(&mut out, self.island_pages);
        out.append(" with islands), compiled ");
        append_number(&mut out, self.compiled_sass);
        out.append(" Sass files, copied ");
        append_number(&mut out, self.copied_assets);
        out.append(" assets, processed ");
        append_number(&mut out, self.processed_scripts);
        out.append(" scripts, processed ");
        append_number(&mut out, self.processed_images);
        out.append(" images, tailwind: ");
        if self.compiled_tailwind {
            out.append("true");
        } else {
            out.append("false");
        }
        out.append(", ai_indexed_pages: ");
        append_number(&mut out, self.ai_indexed_pages);
        out.append(", checked ");
        append_number(&mut out, self.checked_external_links);
        out.append(" external links (");
        append_number(&mut out, self.broken_external_links);
        out.append(" broken).");
        out
    }
}

/// The summary begins with the pages and ends with the links, each with its number.
pub proof fn law_summary_tells_pages_and_links(r: BuildReport)
    ensures
        text::starts_with(
            report_summary(r),
            "Built "@ + text::decimal(r.rendered_pages as nat) + " pages (skipped "@
                + text::decimal(r.skipped_pages as nat) + ", "@ + text::decimal(
                r.island_pages as nat,
            ) + " with islands), compiled "@ + text::decimal(r.compiled_sass as nat)
                + " Sass files, copied "@ + text::decimal(r.copied_assets as nat)
                + " assets, processed "@ + text::decimal(r.processed_scripts as nat)
                + " scripts, processed "@ + text::decimal(r.processed_images as nat)
                + " images, tailwind: "@,
        ),
        text::ends_with(
            report_summary(r),
            ", ai_indexed_pages: "@ + text::decimal(r.ai_indexed_pages as nat) + ", checked "@
                + text::decimal(r.checked_external_links as nat) + " external links ("@
                + text::decimal(r.broken_external_links as nat) + " broken)."@,
        ),
{
    let head = "Built "@ + text::decimal(r.rendered_pages as nat) + " pages (skipped "@
        + text::decimal(r.skipped_pages as nat) + ", "@ + text::decimal(r.island_pages as nat)
        + " with islands), compiled "@ + text::decimal(r.compiled_sass as nat)
        + " Sass files, copied "@ + text::decimal(r.copied_assets as nat) + " assets, processed "@
        + text::decimal(r.processed_scripts as nat) + " scripts, processed "@ + text::decimal(
        r.processed_images as nat,
    ) + " images, tailwind: "@;
    let flag = if r.compiled_tailwind {
        "true"@
    } else {
        "false"@
    };
    lemma_head_and_end(
        head,
        flag,
        ", ai_indexed_pages: "@,
        text::decimal(r.ai_indexed_pages as nat),
        ", checked "@,
        text::decimal(r.checked_external_links as nat),
        " external links ("@,
        text::decimal(r.broken_external_links as nat),
        " broken)."@,
    );
}

proof fn lemma_head_and_end(
    head: Seq<char>,
    flag: Seq<char>,
    a: Seq<char>,
    b: Seq<char>,
    c: Seq<char>,
    d: Seq<char>,
    e: Seq<char>,
    f: Seq<char>,
    g: Seq<char>,
)
    ensures
        text::starts_with(head + flag + a + b + c + d + e + f + g, head),
        text::ends_with(head + flag + a + b + c + d + e + f + g, a + b + c + d + e + f + g),
{
    let s = head + flag + a + b + c + d + e + f + g;
    let t = a + b + c + d + e + f + g;
    assert(s =~= head + flag + t);
    assert(s.take(head.len() as int) =~= head);
    assert(s.skip(s.len() - t.len()) =~= t);
}

/// A build that has done nothing has nothing to report.
pub proof fn law_nothing_to_report(r: BuildReport)
    ensures
        r == empty_report() <==> r.rendered_pages == 0 && r.skipped_pages == 0 && r.compiled_sass
            == 0 && r.copied_assets == 0 && r.checked_external_links == 0
            && r.broken_external_links == 0 && r.processed_scripts == 0 && !r.compiled_tailwind
            && r.island_pages == 0 && r.ai_indexed_pages == 0 && r.processed_images == 0,
{
}

} // verus!
