//! Plugins: the payloads that cross the plugin boundary, the limits of the host, the
//! way of a hook through the plugins, and the order of the hooks in a build.
use vstd::prelude::*;
use vstd::string::*;

use crate::fspath;
use crate::json;
use crate::text;
use crate::text::copy_text;

verus! {

/// How payloads are handed to plugins.
#[derive(Debug, Clone, Copy, PartialEq, Eq, Structural)]
pub enum PluginApiVersion {
    V1Json,
    V2TypedDraft,
}

/// A page as the first version of the plugin interface sees it.
#[derive(Debug, Clone)]
pub struct PluginPageIrV1 {
    pub title: String,
    pub content_html: String,
    pub toc_html: String,
}

/// A page as the second version of the plugin interface sees it.
#[derive(Debug, Clone)]
pub struct PluginPageIrV2 {
    pub path: String,
    pub title: String,
    pub content_html: String,
    pub toc_html: String,
}

/// The boundary between the host and its plugins.
#[derive(Debug, Clone)]
pub struct PluginBoundary {
    api_version: PluginApiVersion,
}

/// The JSON object of a page: its three members in the order of their
/// declaration.
pub open spec fn page_ir_json(ir: PluginPageIrV1) -> Seq<char> {
    json::json_object(
        seq![
            json::json_member("title"@, json::json_string(ir.title@)),
            json::json_member("content_html"@, json::json_string(ir.content_html@)),
            json::json_member("toc_html"@, json::json_string(ir.toc_html@)),
        ],
    )
}

impl PluginBoundary {
    /// The version that this boundary speaks.
    pub closed spec fn version(&self) -> PluginApiVersion {
        self.api_version
    }

    /// A boundary that speaks `api_version`.
    pub fn new(api_version: PluginApiVersion) -> (r: Self)
        ensures
            r.version() == api_version,
    {
        Self { api_version }
    }

    /// The version that this boundary speaks.
    pub fn api_version(&self) -> (r: PluginApiVersion)
        ensures
            r == self.version(),
    {
        self.api_version
    }

    /// The JSON text of a page, as plugins of the first version receive it.
    pub fn serialize_v1(ir: &PluginPageIrV1) -> (r: String)
        ensures
            r@ == page_ir_json(*ir),
    {
        let mut items: Vec<String> = Vec::new();
        let title = json::json_string_text(ir.title.as_str());
        items.push(json::member_text("title", title.as_str()));
        let content = json::json_string_text(ir.content_html.as_str());
        items.push(json::member_text("content_html", content.as_str()));
        let toc = json::json_string_text(ir.toc_html.as_str());
        items.push(json::member_text("toc_html", toc.as_str()));
        assert(text::texts(items@) =~= seq![
            json::json_member("title"@, json::json_string(ir.title@)),
            json::json_member("content_html"@, json::json_string(ir.content_html@)),
            json::json_member("toc_html"@, json::json_string(ir.toc_html@)),
        ]);
        json::object_text(&items)
    }

    /// The page of the second version with the same content, at `path`.
    pub fn v1_to_v2(path: &str, ir: &PluginPageIrV1) -> (r: PluginPageIrV2)
        ensures
            r.path@ == path@,
            r.title@ == ir.title@,
            r.content_html@ == ir.content_html@,
            r.toc_html@ == ir.toc_html@,
    {
        PluginPageIrV2 {
            path: copy_text(path),
            title: copy_text(ir.title.as_str()),
            content_html: copy_text(ir.content_html.as_str()),
            toc_html: copy_text(ir.toc_html.as_str()),
        }
    }
}

/// The payload of a page from its content on.
spec fn payload_from_content(ir: PluginPageIrV1) -> Seq<char> {
    seq![','] + (json::json_string("content_html"@) + seq![':']) + (json::json_string(
        ir.content_html@,
    ) + payload_from_toc(ir))
}

/// The payload of a page from its table of contents on.
spec fn payload_from_toc(ir: PluginPageIrV1) -> Seq<char> {
    seq![','] + (json::json_string("toc_html"@) + seq![':']) + (json::json_string(ir.toc_html@)
        + seq!['}'])
}

/// A payload is its members, one after the other.
proof fn lemma_payload_parts(ir: PluginPageIrV1)
    ensures
        page_ir_json(ir) == seq!['{'] + (json::json_string("title"@) + seq![':']) + (
        json::json_string(ir.title@) + payload_from_content(ir)),
{
    let items = seq![
        json::json_member("title"@, json::json_string(ir.title@)),
        json::json_member("content_html"@, json::json_string(ir.content_html@)),
        json::json_member("toc_html"@, json::json_string(ir.toc_html@)),
    ];
    let two = items.drop_last();
    reveal_with_fuel(json::comma_list, 3);
    assert(two.drop_last() =~= seq![items[0]]);
    assert(json::comma_list(two) =~= items[0] + seq![','] + items[1]);
    assert(json::comma_list(items) =~= items[0] + seq![','] + items[1] + seq![','] + items[2]);
    assert(page_ir_json(ir) =~= seq!['{'] + (json::json_string("title"@) + seq![':']) + (
    json::json_string(ir.title@) + payload_from_content(ir)));
}

/// A payload of the first version can be read back in one way only: two pages with
/// one payload have the same title, content and table of contents.
pub proof fn law_payload_is_read_in_one_way(a: PluginPageIrV1, b: PluginPageIrV1)
    requires
        page_ir_json(a) == page_ir_json(b),
    ensures
        a.title@ == b.title@,
        a.content_html@ == b.content_html@,
        a.toc_html@ == b.toc_html@,
{
    lemma_payload_parts(a);
    lemma_payload_parts(b);
    let head = seq!['{'] + (json::json_string("title"@) + seq![':']);
    let xa = json::json_string(a.title@) + payload_from_content(a);
    let xb = json::json_string(b.title@) + payload_from_content(b);
    assert((head + xa).skip(head.len() as int) =~= xa);
    assert((head + xb).skip(head.len() as int) =~= xb);
    json::law_json_string_is_read_in_one_way(
        a.title@,
        b.title@,
        payload_from_content(a),
        payload_from_content(b),
    );
    let head = seq![','] + (json::json_string("content_html"@) + seq![':']);
    let ya = json::json_string(a.content_html@) + payload_from_toc(a);
    let yb = json::json_string(b.content_html@) + payload_from_toc(b);
    assert((head + ya).skip(head.len() as int) =~= ya);
    assert((head + yb).skip(head.len() as int) =~= yb);
    json::law_json_string_is_read_in_one_way(
        a.content_html@,
        b.content_html@,
        payload_from_toc(a),
        payload_from_toc(b),
    );
    let head = seq![','] + (json::json_string("toc_html"@) + seq![':']);
    let za = json::json_string(a.toc_html@) + seq!['}'];
    let zb = json::json_string(b.toc_html@) + seq!['}'];
    assert((head + za).skip(head.len() as int) =~= za);
    assert((head + zb).skip(head.len() as int) =~= zb);
    json::law_json_string_is_read_in_one_way(a.toc_html@, b.toc_html@, seq!['}'], seq!['}']);
}

/// What can go wrong at the plugin boundary.
#[derive(Debug)]
pub enum PluginBoundaryError {
    Execution(String),
    Payload(String),
    Version(String),
}

/// The message of an error at the plugin boundary.
pub open spec fn boundary_message(e: PluginBoundaryError) -> Seq<char> {
    match e {
        PluginBoundaryError::Execution(s) => "plugin execution failed: "@ + s@,
        PluginBoundaryError::Payload(s) => "plugin payload format mismatch: "@ + s@,
        PluginBoundaryError::Version(s) => "plugin API version mismatch: "@ + s@,
    }
}

impl PluginBoundaryError {
    /// The message that a reader of the log sees.
    pub fn message(&self) -> (r: String)
        ensures
            r@ == boundary_message(*self),
    {
        match self {
            PluginBoundaryError::Execution(s) => text::concat("plugin execution failed: ", s.as_str()),
            PluginBoundaryError::Payload(s) => text::concat(
                "plugin payload format mismatch: ",
                s.as_str(),
            ),
            PluginBoundaryError::Version(s) => text::concat(
                "plugin API version mismatch: ",
                s.as_str(),
            ),
        }
    }
}

// ---------------------------------------------------------------------------
// The host.

/// Which plugins the host loads, and what each call of one may use.
#[derive(Debug, Clone)]
pub struct PluginHostConfig {
    pub plugin_paths: Vec<String>,
    pub timeout_ms: u64,
    pub memory_limit_mb: u64,
}

impl Default for PluginHostConfig {
    fn default() -> (r: Self)
        ensures
            r.plugin_paths@.len() == 0,
            r.timeout_ms == 2000,
            r.memory_limit_mb == 128,
    {
        PluginHostConfig { plugin_paths: Vec::new(), timeout_ms: 2000, memory_limit_mb: 128 }
    }
}

/// The fuel of one call: ten thousand units for each millisecond of the time
/// limit, not below a hundred thousand and not above what a `u64` holds.
pub open spec fn fuel_for(timeout_ms: u64) -> int {
    let scaled = timeout_ms * 10_000;
    if scaled < 100_000 {
        100_000
    } else if scaled > u64::MAX {
        u64::MAX as int
    } else {
        scaled
    }
}

/// The memory limit in bytes, not above what a `u64` holds.
pub open spec fn memory_bytes(limit_mb: u64) -> int {
    let scaled = limit_mb * 1_048_576;
    if scaled > u64::MAX {
        u64::MAX as int
    } else {
        scaled
    }
}

/// Computes [`memory_bytes`].
pub fn memory_limit_bytes(limit_mb: u64) -> (r: u64)
    ensures
        r == memory_bytes(limit_mb),
{
    match limit_mb.checked_mul(1_048_576) {
        Some(n) => n,
        None => u64::MAX,
    }
}

/// Computes [`fuel_for`].
pub fn fuel_per_call(timeout_ms: u64) -> (r: u64)
    ensures
        r == fuel_for(timeout_ms),
{
    match timeout_ms.checked_mul(10_000) {
        Some(n) => if n < 100_000 {
            100_000
        } else {
            n
        },
        None => u64::MAX,
    }
}

/// The path names a WebAssembly component file.
pub open spec fn component_candidate(path: Seq<char>) -> bool {
    fspath::extension(path) == Some("wasm"@)
}

/// Decides [`component_candidate`].
pub fn is_component_candidate(path: &str) -> (r: bool)
    ensures
        r == component_candidate(path@),
{
    fspath::extension_is(path, "wasm")
}

/// Why a plugin path is refused.
#[derive(Debug, Clone, Copy, PartialEq, Eq, Structural)]
pub enum PluginPathError {
    /// No file stands at the path with this index.
    NotFound { index: usize },
    /// The path with this index does not name a `.wasm` file.
    NotComponent { index: usize },
}

/// The reason for which the path with index `i` is refused.
pub open spec fn path_problem(paths: Seq<String>, exists: Seq<bool>, i: int) -> Option<
    PluginPathError,
> {
    if !exists[i] {
        Some(PluginPathError::NotFound { index: i as usize })
    } else if !component_candidate(paths[i]@) {
        Some(PluginPathError::NotComponent { index: i as usize })
    } else {
        None
    }
}

/// Accepts the paths where each names an existing `.wasm` file, and reports the
/// first that does not. `exists[i]` says whether a file stands at `paths[i]`.
pub fn validate_paths(paths: &Vec<String>, exists: &Vec<bool>) -> (r: Result<(), PluginPathError>)
    requires
        exists@.len() == paths@.len(),
    ensures
        match r {
            Ok(_) => forall|i: int|
                0 <= i < paths@.len() ==> #[trigger] path_problem(paths@, exists@, i) is None,
            Err(e) => exists|i: int|
                0 <= i < paths@.len() && #[trigger] path_problem(paths@, exists@, i) == Some(e) && (
                forall|j: int|
                    0 <= j < i ==> #[trigger] path_problem(paths@, exists@, j) is None),
        },
{
    let mut i: usize = 0;
    while i < paths.len()
        invariant
            i <= paths.len(),
            exists@.len() == paths@.len(),
            forall|j: int| 0 <= j < i ==> #[trigger] path_problem(paths@, exists@, j) is None,
        decreases paths.len() - i,
    {
        if !exists[i] {
            assert(path_problem(paths@, exists@, i as int) == Some(
                PluginPathError::NotFound { index: i },
            ));
            return Err(PluginPathError::NotFound { index: i });
        }
        if !is_component_candidate(paths[i].as_str()) {
            assert(path_problem(paths@, exists@, i as int) == Some(
                PluginPathError::NotComponent { index: i },
            ));
            return Err(PluginPathError::NotComponent { index: i });
        }
        i += 1;
    }
    Ok(())
}

impl PluginPathError {
    /// The path that the error is about.
    pub open spec fn index(&self) -> usize {
        match self {
            PluginPathError::NotFound { index } => *index,
            PluginPathError::NotComponent { index } => *index,
        }
    }

    /// The message for the refused path `path`.
    pub fn message(&self, path: &str) -> (r: String)
        ensures
            r@ == (match self {
                PluginPathError::NotFound { .. } => "plugin not found: "@,
                PluginPathError::NotComponent { .. } => "plugin must be a .wasm component file: "@,
            }) + path@,
    {
        match self {
            PluginPathError::NotFound { .. } => text::concat("plugin not found: ", path),
            PluginPathError::NotComponent { .. } => text::concat(
                "plugin must be a .wasm component file: ",
                path,
            ),
        }
    }
}

/// The name of the plugin at `path`: its file name.
pub open spec fn plugin_name(path: Seq<char>) -> Seq<char> {
    match fspath::file_name(path) {
        Some(n) => n,
        None => "unknown-plugin"@,
    }
}

/// Computes [`plugin_name`].
pub fn name_of_plugin(path: &str) -> (r: String)
    ensures
        r@ == plugin_name(path@),
{
    match fspath::path_file_name(path) {
        Some(n) => n,
        None => copy_text("unknown-plugin"),
    }
}

/// The host of the loaded plugins.
#[derive(Debug)]
pub struct PluginHost {
    config: PluginHostConfig,
    names: Vec<String>,
    fuel: u64,
}

impl PluginHost {
    /// The configuration that the host was made with.
    pub closed spec fn configured(&self) -> PluginHostConfig {
        self.config
    }

    /// The names of the plugins, in the order in which hooks run them.
    pub closed spec fn plugin_names(&self) -> Seq<Seq<char>> {
        text::texts(self.names@)
    }

    /// The fuel that every call is given.
    pub closed spec fn call_fuel(&self) -> u64 {
        self.fuel
    }

    /// What holds of every host: one name for each configured path, and the fuel
    /// that belongs to the time limit.
    pub open spec fn wf(&self) -> bool {
        &&& self.call_fuel() == fuel_for(self.configured().timeout_ms)
        &&& self.plugin_names() == Seq::new(
            self.configured().plugin_paths@.len(),
            |i: int| plugin_name(self.configured().plugin_paths@[i]@),
        )
    }

    /// A host for the configured plugins, where every path is acceptable.
    pub fn new(config: PluginHostConfig, exists: &Vec<bool>) -> (r: Result<Self, PluginPathError>)
        requires
            exists@.len() == config.plugin_paths@.len(),
        ensures
            match r {
                Ok(host) => host.wf() && host.configured() == config && (forall|i: int|
                    0 <= i < exists@.len() ==> #[trigger] path_problem(
                        config.plugin_paths@,
                        exists@,
                        i,
                    ) is None),
                Err(e) => exists|i: int|
                    0 <= i < exists@.len() && #[trigger] path_problem(
                        config.plugin_paths@,
                        exists@,
                        i,
                    ) == Some(e) && (forall|j: int|
                        0 <= j < i ==> #[trigger] path_problem(
                            config.plugin_paths@,
                            exists@,
                            j,
                        ) is None),
            },
    {
        match validate_paths(&config.plugin_paths, exists) {
            Ok(_) => {},
            Err(e) => {
                return Err(e);
            },
        }
        let fuel = fuel_per_call(config.timeout_ms);
        let mut names: Vec<String> = Vec::new();
        let mut i: usize = 0;
        while i < config.plugin_paths.len()
            invariant
                i <= config.plugin_paths.len(),
                names@.len() == i,
                forall|j: int|
                    0 <= j < i ==> #[trigger] names@[j]@ == plugin_name(config.plugin_paths@[j]@),
            decreases config.plugin_paths.len() - i,
        {
            names.push(name_of_plugin(config.plugin_paths[i].as_str()));
            i += 1;
        }
        assert(text::texts(names@) =~= Seq::new(
            config.plugin_paths@.len(),
            |i: int| plugin_name(config.plugin_paths@[i]@),
        ));
        Ok(PluginHost { config, names, fuel })
    }

    /// How many plugins the host runs.
    pub fn plugin_count(&self) -> (r: usize)
        ensures
            r == self.plugin_names().len(),
    {
        self.names.len()
    }

    /// The time limit of one call, in milliseconds.
    pub fn timeout_ms(&self) -> (r: u64)
        ensures
            r == self.configured().timeout_ms,
    {
        self.config.timeout_ms
    }

    /// The memory limit of one plugin, in bytes.
    pub fn memory_limit(&self) -> (r: u64)
        ensures
            r == memory_bytes(self.configured().memory_limit_mb),
    {
        memory_limit_bytes(self.config.memory_limit_mb)
    }

    /// The fuel that every call is given.
    pub fn fuel(&self) -> (r: u64)
        ensures
            r == self.call_fuel(),
    {
        self.fuel
    }

    /// The name of the plugin with index `i`.
    pub fn name(&self, i: usize) -> (r: &str)
        requires
            i < self.plugin_names().len(),
        ensures
            r@ == self.plugin_names()[i as int],
    {
        self.names[i].as_str()
    }

    /// The beginning of a run of `hook` through all plugins, with `payload` for
    /// the first of them.
    pub fn start(&self, hook: Hook, payload: String) -> (r: HookRun)
        ensures
            r.wf(),
            r.hook() == hook,
            r.payload() == payload@,
            r.done() == 0,
            r.total() == self.plugin_names().len(),
    {
        HookRun { hook, payload, done: 0, total: self.names.len() }
    }

    /// The beginning of the `init` hook, which hands every plugin `config_json`.
    pub fn init(&self, config_json: &str) -> (r: HookRun)
        ensures
            r.wf(),
            r.hook() == Hook::Init,
            r.payload() == config_json@,
            r.done() == 0,
            r.total() == self.plugin_names().len(),
    {
        self.start(Hook::Init, copy_text(config_json))
    }

    /// The beginning of the `transform_markdown` hook on `content`.
    pub fn transform_markdown(&self, content: String) -> (r: HookRun)
        ensures
            r.wf(),
            r.hook() == Hook::TransformMarkdown,
            r.payload() == content@,
            r.done() == 0,
            r.total() == self.plugin_names().len(),
    {
        self.start(Hook::TransformMarkdown, content)
    }

    /// The beginning of the `on_page_ir` hook on `ir_json`.
    pub fn on_page_ir(&self, ir_json: String) -> (r: HookRun)
        ensures
            r.wf(),
            r.hook() == Hook::OnPageIr,
            r.payload() == ir_json@,
            r.done() == 0,
            r.total() == self.plugin_names().len(),
    {
        self.start(Hook::OnPageIr, ir_json)
    }

    /// The beginning of the `on_post_render` hook on `html`.
    pub fn on_post_render(&self, html: String) -> (r: HookRun)
        ensures
            r.wf(),
            r.hook() == Hook::OnPostRender,
            r.payload() == html@,
            r.done() == 0,
            r.total() == self.plugin_names().len(),
    {
        self.start(Hook::OnPostRender, html)
    }

    /// The beginning of the `shutdown` hook, which hands out nothing.
    pub fn shutdown(&self) -> (r: HookRun)
        ensures
            r.wf(),
            r.hook() == Hook::Shutdown,
            r.payload() == Seq::<char>::empty(),
            r.done() == 0,
            r.total() == self.plugin_names().len(),
    {
        self.start(Hook::Shutdown, String::new())
    }
}

/// The points of a build at which plugins are called.
#[derive(Debug, Clone, Copy, PartialEq, Eq, Structural)]
pub enum Hook {
    Init,
    TransformMarkdown,
    OnPageIr,
    OnPostRender,
    Shutdown,
}

/// The name of a hook in messages.
pub open spec fn hook_name(hook: Hook) -> Seq<char> {
    match hook {
        Hook::Init => "init"@,
        Hook::TransformMarkdown => "transform_markdown"@,
        Hook::OnPageIr => "on_page_ir"@,
        Hook::OnPostRender => "on_post_render"@,
        Hook::Shutdown => "shutdown"@,
    }
}

/// The hook hands the text that a plugin returns to the next plugin.
pub open spec fn transforms(hook: Hook) -> bool {
    hook == Hook::TransformMarkdown || hook == Hook::OnPageIr || hook == Hook::OnPostRender
}

impl Hook {
    /// The name of the hook in messages.
    pub fn name(&self) -> (r: &'static str)
        ensures
            r@ == hook_name(*self),
    {
        match self {
            Hook::Init => "init",
            Hook::TransformMarkdown => "transform_markdown",
            Hook::OnPageIr => "on_page_ir",
            Hook::OnPostRender => "on_post_render",
            Hook::Shutdown => "shutdown",
        }
    }

    /// The message where the plugin `plugin` failed in this hook.
    pub fn failure_message(&self, plugin: &str) -> (r: String)
        ensures
            r@ == "plugin "@ + hook_name(*self) + " failed: "@ + plugin@,
    {
        let mut out = copy_text("plugin ");
        out.append(self.name());
        out.append(" failed: ");
        out.append(plugin);
        out
    }
}

/// One run of a hook through the plugins of a host: which plugin is next, and
/// the payload that it receives.
#[derive(Debug)]
pub struct HookRun {
    hook: Hook,
    payload: String,
    done: usize,
    total: usize,
}

/// The payload behind the plugins that returned `outputs`: what the last of them
/// returned where the hook transforms its payload, and `payload` otherwise.
pub open spec fn payload_after(hook: Hook, payload: Seq<char>, outputs: Seq<Seq<char>>) -> Seq<char> {
    if transforms(hook) && outputs.len() > 0 {
        outputs.last()
    } else {
        payload
    }
}

impl HookRun {
    /// The hook that runs.
    pub closed spec fn hook(&self) -> Hook {
        self.hook
    }

    /// The payload for the next plugin, or the result where none is left.
    pub closed spec fn payload(&self) -> Seq<char> {
        self.payload@
    }

    /// How many plugins have run.
    pub closed spec fn done(&self) -> nat {
        self.done as nat
    }

    /// How many plugins there are.
    pub closed spec fn total(&self) -> nat {
        self.total as nat
    }

    /// No more plugins have run than there are.
    pub open spec fn wf(&self) -> bool {
        self.done() <= self.total()
    }

    /// The plugin to call next, with the payload for it.
    pub fn next(&self) -> (r: Option<(usize, &str)>)
        ensures
            match r {
                Some((i, payload)) => self.done() < self.total() && i == self.done() && payload@
                    == self.payload(),
                None => self.done() >= self.total(),
            },
    {
        if self.done < self.total {
            Some((self.done, self.payload.as_str()))
        } else {
            None
        }
    }

    /// Takes what the plugin that ran returned. The payload changes only in a
    /// hook that transforms it.
    pub fn advance(&mut self, output: String)
        requires
            old(self).done() < old(self).total(),
        ensures
            final(self).wf(),
            final(self).hook() == old(self).hook(),
            final(self).total() == old(self).total(),
            final(self).done() == old(self).done() + 1,
            final(self).payload() == payload_after(
                old(self).hook(),
                old(self).payload(),
                seq![output@],
            ),
    {
        match self.hook {
            Hook::TransformMarkdown | Hook::OnPageIr | Hook::OnPostRender => {
                self.payload = output;
            },
            Hook::Init | Hook::Shutdown => {},
        }
        self.done = self.done + 1;
    }

    /// The result of the run.
    pub fn into_payload(self) -> (r: String)
        ensures
            r@ == self.payload(),
    {
        self.payload
    }
}

/// Every plugin of a run receives what the one before it returned: the payload
/// behind `outputs` and one more output is the payload behind them, advanced by
/// that output.
pub proof fn law_hook_chain(
    hook: Hook,
    payload: Seq<char>,
    outputs: Seq<Seq<char>>,
    output: Seq<char>,
)
    ensures
        payload_after(hook, payload, outputs.push(output)) == payload_after(
            hook,
            payload_after(hook, payload, outputs),
            seq![output],
        ),
        transforms(hook) ==> payload_after(hook, payload, outputs.push(output)) == output,
        !transforms(hook) ==> payload_after(hook, payload, outputs) == payload,
        payload_after(hook, payload, Seq::empty()) == payload,
{
}

// ---------------------------------------------------------------------------
// The order of the hooks in a build.

/// Where a build stands between two hooks.
#[derive(Debug, Clone, Copy, PartialEq, Eq, Structural)]
pub enum Stage {
    /// The plugins are loaded, and nothing else.
    Loaded,
    /// No page is under way.
    Ready,
    /// The Markdown of a page has gone through the plugins.
    Transformed,
    /// The parsed page has gone through the plugins.
    Parsed,
    /// The build is done.
    Stopped,
}

/// What happens in a build that plugins are told of.
#[derive(Debug, Clone, Copy, PartialEq, Eq, Structural)]
pub enum BuildEvent {
    Started,
    PageRead,
    PageParsed,
    PageRendered,
    Finished,
}

/// The hook that an event calls for, with the stage behind it; nothing where the
/// event is out of turn.
pub open spec fn hook_due(stage: Stage, event: BuildEvent) -> Option<(Hook, Stage)> {
    match (stage, event) {
        (Stage::Loaded, BuildEvent::Started) => Some((Hook::Init, Stage::Ready)),
        (Stage::Ready, BuildEvent::PageRead) => Some((Hook::TransformMarkdown, Stage::Transformed)),
        (Stage::Transformed, BuildEvent::PageParsed) => Some((Hook::OnPageIr, Stage::Parsed)),
        (Stage::Parsed, BuildEvent::PageRendered) => Some((Hook::OnPostRender, Stage::Ready)),
        (Stage::Ready, BuildEvent::Finished) => Some((Hook::Shutdown, Stage::Stopped)),
        _ => None,
    }
}

/// The life of the plugins in one build.
#[derive(Debug)]
pub struct Lifecycle {
    stage: Stage,
}

impl Lifecycle {
    /// Where the build stands.
    pub closed spec fn stage(&self) -> Stage {
        self.stage
    }

    /// The life of plugins that were just loaded.
    pub fn new() -> (r: Self)
        ensures
            r.stage() == Stage::Loaded,
    {
        Lifecycle { stage: Stage::Loaded }
    }

    /// The hook to run at an event. An event out of turn calls for none and leaves
    /// the build where it stands.
    pub fn next_hook(&mut self, event: BuildEvent) -> (r: Option<Hook>)
        ensures
            match hook_due(old(self).stage(), event) {
                Some((hook, stage)) => r == Some(hook) && final(self).stage() == stage,
                None => r is None && final(self).stage() == old(self).stage(),
            },
    {
        let (hook, stage) = match (self.stage, event) {
            (Stage::Loaded, BuildEvent::Started) => (Hook::Init, Stage::Ready),
            (Stage::Ready, BuildEvent::PageRead) => (Hook::TransformMarkdown, Stage::Transformed),
            (Stage::Transformed, BuildEvent::PageParsed) => (Hook::OnPageIr, Stage::Parsed),
            (Stage::Parsed, BuildEvent::PageRendered) => (Hook::OnPostRender, Stage::Ready),
            (Stage::Ready, BuildEvent::Finished) => (Hook::Shutdown, Stage::Stopped),
            _ => {
                return None;
            },
        };
        self.stage = stage;
        Some(hook)
    }
}

/// The hooks that have run after some events, and where the build then stands. An
/// event out of turn runs none.
pub open spec fn hooks_after(events: Seq<BuildEvent>) -> (Seq<Hook>, Stage)
    decreases events.len(),
{
    if events.len() == 0 {
        (Seq::empty(), Stage::Loaded)
    } else {
        let (hooks, stage) = hooks_after(events.drop_last());
        match hook_due(stage, events.last()) {
            Some((hook, next)) => (hooks.push(hook), next),
            None => (hooks, stage),
        }
    }
}

/// The hook that stands at position `i` of a build that is not done: `init`, and
/// then the three hooks of each page in turn.
pub open spec fn hook_at(i: int) -> Hook {
    if i == 0 {
        Hook::Init
    } else if i % 3 == 1 {
        Hook::TransformMarkdown
    } else if i % 3 == 2 {
        Hook::OnPageIr
    } else {
        Hook::OnPostRender
    }
}

/// Whatever happens in a build, its hooks run in order: `init` first and once; then
/// for one page after the other `transform_markdown`, `on_page_ir` and
/// `on_post_render`; and, once the build is done, `shutdown` last and once, with no
/// page left under way.
pub proof fn law_hook_order(events: Seq<BuildEvent>)
    ensures
        ({
            let (hooks, stage) = hooks_after(events);
            let n = if stage == Stage::Stopped {
                hooks.len() - 1
            } else {
                hooks.len() as int
            };
            &&& forall|i: int| 0 <= i < n ==> #[trigger] hooks[i] == hook_at(i)
            &&& match stage {
                Stage::Loaded => n == 0,
                Stage::Ready => n % 3 == 1,
                Stage::Transformed => n % 3 == 2,
                Stage::Parsed => n > 0 && n % 3 == 0,
                Stage::Stopped => n % 3 == 1 && hooks[n] == Hook::Shutdown,
            }
        }),
    decreases events.len(),
{
    if events.len() > 0 {
        law_hook_order(events.drop_last());
    }
}

/// The events of a build of `n` pages.
pub open spec fn page_events(n: nat) -> Seq<BuildEvent>
    decreases n,
{
    if n == 0 {
        seq![BuildEvent::Started]
    } else {
        page_events((n - 1) as nat).push(BuildEvent::PageRead).push(BuildEvent::PageParsed).push(
            BuildEvent::PageRendered,
        )
    }
}

/// A build of any number of pages runs all its hooks: one for each event.
pub proof fn law_every_build_runs_its_hooks(n: nat)
    ensures
        hooks_after(page_events(n)).0.len() == 1 + 3 * n,
        hooks_after(page_events(n)).1 == Stage::Ready,
        hooks_after(page_events(n).push(BuildEvent::Finished)).0.len() == 2 + 3 * n,
        hooks_after(page_events(n).push(BuildEvent::Finished)).1 == Stage::Stopped,
    decreases n,
{
    reveal_with_fuel(hooks_after, 2);
    let all = page_events(n);
    if n == 0 {
        assert(all.drop_last() =~= Seq::empty());
    } else {
        let before = page_events((n - 1) as nat);
        law_every_build_runs_its_hooks((n - 1) as nat);
        let read = before.push(BuildEvent::PageRead);
        let parsed = read.push(BuildEvent::PageParsed);
        assert(read.drop_last() =~= before);
        assert(parsed.drop_last() =~= read);
        assert(all.drop_last() =~= parsed);
        assert(hooks_after(read).1 == Stage::Transformed);
        assert(hooks_after(parsed).1 == Stage::Parsed);
    }
    assert(all.push(BuildEvent::Finished).drop_last() =~= all);
}

// ---------------------------------------------------------------------------
// Log lines.

/// A text between quotes, with its backslashes and quotes escaped.
pub open spec fn quoted(s: Seq<char>) -> Seq<char> {
    seq!['"'] + text::replace_char(text::replace_char(s, '\\', "\\\\"@), '"', "\\\""@) + seq!['"']
}

/// Computes [`quoted`].
pub fn json_string(input: &str) -> (r: String)
    ensures
        r@ == quoted(input@),
{
    let slashes = text::replaced_char(input, '\\', "\\\\");
    let quotes = text::replaced_char(slashes.as_str(), '"', "\\\"");
    let mut out = String::new();
    out.push('"');
    out.append(quotes.as_str());
    out.push('"');
    assert(out@ =~= quoted(input@));
    out
}

/// The log line for a hook that one plugin has finished.
pub fn plugin_event_line(plugin: &str, hook: &str, duration_ms: u128, status: &str) -> (r: String)
    ensures
        r@ == "{\"component\":\"plugin\",\"plugin\":\""@ + plugin@ + "\",\"hook\":\""@ + hook@
            + "\",\"duration_ms\":"@ + text::decimal(duration_ms as nat) + ",\"status\":\""@
            + status@ + "\"}"@,
{
    let mut out = copy_text("{\"component\":\"plugin\",\"plugin\":\"");
    out.append(plugin);
    out.append("\",\"hook\":\"");
    out.append(hook);
    out.append("\",\"duration_ms\":");
    let n = text::decimal_text(duration_ms);
    out.append(n.as_str());
    out.append(",\"status\":\"");
    out.append(status);
    out.append("\"}");
    out
}

/// The log line for a message that a plugin sends to the host.
pub fn host_log_line(level: &str, message: &str) -> (r: String)
    ensures
        r@ == "{\"component\":\"plugin\",\"hook\":\"host.log\",\"status\":\""@ + level@
            + "\",\"message\":"@ + quoted(message@) + "}"@,
{
    let mut out = copy_text("{\"component\":\"plugin\",\"hook\":\"host.log\",\"status\":\"");
    out.append(level);
    out.append("\",\"message\":");
    let m = json_string(message);
    out.append(m.as_str());
    out.append("}");
    out
}

// ---------------------------------------------------------------------------
// More laws.

/// A plugin gets the title, the content and the table of contents of a page, each under
/// its name.
pub proof fn law_payload_has_its_fields(ir: PluginPageIrV1)
    ensures
        json::has_member(page_ir_json(ir), "title"@, json::json_string(ir.title@)),
        json::has_member(page_ir_json(ir), "content_html"@, json::json_string(ir.content_html@)),
        json::has_member(page_ir_json(ir), "toc_html"@, json::json_string(ir.toc_html@)),
{
    let items = seq![
        json::json_member("title"@, json::json_string(ir.title@)),
        json::json_member("content_html"@, json::json_string(ir.content_html@)),
        json::json_member("toc_html"@, json::json_string(ir.toc_html@)),
    ];
    json::law_object_has_its_members(items, 0, "title"@, json::json_string(ir.title@));
    json::law_object_has_its_members(items, 1, "content_html"@, json::json_string(ir.content_html@));
    json::law_object_has_its_members(items, 2, "toc_html"@, json::json_string(ir.toc_html@));
}

/// A call has ten thousand units of fuel for each millisecond, and never less than for
/// ten; memory is counted in megabytes of 1024 times 1024 bytes. Neither goes above what
/// the machine can count.
pub proof fn law_budgets(a: u64, b: u64)
    ensures
        a <= 10 ==> fuel_for(a) == 100_000,
        10 <= a && a * 10_000 <= u64::MAX ==> fuel_for(a) == a * 10_000,
        a <= b ==> fuel_for(a) <= fuel_for(b),
        fuel_for(a) <= u64::MAX,
        a * 1024 * 1024 <= u64::MAX ==> memory_bytes(a) == a * 1024 * 1024,
        a <= b ==> memory_bytes(a) <= memory_bytes(b),
        memory_bytes(a) <= u64::MAX,
{
}

/// A plugin goes by the name of its file, and has to be a `wasm` file that is there.
pub proof fn law_plugin_files(dir: Seq<char>, name: Seq<char>, paths: Seq<String>, exists: Seq<bool>, i: int)
    requires
        dir.len() == 0 || dir.last() == '/',
        fspath::plain_name(name),
        0 <= i < paths.len() && exists.len() == paths.len(),
    ensures
        plugin_name(dir + name) == name,
        path_problem(paths, exists, i) is None <==> exists[i] && fspath::extension(paths[i]@)
            == Some("wasm"@),
        path_problem(paths, exists, i) is Some && exists[i] ==> path_problem(
            paths,
            exists,
            i,
        ).unwrap() is NotComponent,
        !exists[i] ==> path_problem(paths, exists, i).unwrap() is NotFound,
{
    fspath::law_file_name(dir, name);
}

/// A message is quoted with a backslash before each quote and each backslash in it, and
/// with nothing else changed.
pub proof fn law_quoted(s: Seq<char>)
    ensures
        quoted(s) == seq!['"'] + Seq::new(
            s.len(),
            |i: int|
                if s[i] == '"' {
                    seq!['\\', '"']
                } else if s[i] == '\\' {
                    seq!['\\', '\\']
                } else {
                    seq![s[i]]
                },
        ).flatten() + seq!['"'],
{
    lemma_quoted_inside(s);
}

spec fn quoted_inside(s: Seq<char>) -> Seq<char> {
    text::replace_char(text::replace_char(s, '\\', "\\\\"@), '"', "\\\""@)
}

proof fn lemma_quoted_inside(s: Seq<char>)
    ensures
        quoted_inside(s) == Seq::new(
            s.len(),
            |i: int|
                if s[i] == '"' {
                    seq!['\\', '"']
                } else if s[i] == '\\' {
                    seq!['\\', '\\']
                } else {
                    seq![s[i]]
                },
        ).flatten(),
    decreases s.len(),
{
    let all = Seq::new(
        s.len(),
        |i: int|
            if s[i] == '"' {
                seq!['\\', '"']
            } else if s[i] == '\\' {
                seq!['\\', '\\']
            } else {
                seq![s[i]]
            },
    );
    all.lemma_flatten_and_flatten_alt_are_equivalent();
    if s.len() > 0 {
        let front = s.drop_last();
        lemma_quoted_inside(front);
        let rest = Seq::new(
            front.len(),
            |i: int|
                if front[i] == '"' {
                    seq!['\\', '"']
                } else if front[i] == '\\' {
                    seq!['\\', '\\']
                } else {
                    seq![front[i]]
                },
        );
        rest.lemma_flatten_and_flatten_alt_are_equivalent();
        assert(all.drop_last() =~= rest);
        reveal_strlit("\\\\");
        reveal_strlit("\\\"");
        assert("\\\\"@ =~= seq!['\\', '\\']);
        assert("\\\""@ =~= seq!['\\', '"']);
        let c = s.last();
        let one = if c == '\\' {
            seq!['\\', '\\']
        } else {
            seq![c]
        };
        let inner = text::replace_char(front, '\\', "\\\\"@);
        assert(text::replace_char(s, '\\', "\\\\"@) == inner + one);
        text::lemma_replace_char_append(inner, one, '"', "\\\""@);
        if c == '"' {
            assert(one.drop_last() =~= Seq::empty());
            assert(text::replace_char(one.drop_last(), '"', "\\\""@) =~= Seq::empty());
            assert(text::replace_char(one, '"', "\\\""@) =~= seq!['\\', '"']);
        } else {
            text::lemma_replace_char_none(one, '"', "\\\""@);
        }
        assert(quoted_inside(s) =~= quoted_inside(front) + all.last());
    } else {
        assert(text::replace_char(s, '\\', "\\\\"@) =~= Seq::empty());
        assert(quoted_inside(s) =~= Seq::empty());
        assert(all.flatten() =~= Seq::empty());
    }
}

/// Each hook has a name of its own, and a failure at the boundary ends with what went
/// wrong.
pub proof fn law_names_and_messages(a: Hook, b: Hook, s: String)
    ensures
        a != b ==> hook_name(a) != hook_name(b),
        hook_name(Hook::TransformMarkdown) == "transform_markdown"@,
        text::ends_with(boundary_message(PluginBoundaryError::Execution(s)), s@),
        text::ends_with(boundary_message(PluginBoundaryError::Payload(s)), s@),
        text::ends_with(boundary_message(PluginBoundaryError::Version(s)), s@),
        text::starts_with(boundary_message(PluginBoundaryError::Execution(s)), "plugin execution"@),
        text::starts_with(boundary_message(PluginBoundaryError::Payload(s)), "plugin payload"@),
        text::starts_with(boundary_message(PluginBoundaryError::Version(s)), "plugin API version"@),
{
    reveal_strlit("init");
    reveal_strlit("transform_markdown");
    reveal_strlit("on_page_ir");
    reveal_strlit("on_post_render");
    reveal_strlit("shutdown");
    assert("init"@.len() == 4 && "transform_markdown"@.len() == 18 && "on_page_ir"@.len() == 10);
    assert("on_post_render"@.len() == 14 && "shutdown"@.len() == 8);
    reveal_strlit("plugin execution");
    reveal_strlit("plugin execution failed: ");
    reveal_strlit("plugin payload");
    reveal_strlit("plugin payload format mismatch: ");
    reveal_strlit("plugin API version");
    reveal_strlit("plugin API version mismatch: ");
    let x = "plugin execution failed: "@ + s@;
    let y = "plugin payload format mismatch: "@ + s@;
    let z = "plugin API version mismatch: "@ + s@;
    assert(x.skip(x.len() - s@.len()) =~= s@);
    assert(y.skip(y.len() - s@.len()) =~= s@);
    assert(z.skip(z.len() - s@.len()) =~= s@);
    assert(x.take(16) =~= "plugin execution"@);
    assert(y.take(14) =~= "plugin payload"@);
    assert(z.take(18) =~= "plugin API version"@);
}

} // verus!
