//! The plugin registry: which plugins are installed, which are enabled, and
//! which the host can run.
use vstd::prelude::*;
use vstd::string::*;

use crate::failure;
use crate::failure::{failure, Failure};
use crate::fspath;
use crate::order;
use crate::text;
use crate::text::{concat, copy_text};

verus! {

// ---------------------------------------------------------------------------
// Versions.

/// The major, minor and patch numbers of a version, where a text is one.
pub uninterp spec fn version_numbers(s: Seq<char>) -> Option<(u64, u64, u64)>;

/// Two texts are versions, and the first comes before the second.
pub uninterp spec fn version_lt(a: Seq<char>, b: Seq<char>) -> bool;

/// The numbers `a` come before the numbers `b`.
pub open spec fn numbers_lt(a: (u64, u64, u64), b: (u64, u64, u64)) -> bool {
    a.0 < b.0 || (a.0 == b.0 && (a.1 < b.1 || (a.1 == b.1 && a.2 < b.2)))
}

/// `semver::Version::parse` reads a version. The result is [`version_numbers`]
/// of the text; which texts are versions is not said.
#[verifier::external_body]
pub(crate) fn read_version(s: &str) -> (r: Option<(u64, u64, u64)>)
    ensures
        r == version_numbers(s@),
{
    semver::Version::parse(s).ok().map(|v| (v.major, v.minor, v.patch))
}

/// The order of `semver::Version` goes by the major, the minor and the patch
/// number, and then by what follows them. The result is [`version_lt`] of the
/// two texts; where the numbers differ, they decide.
#[verifier::external_body]
pub(crate) fn version_precedes(a: &str, b: &str) -> (r: bool)
    ensures
        r == version_lt(a@, b@),
        version_numbers(a@) is None || version_numbers(b@) is None ==> !r,
        version_numbers(a@) is Some && version_numbers(b@) is Some && version_numbers(a@)
            != version_numbers(b@) ==> r == numbers_lt(
            version_numbers(a@).unwrap(),
            version_numbers(b@).unwrap(),
        ),
{
    match (semver::Version::parse(a), semver::Version::parse(b)) {
        (Ok(a), Ok(b)) => a < b,
        _ => false,
    }
}

// ---------------------------------------------------------------------------
// Compatibility.

/// An installed plugin.
#[derive(Debug)]
pub struct PluginRegistryEntry {
    pub id: String,
    pub version: String,
    pub min_host_version: String,
    pub wasm_path: String,
    pub official: bool,
}

/// What an entry holds.
pub struct PluginView {
    pub id: Seq<char>,
    pub version: Seq<char>,
    pub min_host_version: Seq<char>,
    pub wasm_path: Seq<char>,
    pub official: bool,
}

impl View for PluginRegistryEntry {
    type V = PluginView;

    open spec fn view(&self) -> PluginView {
        PluginView {
            id: self.id@,
            version: self.version@,
            min_host_version: self.min_host_version@,
            wasm_path: self.wasm_path@,
            official: self.official,
        }
    }
}

/// The plugin was made for an older major version of the host.
pub open spec fn legacy_major(min: (u64, u64, u64), host: (u64, u64, u64)) -> bool {
    min.0 < host.0
}

/// The plugin is more than two minor versions older than the host.
pub open spec fn old_minor(min: (u64, u64, u64), host: (u64, u64, u64)) -> bool {
    min.1 + 2 < host.1
}

/// The warning about a plugin for an older major version.
pub open spec fn legacy_warning(id: Seq<char>, min: u64, host: u64) -> Seq<char> {
    "warning: plugin "@ + id + " targets host major "@ + text::decimal(min as nat)
        + " but current major is "@ + text::decimal(host as nat) + " (legacy compatibility mode)"@
}

/// The hint about an old plugin.
pub open spec fn upgrade_hint(id: Seq<char>) -> Seq<char> {
    "hint: plugin "@ + id
        + " is older than two host minor versions; consider upgrading plugin for latest v2 payload support"@
}

/// The notes on a plugin that the host can run.
pub open spec fn compatibility_notes(
    id: Seq<char>,
    min: (u64, u64, u64),
    host: (u64, u64, u64),
) -> Seq<Seq<char>> {
    (if legacy_major(min, host) {
        seq![legacy_warning(id, min.0, host.0)]
    } else {
        Seq::empty()
    }) + (if old_minor(min, host) {
        seq![upgrade_hint(id)]
    } else {
        Seq::empty()
    })
}

/// Whether the host can run a plugin: the notes on it, or why not. The numbers
/// are those of the versions, and `host_is_older` says that the host comes
/// before the version that the plugin needs.
pub open spec fn compatibility(
    id: Seq<char>,
    min_version: Seq<char>,
    host_version: Seq<char>,
    host: Option<(u64, u64, u64)>,
    min: Option<(u64, u64, u64)>,
    host_is_older: bool,
) -> Result<Seq<Seq<char>>, Seq<char>> {
    if host is None {
        Err("invalid host semver"@)
    } else if min is None {
        Err("invalid plugin min_host_version for "@ + id)
    } else if host_is_older {
        Err(
            "plugin "@ + id + " requires host >= "@ + min_version + ", current "@ + host_version,
        )
    } else {
        Ok(compatibility_notes(id, min.unwrap(), host.unwrap()))
    }
}

/// Notes, with errors given by their messages.
pub open spec fn notes_outcome(r: Result<Vec<String>, Failure>) -> Result<
    Seq<Seq<char>>,
    Seq<char>,
> {
    match r {
        Ok(v) => Ok(text::texts(v@)),
        Err(e) => Err(e.message@),
    }
}

/// Computes [`compatibility`].
pub fn judge_plugin(
    id: &str,
    min_version: &str,
    host_version: &str,
    host: Option<(u64, u64, u64)>,
    min: Option<(u64, u64, u64)>,
    host_is_older: bool,
) -> (r: Result<Vec<String>, Failure>)
    ensures
        notes_outcome(r) == compatibility(
            id@,
            min_version@,
            host_version@,
            host,
            min,
            host_is_older,
        ),
{
    let h = match host {
        Some(h) => h,
        None => {
            return Err(failure(copy_text("invalid host semver")));
        },
    };
    let m = match min {
        Some(m) => m,
        None => {
            return Err(failure(concat("invalid plugin min_host_version for ", id)));
        },
    };
    if host_is_older {
        let mut message = copy_text("plugin ");
        message.append(id);
        message.append(" requires host >= ");
        message.append(min_version);
        message.append(", current ");
        message.append(host_version);
        return Err(failure(message));
    }
    let mut notes: Vec<String> = Vec::new();
    if m.0 < h.0 {
        let mut note = copy_text("warning: plugin ");
        note.append(id);
        note.append(" targets host major ");
        let a = text::decimal_text(m.0 as u128);
        note.append(a.as_str());
        note.append(" but current major is ");
        let b = text::decimal_text(h.0 as u128);
        note.append(b.as_str());
        note.append(" (legacy compatibility mode)");
        notes.push(note);
    }
    if h.1 >= 2 && m.1 < h.1 - 2 {
        let mut note = copy_text("hint: plugin ");
        note.append(id);
        note.append(
            " is older than two host minor versions; consider upgrading plugin for latest v2 payload support",
        );
        notes.push(note);
    }
    assert(text::texts(notes@) =~= compatibility_notes(id@, m, h));
    Ok(notes)
}

/// Whether a host of the version `host_version` can run a plugin.
pub fn ensure_plugin_compatible(entry: &PluginRegistryEntry, host_version: &str) -> (r: Result<
    Vec<String>,
    Failure,
>)
    ensures
        notes_outcome(r) == compatibility(
            entry.id@,
            entry.min_host_version@,
            host_version@,
            version_numbers(host_version@),
            version_numbers(entry.min_host_version@),
            version_lt(host_version@, entry.min_host_version@),
        ),
{
    let host = read_version(host_version);
    let min = read_version(entry.min_host_version.as_str());
    let older = version_precedes(host_version, entry.min_host_version.as_str());
    judge_plugin(
        entry.id.as_str(),
        entry.min_host_version.as_str(),
        host_version,
        host,
        min,
        older,
    )
}

/// A host that is older than a plugin needs never runs it.
pub proof fn law_older_host_is_refused(
    id: Seq<char>,
    min_version: Seq<char>,
    host_version: Seq<char>,
    host: Option<(u64, u64, u64)>,
    min: Option<(u64, u64, u64)>,
)
    ensures
        compatibility(id, min_version, host_version, host, min, true) is Err,
{
}

// ---------------------------------------------------------------------------
// The registry.

/// The installed plugins, in the order of their ids.
#[derive(Debug)]
pub struct PluginRegistry {
    plugins: Vec<(String, PluginRegistryEntry)>,
}

impl Default for PluginRegistry {
    fn default() -> (r: Self)
        ensures
            r.wf(),
            r.rows().len() == 0,
    {
        PluginRegistry { plugins: Vec::new() }
    }
}

impl PluginRegistry {
    /// The installed plugins by their ids.
    pub closed spec fn rows(&self) -> Seq<(Seq<char>, PluginView)> {
        order::rows(self.plugins@)
    }

    /// The ids increase, so none occurs twice.
    pub open spec fn wf(&self) -> bool {
        order::keys_increase(self.rows())
    }

    /// How many plugins are installed.
    pub fn count(&self) -> (r: usize)
        ensures
            r == self.rows().len(),
    {
        self.plugins.len()
    }

    /// The id and the entry of the plugin with index `i`.
    pub fn at(&self, i: usize) -> (r: (&str, &PluginRegistryEntry))
        requires
            i < self.rows().len(),
        ensures
            (r.0@, r.1@) == self.rows()[i as int],
    {
        (self.plugins[i].0.as_str(), &self.plugins[i].1)
    }

    /// The plugin with this id.
    pub fn find(&self, id: &str) -> (r: Option<&PluginRegistryEntry>)
        requires
            self.wf(),
        ensures
            match r {
                Some(e) => order::get(self.rows(), id@) == Some(e@),
                None => order::get(self.rows(), id@) is None,
            },
    {
        match order::find_row(&self.plugins, id) {
            Some(i) => Some(&self.plugins[i].1),
            None => None,
        }
    }

    /// Sets the entry of a plugin.
    pub fn put(&mut self, id: &str, entry: PluginRegistryEntry)
        requires
            old(self).wf(),
        ensures
            final(self).wf(),
            final(self).rows() == order::put(old(self).rows(), id@, entry@),
    {
        order::put_row(&mut self.plugins, id, entry);
    }

    /// Installs a plugin that the host can run, in place of an earlier version.
    /// Nothing changes where the host cannot run it.
    pub fn install(&mut self, entry: PluginRegistryEntry, host_version: &str) -> (r: Result<
        Vec<String>,
        Failure,
    >)
        requires
            old(self).wf(),
        ensures
            final(self).wf(),
            notes_outcome(r) == compatibility(
                entry.id@,
                entry.min_host_version@,
                host_version@,
                version_numbers(host_version@),
                version_numbers(entry.min_host_version@),
                version_lt(host_version@, entry.min_host_version@),
            ),
            r is Ok ==> final(self).rows() == order::put(old(self).rows(), entry.id@, entry@),
            r is Err ==> *final(self) == *old(self),
    {
        match ensure_plugin_compatible(&entry, host_version) {
            Ok(notes) => {
                let id = copy_text(entry.id.as_str());
                self.put(id.as_str(), entry);
                Ok(notes)
            },
            Err(e) => Err(e),
        }
    }
}

/// An installed plugin is found with what was installed, and the other plugins
/// stay.
pub proof fn law_installed_plugin_is_found(
    rows: Seq<(Seq<char>, PluginView)>,
    entry: PluginView,
    other: Seq<char>,
)
    ensures
        order::get(order::put(rows, entry.id, entry), entry.id) == Some(entry),
        other != entry.id ==> order::get(order::put(rows, entry.id, entry), other) == order::get(
            rows,
            other,
        ),
{
    order::law_get_after_put(rows, entry.id, entry, other);
}

/// Where a plugin is installed.
pub open spec fn install_path(id: Seq<char>, version: Seq<char>) -> Seq<char> {
    fspath::join(
        fspath::join(
            fspath::join(fspath::join(fspath::join(".nanoss"@, "plugins"@), "store"@), id),
            version,
        ),
        id + ".wasm"@,
    )
}

/// Computes [`install_path`].
pub fn plugin_install_path(id: &str, version: &str) -> (r: String)
    ensures
        r@ == install_path(id@, version@),
{
    let p = fspath::path_join(".nanoss", "plugins");
    let p = fspath::path_join(p.as_str(), "store");
    let p = fspath::path_join(p.as_str(), id);
    let p = fspath::path_join(p.as_str(), version);
    let name = concat(id, ".wasm");
    fspath::path_join(p.as_str(), name.as_str())
}

/// The entry of a plugin that is to be installed from the file `source`, which
/// is to be copied to the path of the entry.
pub fn plan_install(
    id: &str,
    version: &str,
    source: &str,
    min_host_version: &str,
    official: bool,
) -> (r: Result<PluginRegistryEntry, Failure>)
    ensures
        match r {
            Ok(e) => fspath::extension(source@) == Some("wasm"@) && e@ == (PluginView {
                id: id@,
                version: version@,
                min_host_version: min_host_version@,
                wasm_path: install_path(id@, version@),
                official,
            }),
            Err(e) => fspath::extension(source@) != Some("wasm"@) && e.message@
                == "plugin source must be a .wasm file"@,
        },
{
    if !fspath::extension_is(source, "wasm") {
        return Err(failure(copy_text("plugin source must be a .wasm file")));
    }
    Ok(
        PluginRegistryEntry {
            id: copy_text(id),
            version: copy_text(version),
            min_host_version: copy_text(min_host_version),
            wasm_path: plugin_install_path(id, version),
            official,
        },
    )
}

// ---------------------------------------------------------------------------
// Commands.

/// The line of a plugin in the list of plugins.
pub open spec fn plugin_line(id: Seq<char>, entry: PluginView, enabled: bool) -> Seq<char> {
    id + " "@ + entry.version + " ("@ + (if enabled {
        "enabled"@
    } else {
        "disabled"@
    }) + ") -> "@ + entry.wasm_path
}

/// The list of plugins.
pub open spec fn plugin_lines(
    rows: Seq<(Seq<char>, PluginView)>,
    enabled: Seq<Seq<char>>,
) -> Seq<Seq<char>> {
    if rows.len() == 0 {
        seq!["No plugins installed."@]
    } else {
        Seq::new(
            rows.len(),
            |i: int| plugin_line(rows[i].0, rows[i].1, enabled.contains(rows[i].0)),
        )
    }
}

/// Computes [`plugin_lines`].
pub fn list_plugins(registry: &PluginRegistry, enabled: &Vec<String>) -> (r: Vec<String>)
    ensures
        text::texts(r@) == plugin_lines(registry.rows(), text::texts(enabled@)),
{
    let mut out: Vec<String> = Vec::new();
    if registry.plugins.len() == 0 {
        out.push(copy_text("No plugins installed."));
        assert(text::texts(out@) =~= seq!["No plugins installed."@]);
        return out;
    }
    let ghost rows = registry.rows();
    let ghost names = text::texts(enabled@);
    let mut i: usize = 0;
    while i < registry.plugins.len()
        invariant
            i <= registry.plugins.len(),
            rows == registry.rows(),
            names == text::texts(enabled@),
            out@.len() == i,
            forall|j: int|
                0 <= j < i ==> #[trigger] out@[j]@ == plugin_line(
                    rows[j].0,
                    rows[j].1,
                    names.contains(rows[j].0),
                ),
        decreases registry.plugins.len() - i,
    {
        let id = registry.plugins[i].0.as_str();
        let entry = &registry.plugins[i].1;
        let mut line = copy_text(id);
        line.append(" ");
        line.append(entry.version.as_str());
        line.append(" (");
        if text::has_text(enabled, id) {
            line.append("enabled");
        } else {
            line.append("disabled");
        }
        line.append(") -> ");
        line.append(entry.wasm_path.as_str());
        out.push(line);
        i += 1;
    }
    assert(text::texts(out@) =~= plugin_lines(rows, names));
    out
}

/// Enables an installed plugin.
pub fn enable_plugin(registry: &PluginRegistry, enabled: &mut Vec<String>, id: &str) -> (r: Result<
    String,
    Failure,
>)
    requires
        registry.wf(),
        order::texts_increase(text::texts(old(enabled)@)),
    ensures
        order::texts_increase(text::texts(final(enabled)@)),
        match r {
            Ok(m) => order::get(registry.rows(), id@) is Some && m@ == "Enabled plugin "@ + id@
                && text::texts(final(enabled)@) == order::with_text(
                text::texts(old(enabled)@),
                id@,
            ) && text::texts(final(enabled)@).contains(id@),
            Err(e) => order::get(registry.rows(), id@) is None && e.message@ == "plugin '"@ + id@
                + "' is not installed"@ && *final(enabled) == *old(enabled),
        },
{
    if registry.find(id).is_none() {
        let mut m = copy_text("plugin '");
        m.append(id);
        m.append("' is not installed");
        return Err(failure(m));
    }
    proof {
        order::law_with_text(text::texts(enabled@), id@, id@);
    }
    order::add_text(enabled, id);
    Ok(concat("Enabled plugin ", id))
}

/// Disables a plugin.
pub fn disable_plugin(enabled: &mut Vec<String>, id: &str) -> (r: String)
    requires
        order::texts_increase(text::texts(old(enabled)@)),
    ensures
        order::texts_increase(text::texts(final(enabled)@)),
        text::texts(final(enabled)@) == order::without_text(text::texts(old(enabled)@), id@),
        !text::texts(final(enabled)@).contains(id@),
        r@ == "Disabled plugin "@ + id@,
{
    proof {
        order::law_without_text(text::texts(enabled@), id@, id@);
    }
    let rest = order::remove_text(enabled, id);
    *enabled = rest;
    concat("Disabled plugin ", id)
}

/// The message about a plugin that was installed, or updated.
pub fn installed_message(verb: &str, entry: &PluginRegistryEntry) -> (r: String)
    ensures
        r@ == verb@ + " plugin "@ + entry.id@ + "@"@ + entry.version@ + " -> "@ + entry.wasm_path@,
{
    let mut out = copy_text(verb);
    out.append(" plugin ");
    out.append(entry.id.as_str());
    out.append("@");
    out.append(entry.version.as_str());
    out.append(" -> ");
    out.append(entry.wasm_path.as_str());
    out
}

/// Disabling a plugin that was not enabled before it was enabled undoes that.
pub proof fn law_disable_undoes_enable(enabled: Seq<Seq<char>>, id: Seq<char>)
    requires
        order::texts_increase(enabled),
        !enabled.contains(id),
    ensures
        order::without_text(order::with_text(enabled, id), id) == enabled,
    decreases enabled.len(),
{
    if enabled.len() == 0 || order::text_lt(id, enabled[0]) {
        assert((seq![id] + enabled).skip(1) =~= enabled);
        lemma_without_absent(enabled, id);
    } else {
        assert(enabled[0] != id);
        let t = enabled.skip(1);
        assert forall|i: int, j: int| 0 <= i < j < t.len() implies order::text_lt(
            #[trigger] t[i],
            #[trigger] t[j],
        ) by {
            assert(t[i] == enabled[i + 1] && t[j] == enabled[j + 1]);
        }
        if t.contains(id) {
            let i = choose|i: int| 0 <= i < t.len() && t[i] == id;
            assert(enabled[i + 1] == id);
        }
        law_disable_undoes_enable(t, id);
        let inner = order::with_text(t, id);
        assert((seq![enabled[0]] + inner).skip(1) =~= inner);
        assert(seq![enabled[0]] + t =~= enabled);
    }
}

proof fn lemma_without_absent(s: Seq<Seq<char>>, k: Seq<char>)
    requires
        !s.contains(k),
    ensures
        order::without_text(s, k) == s,
    decreases s.len(),
{
    if s.len() > 0 {
        assert(s[0] != k);
        let t = s.skip(1);
        if t.contains(k) {
            let i = choose|i: int| 0 <= i < t.len() && t[i] == k;
            assert(s[i + 1] == k);
        }
        lemma_without_absent(t, k);
        assert(seq![s[0]] + t =~= s);
    }
}

// ---------------------------------------------------------------------------
// More laws.

/// A plugin can be used exactly where both versions can be read and the host is not
/// older than the plugin asks for. Then there is a warning where it asks for an older
/// major version, and a hint where it is more than two minor versions behind.
pub proof fn law_compatibility(
    id: Seq<char>,
    min_version: Seq<char>,
    host_version: Seq<char>,
    host: (u64, u64, u64),
    min: (u64, u64, u64),
    older: bool,
)
    ensures
        compatibility(id, min_version, host_version, None, Some(min), older) is Err,
        compatibility(id, min_version, host_version, Some(host), None, older) is Err,
        compatibility(id, min_version, host_version, Some(host), Some(min), older) is Ok <==> !older,
        compatibility(id, min_version, host_version, Some(host), Some(min), false) matches Ok(
            notes,
        ) ==> {
            let warning = "warning: plugin "@ + id + " targets host major "@ + text::decimal(
                min.0 as nat,
            ) + " but current major is "@ + text::decimal(host.0 as nat)
                + " (legacy compatibility mode)"@;
            &&& notes.contains(warning) || min.0 >= host.0
            &&& notes.len() == (if min.0 < host.0 {
                1int
            } else {
                0
            }) + (if min.1 + 2 < host.1 {
                1int
            } else {
                0
            })
            &&& min.1 + 2 < host.1 ==> text::starts_with(notes.last(), "hint: plugin "@ + id)
        },
{
    let notes = compatibility_notes(id, min, host);
    if min.0 < host.0 {
        assert(notes[0] == legacy_warning(id, min.0, host.0));
    }
    if min.1 + 2 < host.1 {
        let head = "hint: plugin "@ + id;
        assert(notes.last() == upgrade_hint(id));
        assert(upgrade_hint(id).take(head.len() as int) =~= head);
    }
}

/// A plugin is kept in the store, in a directory of its name and one of its version.
pub proof fn law_store(id: Seq<char>, version: Seq<char>)
    requires
        fspath::plain_name(id),
        fspath::plain_name(version),
    ensures
        install_path(id, version) == ".nanoss/plugins/store/"@ + id + seq!['/'] + version + seq!['/']
            + id + ".wasm"@,
{
    reveal_strlit(".nanoss");
    reveal_strlit("plugins");
    reveal_strlit("store");
    reveal_strlit(".wasm");
    reveal_strlit(".nanoss/plugins/store/");
    let root = fspath::join(fspath::join(".nanoss"@, "plugins"@), "store"@);
    assert(fspath::join(".nanoss"@, "plugins"@) =~= ".nanoss"@ + seq!['/'] + "plugins"@);
    assert(root =~= ".nanoss"@ + seq!['/'] + "plugins"@ + seq!['/'] + "store"@);
    assert(root + seq!['/'] =~= ".nanoss/plugins/store/"@);
    fspath::lemma_plain_name_parts(id, false);
    fspath::lemma_plain_name_parts(version, false);
    assert(id.last() != '/' && version.last() != '/') by {
        assert(id[id.len() - 1] == id.last());
        assert(version[version.len() - 1] == version.last());
    }
    let a = root + seq!['/'] + id;
    let b = a + seq!['/'] + version;
    assert(a.last() == id.last());
    assert(b.last() == version.last());
    assert((id + ".wasm"@)[0] == id[0]);
    assert(fspath::join(root, id) =~= a);
    assert(fspath::join(a, version) =~= b);
    assert(install_path(id, version) =~= b + seq!['/'] + (id + ".wasm"@));
    assert(install_path(id, version) =~= ".nanoss/plugins/store/"@ + id + seq!['/'] + version
        + seq!['/'] + id + ".wasm"@);
}

/// The list of plugins has a line for each that is installed, with its version, its file
/// and whether it is enabled.
pub proof fn law_list_of_plugins(rows: Seq<(Seq<char>, PluginView)>, enabled: Seq<Seq<char>>)
    ensures
        rows.len() == 0 ==> plugin_lines(rows, enabled) == seq!["No plugins installed."@],
        rows.len() > 0 ==> plugin_lines(rows, enabled).len() == rows.len() && forall|i: int|
            0 <= i < rows.len() ==> #[trigger] plugin_lines(rows, enabled)[i] == rows[i].0 + " "@
                + rows[i].1.version + " ("@ + (if exists|k: int|
                0 <= k < enabled.len() && #[trigger] enabled[k] == rows[i].0 {
                "enabled"@
            } else {
                "disabled"@
            }) + ") -> "@ + rows[i].1.wasm_path,
{
}

} // verus!
