//! Data: the values that templates see under `data`, from files and from remote
//! sources.
use vstd::prelude::*;
use vstd::string::*;

use crate::config::RemoteDataSourceConfig;
use crate::failure;
use crate::failure::{failure, Failure};
use crate::fspath;
use crate::json;
use crate::order;
use crate::text;
use crate::text::{concat, copy_text, same_text};

verus! {

// ---------------------------------------------------------------------------
// Values.

/// What `serde_json` reads in a JSON text, written again as JSON; or the message
/// of its error.
pub uninterp spec fn json_value(raw: Seq<char>) -> Result<Seq<char>, Seq<char>>;

/// What `serde_yaml` reads in a YAML text, written as JSON; or the message of
/// its error.
pub uninterp spec fn yaml_value(raw: Seq<char>) -> Result<Seq<char>, Seq<char>>;

/// What `toml` reads in a TOML text, written as JSON; or the message of its
/// error.
pub uninterp spec fn toml_value(raw: Seq<char>) -> Result<Seq<char>, Seq<char>>;

/// What `serde_json` reads in a JSON text, written again over several lines.
pub uninterp spec fn pretty_json(raw: Seq<char>) -> Result<Seq<char>, Seq<char>>;

/// A text or a message.
pub open spec fn either_text(r: Result<String, String>) -> Result<Seq<char>, Seq<char>> {
    match r {
        Ok(s) => Ok(s@),
        Err(m) => Err(m@),
    }
}

/// `serde_json::from_str` reads a JSON text, and `Value` writes it again. The
/// result is [`json_value`] of the text.
#[verifier::external_body]
pub(crate) fn read_json(raw: &str) -> (r: Result<String, String>)
    ensures
        either_text(r) == json_value(raw@),
{
    serde_json::from_str::<serde_json::Value>(raw)
        .map(|value| value.to_string())
        .map_err(|err| err.to_string())
}

/// `serde_yaml::from_str` reads a YAML text as a JSON value. The result is
/// [`yaml_value`] of the text.
#[verifier::external_body]
pub(crate) fn read_yaml(raw: &str) -> (r: Result<String, String>)
    ensures
        either_text(r) == yaml_value(raw@),
{
    serde_yaml::from_str::<serde_json::Value>(raw)
        .map(|value| value.to_string())
        .map_err(|err| err.to_string())
}

/// `toml::from_str` reads a TOML text, and `serde_json::to_value` makes it a JSON
/// value. The result is [`toml_value`] of the text.
#[verifier::external_body]
pub(crate) fn read_toml(raw: &str) -> (r: Result<String, String>)
    ensures
        either_text(r) == toml_value(raw@),
{
    let value: toml::Value = toml::from_str(raw).map_err(|err| err.to_string())?;
    serde_json::to_value(value).map(|value| value.to_string()).map_err(|err| err.to_string())
}

/// `serde_json::to_string_pretty` writes a JSON value over several lines. The
/// result is [`pretty_json`] of the text that the value is read from.
#[verifier::external_body]
pub(crate) fn write_pretty(raw: &str) -> (r: Result<String, String>)
    ensures
        either_text(r) == pretty_json(raw@),
{
    let value: serde_json::Value = serde_json::from_str(raw).map_err(|err| err.to_string())?;
    serde_json::to_string_pretty(&value).map_err(|err| err.to_string())
}

/// The format of a data file.
#[derive(Debug, Clone, Copy, PartialEq, Eq, Structural)]
pub enum DataFormat {
    Json,
    Yaml,
    Toml,
}

/// The format of the data file at `path`; files of another kind are no data.
pub open spec fn format_of(path: Seq<char>) -> Option<DataFormat> {
    match fspath::extension(path) {
        Some(e) => if e == "json"@ {
            Some(DataFormat::Json)
        } else if e == "yaml"@ || e == "yml"@ {
            Some(DataFormat::Yaml)
        } else if e == "toml"@ {
            Some(DataFormat::Toml)
        } else {
            None
        },
        None => None,
    }
}

/// Computes [`format_of`].
pub fn data_format(path: &str) -> (r: Option<DataFormat>)
    ensures
        r == format_of(path@),
{
    match fspath::path_extension(path) {
        Some(e) => {
            if same_text(e.as_str(), "json") {
                Some(DataFormat::Json)
            } else if same_text(e.as_str(), "yaml") || same_text(e.as_str(), "yml") {
                Some(DataFormat::Yaml)
            } else if same_text(e.as_str(), "toml") {
                Some(DataFormat::Toml)
            } else {
                None
            }
        },
        None => None,
    }
}

/// What a file holds, as JSON.
pub open spec fn value_of(format: DataFormat, raw: Seq<char>) -> Result<Seq<char>, Seq<char>> {
    match format {
        DataFormat::Json => json_value(raw),
        DataFormat::Yaml => yaml_value(raw),
        DataFormat::Toml => toml_value(raw),
    }
}

/// The name of a format in messages.
pub open spec fn format_label(format: DataFormat) -> Seq<char> {
    match format {
        DataFormat::Json => "json"@,
        DataFormat::Yaml => "yaml"@,
        DataFormat::Toml => "toml"@,
    }
}

/// Computes [`value_of`].
pub fn read_value(format: DataFormat, raw: &str) -> (r: Result<String, String>)
    ensures
        either_text(r) == value_of(format, raw@),
{
    match format {
        DataFormat::Json => read_json(raw),
        DataFormat::Yaml => read_yaml(raw),
        DataFormat::Toml => read_toml(raw),
    }
}

// ---------------------------------------------------------------------------
// Data files.

/// A data file: its path, and its text.
#[derive(Debug)]
pub struct DataFile {
    pub path: String,
    pub raw: String,
}

/// The key of the data file with this path below the data directory: the path
/// without the extension, with dots between its components.
pub open spec fn key_of(rel: Seq<char>) -> Seq<char> {
    text::replace_char(
        text::replace_char(fspath::with_extension(rel, Seq::empty()), '/', "."@),
        '\\',
        "."@,
    )
}

/// Computes [`key_of`].
pub fn data_key(rel: &str) -> (r: String)
    ensures
        r@ == key_of(rel@),
{
    proof {
        reveal_strlit("");
        assert(""@ =~= Seq::empty());
    }
    let bare = fspath::replace_extension(rel, "");
    let dotted = text::replaced_char(bare.as_str(), '/', ".");
    text::replaced_char(dotted.as_str(), '\\', ".")
}

/// The values with that of one file added, given what the file holds.
pub open spec fn put_value(
    rows: Seq<(Seq<char>, Seq<char>)>,
    path: Seq<char>,
    rel: Seq<char>,
    format: DataFormat,
    value: Result<Seq<char>, Seq<char>>,
) -> Result<Seq<(Seq<char>, Seq<char>)>, Seq<char>> {
    match value {
        Ok(v) => Ok(order::put(rows, key_of(rel), v)),
        Err(_) => Err("failed to parse "@ + format_label(format) + " data "@ + path),
    }
}

/// The values of all data files, by their keys; or why one cannot be read.
pub open spec fn data_rows(data_dir: Seq<char>, files: Seq<DataFile>) -> Result<
    Seq<(Seq<char>, Seq<char>)>,
    Seq<char>,
>
    decreases files.len(),
{
    if files.len() == 0 {
        Ok(Seq::empty())
    } else {
        match data_rows(data_dir, files.drop_last()) {
            Err(m) => Err(m),
            Ok(rows) => {
                let f = files.last();
                match fspath::strip_prefix(f.path@, data_dir) {
                    None => Err("failed to relativize data file "@ + f.path@),
                    Some(rel) => match format_of(f.path@) {
                        None => Ok(rows),
                        Some(format) => put_value(
                            rows,
                            f.path@,
                            rel,
                            format,
                            value_of(format, f.raw@),
                        ),
                    },
                }
            },
        }
    }
}

/// The values with those of the remote sources, which replace values of the same
/// key.
pub open spec fn with_remote(
    rows: Seq<(Seq<char>, Seq<char>)>,
    remote: Seq<(Seq<char>, Seq<char>)>,
) -> Seq<(Seq<char>, Seq<char>)>
    decreases remote.len(),
{
    if remote.len() == 0 {
        rows
    } else {
        order::put(with_remote(rows, remote.drop_last()), remote.last().0, remote.last().1)
    }
}

/// The members of a JSON object with these keys and values.
pub open spec fn row_members(rows: Seq<(Seq<char>, Seq<char>)>) -> Seq<Seq<char>> {
    Seq::new(rows.len(), |i: int| json::json_member(rows[i].0, rows[i].1))
}

/// The data of a site, as JSON.
pub open spec fn data_context(
    data_dir: Seq<char>,
    files: Seq<DataFile>,
    remote: Seq<(Seq<char>, Seq<char>)>,
) -> Result<Seq<char>, Seq<char>> {
    match data_rows(data_dir, files) {
        Err(m) => Err(m),
        Ok(rows) => Ok(json::json_object(row_members(with_remote(rows, remote)))),
    }
}

/// The first error is the error.
proof fn lemma_rows_error(data_dir: Seq<char>, files: Seq<DataFile>, n: int)
    requires
        0 <= n <= files.len(),
        data_rows(data_dir, files.take(n)) is Err,
    ensures
        data_rows(data_dir, files) == data_rows(data_dir, files.take(n)),
    decreases files.len() - n,
{
    if n == files.len() {
        assert(files.take(n) =~= files);
    } else {
        assert(files.take(n + 1).drop_last() =~= files.take(n));
        lemma_rows_error(data_dir, files, n + 1);
    }
}

/// Adds the value of one file, as [`put_value`] says.
pub fn add_value(
    rows: &mut Vec<(String, String)>,
    path: &str,
    rel: &str,
    format: DataFormat,
    value: Result<String, String>,
) -> (r: Result<(), Failure>)
    requires
        order::keys_increase(order::rows(old(rows)@)),
    ensures
        order::keys_increase(order::rows(final(rows)@)),
        match r {
            Ok(_) => put_value(
                order::rows(old(rows)@),
                path@,
                rel@,
                format,
                either_text(value),
            ) == Ok::<Seq<(Seq<char>, Seq<char>)>, Seq<char>>(order::rows(final(rows)@)),
            Err(e) => *final(rows) == *old(rows) && put_value(
                order::rows(old(rows)@),
                path@,
                rel@,
                format,
                either_text(value),
            ) == Err::<Seq<(Seq<char>, Seq<char>)>, Seq<char>>(e.message@),
        },
{
    match value {
        Ok(v) => {
            let key = data_key(rel);
            order::put_row(rows, key.as_str(), v);
            Ok(())
        },
        Err(_) => {
            let mut m = copy_text("failed to parse ");
            match format {
                DataFormat::Json => {
                    m.append("json");
                },
                DataFormat::Yaml => {
                    m.append("yaml");
                },
                DataFormat::Toml => {
                    m.append("toml");
                },
            }
            m.append(" data ");
            m.append(path);
            Err(failure(m))
        },
    }
}

/// The data of a site, as JSON: [`data_context`].
pub fn load_data_context(
    data_dir: &str,
    files: &Vec<DataFile>,
    remote: &Vec<(String, String)>,
) -> (r: Result<String, Failure>)
    ensures
        failure::text_outcome(r) == data_context(data_dir@, files@, order::rows(remote@)),
{
    let mut rows: Vec<(String, String)> = Vec::new();
    let mut i: usize = 0;
    assert(files@.take(0) =~= Seq::empty());
    assert(order::rows(rows@) =~= Seq::empty());
    while i < files.len()
        invariant
            i <= files.len(),
            order::keys_increase(order::rows(rows@)),
            data_rows(data_dir@, files@.take(i as int)) == Ok::<
                Seq<(Seq<char>, Seq<char>)>,
                Seq<char>,
            >(order::rows(rows@)),
        decreases files.len() - i,
    {
        assert(files@.take(i + 1).drop_last() =~= files@.take(i as int));
        assert(files@.take(i + 1).last() == files@[i as int]);
        let path = files[i].path.as_str();
        match fspath::relative_to(path, data_dir) {
            None => {
                proof {
                    lemma_rows_error(data_dir@, files@, i + 1);
                }
                return Err(failure(concat("failed to relativize data file ", path)));
            },
            Some(rel) => match data_format(path) {
                None => {},
                Some(format) => {
                    let value = read_value(format, files[i].raw.as_str());
                    match add_value(&mut rows, path, rel.as_str(), format, value) {
                        Ok(_) => {},
                        Err(e) => {
                            proof {
                                lemma_rows_error(data_dir@, files@, i + 1);
                            }
                            return Err(e);
                        },
                    }
                },
            },
        }
        i += 1;
    }
    assert(files@.take(files.len() as int) =~= files@);
    let ghost own = order::rows(rows@);
    let ghost other = order::rows(remote@);
    let mut k: usize = 0;
    assert(other.take(0) =~= Seq::empty());
    while k < remote.len()
        invariant
            k <= remote.len(),
            other == order::rows(remote@),
            order::keys_increase(order::rows(rows@)),
            order::rows(rows@) == with_remote(own, other.take(k as int)),
        decreases remote.len() - k,
    {
        assert(other.take(k + 1).drop_last() =~= other.take(k as int));
        assert(other.take(k + 1).last() == (remote@[k as int].0@, remote@[k as int].1@));
        let value = copy_text(remote[k].1.as_str());
        order::put_row(&mut rows, remote[k].0.as_str(), value);
        k += 1;
    }
    assert(other.take(remote.len() as int) =~= other);
    let ghost all = order::rows(rows@);
    let mut members: Vec<String> = Vec::new();
    let mut j: usize = 0;
    while j < rows.len()
        invariant
            j <= rows.len(),
            all == order::rows(rows@),
            members@.len() == j,
            forall|n: int|
                0 <= n < j ==> #[trigger] members@[n]@ == json::json_member(all[n].0, all[n].1),
        decreases rows.len() - j,
    {
        members.push(json::member_text(rows[j].0.as_str(), rows[j].1.as_str()));
        j += 1;
    }
    assert(text::texts(members@) =~= row_members(all));
    Ok(json::object_text(&members))
}

// ---------------------------------------------------------------------------
// Remote sources.

/// The upper case of a text that is not all ASCII.
pub uninterp spec fn unicode_upper(s: Seq<char>) -> Seq<char>;

/// A text in upper case.
pub open spec fn upper_case(s: Seq<char>) -> Seq<char> {
    if text::is_ascii_text(s) {
        text::ascii_upper(s)
    } else {
        unicode_upper(s)
    }
}

/// `str::to_uppercase` gives a text in upper case. In an ASCII text each letter
/// becomes the upper case letter, and every other character stays. For any other
/// text the result is [`unicode_upper`] of it; that mapping is not said.
#[verifier::external_body]
pub(crate) fn to_upper(s: &str) -> (r: String)
    ensures
        text::is_ascii_text(s@) ==> r@ == text::ascii_upper(s@),
        !text::is_ascii_text(s@) ==> r@ == unicode_upper(s@),
{
    s.to_uppercase()
}

/// A method, in upper case, that data is fetched with.
pub open spec fn fetching_method(method: Seq<char>) -> bool {
    method == "GET"@
}

/// Decides [`fetching_method`].
pub fn is_fetching_method(method: &str) -> (r: bool)
    ensures
        r == fetching_method(method@),
{
    same_text(method, "GET")
}

/// Whether data is fetched from the source: only with the method `GET`.
pub fn wants_fetch(source: &RemoteDataSourceConfig) -> (r: bool)
    ensures
        r == fetching_method(upper_case(source.method@)),
{
    let method = to_upper(source.method.as_str());
    is_fetching_method(method.as_str())
}

/// Data is fetched from a source whose method is `get` in whatever case, and from
/// none with another method in ASCII.
pub proof fn law_get_is_fetched(method: Seq<char>)
    requires
        text::is_ascii_text(method),
    ensures
        fetching_method(upper_case(method)) <==> text::ascii_lower(method) == "get"@,
{
    reveal_strlit("GET");
    reveal_strlit("get");
    let up = text::ascii_upper(method);
    let low = text::ascii_lower(method);
    if up == "GET"@ {
        assert(up.len() == 3);
        assert(up[0] == text::ascii_upper_char(method[0]));
        assert(up[1] == text::ascii_upper_char(method[1]));
        assert(up[2] == text::ascii_upper_char(method[2]));
        assert(low =~= "get"@);
    }
    if low == "get"@ {
        assert(low.len() == 3);
        assert(low[0] == text::ascii_lower_char(method[0]));
        assert(low[1] == text::ascii_lower_char(method[1]));
        assert(low[2] == text::ascii_lower_char(method[2]));
        assert(up =~= "GET"@);
    }
}

/// The file that keeps what was fetched for a key.
pub open spec fn remote_cache_file(output_dir: Seq<char>, key: Seq<char>) -> Seq<char> {
    fspath::join(
        fspath::join(fspath::join(output_dir, ".nanoss-cache"@), "remote-data"@),
        key + ".json"@,
    )
}

/// Computes [`remote_cache_file`].
pub fn remote_cache_path(output_dir: &str, key: &str) -> (r: String)
    ensures
        r@ == remote_cache_file(output_dir@, key@),
{
    let dir = fspath::path_join(output_dir, ".nanoss-cache");
    let dir = fspath::path_join(dir.as_str(), "remote-data");
    let name = concat(key, ".json");
    fspath::path_join(dir.as_str(), name.as_str())
}

/// What a remote source gives: a value, where there is one, and what is to be
/// kept for later builds.
#[derive(Debug)]
pub struct RemoteValue {
    pub value: Option<String>,
    pub keep: Option<String>,
}

/// The value and what is to be kept, given what was fetched (nothing where the
/// request failed), how it reads as JSON, and the same of what was kept.
pub open spec fn remote_outcome(
    key: Seq<char>,
    cache_file: Seq<char>,
    fetched: Option<(Result<Seq<char>, Seq<char>>, Result<Seq<char>, Seq<char>>)>,
    kept: Option<Result<Seq<char>, Seq<char>>>,
    fail_fast: bool,
) -> Result<(Option<Seq<char>>, Option<Seq<char>>), Seq<char>> {
    match fetched {
        Some((Ok(value), Ok(pretty))) => Ok((Some(value), Some(pretty))),
        Some(_) => Err("failed to decode remote json for source '"@ + key + "'"@),
        None => match kept {
            Some(Ok(value)) => Ok((Some(value), None)),
            Some(Err(_)) => Err("failed to parse cached remote data "@ + cache_file),
            None => if fail_fast {
                Err(
                    "remote data source '"@ + key + "' failed and no cache is available"@,
                )
            } else {
                Ok((None, None))
            },
        },
    }
}

/// A remote value, with errors given by their messages.
pub open spec fn remote_result(r: Result<RemoteValue, Failure>) -> Result<
    (Option<Seq<char>>, Option<Seq<char>>),
    Seq<char>,
> {
    match r {
        Ok(v) => Ok((text::opt_text(v.value), text::opt_text(v.keep))),
        Err(e) => Err(e.message@),
    }
}

/// How a fetched text reads: as a value, and as the text to be kept.
pub open spec fn fetched_view(o: Option<(Result<String, String>, Result<String, String>)>) -> Option<
    (Result<Seq<char>, Seq<char>>, Result<Seq<char>, Seq<char>>),
> {
    match o {
        Some((a, b)) => Some((either_text(a), either_text(b))),
        None => None,
    }
}

/// How a kept text reads.
pub open spec fn kept_view(o: Option<Result<String, String>>) -> Option<
    Result<Seq<char>, Seq<char>>,
> {
    match o {
        Some(a) => Some(either_text(a)),
        None => None,
    }
}

/// Computes [`remote_outcome`].
pub fn settle_remote(
    key: &str,
    cache_file: &str,
    fetched: Option<(Result<String, String>, Result<String, String>)>,
    kept: Option<Result<String, String>>,
    fail_fast: bool,
) -> (r: Result<RemoteValue, Failure>)
    ensures
        remote_result(r) == remote_outcome(
            key@,
            cache_file@,
            fetched_view(fetched),
            kept_view(kept),
            fail_fast,
        ),
{
    match fetched {
        Some((Ok(value), Ok(pretty))) => {
            return Ok(RemoteValue { value: Some(value), keep: Some(pretty) });
        },
        Some(_) => {
            let mut m = copy_text("failed to decode remote json for source '");
            m.append(key);
            m.append("'");
            return Err(failure(m));
        },
        None => {},
    }
    match kept {
        Some(Ok(value)) => Ok(RemoteValue { value: Some(value), keep: None }),
        Some(Err(_)) => Err(failure(concat("failed to parse cached remote data ", cache_file))),
        None => {
            if fail_fast {
                let mut m = copy_text("remote data source '");
                m.append(key);
                m.append("' failed and no cache is available");
                Err(failure(m))
            } else {
                Ok(RemoteValue { value: None, keep: None })
            }
        },
    }
}

/// How a text reads as JSON: as a value, and over several lines.
pub open spec fn readings(
    raw: Option<Seq<char>>,
) -> Option<(Result<Seq<char>, Seq<char>>, Result<Seq<char>, Seq<char>>)> {
    match raw {
        Some(t) => Some((json_value(t), pretty_json(t))),
        None => None,
    }
}

/// What the source `key` gives: what was fetched, else what was kept. A source
/// that gives neither fails the build where it is to fail fast.
pub fn resolve_remote(
    key: &str,
    output_dir: &str,
    fetched: Option<&str>,
    kept: Option<&str>,
    fail_fast: bool,
) -> (r: Result<RemoteValue, Failure>)
    ensures
        remote_result(r) == remote_outcome(
            key@,
            remote_cache_file(output_dir@, key@),
            readings(text::opt_str(fetched)),
            (match kept {
                Some(t) => Some(json_value(t@)),
                None => None,
            }),
            fail_fast,
        ),
{
    let cache_file = remote_cache_path(output_dir, key);
    let got = match fetched {
        Some(t) => Some((read_json(t), write_pretty(t))),
        None => None,
    };
    let old_value = match kept {
        Some(t) => Some(read_json(t)),
        None => None,
    };
    settle_remote(key, cache_file.as_str(), got, old_value, fail_fast)
}

/// A source that could not be reached gives what was kept of it, whether it is
/// to fail fast or not.
pub proof fn law_remote_falls_back(
    key: Seq<char>,
    cache_file: Seq<char>,
    value: Seq<char>,
    fail_fast: bool,
)
    ensures
        remote_outcome(key, cache_file, None, Some(Ok(value)), fail_fast) == Ok::<
            (Option<Seq<char>>, Option<Seq<char>>),
            Seq<char>,
        >((Some(value), None)),
{
}

// ---------------------------------------------------------------------------
// Laws.

/// A data file is read by its extension: `json`, `yaml` or `yml`, and `toml`.
pub proof fn law_data_formats(path: Seq<char>, raw: Seq<char>)
    ensures
        fspath::extension(path) == Some("json"@) ==> format_of(path) == Some(DataFormat::Json),
        fspath::extension(path) == Some("yaml"@) ==> format_of(path) == Some(DataFormat::Yaml),
        fspath::extension(path) == Some("yml"@) ==> format_of(path) == Some(DataFormat::Yaml),
        fspath::extension(path) == Some("toml"@) ==> format_of(path) == Some(DataFormat::Toml),
        fspath::extension(path) is None ==> format_of(path) is None,
        value_of(DataFormat::Json, raw) == json_value(raw),
        value_of(DataFormat::Yaml, raw) == yaml_value(raw),
        value_of(DataFormat::Toml, raw) == toml_value(raw),
{
    reveal_strlit("json");
    reveal_strlit("yaml");
    reveal_strlit("yml");
    reveal_strlit("toml");
    assert("yaml"@[0] != "json"@[0]);
    assert("yml"@.len() != "json"@.len());
    assert("toml"@[0] != "json"@[0] && "toml"@[0] != "yaml"@[0] && "toml"@.len() != "yml"@.len());
}

/// The key of a data file is its path without the extension, with a dot for every
/// separator: all other characters stay in their places.
pub proof fn law_data_key(rel: Seq<char>)
    ensures
        ({
            let stem = fspath::with_extension(rel, Seq::empty());
            &&& key_of(rel).len() == stem.len()
            &&& forall|i: int|
                0 <= i < stem.len() ==> #[trigger] key_of(rel)[i] == (if stem[i] == '/' || stem[i]
                    == '\\' {
                    '.'
                } else {
                    stem[i]
                })
        }),
{
    let stem = fspath::with_extension(rel, Seq::empty());
    lemma_replace_by_dot(stem, '/');
    lemma_replace_by_dot(text::replace_char(stem, '/', "."@), '\\');
}

proof fn lemma_replace_by_dot(s: Seq<char>, c: char)
    ensures
        text::replace_char(s, c, "."@).len() == s.len(),
        forall|i: int|
            0 <= i < s.len() ==> #[trigger] text::replace_char(s, c, "."@)[i] == (if s[i] == c {
                '.'
            } else {
                s[i]
            }),
    decreases s.len(),
{
    reveal_strlit(".");
    if s.len() > 0 {
        lemma_replace_by_dot(s.drop_last(), c);
    }
}

/// The file is read and gives a value under this key.
pub open spec fn gives_value(f: DataFile, data_dir: Seq<char>, key: Seq<char>) -> bool {
    format_of(f.path@) is Some && (fspath::strip_prefix(f.path@, data_dir) matches Some(rel)
        && key_of(rel) == key)
}

/// The data of a site has, under the key of each data file, the value that the file
/// holds; of two files with one key the last counts. No other key has a value.
pub proof fn law_data_holds_its_files(data_dir: Seq<char>, files: Seq<DataFile>, key: Seq<char>)
    requires
        data_rows(data_dir, files) is Ok,
    ensures
        forall|i: int|
            #![trigger files[i]]
            0 <= i < files.len() && gives_value(files[i], data_dir, key) && (forall|j: int|
                i < j < files.len() ==> !gives_value(#[trigger] files[j], data_dir, key))
                ==> value_of(format_of(files[i].path@).unwrap(), files[i].raw@) is Ok
                && order::get(data_rows(data_dir, files)->Ok_0, key) == Some(
                value_of(format_of(files[i].path@).unwrap(), files[i].raw@)->Ok_0,
            ),
        (forall|i: int| 0 <= i < files.len() ==> !gives_value(#[trigger] files[i], data_dir, key))
            ==> order::get(data_rows(data_dir, files)->Ok_0, key) is None,
    decreases files.len(),
{
    if files.len() > 0 {
        let front = files.drop_last();
        let f = files.last();
        law_data_holds_its_files(data_dir, front, key);
        let rows = data_rows(data_dir, front)->Ok_0;
        assert(files[files.len() - 1] == f);
        assert forall|i: int| 0 <= i < front.len() implies front[i] == #[trigger] files[i] by {}
        if format_of(f.path@) is Some {
            let rel = fspath::strip_prefix(f.path@, data_dir).unwrap();
            let v = value_of(format_of(f.path@).unwrap(), f.raw@)->Ok_0;
            order::law_get_after_put(rows, key_of(rel), v, key);
        }
        assert forall|i: int|
            #![trigger files[i]]
            0 <= i < files.len() && gives_value(files[i], data_dir, key) && (forall|j: int|
                i < j < files.len() ==> !gives_value(
                    #[trigger] files[j],
                    data_dir,
                    key,
                )) implies value_of(format_of(files[i].path@).unwrap(), files[i].raw@) is Ok
            && order::get(data_rows(data_dir, files)->Ok_0, key) == Some(
            value_of(format_of(files[i].path@).unwrap(), files[i].raw@)->Ok_0,
        ) by {
            if i < front.len() {
                assert(front[i] == files[i]);
                assert(!gives_value(files[files.len() - 1], data_dir, key));
                assert forall|j: int| i < j < front.len() implies !gives_value(
                    #[trigger] front[j],
                    data_dir,
                    key,
                ) by {
                    assert(!gives_value(files[j], data_dir, key));
                }
            }
        }
        if forall|i: int|
            0 <= i < files.len() ==> !gives_value(#[trigger] files[i], data_dir, key) {
            assert forall|i: int| 0 <= i < front.len() implies !gives_value(
                #[trigger] front[i],
                data_dir,
                key,
            ) by {
                assert(!gives_value(files[i], data_dir, key));
            }
            assert(!gives_value(files[files.len() - 1], data_dir, key));
        }
    }
}

/// The data of a site can be had exactly where every data file lies in the directory
/// and can be read.
pub proof fn law_data_can_be_read(data_dir: Seq<char>, files: Seq<DataFile>)
    ensures
        data_rows(data_dir, files) is Ok <==> forall|i: int|
            0 <= i < files.len() ==> fspath::strip_prefix(
                (#[trigger] files[i]).path@,
                data_dir,
            ) is Some && (format_of(files[i].path@) matches Some(format) ==> value_of(
                format,
                files[i].raw@,
            ) is Ok),
    decreases files.len(),
{
    if files.len() > 0 {
        let front = files.drop_last();
        law_data_can_be_read(data_dir, front);
        assert(files[files.len() - 1] == files.last());
        if data_rows(data_dir, files) is Ok {
            assert forall|i: int| 0 <= i < files.len() implies fspath::strip_prefix(
                (#[trigger] files[i]).path@,
                data_dir,
            ) is Some && (format_of(files[i].path@) matches Some(format) ==> value_of(
                format,
                files[i].raw@,
            ) is Ok) by {
                if i < front.len() {
                    assert(front[i] == files[i]);
                }
            }
        } else if forall|i: int|
            0 <= i < files.len() ==> fspath::strip_prefix(
                (#[trigger] files[i]).path@,
                data_dir,
            ) is Some && (format_of(files[i].path@) matches Some(format) ==> value_of(
                format,
                files[i].raw@,
            ) is Ok) {
            assert forall|i: int| 0 <= i < front.len() implies fspath::strip_prefix(
                (#[trigger] front[i]).path@,
                data_dir,
            ) is Some && (format_of(front[i].path@) matches Some(format) ==> value_of(
                format,
                front[i].raw@,
            ) is Ok) by {
                assert(files[i] == front[i]);
            }
            assert(fspath::strip_prefix(files[files.len() - 1].path@, data_dir) is Some);
        }
    }
}

/// The value of a remote source comes before that of a data file with the same key; all
/// other values stay.
pub proof fn law_remote_values_come_first(
    rows: Seq<(Seq<char>, Seq<char>)>,
    remote: Seq<(Seq<char>, Seq<char>)>,
    key: Seq<char>,
)
    ensures
        forall|i: int|
            #![trigger remote[i]]
            0 <= i < remote.len() && remote[i].0 == key && (forall|j: int|
                i < j < remote.len() ==> (#[trigger] remote[j]).0 != key) ==> order::get(
                with_remote(rows, remote),
                key,
            ) == Some(remote[i].1),
        (forall|i: int| 0 <= i < remote.len() ==> (#[trigger] remote[i]).0 != key) ==> order::get(
            with_remote(rows, remote),
            key,
        ) == order::get(rows, key),
    decreases remote.len(),
{
    if remote.len() > 0 {
        let front = remote.drop_last();
        law_remote_values_come_first(rows, front, key);
        order::law_get_after_put(
            with_remote(rows, front),
            remote.last().0,
            remote.last().1,
            key,
        );
        assert(remote[remote.len() - 1] == remote.last());
        assert forall|i: int|
            #![trigger remote[i]]
            0 <= i < remote.len() && remote[i].0 == key && (forall|j: int|
                i < j < remote.len() ==> (#[trigger] remote[j]).0 != key) implies order::get(
            with_remote(rows, remote),
            key,
        ) == Some(remote[i].1) by {
            if i < front.len() {
                assert(front[i] == remote[i]);
                assert(remote[remote.len() - 1].0 != key);
                assert forall|j: int| i < j < front.len() implies (#[trigger] front[j]).0
                    != key by {
                    assert(remote[j].0 != key);
                }
            }
        }
        if forall|i: int| 0 <= i < remote.len() ==> (#[trigger] remote[i]).0 != key {
            assert forall|i: int| 0 <= i < front.len() implies (#[trigger] front[i]).0 != key by {
                assert(remote[i].0 != key);
            }
            assert(remote[remote.len() - 1].0 != key);
        }
    }
}

/// The data that templates see has every value under its key.
pub proof fn law_data_is_seen(rows: Seq<(Seq<char>, Seq<char>)>, i: int)
    requires
        0 <= i < rows.len(),
    ensures
        row_members(rows).len() == rows.len(),
        json::has_member(json::json_object(row_members(rows)), rows[i].0, rows[i].1),
{
    json::law_object_has_its_members(row_members(rows), i, rows[i].0, rows[i].1);
}

/// What was fetched counts and is kept for later, whatever was kept before; where it
/// cannot be read, that is an error. Where nothing was fetched, what was kept counts
/// and stays, and where it cannot be read, that is an error too. Where there is neither,
/// a source that has to be there is an error, and any other gives nothing.
pub proof fn law_remote_sources(
    key: Seq<char>,
    cache_file: Seq<char>,
    value: Seq<char>,
    pretty: Seq<char>,
    message: Seq<char>,
    kept: Option<Result<Seq<char>, Seq<char>>>,
    fail_fast: bool,
)
    ensures
        remote_outcome(key, cache_file, Some((Ok(value), Ok(pretty))), kept, fail_fast) == Ok::<
            (Option<Seq<char>>, Option<Seq<char>>),
            Seq<char>,
        >((Some(value), Some(pretty))),
        remote_outcome(key, cache_file, Some((Err(message), Ok(pretty))), kept, fail_fast) is Err,
        remote_outcome(key, cache_file, None, Some(Err(message)), fail_fast) is Err,
        remote_outcome(key, cache_file, None, None, true) is Err,
        remote_outcome(key, cache_file, None, None, false) == Ok::<
            (Option<Seq<char>>, Option<Seq<char>>),
            Seq<char>,
        >((None, None)),
{
}

// ---------------------------------------------------------------------------
// The whole of the data.

proof fn lemma_found_row(s: Seq<(Seq<char>, Seq<char>)>, k: Seq<char>) -> (i: int)
    requires
        order::get(s, k) is Some,
    ensures
        0 <= i < s.len(),
        s[i] == (k, order::get(s, k).unwrap()),
    decreases s.len(),
{
    if s[0].0 == k {
        0
    } else {
        let j = lemma_found_row(s.skip(1), k);
        assert(s.skip(1)[j] == s[j + 1]);
        j + 1
    }
}

/// Templates see the value of every file and of every remote source under its key; those
/// of remote sources come before those of files.
pub proof fn law_site_data(
    data_dir: Seq<char>,
    files: Seq<DataFile>,
    remote: Seq<(Seq<char>, Seq<char>)>,
    key: Seq<char>,
)
    ensures
        data_context(data_dir, files, remote) is Ok <==> data_rows(data_dir, files) is Ok,
        data_context(data_dir, files, remote) matches Ok(c) ==> {
            let rows = data_rows(data_dir, files)->Ok_0;
            &&& forall|i: int|
                #![trigger remote[i]]
                0 <= i < remote.len() && remote[i].0 == key && (forall|j: int|
                    i < j < remote.len() ==> (#[trigger] remote[j]).0 != key) ==> json::has_member(
                    c,
                    key,
                    remote[i].1,
                )
            &&& (forall|i: int| 0 <= i < remote.len() ==> (#[trigger] remote[i]).0 != key) ==> (
            order::get(rows, key) matches Some(v) ==> json::has_member(c, key, v))
        },
{
    if data_rows(data_dir, files) is Ok {
        let rows = data_rows(data_dir, files)->Ok_0;
        let all = with_remote(rows, remote);
        law_remote_values_come_first(rows, remote, key);
        if order::get(all, key) is Some {
            let i = lemma_found_row(all, key);
            law_data_is_seen(all, i);
        }
    }
}

/// Files with any other extension are no data.
pub proof fn law_other_files_are_no_data(path: Seq<char>, ext: Seq<char>)
    requires
        fspath::extension(path) == Some(ext),
    ensures
        format_of(path) is Some <==> ext == "json"@ || ext == "yaml"@ || ext == "yml"@ || ext
            == "toml"@,
{
}

/// What was fetched for a key is kept in a file of its own below the output directory.
pub proof fn law_place_of_remote_data(output_dir: Seq<char>, key: Seq<char>)
    requires
        output_dir.len() > 0 && output_dir.last() != '/',
        key.len() > 0 && key[0] != '/',
    ensures
        remote_cache_file(output_dir, key) == output_dir + "/.nanoss-cache/remote-data/"@ + key
            + ".json"@,
{
    reveal_strlit(".nanoss-cache");
    reveal_strlit("remote-data");
    reveal_strlit("/.nanoss-cache/remote-data/");
    let a = output_dir + seq!['/'] + ".nanoss-cache"@;
    let b = a + seq!['/'] + "remote-data"@;
    assert(".nanoss-cache"@[0] == '.' && "remote-data"@[0] == 'r');
    assert(fspath::join(output_dir, ".nanoss-cache"@) =~= a);
    assert(a.last() == 'e');
    assert(fspath::join(a, "remote-data"@) =~= b);
    assert(b.last() == 'a');
    assert((key + ".json"@)[0] == key[0]);
    assert(b + seq!['/'] =~= output_dir + "/.nanoss-cache/remote-data/"@);
    assert(remote_cache_file(output_dir, key) =~= b + seq!['/'] + (key + ".json"@));
    assert(remote_cache_file(output_dir, key) =~= output_dir + "/.nanoss-cache/remote-data/"@ + key
        + ".json"@);
}

/// What was fetched counts only where it can be read and written as JSON, and what was
/// kept only where nothing was fetched; a value that was kept is not kept anew.
pub proof fn law_fetched_comes_before_kept(
    key: Seq<char>,
    file: Seq<char>,
    fetched: Option<(Result<Seq<char>, Seq<char>>, Result<Seq<char>, Seq<char>>)>,
    kept: Option<Result<Seq<char>, Seq<char>>>,
    fail_fast: bool,
)
    ensures
        fetched matches Some((a, b)) ==> (remote_outcome(key, file, fetched, kept, fail_fast) is Ok
            <==> a is Ok && b is Ok),
        remote_outcome(key, file, fetched, kept, fail_fast) matches Ok((Some(v), Some(k))) ==> (
        fetched matches Some((Ok(a), Ok(b))) && a == v && b == k),
        remote_outcome(key, file, fetched, kept, fail_fast) matches Ok((Some(v), None)) ==> fetched
            is None && kept == Some(Ok::<Seq<char>, Seq<char>>(v)),
        remote_outcome(key, file, fetched, kept, fail_fast) matches Ok((None, k)) ==> fetched is None
            && kept is None && k is None && !fail_fast,
{
}

} // verus!
