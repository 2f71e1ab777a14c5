//! Checks on configurations, route segments, paths and front matter.
use vstd::prelude::*;
use vstd::string::*;

use crate::config::BuildConfig;
use crate::config::ImageBuildConfig;
use crate::failure;
use crate::failure::{failure, Failure};
use crate::fspath;
use crate::text;
use crate::text::{concat, copy_text, to_chars};

verus! {

/// Every character of `s` may stand in a route segment.
pub open spec fn all_token_chars(s: Seq<char>) -> bool {
    forall|i: int| 0 <= i < s.len() ==> text::is_token_char(#[trigger] s[i])
}

/// Why `value` is no route segment for the field `field`.
pub open spec fn segment_error(value: Seq<char>, field: Seq<char>) -> Option<Seq<char>> {
    if value.len() == 0 {
        Some(field + " cannot be empty"@)
    } else if text::contains_text(value, ".."@) || value.contains('/') || value.contains('\\') {
        Some(field + " contains invalid path traversal characters"@)
    } else if !all_token_chars(value) {
        Some(field + " may only contain [a-zA-Z0-9_-]"@)
    } else {
        None
    }
}

/// Decides [`all_token_chars`].
fn only_token_chars(s: &str) -> (r: bool)
    ensures
        r == all_token_chars(s@),
{
    let v = to_chars(s);
    let mut i: usize = 0;
    while i < v.len()
        invariant
            i <= v.len(),
            v@ == s@,
            forall|j: int| 0 <= j < i ==> text::is_token_char(#[trigger] s@[j]),
        decreases v.len() - i,
    {
        if !text::token_char(v[i]) {
            assert(!text::is_token_char(s@[i as int]));
            return false;
        }
        i += 1;
    }
    true
}

/// Accepts a text that can stand as one segment of a route.
pub fn validate_route_segment(value: &str, field: &str) -> (r: Result<(), Failure>)
    ensures
        failure::refusal(r) == segment_error(value@, field@),
{
    if value.is_empty() {
        return Err(failure(concat(field, " cannot be empty")));
    }
    if text::has_part(value, "..") || text::has_char(value, '/') || text::has_char(value, '\\') {
        return Err(failure(concat(field, " contains invalid path traversal characters")));
    }
    if !only_token_chars(value) {
        return Err(failure(concat(field, " may only contain [a-zA-Z0-9_-]")));
    }
    Ok(())
}

/// A route segment is one plain name of a path: it is not empty, it holds no
/// separator, and it is neither `.` nor `..`.
pub proof fn law_segment_is_plain_name(value: Seq<char>, field: Seq<char>)
    requires
        segment_error(value, field) is None,
    ensures
        fspath::plain_name(value),
{
    if value.contains('/') {
    }
    assert(text::is_token_char(value[0]));
    assert(value[0] != '.');
}

/// The reason for which the first unusable one of `values` is refused.
pub open spec fn first_segment_error(values: Seq<Seq<char>>, field: Seq<char>) -> Option<Seq<char>>
    decreases values.len(),
{
    if values.len() == 0 {
        None
    } else {
        match segment_error(values[0], field) {
            Some(m) => Some(m),
            None => first_segment_error(values.skip(1), field),
        }
    }
}

/// Some width is zero.
pub open spec fn has_zero_width(images: ImageBuildConfig) -> bool {
    images.widths@.contains(0u32)
}

/// Why a build cannot run with the configuration `c`.
pub open spec fn config_error(c: BuildConfig) -> Option<Seq<char>> {
    if c.max_frontmatter_bytes == 0 {
        Some("max_frontmatter_bytes must be greater than zero"@)
    } else if c.max_file_bytes == 0 {
        Some("max_file_bytes must be greater than zero"@)
    } else if c.max_total_files == 0 {
        Some("max_total_files must be greater than zero"@)
    } else if !(c.base_path@.len() > 0 && c.base_path@[0] == '/') {
        Some("base_path must start with '/'"@)
    } else if has_zero_width(c.images) {
        Some("image width variants must be > 0"@)
    } else {
        let default_error = match c.i18n.default_locale {
            Some(l) => segment_error(l@, "default_locale"@),
            None => None,
        };
        match default_error {
            Some(m) => Some(m),
            None => first_segment_error(text::texts(c.i18n.locales@), "locale"@),
        }
    }
}

/// Accepts a configuration that a build can run with.
pub fn validate_build_config(config: &BuildConfig) -> (r: Result<(), Failure>)
    ensures
        failure::refusal(r) == config_error(*config),
{
    if config.max_frontmatter_bytes == 0 {
        return Err(failure(copy_text("max_frontmatter_bytes must be greater than zero")));
    }
    if config.max_file_bytes == 0 {
        return Err(failure(copy_text("max_file_bytes must be greater than zero")));
    }
    if config.max_total_files == 0 {
        return Err(failure(copy_text("max_total_files must be greater than zero")));
    }
    if !text::text_begins_char(config.base_path.as_str(), '/') {
        return Err(failure(copy_text("base_path must start with '/'")));
    }
    let widths = &config.images.widths;
    let mut i: usize = 0;
    while i < widths.len()
        invariant
            i <= widths.len(),
            *widths == config.images.widths,
            forall|j: int| 0 <= j < i ==> widths@[j] != 0,
            config.max_frontmatter_bytes != 0,
            config.max_file_bytes != 0,
            config.max_total_files != 0,
            config.base_path@.len() > 0 && config.base_path@[0] == '/',
        decreases widths.len() - i,
    {
        if widths[i] == 0 {
            assert(config.images.widths@[i as int] == 0);
            return Err(failure(copy_text("image width variants must be > 0")));
        }
        i += 1;
    }
    match &config.i18n.default_locale {
        Some(l) => match validate_route_segment(l.as_str(), "default_locale") {
            Ok(_) => {},
            Err(e) => {
                return Err(e);
            },
        },
        None => {},
    }
    let locales = &config.i18n.locales;
    let ghost all = text::texts(locales@);
    let mut k: usize = 0;
    assert(all.skip(0) =~= all);
    while k < locales.len()
        invariant
            k <= locales.len(),
            all == text::texts(locales@),
            config_error(*config) == first_segment_error(all.skip(k as int), "locale"@),
        decreases locales.len() - k,
    {
        assert(all.skip(k as int)[0] == locales@[k as int]@);
        assert(all.skip(k as int).skip(1) =~= all.skip(k + 1));
        match validate_route_segment(locales[k].as_str(), "locale") {
            Ok(_) => {},
            Err(e) => {
                return Err(e);
            },
        }
        k += 1;
    }
    assert(all.skip(k as int).len() == 0);
    Ok(())
}

// ---------------------------------------------------------------------------
// Front matter.

/// The text between the fences of a front matter block at the beginning of
/// `raw`.
pub open spec fn front_block(raw: Seq<char>) -> Option<Seq<char>> {
    if !text::starts_with(raw, "---\n"@) {
        None
    } else {
        match text::find_from(raw, "\n---\n"@, 4) {
            Some(end) => Some(raw.subrange(4, end)),
            None => None,
        }
    }
}

/// What stands behind the front matter block at the beginning of `raw`; all of
/// `raw` where there is no such block.
pub open spec fn front_body(raw: Seq<char>) -> Seq<char> {
    if !text::starts_with(raw, "---\n"@) {
        raw
    } else {
        match text::find_from(raw, "\n---\n"@, 4) {
            Some(end) => raw.skip(end + 5),
            None => raw,
        }
    }
}

/// Splits `raw` into its front matter block and the body.
pub fn split_frontmatter(raw: &str) -> (r: (Option<String>, String))
    ensures
        text::opt_text(r.0) == front_block(raw@),
        r.1@ == front_body(raw@),
{
    let v = to_chars(raw);
    if !text::begins(v.as_slice(), "---\n") {
        return (None, copy_text(raw));
    }
    match text::find_text(v.as_slice(), "\n---\n", 4) {
        None => (None, copy_text(raw)),
        Some(end) => {
            proof {
                reveal_strlit("\n---\n");
                text::lemma_find_from(raw@, "\n---\n"@, 4);
                assert("\n---\n"@.len() == 5);
                assert(text::occurs_at(raw@, "\n---\n"@, end as int));
                assert(end + 5 <= v.len());
                assert(raw@.subrange(end + 5, raw@.len() as int) =~= raw@.skip(end + 5));
            }
            let block = text::text_of(vstd::slice::slice_subrange(v.as_slice(), 4, end));
            let body = text::text_of(vstd::slice::slice_subrange(v.as_slice(), end + 5, v.len()));
            (Some(block), body)
        },
    }
}

/// How many bytes the UTF-8 form of `s` has.
pub open spec fn byte_len(s: Seq<char>) -> nat {
    vstd::utf8::encode_utf8(s).len()
}

/// Why the front matter of `raw` is too large for `limit`.
pub open spec fn frontmatter_size_error(raw: Seq<char>, limit: usize) -> Option<Seq<char>> {
    match front_block(raw) {
        Some(block) => if byte_len(block) > limit {
            Some(
                "frontmatter size "@ + text::decimal(byte_len(block)) + " exceeds limit "@
                    + text::decimal(limit as nat),
            )
        } else {
            None
        },
        None => None,
    }
}

/// Accepts a file whose front matter has no more than `limit` bytes.
pub fn validate_frontmatter_size(raw: &str, limit: usize) -> (r: Result<(), Failure>)
    ensures
        failure::refusal(r) == frontmatter_size_error(raw@, limit),
{
    let (block, _) = split_frontmatter(raw);
    match block {
        None => Ok(()),
        Some(b) => {
            let n = b.as_str().as_bytes().len();
            if n > limit {
                let mut m = copy_text("frontmatter size ");
                crate::config::append_number(&mut m, n);
                m.append(" exceeds limit ");
                crate::config::append_number(&mut m, limit);
                Err(failure(m))
            } else {
                Ok(())
            }
        },
    }
}

// ---------------------------------------------------------------------------
// Paths and binaries.

/// Why `candidate` may not be written below `output_root`.
pub open spec fn escape_error(output_root: Seq<char>, candidate: Seq<char>) -> Option<Seq<char>> {
    if fspath::starts_with(candidate, output_root) {
        None
    } else {
        Some("target path escapes output directory: "@ + candidate)
    }
}

/// Accepts a path whose first components are those of the output directory.
pub fn ensure_inside_output(output_root: &str, candidate: &str) -> (r: Result<(), Failure>)
    ensures
        failure::refusal(r) == escape_error(output_root@, candidate@),
{
    if fspath::path_starts_with(candidate, output_root) {
        Ok(())
    } else {
        Err(failure(concat("target path escapes output directory: ", candidate)))
    }
}

/// Why `binary` is not run.
pub open spec fn binary_error(binary: Seq<char>) -> Option<Seq<char>> {
    if text::trim(binary).len() == 0 {
        Some("binary name cannot be empty"@)
    } else if binary.contains('\n') || binary.contains('\r') {
        Some("binary name contains invalid control characters"@)
    } else {
        None
    }
}

/// Accepts the name of a binary that can be run.
pub fn ensure_binary_name_safe(binary: &str) -> (r: Result<(), Failure>)
    ensures
        failure::refusal(r) == binary_error(binary@),
{
    let t = text::trimmed(binary);
    if t.as_str().is_empty() {
        return Err(failure(copy_text("binary name cannot be empty")));
    }
    if text::has_char(binary, '\n') || text::has_char(binary, '\r') {
        return Err(failure(copy_text("binary name contains invalid control characters")));
    }
    Ok(())
}

// ---------------------------------------------------------------------------
// More laws.

/// A segment of a route can be used exactly where it has a character and all of its
/// characters are letters, digits, `-` or `_`.
pub proof fn law_segments(value: Seq<char>, field: Seq<char>)
    ensures
        segment_error(value, field) is None <==> value.len() > 0 && forall|i: int|
            0 <= i < value.len() ==> ('0' <= #[trigger] value[i] <= '9') || ('A' <= value[i] <= 'Z')
                || ('a' <= value[i] <= 'z') || value[i] == '-' || value[i] == '_',
        segment_error(value, field) matches Some(m) ==> text::starts_with(m, field),
{
    reveal_strlit("..");
    let m1 = field + " cannot be empty"@;
    let m2 = field + " contains invalid path traversal characters"@;
    let m3 = field + " may only contain [a-zA-Z0-9_-]"@;
    assert(m1.take(field.len() as int) =~= field);
    assert(m2.take(field.len() as int) =~= field);
    assert(m3.take(field.len() as int) =~= field);
    if forall|i: int|
        0 <= i < value.len() ==> ('0' <= #[trigger] value[i] <= '9') || ('A' <= value[i] <= 'Z') || (
        'a' <= value[i] <= 'z') || value[i] == '-' || value[i] == '_' {
        if text::contains_text(value, ".."@) {
            let i = choose|i: int| text::occurs_at(value, ".."@, i);
            assert(value.subrange(i, i + 2)[0] == value[i]);
        }
    }
    if segment_error(value, field) is None {
        assert forall|i: int| 0 <= i < value.len() implies ('0' <= #[trigger] value[i] <= '9') || (
        'A' <= value[i] <= 'Z') || ('a' <= value[i] <= 'z') || value[i] == '-' || value[i] == '_' by {
            assert(text::is_token_char(value[i]));
        }
    }
}

/// The front matter of a page is what stands between its first line, of three dashes,
/// and the next line of three dashes; the body is what follows. Without them a page is
/// all body.
pub proof fn law_front_matter(block: Seq<char>, body: Seq<char>, raw: Seq<char>)
    ensures
        (forall|k: int|
            0 <= k < block.len() ==> !text::occurs_at(
                block + "\n---\n"@ + body,
                "\n---\n"@,
                k,
            )) ==> front_block("---\n"@ + block + "\n---\n"@ + body) == Some(block) && front_body(
            "---\n"@ + block + "\n---\n"@ + body,
        ) == body,
        !text::starts_with(raw, "---\n"@) ==> front_block(raw) is None && front_body(raw) == raw,
        front_block(raw) is None ==> front_body(raw) == raw,
        front_block(raw) matches Some(b) ==> raw == "---\n"@ + b + "\n---\n"@ + front_body(raw),
{
    reveal_strlit("---\n");
    reveal_strlit("\n---\n");
    let open = "---\n"@;
    let close = "\n---\n"@;
    text::lemma_find_from(raw, close, 4);
    if text::starts_with(raw, open) {
        match text::find_from(raw, close, 4) {
            Some(end) => {
                assert(raw.take(4) == open);
                assert(raw.subrange(end, end + 5) == close);
                assert(raw =~= raw.take(4) + raw.subrange(4, end) + raw.subrange(end, end + 5)
                    + raw.skip(end + 5));
            },
            None => {},
        }
    }
    if forall|k: int|
        0 <= k < block.len() ==> !text::occurs_at(block + close + body, close, k) {
        let s = open + block + close + body;
        let t = block + close + body;
        assert(s.take(4) =~= open);
        text::lemma_find_from(s, close, 4);
        let n = 4 + block.len() as int;
        assert(s.subrange(n, n + 5) =~= close);
        assert(text::occurs_at(s, close, n));
        match text::find_from(s, close, 4) {
            Some(end) => {
                if end < n {
                    assert(s.subrange(end, end + 5) =~= t.subrange(end - 4, end + 1));
                    assert(text::occurs_at(t, close, end - 4));
                }
                assert(end == n);
                assert(s.subrange(4, n) =~= block);
                assert(s.skip(n + 5) =~= body);
            },
            None => {},
        }
    }
}

/// The limit on front matter counts the bytes of the block; a page without one is within
/// every limit.
pub proof fn law_front_matter_limit(raw: Seq<char>, limit: usize)
    ensures
        frontmatter_size_error(raw, limit) is Some <==> (front_block(raw) matches Some(b)
            && vstd::utf8::encode_utf8(b).len() > limit),
{
}

proof fn lemma_first_segment_error(values: Seq<Seq<char>>, field: Seq<char>)
    ensures
        first_segment_error(values, field) is None <==> forall|i: int|
            0 <= i < values.len() ==> segment_error(#[trigger] values[i], field) is None,
    decreases values.len(),
{
    if values.len() > 0 {
        lemma_first_segment_error(values.skip(1), field);
        if first_segment_error(values, field) is None {
            assert forall|i: int| 0 <= i < values.len() implies segment_error(
                #[trigger] values[i],
                field,
            ) is None by {
                if i > 0 {
                    assert(values.skip(1)[i - 1] == values[i]);
                }
            }
        }
        if forall|i: int|
            0 <= i < values.len() ==> segment_error(#[trigger] values[i], field) is None {
            assert forall|i: int| 0 <= i < values.skip(1).len() implies segment_error(
                #[trigger] values.skip(1)[i],
                field,
            ) is None by {
                assert(values.skip(1)[i] == values[i + 1]);
            }
            assert(segment_error(values[0], field) is None);
        }
    }
}

/// A configuration is accepted exactly where its limits and widths are above zero, its
/// base path begins at the root, and its locales can stand in a path.
pub proof fn law_accepted_configurations(c: BuildConfig)
    ensures
        config_error(c) is None <==> c.max_frontmatter_bytes > 0 && c.max_file_bytes > 0
            && c.max_total_files > 0 && c.base_path@.len() > 0 && c.base_path@[0] == '/' && (
        forall|i: int| 0 <= i < c.images.widths@.len() ==> #[trigger] c.images.widths@[i] > 0) && (
        c.i18n.default_locale matches Some(l) ==> segment_error(l@, "default_locale"@) is None) && (
        forall|i: int|
            0 <= i < c.i18n.locales@.len() ==> segment_error(
                (#[trigger] c.i18n.locales@[i])@,
                "locale"@,
            ) is None),
{
    let names = text::texts(c.i18n.locales@);
    lemma_first_segment_error(names, "locale"@);
    if forall|i: int|
        0 <= i < c.i18n.locales@.len() ==> segment_error(
            (#[trigger] c.i18n.locales@[i])@,
            "locale"@,
        ) is None {
        assert forall|i: int| 0 <= i < names.len() implies segment_error(
            #[trigger] names[i],
            "locale"@,
        ) is None by {
            assert(names[i] == c.i18n.locales@[i]@);
        }
    }
    if first_segment_error(names, "locale"@) is None {
        assert forall|i: int| 0 <= i < c.i18n.locales@.len() implies segment_error(
            (#[trigger] c.i18n.locales@[i])@,
            "locale"@,
        ) is None by {
            assert(names[i] == c.i18n.locales@[i]@);
        }
    }
    if !has_zero_width(c.images) {
        assert forall|i: int| 0 <= i < c.images.widths@.len() implies #[trigger] c.images.widths@[i]
            > 0 by {
            if c.images.widths@[i] == 0 {
                assert(c.images.widths@.contains(0u32));
            }
        }
    }
}

/// A command can be called by a name that is not blank and holds no line break.
pub proof fn law_names_of_commands(binary: Seq<char>)
    ensures
        binary_error(binary) is None <==> text::trim(binary).len() > 0 && (forall|i: int|
            0 <= i < binary.len() ==> #[trigger] binary[i] != '\n' && binary[i] != '\r'),
{
    if binary.contains('\n') {
        let i = choose|i: int| 0 <= i < binary.len() && binary[i] == '\n';
        assert(binary[i] == '\n');
    }
    if binary.contains('\r') {
        let i = choose|i: int| 0 <= i < binary.len() && binary[i] == '\r';
        assert(binary[i] == '\r');
    }
}

/// A target is refused exactly where its first components are not those of the output
/// directory.
pub proof fn law_targets_inside_output(root: Seq<char>, candidate: Seq<char>)
    ensures
        escape_error(root, candidate) is None <==> fspath::parts(root).len() <= fspath::parts(
            candidate,
        ).len() && forall|i: int|
            0 <= i < fspath::parts(root).len() ==> fspath::parts(candidate)[i]
                == #[trigger] fspath::parts(root)[i],
{
    let a = fspath::parts(root);
    let b = fspath::parts(candidate);
    if a.len() <= b.len() {
        if forall|i: int| 0 <= i < a.len() ==> b[i] == #[trigger] a[i] {
            assert(b.take(a.len() as int) =~= a);
        }
        if b.take(a.len() as int) == a {
            assert forall|i: int| 0 <= i < a.len() implies b[i] == #[trigger] a[i] by {
                assert(b.take(a.len() as int)[i] == b[i]);
            }
        }
    }
}

} // verus!
