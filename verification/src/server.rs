//! The local server: which file answers a request.
use vstd::prelude::*;
use vstd::slice::slice_subrange;
use vstd::string::*;

use crate::failure;
use crate::failure::{failure, Failure};
use crate::fspath;
use crate::text;
use crate::text::{concat, copy_text, same_text, text_of, to_chars};

verus! {

/// The normal form of a mount path, or why it is refused.
pub open spec fn normal_mount_path(input: Seq<char>) -> Result<Seq<char>, Seq<char>> {
    let t = text::trim(input);
    if t.len() == 0 || t == "/"@ {
        Ok("/"@)
    } else if t[0] != '/' {
        Err("mount_path must start with '/'"@)
    } else {
        Ok(text::trim_end_char(t, '/'))
    }
}

/// Computes [`normal_mount_path`].
pub fn normalize_mount_path(input: &str) -> (r: Result<String, Failure>)
    ensures
        failure::text_outcome(r) == normal_mount_path(input@),
{
    let t = text::trimmed(input);
    if t.as_str().is_empty() || same_text(t.as_str(), "/") {
        return Ok(copy_text("/"));
    }
    if !text::text_begins_char(t.as_str(), '/') {
        return Err(failure(copy_text("mount_path must start with '/'")));
    }
    Ok(text::trimmed_end_char(t.as_str(), '/'))
}

/// The mount path that counts, in its normal form: the one of the command line,
/// else the one of the project, else the root.
pub fn choose_mount_path(named: Option<&str>, project: Option<&str>) -> (r: Result<String, Failure>)
    ensures
        failure::text_outcome(r) == normal_mount_path(
            match (named, project) {
                (Some(path), _) => path@,
                (None, Some(path)) => path@,
                (None, None) => "/"@,
            },
        ),
{
    match (named, project) {
        (Some(path), _) => normalize_mount_path(path),
        (None, Some(path)) => normalize_mount_path(path),
        (None, None) => normalize_mount_path("/"),
    }
}

/// The path below the mount path that a request asks for; none for a request
/// outside it.
pub open spec fn mounted_route(request: Seq<char>, mount: Seq<char>) -> Option<Seq<char>> {
    if mount == "/"@ {
        Some(request)
    } else if request == mount {
        Some("/"@)
    } else if text::starts_with(request, mount + "/"@) {
        Some("/"@ + request.skip(mount.len() as int + 1))
    } else {
        None
    }
}

/// Computes [`mounted_route`].
pub fn route_for_mount(request_path: &str, mount_path: &str) -> (r: Option<String>)
    ensures
        text::opt_text(r) == mounted_route(request_path@, mount_path@),
{
    if same_text(mount_path, "/") {
        return Some(copy_text(request_path));
    }
    if same_text(request_path, mount_path) {
        return Some(copy_text("/"));
    }
    let prefix = concat(mount_path, "/");
    if text::text_begins(request_path, prefix.as_str()) {
        proof {
            reveal_strlit("/");
        }
        let v = to_chars(request_path);
        let p = to_chars(prefix.as_str());
        let rest = text_of(slice_subrange(v.as_slice(), p.len(), v.len()));
        assert(rest@ =~= request_path@.skip(mount_path@.len() as int + 1));
        return Some(concat("/", rest.as_str()));
    }
    None
}

/// What stands below the mount path is routed to what it is without it.
pub proof fn law_mount_is_stripped(mount: Seq<char>, rest: Seq<char>)
    requires
        mount != "/"@,
    ensures
        mounted_route(mount, mount) == Some("/"@),
        mounted_route(mount + "/"@ + rest, mount) == Some("/"@ + rest),
{
    reveal_strlit("/");
    let request = mount + "/"@ + rest;
    assert(request.len() > mount.len());
    assert(request.take((mount + "/"@).len() as int) =~= mount + "/"@);
    assert(request.skip(mount.len() as int + 1) =~= rest);
}

/// The path that a request asks for: its URL without the query, with one slash
/// at its beginning.
pub open spec fn request_path(url: Seq<char>) -> Seq<char> {
    "/"@ + text::trim_start_char(text::before_char(url, '?'), '/')
}

/// The file below the output directory that answers a request; none for a
/// request outside the mount path.
pub open spec fn static_target(
    url: Seq<char>,
    mount: Seq<char>,
    output_dir: Seq<char>,
) -> Option<Seq<char>> {
    match mounted_route(request_path(url), mount) {
        None => None,
        Some(route) => {
            let raw = text::trim_start_char(route, '/');
            Some(
                fspath::join(
                    output_dir,
                    if raw.len() == 0 {
                        "index.html"@
                    } else {
                        raw
                    },
                ),
            )
        },
    }
}

/// Computes [`static_target`].
pub fn resolve_request(url: &str, mount_path: &str, output_dir: &str) -> (r: Option<String>)
    ensures
        text::opt_text(r) == static_target(url@, mount_path@, output_dir@),
{
    let bare = text::cut_at_char(url, '?');
    let bare = text::trimmed_start_char(bare.as_str(), '/');
    let path = concat("/", bare.as_str());
    match route_for_mount(path.as_str(), mount_path) {
        None => None,
        Some(route) => {
            let raw = text::trimmed_start_char(route.as_str(), '/');
            if raw.as_str().is_empty() {
                Some(fspath::path_join(output_dir, "index.html"))
            } else {
                Some(fspath::path_join(output_dir, raw.as_str()))
            }
        },
    }
}

/// The file that answers for a directory.
pub fn directory_index(target: &str) -> (r: String)
    ensures
        r@ == fspath::join(target@, "index.html"@),
{
    fspath::path_join(target, "index.html")
}

proof fn lemma_trim_start(s: Seq<char>, c: char)
    ensures
        text::trim_start_char(s, c).len() > 0 ==> text::trim_start_char(s, c)[0] != c,
    decreases s.len(),
{
    if s.len() > 0 && s[0] == c {
        lemma_trim_start(s.skip(1), c);
    }
}

/// Every request that is answered is answered from below the output directory,
/// by the components of its path.
pub proof fn law_requests_stay_below_output(
    url: Seq<char>,
    mount: Seq<char>,
    output_dir: Seq<char>,
)
    ensures
        static_target(url, mount, output_dir) matches Some(target) ==> fspath::starts_with(
            target,
            output_dir,
        ),
{
    match mounted_route(request_path(url), mount) {
        None => {},
        Some(route) => {
            reveal_strlit("index.html");
            lemma_trim_start(route, '/');
            let raw = text::trim_start_char(route, '/');
            let rel = if raw.len() == 0 {
                "index.html"@
            } else {
                raw
            };
            assert(!fspath::rooted(rel));
            fspath::lemma_join_inside(output_dir, rel);
        },
    }
}

/// The line that tells where a site is served.
pub fn serving_line(output_dir: &str, bind_addr: &str, mount_path: &str) -> (r: String)
    ensures
        r@ == "Serving "@ + output_dir@ + " at http://"@ + bind_addr@ + crate::route::href_prefix(
            mount_path@,
        ),
{
    let mut out = copy_text("Serving ");
    out.append(output_dir);
    out.append(" at http://");
    out.append(bind_addr);
    out.append(crate::route::base_href_prefix(mount_path));
    out
}

// ---------------------------------------------------------------------------
// More laws.

/// A mount path is a path from the root without a slash at its end; a blank one is the
/// root, and one that does not begin there is refused.
pub proof fn law_mount_paths(name: Seq<char>, input: Seq<char>)
    ensures
        name.len() > 0 && !text::is_space(name.last()) && name.last() != '/' ==> {
            &&& normal_mount_path(seq!['/'] + name) == Ok::<Seq<char>, Seq<char>>(seq!['/'] + name)
            &&& normal_mount_path(seq!['/'] + name + seq!['/']) == Ok::<Seq<char>, Seq<char>>(
                seq!['/'] + name,
            )
        },
        text::trim(input).len() == 0 ==> normal_mount_path(input) == Ok::<Seq<char>, Seq<char>>(
            seq!['/'],
        ),
        normal_mount_path(input) is Err <==> text::trim(input).len() > 0 && text::trim(input)[0]
            != '/',
{
    reveal_strlit("/");
    assert("/"@ =~= seq!['/']);
    if name.len() > 0 && !text::is_space(name.last()) && name.last() != '/' {
        let a = seq!['/'] + name;
        let b = a + seq!['/'];
        assert(text::trim(a) == a);
        assert(text::trim(b) == b);
        assert(a.last() == name.last());
        assert(b.drop_last() =~= a);
        reveal_with_fuel(text::trim_end_char, 2);
        assert(a.len() > 1 && b.len() > 1);
    }
}

/// A request outside the mount path is for nothing; at the root of the server every
/// request is for the path that it names.
pub proof fn law_requests_outside_the_mount(request: Seq<char>, mount: Seq<char>)
    ensures
        mounted_route(request, seq!['/']) == Some(request),
        mount != seq!['/'] ==> (mounted_route(request, mount) is Some <==> request == mount
            || text::starts_with(request, mount + seq!['/'])),
{
    reveal_strlit("/");
    assert("/"@ =~= seq!['/']);
}

proof fn lemma_plain_request(path: Seq<char>, query: Seq<char>)
    requires
        path.len() == 0 || path[0] != '/',
        !path.contains('?'),
    ensures
        request_path(seq!['/'] + path) == seq!['/'] + path,
        request_path(seq!['/'] + path + seq!['?'] + query) == seq!['/'] + path,
{
    reveal_strlit("/");
    assert("/"@ =~= seq!['/']);
    let url = seq!['/'] + path;
    let full = url + seq!['?'] + query;
    assert(!url.contains('?')) by {
        if url.contains('?') {
            let k = choose|k: int| 0 <= k < url.len() && url[k] == '?';
            assert(path[k - 1] == '?');
        }
    }
    text::law_cut_at_char(url, '?');
    text::law_cut_at_char(full, '?');
    let cut = text::before_char(full, '?');
    assert(full[url.len() as int] == '?');
    assert(full.contains('?'));
    assert(cut.len() == url.len()) by {
        if cut.len() < url.len() {
            assert(full[cut.len() as int] == url[cut.len() as int]);
            assert(url.contains('?'));
        }
        if cut.len() > url.len() {
            assert(full.take(cut.len() as int)[url.len() as int] == '?');
            assert(cut.contains('?'));
        }
    }
    assert(cut =~= url) by {
        assert(full.take(cut.len() as int) =~= url);
    }
    reveal_with_fuel(text::trim_start_char, 2);
    assert(url.skip(1) =~= path);
    assert(text::trim_start_char(url, '/') == path);
}

/// A request names a file below the output directory by its path, whatever its query; the
/// root names the index.
pub proof fn law_requested_files(path: Seq<char>, query: Seq<char>, output_dir: Seq<char>)
    requires
        output_dir.len() > 0 && output_dir.last() != '/',
        path.len() > 0 && path[0] != '/',
        !path.contains('?'),
    ensures
        static_target(seq!['/'] + path, seq!['/'], output_dir) == Some(
            output_dir + seq!['/'] + path,
        ),
        static_target(seq!['/'] + path + seq!['?'] + query, seq!['/'], output_dir) == Some(
            output_dir + seq!['/'] + path,
        ),
        static_target(seq!['/'], seq!['/'], output_dir) == Some(output_dir + "/index.html"@),
{
    reveal_strlit("/");
    assert("/"@ =~= seq!['/']);
    reveal_strlit("index.html");
    reveal_strlit("/index.html");
    lemma_plain_request(path, query);
    lemma_plain_request(Seq::empty(), query);
    reveal_with_fuel(text::trim_start_char, 2);
    assert((seq!['/'] + path).skip(1) =~= path);
    assert(seq!['/'] + Seq::empty() =~= seq!['/']);
    assert(seq!['/'].skip(1) =~= Seq::empty());
    assert("index.html"@[0] == 'i');
    assert(output_dir + seq!['/'] + "index.html"@ =~= output_dir + "/index.html"@);
}

} // verus!
