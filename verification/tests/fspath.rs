//! Tests of the path algebra, against what the standard library says.
use nanoss::fspath::{
    components, extension_is, path_extension, path_file_name, path_join, path_parent,
    path_starts_with, path_stem, relative_to, replace_extension, replace_file_name, same_path,
    Component,
};
use std::path::{Path, PathBuf};

const PATHS: [&str; 30] = [
    "",
    "/",
    "//",
    ".",
    "./",
    "..",
    "../x",
    "a",
    "a/",
    "a//",
    "a/.",
    "a/./b",
    "a/../b",
    "/a",
    "/a/b.md",
    "content/post.md",
    "content/sub/post.tar.gz",
    "./content/post",
    "content/.hidden",
    "content/.hidden.md",
    "x.",
    "a/b/..",
    "a/b/../",
    "/..",
    "a.b/c",
    "a/b//c/",
    "./.",
    "a/b/.",
    "name.MD",
    "é/ü.txt",
];

fn text(p: Option<&Path>) -> Option<String> {
    p.map(|p| p.to_str().unwrap().to_string())
}

#[test]
fn names_and_extensions_agree() {
    for p in PATHS {
        let path = Path::new(p);
        assert_eq!(path_file_name(p), path.file_name().and_then(|n| n.to_str()).map(|n| n.to_string()), "file name of {p:?}");
        assert_eq!(path_stem(p), path.file_stem().and_then(|n| n.to_str()).map(|n| n.to_string()), "stem of {p:?}");
        assert_eq!(path_extension(p), path.extension().and_then(|n| n.to_str()).map(|n| n.to_string()), "extension of {p:?}");
        assert_eq!(path_parent(p), text(path.parent()), "parent of {p:?}");
        assert_eq!(extension_is(p, "md"), path.extension().and_then(|n| n.to_str()).map(|n| n.to_string()) == Some("md".to_string()));
    }
}

#[test]
fn joins_and_changes_agree() {
    for p in PATHS {
        let path = Path::new(p);
        for q in PATHS {
            assert_eq!(path_join(p, q), path.join(q).to_str().unwrap(), "{p:?} with {q:?}");
        }
        for ext in ["css", "", "x.y"] {
            let mut changed = PathBuf::from(p);
            changed.set_extension(ext);
            assert_eq!(replace_extension(p, ext), changed.to_str().unwrap(), "{p:?} {ext:?}");
        }
        assert_eq!(replace_file_name(p, "n.txt"), path.with_file_name("n.txt").to_str().unwrap());
    }
}

#[test]
fn prefixes_agree() {
    for p in PATHS {
        for q in PATHS {
            let (path, base) = (Path::new(p), Path::new(q));
            assert_eq!(path_starts_with(p, q), path.starts_with(base), "{p:?} {q:?}");
            assert_eq!(relative_to(p, q), text(path.strip_prefix(base).ok()), "{p:?} {q:?}");
            assert_eq!(same_path(p, q), path == base, "{p:?} {q:?}");
        }
    }
}

#[test]
fn components_agree() {
    for p in PATHS {
        let mine: Vec<String> = components(p)
            .into_iter()
            .map(|c| match c {
                Component::Root => "/".to_string(),
                Component::Cur => ".".to_string(),
                Component::Up => "..".to_string(),
                Component::Name(n) => n,
            })
            .collect();
        let theirs: Vec<String> = Path::new(p)
            .components()
            .map(|c| c.as_os_str().to_str().unwrap().to_string())
            .collect();
        assert_eq!(mine, theirs, "{p:?}");
    }
}
