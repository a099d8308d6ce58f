use std::path::{Component, Path, PathBuf};

use rustdrop::paths::{join_paths, normalize_path};

#[test]
fn normalize_drops_current_dirs_and_resolves_parents() {
    assert_eq!(normalize_path("/a/./b/../c"), "/a/c");
    assert_eq!(normalize_path("a/b/../../.."), "");
    assert_eq!(normalize_path("../x"), "x");
    assert_eq!(normalize_path("/../x"), "/x");
    assert_eq!(normalize_path("a//b/"), "a/b");
    assert_eq!(normalize_path(""), "");
    assert_eq!(normalize_path("/"), "/");
}

#[test]
fn join_follows_path_buf_join() {
    assert_eq!(join_paths("/up", "a.txt"), "/up/a.txt");
    assert_eq!(join_paths("/up/", "a"), "/up/a");
    assert_eq!(join_paths("/up", "/etc"), "/etc");
    assert_eq!(join_paths("", "a"), "a");
}

#[test]
fn normalize_agrees_with_the_standard_library_components() {
    fn reference(path: &Path) -> PathBuf {
        let mut ret = PathBuf::new();
        let mut normalized = Vec::new();
        for component in path.components() {
            match component {
                Component::Prefix(..) => unreachable!(),
                Component::RootDir => ret.push(component.as_os_str()),
                Component::CurDir => {}
                Component::ParentDir => {
                    normalized.pop();
                }
                Component::Normal(c) => normalized.push(c),
            }
        }
        for c in normalized {
            ret.push(c);
        }
        ret
    }
    for p in ["a/./b", "./a", "/./a/../../b", "a/b/", "..", "./", ".a/b", "a/.../b", "//x//y", "x/./"] {
        assert_eq!(normalize_path(p), reference(Path::new(p)).to_string_lossy(), "{p}");
    }
}

#[test]
fn normalising_twice_is_normalising_once() {
    for p in ["/a/./b/../c/", "a/../../b", "./x//y", "/..", "", ".", "a/b/.."] {
        let once = normalize_path(p);
        assert_eq!(normalize_path(&once), once, "path {:?}", p);
    }
}
