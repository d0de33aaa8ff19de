use std::path::Path;

use mrx::fs::{is_nix, AbsolutePathBuf, RelativeToParentError};
use mrx::path::{extension_exec, file_name_exec, join_exec, parent_exec};
use mrx::text::chars_of;

const SAMPLES: &[&str] = &[
    "",
    "/",
    ".",
    "./",
    "..",
    "a",
    "a/",
    "a/b",
    "a//b",
    "a/./b",
    "./a/b",
    "././a",
    "../a",
    "a/../b",
    "/a/b/c.nix",
    "/a/b/",
    "//a",
    "/.",
    "foo.tar.gz",
    ".hidden",
    "dir/.hidden",
    "dir/file.",
    "x/y/..",
];

fn text(v: &[char]) -> String {
    v.iter().collect()
}

#[test]
fn parent_matches_std() {
    for s in SAMPLES {
        let ours = parent_exec(chars_of(s).as_slice()).map(|p| text(&p));
        let theirs = Path::new(s).parent().map(|p| p.to_string_lossy().to_string());
        let comps = |t: &String| {
            Path::new(t)
                .components()
                .map(|c| c.as_os_str().to_string_lossy().to_string())
                .collect::<Vec<_>>()
        };
        let norm = theirs.as_ref().map(comps);
        let ours_norm = ours.as_ref().map(comps);
        assert_eq!(ours_norm, norm, "parent of {s:?}");
    }
}

#[test]
fn file_name_and_extension_match_std() {
    for s in SAMPLES {
        let name = file_name_exec(chars_of(s).as_slice()).map(|p| text(&p));
        let std_name = Path::new(s).file_name().map(|p| p.to_string_lossy().to_string());
        assert_eq!(name, std_name, "file name of {s:?}");
        let ext = extension_exec(chars_of(s).as_slice()).map(|p| text(&p));
        let std_ext = Path::new(s).extension().map(|p| p.to_string_lossy().to_string());
        assert_eq!(ext, std_ext, "extension of {s:?}");
    }
}

#[test]
fn join_matches_std() {
    for a in SAMPLES {
        for b in ["c", "/abs", "d/e", ""] {
            let ours = text(&join_exec(chars_of(a).as_slice(), chars_of(b).as_slice()));
            let theirs = Path::new(a).join(b).to_string_lossy().to_string();
            assert_eq!(ours, theirs, "join {a:?} {b:?}");
        }
    }
}

#[test]
fn nix_extension_any_case() {
    assert!(is_nix("./a/main.nix"));
    assert!(is_nix("/x/default.NIX"));
    assert!(!is_nix("/x/.nix"));
    assert!(!is_nix("/x/nix"));
    assert!(!is_nix("/x/a.nixx"));
}

#[test]
fn relative_to_parent_gives_dot_slash_suffix() {
    let p = AbsolutePathBuf::new("/home/u/proj/scripts/bin/x/main.nix".to_string(), true);
    let r = p.as_relative_to_parent("/home/u/proj", false, true, Ok(String::new()));
    assert_eq!(r.unwrap(), "./scripts/bin/x/main.nix");
    let same = p.as_relative_to_parent("/home/u/proj/scripts/bin/x/main.nix", false, true, Ok(String::new()));
    assert!(matches!(same, Err(RelativeToParentError::InvalidParent(_))));
    let other = p.as_relative_to_parent("/home/v", false, true, Ok(String::new()));
    match other {
        Err(RelativeToParentError::InvalidParent(m)) => {
            assert_eq!(m, "'/home/v' is not a parent of '/home/u/proj/scripts/bin/x/main.nix' ")
        }
        _ => panic!("expected an invalid parent"),
    }
    let file = p.as_relative_to_parent("/home/u/proj", true, true, Ok(String::new()));
    match file {
        Err(RelativeToParentError::InvalidParent(m)) => assert_eq!(m, "path /home/u/proj is not a directory"),
        _ => panic!("expected an invalid parent"),
    }
    let missing = p.as_relative_to_parent("proj", false, false, Ok(String::new()));
    match missing {
        Err(RelativeToParentError::InvalidParent(m)) => assert_eq!(m, "path proj does not exist"),
        _ => panic!("expected an invalid parent"),
    }
    let relative = p.as_relative_to_parent("proj", false, true, Ok("/home/u/proj".to_string()));
    assert_eq!(relative.unwrap(), "./scripts/bin/x/main.nix");
}

fn std_components(p: &Path) -> Vec<String> {
    p.components().map(|c| c.as_os_str().to_string_lossy().to_string()).collect()
}

#[test]
fn relative_path_rejoins_parent() {
    for (parent, path) in [("/p", "/p/a/b.nix"), ("/", "/x"), ("/p/", "/p/q/r"), ("/a/b", "/a/b/./c//d")] {
        let rel = AbsolutePathBuf::File(path.to_string())
            .as_relative_to_parent(parent, false, true, Err(String::new()))
            .unwrap();
        assert!(rel.starts_with("./"));
        let below = std_components(Path::new(path)).split_off(std_components(Path::new(parent)).len());
        assert_eq!(std_components(Path::new(&rel))[1..].to_vec(), below, "{parent:?} {path:?}");
        let joined = Path::new(parent).join(&rel);
        assert_eq!(std_components(&joined), std_components(Path::new(path)), "{parent:?} {path:?}");
    }
}

#[test]
fn relative_to_parent_io_failure() {
    let p = AbsolutePathBuf::new("/p/a.nix".to_string(), true);
    match p.as_relative_to_parent("rel", false, true, Err("denied".to_string())) {
        Err(RelativeToParentError::Io(dir, m)) => {
            assert_eq!(dir, "rel");
            assert_eq!(m, "denied");
        }
        other => panic!("unexpected {other:?}"),
    }
    match p.as_relative_to_parent("rel", false, true, Ok("/q".to_string())) {
        Err(RelativeToParentError::InvalidParent(m)) => assert_eq!(m, "'rel' is not a parent of '/p/a.nix' "),
        other => panic!("unexpected {other:?}"),
    }
}
