use mrx::ast::{FileReadError, NixAst, NixAstNodes, NixAstNodesError};
use mrx::attr::{AttrKind, Attrname, AttrnameError, PathAttr, PathAttrset, PathAttrsetError};
use mrx::file_path::{AbsoluteFilePathBuf, AbsoluteFilePathBufError, FileResolution};
use mrx::fs::{AbsolutePathBuf, AbsolutePathBufError};
use mrx::text::{
    chars_of, join_strings, replace_first_chars, sort_strings, str_less,
};

fn replace_first(s: &str, from: &str, to: &str) -> String {
    replace_first_chars(&chars_of(s), &chars_of(from), &chars_of(to)).iter().collect()
}

#[test]
fn replace_first_matches_replacen() {
    for (s, from, to) in [
        ("_.a._.b", "_.", ""),
        ("abc", "x", "y"),
        ("aaa", "aa", "b"),
        ("", "", "z"),
        ("ab", "", "-"),
        ("xyz", "xyz", ""),
    ] {
        assert_eq!(replace_first(s, from, to), s.replacen(from, to, 1), "{s:?} {from:?} {to:?}");
    }
}

#[test]
fn strings_round_trip_through_chars() {
    for s in ["", "plain", "ünïcødé ✓", "a\nb"] {
        assert_eq!(chars_of(s).iter().collect::<String>(), s);
        assert_eq!(join_strings(&[s.to_string()], "-"), s);
    }
    assert_eq!(join_strings(&["ü".to_string(), "ß".to_string()], "→"), "ü→ß");
}

#[test]
fn join_and_sort() {
    let v: Vec<String> = ["b", "a", "", "ab"].iter().map(|s| s.to_string()).collect();
    assert_eq!(join_strings(&v, ", "), "b, a, , ab");
    assert_eq!(join_strings(&[], "x"), "");
    assert_eq!(sort_strings(v), vec!["", "a", "ab", "b"]);
    assert!(str_less("a", "b"));
    assert!(str_less("a", "ab"));
    assert!(!str_less("b", "ab"));
    assert!(!str_less("x", "x"));
}

#[test]
fn attrnames() {
    assert_eq!(Attrname::try_from_str("_.a.b").unwrap().as_str(), "_.a.b");
    assert!(matches!(Attrname::try_from_str("a.b"), Err(AttrnameError::Name(n)) if n == "a.b"));
    assert!(Attrname::try_from_str("_.mrx.x").unwrap().is_internal());
    assert!(!Attrname::try_from_str("_.mr").unwrap().is_internal());
    assert_eq!(Attrname::try_from_path("./a/scripts/lib/b/main.nix").unwrap().as_str(), "_.a.lib.b");
    assert!(matches!(Attrname::try_from_path("a/main.nix"), Err(AttrnameError::Path(_))));
}

#[test]
fn nix_source_expressions() {
    let nodes = NixAstNodes::from_source("{ a = _.x.y; b = ./p.nix; c = ./dir/.; d = import _/name; }");
    let mut derivations = vec![];
    let mut simple = vec![];
    let mut dirs = vec![];
    let mut own = 0;
    for n in &nodes.0 {
        match n {
            NixAst::MrxDerivation { name } => derivations.push(name.clone()),
            NixAst::SimplePath { path } => simple.push(path.clone()),
            NixAst::NixDirectoryPath { path } => dirs.push(path.clone()),
            NixAst::ImportOwnNameModuleExpression => own += 1,
        }
    }
    assert_eq!(derivations, vec!["_.x.y"]);
    assert_eq!(simple, vec!["./p.nix", "_/name"]);
    assert_eq!(dirs, vec!["./dir/."]);
    assert_eq!(own, 1);
    assert_eq!(nodes.len(), 5);
}

#[test]
fn nix_file_contents() {
    assert!(NixAstNodes::check_path("./a.nix").is_ok());
    assert!(matches!(NixAstNodes::check_path("./a.txt"), Err(NixAstNodesError::NotNix(p)) if p == "./a.txt"));
    let ok = NixAstNodes::from_file_contents("./a.nix", Ok(b"./b.nix".to_vec())).unwrap();
    assert_eq!(ok.len(), 1);
    assert!(matches!(
        NixAstNodes::from_file_contents("./a.nix", Ok(vec![0xc3])),
        Err(NixAstNodesError::MissingOrInvalidFile(p)) if p == "./a.nix"
    ));
    assert!(matches!(
        NixAstNodes::from_file_contents("./a.nix", Err(FileReadError::NotFound)),
        Err(NixAstNodesError::MissingOrInvalidFile(_))
    ));
    assert!(matches!(
        NixAstNodes::from_file_contents("./a.nix", Err(FileReadError::Other("denied".to_string()))),
        Err(NixAstNodesError::Io(m)) if m == "denied"
    ));
}

#[test]
fn file_paths_relative_to_a_file() {
    let rel: Result<AbsoluteFilePathBuf, AbsoluteFilePathBufError> = Ok(AbsoluteFilePathBuf("/a/b/c.nix".to_string()));
    match AbsoluteFilePathBuf::try_from_relative("../d/e.nix", false, &rel).unwrap() {
        FileResolution::Canonicalize(p) => assert_eq!(p, "/a/d/e.nix"),
        other => panic!("unexpected {other:?}"),
    }
    match AbsoluteFilePathBuf::try_from_relative("/x/y.nix", true, &rel).unwrap() {
        FileResolution::Ready(p) => assert_eq!(p.0, "/x/y.nix"),
        other => panic!("unexpected {other:?}"),
    }
    assert!(matches!(
        AbsoluteFilePathBuf::try_from_relative("x.nix", true, &rel),
        Ok(FileResolution::Canonicalize(p)) if p == "x.nix"
    ));
    assert!(matches!(
        AbsoluteFilePathBuf::try_from_relative("/x", false, &rel),
        Err(AbsoluteFilePathBufError::NotAFile(p)) if p == "/x"
    ));
    assert!(matches!(
        AbsoluteFilePathBuf::try_from_relative("../../../z", false, &rel),
        Err(AbsoluteFilePathBufError::NotFound(p)) if p == "/../"
    ));
    let failed: Result<AbsoluteFilePathBuf, AbsoluteFilePathBufError> =
        Err(AbsoluteFilePathBufError::Io("/r".to_string(), "denied".to_string()));
    assert!(matches!(
        AbsoluteFilePathBuf::try_from_relative("z", false, &failed),
        Err(AbsoluteFilePathBufError::Io(p, m)) if p == "/r" && m == "denied"
    ));
    assert!(AbsoluteFilePathBuf("/a/B.NIX".to_string()).is_nix());
    assert!(!AbsoluteFilePathBuf("/a/b.txt".to_string()).is_nix());
}

#[test]
fn file_path_canonical_forms() {
    assert_eq!(AbsoluteFilePathBuf::from_canonical("x", Ok("/p/x".to_string())).unwrap().0, "/p/x");
    assert!(matches!(
        AbsoluteFilePathBuf::from_canonical("x", Err(FileReadError::NotFound)),
        Err(AbsoluteFilePathBufError::NotFound(p)) if p == "x"
    ));
    assert!(matches!(
        AbsoluteFilePathBuf::from_canonical("x", Err(FileReadError::Other("e".to_string()))),
        Err(AbsoluteFilePathBufError::Io(p, m)) if p == "x" && m == "e"
    ));
    let rel = AbsoluteFilePathBuf("/p/a/b.nix".to_string());
    assert_eq!(rel.as_relative_to_parent("/p", false, true, Err(String::new())).unwrap(), "./a/b.nix");
}

#[test]
fn absolute_paths_from_disk_facts() {
    assert_eq!(AbsolutePathBuf::probe_target("./lib", true), "./lib/default.nix");
    assert_eq!(AbsolutePathBuf::probe_target("./lib", false), "./lib");
    assert!(matches!(
        AbsolutePathBuf::from_probe("/p/x", Ok(true), Err(FileReadError::NotFound)),
        Ok(AbsolutePathBuf::File(p)) if p == "/p/x"
    ));
    assert!(matches!(
        AbsolutePathBuf::from_probe("x", Ok(false), Ok("/p/x".to_string())),
        Ok(AbsolutePathBuf::Directory(p)) if p == "/p/x"
    ));
    assert!(matches!(
        AbsolutePathBuf::from_probe("x", Err(FileReadError::NotFound), Ok("/p/x".to_string())),
        Err(AbsolutePathBufError::NotFound)
    ));
    assert!(matches!(
        AbsolutePathBuf::from_probe("x", Ok(true), Err(FileReadError::Other("e".to_string()))),
        Err(AbsolutePathBufError::Io(m)) if m == "e"
    ));
}

#[test]
fn path_attrs_and_their_kinds() {
    assert_eq!(PathAttr::new("./scripts/bin/x/main.nix").kind(), AttrKind::Bin);
    assert!(PathAttr::new("./scripts/bin/x/main.nix").is_bin());
    assert_eq!(PathAttr::new("./a/scripts/lib/x/main.nix").kind(), AttrKind::Lib);
    assert_eq!(PathAttr::new("./pkg/x/main.nix").kind(), AttrKind::Pkg);
    assert_eq!(PathAttr::new("./x/main.nix").kind(), AttrKind::Other);
    assert_eq!(PathAttr::new("./x/main.nix").as_path(), "./x/main.nix");
    match PathAttrset::new(&vec!["./ok/main.nix".to_string(), "bad/main.nix".to_string(), "x".to_string()]) {
        Err(PathAttrsetError::Attrname(AttrnameError::Path(p))) => assert_eq!(p, "bad/main.nix"),
        other => panic!("unexpected {other:?}"),
    }
    let mut set = PathAttrset::new(&vec!["./a/main.nix".to_string()]).unwrap();
    set.add("./b/scripts/util/c/main.nix").unwrap();
    set.add("./a/main.nix").unwrap();
    assert_eq!(set.len(), 2);
    assert_eq!(set.get("_.b.util.c").map(|a| a.as_path().to_string()), Some("./b/scripts/util/c/main.nix".to_string()));
    assert!(set.get("_.c").is_none());
    let mut names: Vec<String> = (0..set.len()).map(|i| set.entry(i).0.as_str().to_string()).collect();
    names.sort();
    assert_eq!(names, vec!["_.a", "_.b.util.c"]);
}
