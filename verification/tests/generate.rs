use mrx::ast::{NixAstNodes, NixAstNodesError};
use mrx::attr::{Attrname, PathAttrset};
use mrx::config::{Config, ConfigToml};
use mrx::generate::{
    barrel_file_text, barrel_plan, imports_own_name, name_file_plan, needs_write, GenerateError,
};
use mrx::hook::hook;

fn toml() -> ConfigToml {
    ConfigToml { ignore_file: None, generated_out_path: None, installables: None, entrypoint: None }
}

fn attrset(paths: &[&str]) -> PathAttrset {
    PathAttrset::new(&paths.iter().map(|p| p.to_string()).collect()).unwrap()
}

#[test]
fn barrel_text_exact() {
    let entries = vec![
        ("_.a.b".to_string(), "./a/b/main.nix".to_string()),
        ("_.c".to_string(), "./c/main.nix".to_string()),
    ];
    assert_eq!(
        barrel_file_text(&entries, 2),
        "{\n  a.b = ../.././a/b/main.nix;\n  c = ../.././c/main.nix;\n}\n"
    );
    assert_eq!(barrel_file_text(&vec![], 0), "{\n}\n");
    let odd = vec![("x_.y".to_string(), "./p".to_string())];
    assert_eq!(barrel_file_text(&odd, 0), "{\n  xy = ./p;\n}\n");
}

#[test]
fn barrel_plan_sorts_handles() {
    let config = Config::from_toml("/p/mrx.toml".to_string(), toml(), true, false);
    let set = attrset(&["./zeta/main.nix", "./alpha/beta/main.nix", "./scripts/bin/run/main.nix"]);
    let plan = barrel_plan(&config, true, &set).unwrap();
    assert_eq!(plan.destination, "/p/mrx.generated.toml");
    assert_eq!(plan.directory, "/p");
    let names: Vec<&str> = plan.entries.iter().map(|(n, _)| n.as_str()).collect();
    assert_eq!(names, vec!["_.alpha.beta", "_.run", "_.zeta"]);
    assert_eq!(
        plan.text,
        "{\n  alpha.beta = .././alpha/beta/main.nix;\n  run = .././scripts/bin/run/main.nix;\n  zeta = .././zeta/main.nix;\n}\n"
    );
}

#[test]
fn barrel_plan_in_current_directory() {
    let config = Config::from_toml("mrx.toml".to_string(), toml(), false, false);
    let plan = barrel_plan(&config, false, &attrset(&[])).unwrap();
    assert_eq!(plan.destination, "./mrx.generated.toml");
    assert_eq!(plan.directory, ".");
    assert_eq!(plan.text, "{\n}\n");
}

#[test]
fn barrel_plan_refuses_root() {
    let mut t = toml();
    t.generated_out_path = Some("/".to_string());
    let config = Config::from_toml("/p/mrx.toml".to_string(), t, false, false);
    match barrel_plan(&config, true, &attrset(&[])) {
        Err(GenerateError::InvalidDestination(m)) => assert_eq!(m, "'/' has no parent"),
        other => panic!("unexpected {other:?}"),
    }
}

#[test]
fn name_files_for_modules_importing_their_name() {
    let name = Attrname("_.svc.api".to_string());
    let asts: Result<NixAstNodes, NixAstNodesError> =
        Ok(NixAstNodes::from_source("{ name = import _/name; }"));
    assert!(imports_own_name(asts.as_ref().unwrap()));
    let plan = name_file_plan(&name, "./svc/api/main.nix", &asts).unwrap();
    assert_eq!(plan.directory, "./svc/api/_/name");
    assert_eq!(plan.file, "./svc/api/_/name/default.nix");
    assert_eq!(plan.text, "# GENERATED CODE\n\"_.svc.api\"\n");
    let dotted: Result<NixAstNodes, NixAstNodesError> = Ok(NixAstNodes::from_source("import ./_/name"));
    assert!(name_file_plan(&name, "./svc/api/main.nix", &dotted).is_some());
}

#[test]
fn no_name_file_otherwise() {
    let name = Attrname("_.x".to_string());
    let plain: Result<NixAstNodes, NixAstNodesError> = Ok(NixAstNodes::from_source("{ a = 1; }"));
    assert!(!imports_own_name(plain.as_ref().unwrap()));
    assert!(name_file_plan(&name, "./x/main.nix", &plain).is_none());
    let unread: Result<NixAstNodes, NixAstNodesError> =
        Err(NixAstNodesError::MissingOrInvalidFile("./x/main.nix".to_string()));
    assert!(name_file_plan(&name, "./x/main.nix", &unread).is_none());
}

#[test]
fn name_file_written_only_when_changed() {
    let text = "# GENERATED CODE\n\"_.é\"\n";
    assert!(needs_write(&None, text));
    assert!(!needs_write(&Some(text.as_bytes().to_vec()), text));
    assert!(needs_write(&Some(b"# GENERATED CODE\n".to_vec()), text));
    let mut changed = text.as_bytes().to_vec();
    changed[3] = b'X';
    assert!(needs_write(&Some(changed), text));
}

#[test]
fn hook_lists_executables_sorted() {
    let set = attrset(&[
        "./scripts/bin/zz/main.nix",
        "./lib/main.nix",
        "./scripts/bin/aa/main.nix",
        "./tools/scripts/bin/mid/main.nix",
    ]);
    let bins: Vec<String> = hook(&set).iter().map(|a| a.as_str().to_string()).collect();
    assert_eq!(bins, vec!["_.aa", "_.tools.mid", "_.zz"]);
}

#[test]
fn every_handle_starts_with_prefix() {
    let set = attrset(&["./x/main.nix", "./scripts/bin/y/main.nix", "./a/b/c/main.nix", "./main.nix"]);
    let pairs = set.name_path_pairs();
    assert_eq!(pairs.len(), 4);
    assert!(pairs.iter().all(|(name, _)| name.starts_with("_.")));
    assert!(pairs.iter().any(|(name, path)| name == "_." && path == "./main.nix"));
}
