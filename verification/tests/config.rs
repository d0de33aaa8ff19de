use mrx::attr::Attrname;
use mrx::config::{get_config_ignore, Config, ConfigToml, Entrypoint};
use mrx::mrx_build::{
    bin_dir, bin_script, bin_script_path, build_command, built_paths, shows_hook, with_bin_dir,
    BuildError, Options,
};
use mrx::nix_build::NixBuildOutput;
use mrx::nix_store_path::NixStorePath;

fn toml() -> ConfigToml {
    ConfigToml { ignore_file: None, generated_out_path: None, installables: None, entrypoint: None }
}

#[test]
fn entrypoint_kinds() {
    assert!(matches!(Entrypoint::try_from_path("./flake.nix".to_string()), Ok(Entrypoint::Flake(_))));
    assert!(matches!(Entrypoint::try_from_path("x/FLAKE.NIX".to_string()), Ok(Entrypoint::Flake(_))));
    assert!(matches!(Entrypoint::try_from_path("./default.nix".to_string()), Ok(Entrypoint::File(_))));
    assert!(Entrypoint::try_from_path("./flake.lock".to_string()).is_err());
    assert!(Entrypoint::try_from_path("./nix".to_string()).is_err());
}

#[test]
fn config_defaults() {
    let c = Config::from_toml("/p/mrx.toml".to_string(), toml(), false, true);
    assert_eq!(c.get_ignore_file(), "mrx.ignore");
    assert_eq!(c.get_generated_out_path(), "mrx.generated.toml");
    assert!(c.get_installables().is_empty());
    assert!(matches!(c.get_entrypoint(), Some(Entrypoint::File(p)) if p == "./default.nix"));
    assert_eq!(c.dir(true), "/p");
    assert_eq!(c.dir(false), "./");
    assert_eq!(c.state_dir(true), "/p/.mrx");
    let flake = Config::from_toml("mrx.toml".to_string(), toml(), true, true);
    assert!(matches!(flake.get_entrypoint(), Some(Entrypoint::Flake(p)) if p == "./flake.nix"));
    let none = Config::from_toml("mrx.toml".to_string(), toml(), false, false);
    assert!(none.get_entrypoint().is_none());
}

#[test]
fn config_settings_win() {
    let t = ConfigToml {
        ignore_file: Some("ignore.lst".to_string()),
        generated_out_path: Some("gen/out.nix".to_string()),
        installables: Some(vec!["#a".to_string()]),
        entrypoint: Some("./other.nix".to_string()),
    };
    let c = Config::from_toml("/p/mrx.toml".to_string(), t, true, false);
    assert_eq!(c.get_ignore_file(), "ignore.lst");
    assert_eq!(c.get_generated_out_path(), "gen/out.nix");
    assert_eq!(c.get_installables(), &vec!["#a".to_string()]);
    assert!(matches!(c.get_entrypoint(), Some(Entrypoint::File(p)) if p == "./other.nix"));
    assert_eq!(get_config_ignore(&c, true).as_deref(), Some("ignore.lst"));
    assert_eq!(get_config_ignore(&c, false), None);
    let mut bad = toml();
    bad.entrypoint = Some("./README.md".to_string());
    let c2 = Config::from_toml("/p/mrx.toml".to_string(), bad, true, false);
    assert!(matches!(c2.get_entrypoint(), Some(Entrypoint::Flake(_))));
}

#[test]
fn build_command_needs_entrypoint() {
    let none = Config::from_toml("mrx.toml".to_string(), toml(), false, false);
    assert!(matches!(build_command(&none), Err(BuildError::NoEntrypoint)));
    let mut t = toml();
    t.installables = Some(vec!["#x".to_string()]);
    let some = Config::from_toml("mrx.toml".to_string(), t, true, false);
    let cmd = build_command(&some).unwrap();
    assert_eq!(cmd.args(), vec!["build", "--no-warn-dirty", "--json", "--no-link", "--stdin"]);
    assert_eq!(cmd.stdin_input().as_deref(), Some("#x"));
}

#[test]
fn built_paths_prefer_bin() {
    let outputs = vec![
        NixBuildOutput { bin: Some(NixStorePath::new("/nix/store/b-x-bin".to_string())), out: None },
        NixBuildOutput { bin: None, out: Some(NixStorePath::new("/nix/store/o-y".to_string())) },
        NixBuildOutput {
            bin: Some(NixStorePath::new("/nix/store/b-z".to_string())),
            out: Some(NixStorePath::new("/nix/store/o-z".to_string())),
        },
    ];
    let paths = built_paths(outputs);
    assert_eq!(paths, vec!["/nix/store/b-x-bin", "/nix/store/o-y/bin", "/nix/store/b-z"]);
    let with = with_bin_dir(paths.clone(), "/p/.mrx/bin".to_string(), false);
    assert_eq!(with[0], "/p/.mrx/bin");
    assert_eq!(with.len(), 4);
    assert_eq!(with_bin_dir(paths.clone(), "/p/.mrx/bin".to_string(), true), paths);
}

#[test]
fn bin_directory_and_scripts() {
    let c = Config::from_toml("/p/mrx.toml".to_string(), toml(), true, false);
    assert_eq!(bin_dir(&c, true), "/p/.mrx/bin");
    assert_eq!(bin_dir(&c, false), "./.mrx/bin");
    let a = Attrname("_.tool".to_string());
    assert_eq!(bin_script_path("/p/.mrx/bin", &a), "/p/.mrx/bin/_.tool");
    assert_eq!(
        bin_script(&a, "/usr/bin/mrx", "exec tool\n"),
        "export __MRX_DERIVATION=_.tool\nexport __MRX_THIS_MRX_BIN=/usr/bin/mrx\n\nexec tool\n"
    );
}

#[test]
fn hook_shown_only_with_bins() {
    let o = |hook: bool, skip_bin: bool| Options { generate: false, hook, skip_bin, config: None };
    assert!(shows_hook(&o(true, false)));
    assert!(!shows_hook(&o(true, true)));
    assert!(!shows_hook(&o(false, false)));
}
