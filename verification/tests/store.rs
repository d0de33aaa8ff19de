use mrx::config::Entrypoint;
use mrx::json::{field, JsonValue};
use mrx::nix_build::{command_string, outputs_from_json, NixBuildCommand, NixBuildError, NixBuildOutput};
use mrx::nix_references::{NixReferencesCommand, NixReferencesError};
use mrx::nix_store_path::{is_store_path_str, MrxNixStorePath, NixStorePath};
use mrx::text::split_ascii_whitespace;

fn store(p: &str) -> NixStorePath {
    NixStorePath::new(p.to_string())
}

fn obj(fields: Vec<(&str, JsonValue)>) -> JsonValue {
    JsonValue::Object(fields.into_iter().map(|(k, v)| (k.to_string(), v)).collect())
}

fn s(v: &str) -> JsonValue {
    JsonValue::String(v.to_string())
}

#[test]
fn store_path_forms() {
    assert!(matches!(store("/nix/store/abc-hello"), NixStorePath::OutDir(_)));
    assert!(matches!(store("/nix/store/abc-hello/bin"), NixStorePath::BinDir(_)));
    assert!(matches!(store("/nix/store/abc-hello/bin/"), NixStorePath::BinDir(_)));
    assert!(matches!(store("/nix/store/abc-hello/bin/hello"), NixStorePath::Exe(_)));
    match store("/nix/store/abc-_.tools.fmt") {
        NixStorePath::MrxOutDir(MrxNixStorePath(p, a)) => {
            assert_eq!(p, "/nix/store/abc-_.tools.fmt");
            assert_eq!(a.as_str(), "_.tools.fmt");
        }
        other => panic!("unexpected {other:?}"),
    }
    match store("/nix/store/abc-_.tools.fmt/bin") {
        // the handle is everything after the first `-`
        NixStorePath::MrxBinDir(MrxNixStorePath(_, a)) => assert_eq!(a.as_str(), "_.tools.fmt/bin"),
        other => panic!("unexpected {other:?}"),
    }
    assert!(matches!(store("/nix/store/abc-_.tools.fmt/bin/x"), NixStorePath::MrxExe(_)));
}

#[test]
fn store_path_text_round_trips() {
    for p in [
        "/nix/store/abc-hello",
        "/nix/store/abc-hello/bin",
        "/nix/store/abc-_.a/bin/",
        "/nix/store/abc-_.a/bin/_.a",
    ] {
        assert_eq!(store(p).into_string(), p);
        assert_eq!(store(p).as_str(), p);
        assert_eq!(store(p).to_path(), p);
    }
}

#[test]
fn store_path_parse_refuses_other_paths() {
    assert!(NixStorePath::parse("/usr/bin/env".to_string()).is_none());
    assert!(NixStorePath::parse("/nix/store/nohash".to_string()).is_none());
    assert!(NixStorePath::parse("/nix/store/h-x".to_string()).is_some());
    assert!(is_store_path_str("/nix/store/h-x"));
    assert!(!is_store_path_str("nix/store/h-x"));
}

#[test]
fn store_path_attrname_only_for_mrx_bin_dirs() {
    assert_eq!(store("/nix/store/h-_.a/bin").as_attrname().map(|a| a.as_str().to_string()), Some("_.a/bin".to_string()));
    assert!(store("/nix/store/h-_.a").as_attrname().is_none());
    assert!(store("/nix/store/h-_.a/bin/x").as_attrname().is_none());
}

#[test]
fn store_path_into_mrx_exe() {
    assert_eq!(
        store("/nix/store/h-_.a").into_mrx_exe().map(NixStorePath::into_string),
        Some("/nix/store/h-_.a/bin/_.a".to_string())
    );
    assert_eq!(
        store("/nix/store/h-_.a/bin/").into_mrx_exe().map(NixStorePath::into_string),
        Some("/nix/store/h-_.a/bin/_.a/bin/".to_string())
    );
    assert_eq!(
        store("/nix/store/h-_.a/bin/tool").into_mrx_exe().map(NixStorePath::into_string),
        Some("/nix/store/h-_.a/bin/tool".to_string())
    );
    let once = store("/nix/store/h-_.a").into_mrx_exe().unwrap();
    let twice = store("/nix/store/h-_.a").into_mrx_exe().unwrap().into_mrx_exe().unwrap();
    assert_eq!(twice.as_str(), once.as_str());
    assert!(store("/nix/store/h-plain").into_mrx_exe().is_none());
    assert!(store("/nix/store/h-plain/bin").into_mrx_exe().is_none());
}

#[test]
fn build_args_for_flake_and_file() {
    let drvs = vec!["#a".to_string(), "#b".to_string()];
    let flake = NixBuildCommand::new(Entrypoint::Flake("./flake.nix".to_string()), &drvs);
    assert_eq!(flake.args(), vec!["build", "--no-warn-dirty", "--json", "--no-link", "--stdin"]);
    assert_eq!(flake.stdin_input().as_deref(), Some("#a\n#b"));
    let none: Vec<String> = vec![];
    let file = NixBuildCommand::new(Entrypoint::File("./default.nix".to_string()), &none);
    assert_eq!(
        file.args(),
        vec!["build", "--no-warn-dirty", "--json", "--no-link", "--file", "./default.nix"]
    );
    assert_eq!(file.stdin_input(), None);
    assert_eq!(command_string(&file.args()), "build --no-warn-dirty --json --no-link --file ./default.nix");
}

#[test]
fn build_outputs_from_json() {
    let doc = JsonValue::Array(vec![
        obj(vec![
            ("drvPath", s("/nix/store/d-x.drv")),
            ("outputs", obj(vec![("out", s("/nix/store/o-_.x"))])),
        ]),
        obj(vec![(
            "outputs",
            obj(vec![("bin", s("/nix/store/b-y-bin")), ("out", s("/nix/store/o-y"))]),
        )]),
        obj(vec![("outputs", obj(vec![("bin", JsonValue::Null), ("out", s("/nix/store/o-z"))]))]),
    ]);
    let outs = NixBuildCommand::outputs(true, b"", Some(doc)).unwrap();
    assert_eq!(outs.len(), 3);
    assert!(outs[0].bin.is_none());
    assert!(matches!(&outs[0].out, Some(NixStorePath::MrxOutDir(_))));
    assert_eq!(outs[1].bin.as_ref().map(|p| p.as_str()), Some("/nix/store/b-y-bin"));
    assert_eq!(outs[1].out.as_ref().map(|p| p.as_str()), Some("/nix/store/o-y"));
    assert!(outs[2].bin.is_none());
}

#[test]
fn build_outputs_refused() {
    let not_array = obj(vec![]);
    assert!(matches!(NixBuildCommand::outputs(true, b"", Some(not_array)), Err(NixBuildError::Deserialization)));
    assert!(matches!(NixBuildCommand::outputs(true, b"", None), Err(NixBuildError::Deserialization)));
    let no_outputs = JsonValue::Array(vec![obj(vec![("drvPath", s("/nix/store/d-x.drv"))])]);
    assert!(matches!(NixBuildCommand::outputs(true, b"", Some(no_outputs)), Err(NixBuildError::Deserialization)));
    let empty_outputs = JsonValue::Array(vec![obj(vec![("outputs", obj(vec![("lib", s("/nix/store/l-x"))]))])]);
    assert!(matches!(
        NixBuildCommand::outputs(true, b"", Some(empty_outputs)),
        Err(NixBuildError::Deserialization)
    ));
    let not_store = JsonValue::Array(vec![obj(vec![("outputs", obj(vec![("out", s("/tmp/x"))]))])]);
    assert!(outputs_from_json(Some(not_store)).is_none());
    assert_eq!(outputs_from_json(Some(JsonValue::Array(vec![]))).map(|v| v.len()), Some(0));
}

#[test]
fn build_failure_reports_stderr_lossily() {
    match NixBuildCommand::outputs(false, b"error: bad \xff input", None) {
        Err(NixBuildError::Failed(m)) => assert_eq!(m, "error: bad \u{FFFD} input"),
        other => panic!("unexpected {other:?}"),
    }
}

#[test]
fn build_output_single_entry() {
    let item = obj(vec![("outputs", obj(vec![("bin", s("/nix/store/b-q/bin"))]))]);
    let o: NixBuildOutput = NixBuildOutput::from_json(&item).unwrap();
    assert!(matches!(o.bin, Some(NixStorePath::BinDir(_))));
    assert!(o.out.is_none());
}

#[test]
fn json_field_lookup() {
    let fields = vec![("a".to_string(), JsonValue::Bool(true)), ("b".to_string(), JsonValue::Number("1".to_string()))];
    assert!(matches!(field(&fields, "a"), Some(JsonValue::Bool(true))));
    assert!(matches!(field(&fields, "b"), Some(JsonValue::Number(n)) if n == "1"));
    assert!(field(&fields, "c").is_none());
}

#[test]
fn references_args_and_output() {
    let paths = vec![store("/nix/store/a-x"), store("/nix/store/b-_.y")];
    let cmd = NixReferencesCommand::new(&paths);
    assert_eq!(cmd.args(), vec!["--query", "--requisites", "/nix/store/a-x", "/nix/store/b-_.y"]);
    let out = NixReferencesCommand::output(true, b"/nix/store/a-x\n  /nix/store/b-_.y\t\r\n", b"").unwrap();
    let texts: Vec<&str> = out.store_paths.iter().map(|p| p.as_str()).collect();
    assert_eq!(texts, vec!["/nix/store/a-x", "/nix/store/b-_.y"]);
    assert!(matches!(out.store_paths[1], NixStorePath::MrxOutDir(_)));
    let empty = NixReferencesCommand::output(true, b"  \n", b"").unwrap();
    assert!(empty.store_paths.is_empty());
}

#[test]
fn references_refused() {
    match NixReferencesCommand::output(true, b"/nix/store/a-x\nwarning:\n", b"") {
        Err(NixReferencesError::NotAStorePath(w)) => assert_eq!(w, "warning:"),
        other => panic!("unexpected {other:?}"),
    }
    match NixReferencesCommand::output(false, b"", b"no such path") {
        Err(NixReferencesError::Failed(m)) => assert_eq!(m, "no such path"),
        other => panic!("unexpected {other:?}"),
    }
}

#[test]
fn ascii_whitespace_words() {
    assert_eq!(split_ascii_whitespace(" a  b\tc\n"), vec!["a", "b", "c"]);
    assert_eq!(split_ascii_whitespace(""), Vec::<String>::new());
    assert_eq!(split_ascii_whitespace("x\u{000C}y"), vec!["x", "y"]);
    assert_eq!(split_ascii_whitespace("\u{00A0}z"), vec!["\u{00A0}z"]);
    let std_words: Vec<String> = "  one two\r\nthree ".split_ascii_whitespace().map(String::from).collect();
    assert_eq!(split_ascii_whitespace("  one two\r\nthree "), std_words);
}

#[test]
fn build_outputs_read_from_stdout() {
    let stdout = br#"[{"drvPath":"/nix/store/d-x.drv","outputs":{"bin":"/nix/store/b-x-bin","out":"/nix/store/o-_.x"}},
        {"outputs":{"out":"/nix/store/o-y"}}]"#;
    let outs = NixBuildCommand::outputs_from_stdout(true, stdout, b"").unwrap();
    assert_eq!(outs.len(), 2);
    assert_eq!(outs[0].bin.as_ref().map(|p| p.as_str()), Some("/nix/store/b-x-bin"));
    assert!(matches!(&outs[0].out, Some(NixStorePath::MrxOutDir(_))));
    assert!(outs[1].bin.is_none());
    assert_eq!(outs[1].out.as_ref().map(|p| p.as_str()), Some("/nix/store/o-y"));
    assert_eq!(NixBuildCommand::outputs_from_stdout(true, b"[]", b"").map(|v| v.len()).ok(), Some(0));
}

#[test]
fn build_stdout_that_is_not_the_json_expected_is_refused() {
    assert!(matches!(
        NixBuildCommand::outputs_from_stdout(true, b"not json", b""),
        Err(NixBuildError::Deserialization)
    ));
    assert!(matches!(
        NixBuildCommand::outputs_from_stdout(true, br#"{"outputs":{}}"#, b""),
        Err(NixBuildError::Deserialization)
    ));
    assert!(matches!(
        NixBuildCommand::outputs_from_stdout(true, br#"[{"outputs":{"out":"/tmp/x"}}]"#, b""),
        Err(NixBuildError::Deserialization)
    ));
    match NixBuildCommand::outputs_from_stdout(false, b"[]", b"boom \xff") {
        Err(NixBuildError::Failed(m)) => assert_eq!(m, "boom \u{FFFD}"),
        other => panic!("unexpected {other:?}"),
    }
}

#[test]
fn store_path_copy_keeps_text() {
    for p in [
        "/nix/store/abc-hello",
        "/nix/store/abc-hello/bin",
        "/nix/store/abc-hello/bin/hello",
        "/nix/store/abc-_.tools.fmt",
        "/nix/store/abc-_.tools.fmt/bin",
        "/nix/store/abc-_.tools.fmt/bin/_.tools.fmt",
    ] {
        let s = store(p);
        let copy = s.duplicate();
        assert_eq!(copy.as_attrname().map(|a| a.as_str().to_string()), s.as_attrname().map(|a| a.as_str().to_string()));
        assert_eq!(copy.into_string(), s.as_str());
        assert_eq!(s.as_str(), p);
    }
}
