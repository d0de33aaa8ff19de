use mrx::attr::Attrname;
use mrx::cache::{
    build_targets, cache_attrnames, database_dir, database_path, is_stale, mrx_exes, mtime_target,
    dependency_nodes, out_paths, reference_paths, stale_plan, BuildStrategy, CacheError, ConnectError,
    MtimeTarget, SearchStep, StaleNodeInfo, store_write_step, StoreWriteStep, StaleProbe, StaleSearch, UnixSeconds, WriteStoreError,
};
use mrx::fs::AbsolutePathBuf;
use mrx::graph::{Graph, GraphNode};
use mrx::graph_builder::{GraphBuilder, GraphStep};
use mrx::nix_build::NixBuildOutput;
use mrx::nix_store_path::NixStorePath;

fn secs(n: i64) -> UnixSeconds {
    UnixSeconds::from(n)
}

fn names(v: &[&str]) -> Vec<Attrname> {
    v.iter().map(|s| Attrname(s.to_string())).collect()
}

fn store(p: &str) -> NixStorePath {
    NixStorePath::new(p.to_string())
}

fn info(attrname_idx: usize, node_idx: usize) -> StaleNodeInfo {
    StaleNodeInfo { attrname_idx, node_idx, mtime: secs(1) }
}

#[test]
fn unix_seconds_are_never_negative() {
    assert_eq!(secs(-5).to_sql(), 0);
    assert_eq!(secs(0).to_sql(), 0);
    assert_eq!(secs(42).to_sql(), 42);
    assert_eq!(UnixSeconds::from_seconds(-1).to_sql(), 0);
    assert_eq!(UnixSeconds::default().to_sql(), 0);
    assert!(secs(1).is_before(&secs(2)));
    assert!(!secs(2).is_before(&secs(2)));
}

#[test]
fn staleness() {
    assert_eq!(is_stale(None, secs(10)).map(UnixSeconds::to_sql), Some(10));
    assert_eq!(is_stale(Some(secs(5)), secs(10)).map(UnixSeconds::to_sql), Some(10));
    assert_eq!(is_stale(Some(secs(10)), secs(10)), None);
    assert_eq!(is_stale(Some(secs(11)), secs(10)), None);
}

#[test]
fn missing_alias_is_retried() {
    assert!(WriteStoreError::MissingAlias.is_missing_alias());
    assert!(!WriteStoreError::DbError.is_missing_alias());
}

#[test]
fn derivations_are_required() {
    match cache_attrnames(&vec![]) {
        Err(CacheError::Static(m)) => {
            assert_eq!(m, "No derivations provided. Provide at least one as a positional argument.")
        }
        other => panic!("unexpected {other:?}"),
    }
    let got = cache_attrnames(&vec!["_.a".to_string(), "b".to_string()]).unwrap();
    assert_eq!(got.iter().map(|a| a.as_str()).collect::<Vec<_>>(), vec!["_.a", "b"]);
}

#[test]
fn targets_are_flake_fragments() {
    assert_eq!(build_targets(&names(&["_.a", "_.b.c"])), vec!["#_.a", "#_.b.c"]);
    assert!(build_targets(&vec![]).is_empty());
}

#[test]
fn strategy_builds_stale_handles_once_per_run() {
    let attrs = names(&["_.a", "_.b", "_.c"]);
    let stale = vec![info(1, 0), info(1, 4), info(0, 2), info(1, 3), info(7, 1)];
    assert!(!BuildStrategy::needs_cached_paths(&stale));
    match BuildStrategy::new(&attrs, &stale, vec![]) {
        BuildStrategy::Build(v) => {
            assert_eq!(v.iter().map(|a| a.as_str()).collect::<Vec<_>>(), vec!["_.b", "_.a", "_.b"])
        }
        other => panic!("unexpected {other:?}"),
    }
}

#[test]
fn strategy_uses_cached_paths() {
    let attrs = names(&["_.a", "_.b"]);
    assert!(BuildStrategy::needs_cached_paths(&vec![]));
    let cached = vec![None, Some(store("/nix/store/h-_.b/bin"))];
    match BuildStrategy::new(&attrs, &vec![], cached) {
        BuildStrategy::UseCached(v) => {
            assert_eq!(v.iter().map(|p| p.as_str()).collect::<Vec<_>>(), vec!["/nix/store/h-_.b/bin"])
        }
        other => panic!("unexpected {other:?}"),
    }
    match BuildStrategy::new(&attrs, &vec![], vec![None, None]) {
        BuildStrategy::Build(v) => assert_eq!(v.len(), 2),
        other => panic!("unexpected {other:?}"),
    }
}

#[test]
fn references_map_to_executables() {
    let refs = reference_paths(vec![
        store("/nix/store/a-_.x"),
        store("/nix/store/b-_.y/bin/"),
        store("/nix/store/c-_.z/bin/tool"),
        store("/nix/store/d-glibc"),
    ]);
    let got: Vec<(String, String)> =
        refs.into_iter().map(|(p, a)| (p.into_string(), a.as_str().to_string())).collect();
    assert_eq!(
        got,
        vec![
            ("/nix/store/a-_.x/bin/_.x".to_string(), "_.x".to_string()),
            ("/nix/store/b-_.y/bin/_.y/bin/".to_string(), "_.y/bin/".to_string()),
            ("/nix/store/c-_.z/bin/tool".to_string(), "_.z/bin/tool".to_string()),
        ]
    );
}

#[test]
fn out_paths_and_executables() {
    let outputs = vec![
        NixBuildOutput { bin: Some(store("/nix/store/b-x/bin")), out: None },
        NixBuildOutput { bin: None, out: Some(store("/nix/store/o-_.y")) },
        NixBuildOutput { bin: None, out: Some(store("/nix/store/o-plain")) },
    ];
    let outs = out_paths(outputs);
    assert_eq!(outs.iter().map(|p| p.as_str()).collect::<Vec<_>>(), vec!["/nix/store/o-_.y", "/nix/store/o-plain"]);
    let exes = mrx_exes(outs);
    assert_eq!(exes.into_iter().map(NixStorePath::into_string).collect::<Vec<_>>(), vec!["/nix/store/o-_.y/bin/_.y"]);
}

#[test]
fn database_locations() {
    assert_eq!(database_path(None).unwrap(), "~/.cache/mrx/main.db");
    assert_eq!(database_path(Some(Ok("/tmp/x.db".to_string()))).unwrap(), "/tmp/x.db");
    assert!(matches!(database_path(Some(Err(()))), Err(ConnectError::Environment)));
    assert_eq!(database_dir("/tmp/cache/main.db"), "/tmp/cache");
    assert_eq!(database_dir("/tmp/cache"), "/tmp/cache");
}

#[test]
fn mtime_records_under_handle_or_path() {
    let with = GraphNode { path: AbsolutePathBuf::File("/p/a.nix".to_string()), derivation: Some(Attrname("_.a".to_string())) };
    match mtime_target(&with) {
        MtimeTarget::Alias(a, p) => {
            assert_eq!(a.as_str(), "_.a");
            assert_eq!(p.as_path(), "/p/a.nix");
        }
        other => panic!("unexpected {other:?}"),
    }
    let without = GraphNode::from_path(AbsolutePathBuf::File("/p/b.nix".to_string()));
    assert!(matches!(mtime_target(&without), MtimeTarget::Node(p) if p.as_path() == "/p/b.nix"));
}

fn small_graph() -> Graph {
    // 0 = flake (entry), 1 = _.a, 2 = _.b; flake -> a, a -> b, a -> generated
    let mut b = GraphBuilder::new(AbsolutePathBuf::File("/p/flake.nix".to_string()));
    b.add_known(Attrname("_.a".to_string()), Ok(AbsolutePathBuf::File("/p/a/main.nix".to_string())))
        .unwrap();
    b.add_known(Attrname("_.b".to_string()), Ok(AbsolutePathBuf::File("/p/b/main.nix".to_string())))
        .unwrap();
    b.start();
    let sources = [
        ("/p/flake.nix", "{ x = _.a; }"),
        ("/p/a/main.nix", "{ y = _.b; g = ../mrx.generated.nix; }"),
        ("/p/b/main.nix", "{ }"),
        ("/p/mrx.generated.nix", "{ }"),
    ];
    loop {
        let mut next = b.step().unwrap();
        loop {
            match next {
                GraphStep::ReadFile(p) => {
                    let src = sources.iter().find(|(k, _)| *k == p).unwrap().1;
                    next = b.file_read(Ok(src.as_bytes().to_vec())).unwrap();
                }
                GraphStep::ResolvePath(p) => {
                    next = b.path_resolved(Ok(AbsolutePathBuf::File(p))).unwrap();
                }
                GraphStep::CheckIsFile(_) => next = b.file_checked(false),
                GraphStep::Continue => break,
                GraphStep::Finished => return b.finish(),
            }
        }
    }
}

#[test]
fn stale_plan_follows_dependencies() {
    let graph = small_graph();
    assert_eq!(graph.node_count(), 4);
    let generated = AbsolutePathBuf::File("/p/mrx.generated.nix".to_string());
    let plan: Vec<StaleProbe> = stale_plan(&graph, &names(&["_.a", "_.none"]));
    assert_eq!(plan.len(), 1);
    assert_eq!(plan[0].attrname_idx, 0);
    assert_eq!(plan[0].node_idx, 1);
    // handle index 0 names node 1; its dependencies are read from node 0
    assert!(graph.dependencies_within_nodes(0));
    assert_eq!(dependency_nodes(&graph, 0, &generated), vec![1, 2]);
}

#[test]
fn stale_search_checks_dependencies_of_fresh_nodes() {
    let probes = vec![
        StaleProbe { attrname_idx: 0, node_idx: 5 },
        StaleProbe { attrname_idx: 1, node_idx: 8 },
        StaleProbe { attrname_idx: 2, node_idx: 10 },
    ];
    let mut search = StaleSearch::new(probes);
    let mut asked = vec![];
    let mut deps_asked = vec![];
    loop {
        match search.next() {
            SearchStep::Check(n) => {
                asked.push(n);
                let answer = match n {
                    7 => Some(secs(70)),
                    8 => Some(secs(80)),
                    _ => None,
                };
                search.record(answer);
            }
            SearchStep::Dependencies(ai) => {
                deps_asked.push(ai);
                let deps = match ai {
                    0 => vec![6, 7],
                    _ => vec![],
                };
                search.record_dependencies(deps);
            }
            SearchStep::Done => break,
        }
    }
    // handle 1 is stale itself, so its dependencies are never asked for
    assert_eq!(asked, vec![5, 6, 7, 8, 10]);
    assert_eq!(deps_asked, vec![0, 2]);
    let found: Vec<(usize, usize, i64)> =
        search.finish().iter().map(|x| (x.attrname_idx, x.node_idx, x.mtime.to_sql())).collect();
    assert_eq!(found, vec![(0, 7, 70), (1, 8, 80)]);
}

#[test]
fn store_write_retries_only_a_missing_handle() {
    assert_eq!(store_write_step(&Ok(())), StoreWriteStep::Written);
    assert_eq!(store_write_step(&Err(WriteStoreError::MissingAlias)), StoreWriteStep::RecordAliasAndRetry);
    assert_eq!(store_write_step(&Err(WriteStoreError::DbError)), StoreWriteStep::Failed);
}
