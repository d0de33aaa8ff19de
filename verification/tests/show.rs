use mrx::attr::Attrname;
use mrx::fs::{AbsolutePathBuf, DirFacts};
use mrx::graph::Graph;
use mrx::graph_builder::{GraphBuilder, GraphStep};
use mrx::show::{
    file_edge_pairs, graph_supported, sort_pairs, watch_files, watch_reaches_only_nodes,
    FileEdgePairsError, GraphFormat,
    GraphKind, GraphOptions, ShowWatchFilesError,
};

fn graph(sources: &[(&str, &str)], known: &[(&str, &str)]) -> Graph {
    let mut b = GraphBuilder::new(AbsolutePathBuf::File(sources[0].0.to_string()));
    for (n, p) in known {
        b.add_known(Attrname(n.to_string()), Ok(AbsolutePathBuf::File(p.to_string()))).unwrap();
    }
    b.start();
    loop {
        let mut next = b.step().unwrap();
        loop {
            match next {
                GraphStep::ReadFile(p) => {
                    let src = sources.iter().find(|(k, _)| *k == p).map(|x| x.1).unwrap_or("");
                    next = b.file_read(Ok(src.as_bytes().to_vec())).unwrap();
                }
                GraphStep::ResolvePath(p) => next = b.path_resolved(Ok(AbsolutePathBuf::File(p))).unwrap(),
                GraphStep::CheckIsFile(_) => next = b.file_checked(false),
                GraphStep::Continue => break,
                GraphStep::Finished => return b.finish(),
            }
        }
    }
}

fn dir(path: &str) -> DirFacts {
    DirFacts { path: path.to_string(), is_file: false, exists: true, canonical: Err("unused".to_string()) }
}

fn project() -> Graph {
    graph(
        &[
            ("/p/flake.nix", "{ a = _.a; g = ./mrx.generated.nix; }"),
            ("/p/a/main.nix", "{ b = ./b.nix; c = ./c.nix; }"),
            ("/p/a/b.nix", "./c.nix"),
            ("/p/a/c.nix", "{ }"),
            ("/p/mrx.generated.nix", "{ }"),
        ],
        &[("_.a", "/p/a/main.nix")],
    )
}

#[test]
fn watch_files_of_everything() {
    let g = project();
    let generated = AbsolutePathBuf::File("/p/mrx.generated.nix".to_string());
    let files = watch_files(&g, &vec![], &generated, &dir("/p")).unwrap();
    assert_eq!(files, vec!["./a/b.nix", "./a/c.nix", "./a/main.nix", "./flake.nix"]);
}

#[test]
fn watch_files_of_a_handle() {
    let g = project();
    let generated = AbsolutePathBuf::File("/p/mrx.generated.nix".to_string());
    let files = watch_files(
        &g,
        &vec!["_.a".to_string(), "not-a-handle".to_string(), "_.missing".to_string()],
        &generated,
        &dir("/p"),
    )
    .unwrap();
    assert_eq!(files, vec!["./a/b.nix", "./a/c.nix", "./a/main.nix"]);
}

#[test]
fn watch_files_relative_to_canonical_directory() {
    let g = project();
    let generated = AbsolutePathBuf::File("/p/mrx.generated.nix".to_string());
    let facts = DirFacts { path: "./".to_string(), is_file: false, exists: true, canonical: Ok("/p".to_string()) };
    let files = watch_files(&g, &vec!["_.a".to_string()], &generated, &facts).unwrap();
    assert_eq!(files, vec!["./a/b.nix", "./a/c.nix", "./a/main.nix"]);
}

#[test]
fn watch_files_outside_directory_refused() {
    let g = project();
    let generated = AbsolutePathBuf::File("/p/mrx.generated.nix".to_string());
    assert!(matches!(
        watch_files(&g, &vec![], &generated, &dir("/p/a")),
        Err(ShowWatchFilesError::InvalidPaths)
    ));
    let missing = DirFacts { path: "/p".to_string(), is_file: false, exists: false, canonical: Err(String::new()) };
    assert!(matches!(watch_files(&g, &vec![], &generated, &missing), Err(ShowWatchFilesError::InvalidPaths)));
}

#[test]
fn edge_pairs_sorted() {
    let g = project();
    let pairs = sort_pairs(file_edge_pairs(&g, &dir("/p")).unwrap());
    let expected: Vec<(String, String)> = [
        ("./a/b.nix", "./a/c.nix"),
        ("./a/main.nix", "./a/b.nix"),
        ("./a/main.nix", "./a/c.nix"),
        ("./flake.nix", "./a/main.nix"),
        ("./flake.nix", "./mrx.generated.nix"),
    ]
    .iter()
    .map(|(a, b)| (a.to_string(), b.to_string()))
    .collect();
    assert_eq!(pairs, expected);
    assert!(matches!(file_edge_pairs(&g, &dir("/q")), Err(FileEdgePairsError::CalculatingRelativePath)));
}

#[test]
fn sort_pairs_orders_by_first_then_second() {
    let v = vec![
        ("b".to_string(), "a".to_string()),
        ("a".to_string(), "z".to_string()),
        ("a".to_string(), "b".to_string()),
        ("a".to_string(), "b".to_string()),
    ];
    let sorted = sort_pairs(v);
    let got: Vec<(&str, &str)> = sorted.iter().map(|(a, b)| (a.as_str(), b.as_str())).collect();
    assert_eq!(got, vec![("a", "b"), ("a", "b"), ("a", "z"), ("b", "a")]);
}

#[test]
fn only_file_edge_pairs_are_supported() {
    assert!(graph_supported(&GraphOptions { format: GraphFormat::EdgePairs, kind: GraphKind::Files }));
    assert!(!graph_supported(&GraphOptions { format: GraphFormat::Tree, kind: GraphKind::Files }));
    assert!(!graph_supported(&GraphOptions { format: GraphFormat::EdgePairs, kind: GraphKind::Handles }));
    assert_eq!(GraphFormat::default(), GraphFormat::EdgePairs);
    assert_eq!(GraphKind::default(), GraphKind::Files);
}

#[test]
fn watch_lookups_stay_within_nodes() {
    let g = project();
    assert!(watch_reaches_only_nodes(&g, &vec![]));
    assert!(watch_reaches_only_nodes(&g, &vec!["_.a".to_string(), "x".to_string()]));
    // `_.b` comes with a path already seen, so it names index 2, where no
    // node is added; node 1 (`_.a`) has an edge to it
    let dangling = graph(
        &[("/p/flake.nix", "{ }"), ("/p/a.nix", "{ x = _.b; }")],
        &[("_.a", "/p/a.nix"), ("_.b", "/p/flake.nix")],
    );
    assert_eq!(dangling.node_count(), 2);
    assert!(!watch_reaches_only_nodes(&dangling, &vec!["_.a".to_string()]));
    assert!(watch_reaches_only_nodes(&dangling, &vec![]));
}
