use std::collections::BTreeMap;

use mrx::ast::FileReadError;
use mrx::attr::Attrname;
use mrx::fs::{AbsolutePathBuf, AbsolutePathBufError};
use mrx::graph::{from_relative, Graph, NodeId};
use mrx::graph_builder::{GraphBuilder, GraphError, GraphStep};

/// A file tree held in memory: absolute file paths and their contents.
struct Tree(BTreeMap<String, String>);

impl Tree {
    fn new(files: &[(&str, &str)]) -> Tree {
        Tree(files.iter().map(|(p, c)| (p.to_string(), c.to_string())).collect())
    }

    fn is_file(&self, p: &str) -> bool {
        self.0.contains_key(p)
    }

    fn is_dir(&self, p: &str) -> bool {
        let prefix = if p.ends_with('/') { p.to_string() } else { format!("{p}/") };
        self.0.keys().any(|k| k.starts_with(&prefix))
    }

    fn read(&self, p: &str) -> Result<Vec<u8>, FileReadError> {
        self.0.get(p).map(|c| c.as_bytes().to_vec()).ok_or(FileReadError::NotFound)
    }

    /// What making `p` absolute gives: its `default.nix` when that is a
    /// file, else the file or directory itself.
    fn resolve(&self, p: &str) -> Result<AbsolutePathBuf, AbsolutePathBufError> {
        let default_nix = format!("{}/default.nix", p.trim_end_matches('/'));
        if self.is_file(&default_nix) {
            Ok(AbsolutePathBuf::File(default_nix))
        } else if self.is_file(p) {
            Ok(AbsolutePathBuf::File(p.to_string()))
        } else if self.is_dir(p) {
            Ok(AbsolutePathBuf::Directory(p.to_string()))
        } else {
            Err(AbsolutePathBufError::NotFound)
        }
    }
}

fn drive(builder: &mut GraphBuilder, tree: &Tree) -> Result<(), GraphError> {
    loop {
        let mut next = builder.step()?;
        loop {
            match next {
                GraphStep::ReadFile(p) => next = builder.file_read(tree.read(&p))?,
                GraphStep::ResolvePath(p) => next = builder.path_resolved(tree.resolve(&p))?,
                GraphStep::CheckIsFile(p) => next = builder.file_checked(tree.is_file(&p)),
                GraphStep::Continue => break,
                GraphStep::Finished => return Ok(()),
            }
        }
    }
}

fn build(tree: &Tree, entry: &str, known: &[(&str, &str)]) -> Result<Graph, GraphError> {
    let mut builder = GraphBuilder::new(AbsolutePathBuf::File(entry.to_string()));
    for (name, path) in known {
        builder.add_known(Attrname(name.to_string()), tree.resolve(path))?;
    }
    builder.start();
    drive(&mut builder, tree)?;
    Ok(builder.finish())
}

fn paths(graph: &Graph) -> Vec<String> {
    graph.to_nodes().iter().map(|p| p.as_path().to_string()).collect()
}

fn edges(graph: &Graph) -> Vec<(String, String)> {
    graph
        .to_edges()
        .iter()
        .map(|e| (e.0.path.as_path().to_string(), e.1.path.as_path().to_string()))
        .collect()
}

#[test]
fn builder_follows_paths_and_handles() {
    let tree = Tree::new(&[
        ("/p/flake.nix", "{ x = import ./lib/main.nix; y = _.foo.bar; }"),
        ("/p/lib/main.nix", "{ }"),
        ("/p/foo/bar/main.nix", "{ z = 1; }"),
    ]);
    let graph = build(&tree, "/p/flake.nix", &[("_.foo.bar", "/p/foo/bar/main.nix")]).unwrap();
    assert_eq!(
        paths(&graph),
        vec!["/p/flake.nix", "/p/foo/bar/main.nix", "/p/lib/main.nix"]
    );
    assert_eq!(
        edges(&graph),
        vec![
            ("/p/flake.nix".to_string(), "/p/lib/main.nix".to_string()),
            ("/p/flake.nix".to_string(), "/p/foo/bar/main.nix".to_string()),
        ]
    );
    let (idx, node) = graph.find_node(&NodeId::Attrname(Attrname("_.foo.bar".to_string()))).unwrap();
    assert_eq!(idx, 1);
    assert_eq!(node.to_text(), "_.foo.bar");
    // every handle recorded names a node, so every edge ends at one
    assert!(graph.all_edges_end_at_nodes());
    assert_eq!(graph.node(2).to_text(), "/p/lib/main.nix");
}

#[test]
fn builder_parent_directory_paths() {
    let tree = Tree::new(&[
        ("/p/a/main.nix", "import ../b/main.nix"),
        ("/p/b/main.nix", "import ./c.nix"),
        ("/p/b/c.nix", "{ }"),
    ]);
    let graph = build(&tree, "/p/a/main.nix", &[]).unwrap();
    assert_eq!(paths(&graph), vec!["/p/a/main.nix", "/p/b/main.nix", "/p/b/c.nix"]);
    let deps = graph.find_dependencies_of(0);
    let mut keys: Vec<usize> = deps.keys().copied().collect();
    keys.sort();
    assert_eq!(keys, vec![1, 2]);
    assert!(graph.find_dependencies_of(2).is_empty());
}

#[test]
fn builder_directory_literal_checks_default_nix_of_resolved_path() {
    // `./sub/.` resolves to the directory's own `default.nix`, so the file
    // checked is `default.nix` inside that: not a file, so no node.
    let tree = Tree::new(&[
        ("/p/default.nix", "{ a = ./sub/.; b = ./empty/.; }"),
        ("/p/sub/default.nix", "{ }"),
        ("/p/empty/other.nix", "{ }"),
    ]);
    let graph = build(&tree, "/p/default.nix", &[]).unwrap();
    assert_eq!(paths(&graph), vec!["/p/default.nix"]);
    assert!(edges(&graph).is_empty());
}

#[test]
fn builder_directory_literal_links_default_nix() {
    let mut builder = GraphBuilder::new(AbsolutePathBuf::File("/p/default.nix".to_string()));
    builder.start();
    assert!(matches!(builder.step(), Ok(GraphStep::ReadFile(_))));
    assert!(matches!(builder.file_read(Ok(b"./sub/.".to_vec())), Ok(GraphStep::Continue)));
    match builder.step().unwrap() {
        GraphStep::ResolvePath(p) => assert_eq!(p, "/p/sub"),
        other => panic!("unexpected {other:?}"),
    }
    match builder.path_resolved(Ok(AbsolutePathBuf::Directory("/p/sub".to_string()))).unwrap() {
        GraphStep::CheckIsFile(p) => assert_eq!(p, "/p/sub/default.nix"),
        other => panic!("unexpected {other:?}"),
    }
    match builder.file_checked(true) {
        GraphStep::ReadFile(p) => assert_eq!(p, "/p/sub/default.nix"),
        other => panic!("unexpected {other:?}"),
    }
    assert!(matches!(builder.file_read(Ok(Vec::new())), Ok(GraphStep::Continue)));
    assert!(matches!(builder.step(), Ok(GraphStep::Continue)));
    assert!(matches!(builder.step(), Ok(GraphStep::Continue)));
    assert!(matches!(builder.step(), Ok(GraphStep::Finished)));
    let graph = builder.finish();
    assert_eq!(paths(&graph), vec!["/p/default.nix", "/p/sub/default.nix"]);
    assert_eq!(edges(&graph), vec![("/p/default.nix".to_string(), "/p/sub/default.nix".to_string())]);
}

#[test]
fn builder_one_node_per_file() {
    let tree = Tree::new(&[
        ("/p/flake.nix", "[ ./x.nix ./x.nix ./y.txt ]"),
        ("/p/x.nix", "{ }"),
        ("/p/y.txt", "not nix"),
    ]);
    let graph = build(&tree, "/p/flake.nix", &[]).unwrap();
    assert_eq!(paths(&graph), vec!["/p/flake.nix", "/p/x.nix", "/p/y.txt"]);
    assert_eq!(
        edges(&graph),
        vec![
            ("/p/flake.nix".to_string(), "/p/x.nix".to_string()),
            ("/p/flake.nix".to_string(), "/p/x.nix".to_string()),
            ("/p/flake.nix".to_string(), "/p/y.txt".to_string()),
        ]
    );
}

#[test]
fn builder_missing_path_is_relative_path_error() {
    let tree = Tree::new(&[("/p/flake.nix", "import ./gone.nix")]);
    match build(&tree, "/p/flake.nix", &[]) {
        Err(GraphError::RelativePath { path, parent }) => {
            assert_eq!(path, "/p/gone.nix");
            assert_eq!(parent.as_path(), "/p/flake.nix");
        }
        other => panic!("unexpected {other:?}"),
    }
}

#[test]
fn builder_climbing_above_root_is_relative_path_error() {
    let tree = Tree::new(&[("/flake.nix", "import ../../x.nix")]);
    match build(&tree, "/flake.nix", &[]) {
        Err(GraphError::RelativePath { path, parent }) => {
            assert_eq!(path, "../../x.nix");
            assert_eq!(parent.as_path(), "/flake.nix");
        }
        other => panic!("unexpected {other:?}"),
    }
}

#[test]
fn builder_unreadable_entry_is_invalid_node() {
    let tree = Tree::new(&[]);
    assert!(matches!(build(&tree, "/p/flake.nix", &[]), Err(GraphError::InvalidNode)));
}

#[test]
fn builder_invalid_utf8_is_invalid_node() {
    let mut builder = GraphBuilder::new(AbsolutePathBuf::File("/p/flake.nix".to_string()));
    builder.start();
    match builder.step().unwrap() {
        GraphStep::ReadFile(p) => assert_eq!(p, "/p/flake.nix"),
        other => panic!("unexpected {other:?}"),
    }
    assert!(matches!(builder.file_read(Ok(vec![0xff, 0xfe])), Err(GraphError::InvalidNode)));
}

#[test]
fn builder_internal_and_unknown_handles() {
    let tree = Tree::new(&[("/p/flake.nix", "{ a = _.mrx.thing; b = _.unknown; }")]);
    let graph = build(&tree, "/p/flake.nix", &[]).unwrap();
    assert_eq!(paths(&graph), vec!["/p/flake.nix"]);
    assert!(edges(&graph).is_empty());
}

#[test]
fn builder_known_handles() {
    let tree = Tree::new(&[("/p/flake.nix", "{ }")]);
    let mut builder = GraphBuilder::new(AbsolutePathBuf::File("/p/flake.nix".to_string()));
    builder
        .add_known(Attrname("_.gone".to_string()), Err(AbsolutePathBufError::NotFound))
        .unwrap();
    assert_eq!(builder.node_count(), 1);
    assert!(matches!(
        builder.add_known(
            Attrname("_.broken".to_string()),
            Err(AbsolutePathBufError::Io("denied".to_string()))
        ),
        Err(GraphError::InvalidNode)
    ));
    builder
        .add_known(Attrname("_.self".to_string()), Ok(AbsolutePathBuf::File("/p/flake.nix".to_string())))
        .unwrap();
    assert_eq!(builder.node_count(), 1);
    builder.start();
    drive(&mut builder, &tree).unwrap();
    let graph = builder.finish();
    assert_eq!(graph.node_count(), 1);
}

#[test]
fn builder_known_nodes_are_followed_as_roots() {
    let tree = Tree::new(&[
        ("/p/flake.nix", "{ a = _.lib; b = import ./lib/main.nix; }"),
        ("/p/lib/main.nix", "import ./x.nix"),
        ("/p/lib/x.nix", "{ }"),
    ]);
    let graph = build(&tree, "/p/flake.nix", &[("_.lib", "/p/lib/main.nix")]).unwrap();
    assert_eq!(paths(&graph), vec!["/p/flake.nix", "/p/lib/main.nix", "/p/lib/x.nix"]);
    assert_eq!(
        edges(&graph),
        vec![
            ("/p/flake.nix".to_string(), "/p/lib/main.nix".to_string()),
            ("/p/flake.nix".to_string(), "/p/lib/main.nix".to_string()),
            ("/p/lib/main.nix".to_string(), "/p/lib/x.nix".to_string()),
        ]
    );
}

#[test]
fn builder_refuses_steps_out_of_turn() {
    let mut builder = GraphBuilder::new(AbsolutePathBuf::File("/p/flake.nix".to_string()));
    builder.start();
    assert!(matches!(builder.step(), Ok(GraphStep::ReadFile(_))));
    assert!(matches!(builder.step(), Err(GraphError::InvalidNode)));
    assert!(matches!(
        builder.path_resolved(Ok(AbsolutePathBuf::File("/x".to_string()))),
        Err(GraphError::InvalidNode)
    ));
}

#[test]
fn from_relative_resolves_against_the_file_directory() {
    let file = AbsolutePathBuf::File("/a/b/c.nix".to_string());
    assert_eq!(from_relative("./d.nix", &file).as_deref(), Some("/a/b/d.nix"));
    assert_eq!(from_relative("../d/e.nix", &file).as_deref(), Some("/a/d/e.nix"));
    // every `..` climbs from the file's directory, wherever it stands
    assert_eq!(from_relative("x/../y.nix", &file).as_deref(), Some("/a/x/y.nix"));
    assert_eq!(from_relative("../../../z.nix", &file), None);
}

#[test]
fn find_node_by_path_and_handle() {
    let tree = Tree::new(&[("/p/flake.nix", "{ a = _.h; }"), ("/p/h/main.nix", "{ }")]);
    let graph = build(&tree, "/p/flake.nix", &[("_.h", "/p/h/main.nix")]).unwrap();
    let by_path = graph
        .find_node(&NodeId::Path(AbsolutePathBuf::File("/p//h/./main.nix".to_string())))
        .map(|(i, _)| i);
    assert_eq!(by_path, Some(1));
    assert!(graph
        .find_node(&NodeId::Path(AbsolutePathBuf::Directory("/p/h/main.nix".to_string())))
        .is_none());
    assert!(graph.find_node(&NodeId::Attrname(Attrname("_.nope".to_string()))).is_none());
}

#[test]
fn builder_only_adds_nodes() {
    let tree = Tree::new(&[
        ("/p/flake.nix", "[ ./a.nix ./b.nix ]"),
        ("/p/a.nix", "./c.nix"),
        ("/p/b.nix", "{ }"),
        ("/p/c.nix", "{ }"),
    ]);
    let mut builder = GraphBuilder::new(AbsolutePathBuf::File("/p/flake.nix".to_string()));
    builder.start();
    let mut counts = vec![builder.node_count()];
    loop {
        let mut next = builder.step().unwrap();
        counts.push(builder.node_count());
        let done = loop {
            match next {
                GraphStep::ReadFile(p) => next = builder.file_read(tree.read(&p)).unwrap(),
                GraphStep::ResolvePath(p) => next = builder.path_resolved(tree.resolve(&p)).unwrap(),
                GraphStep::CheckIsFile(p) => next = builder.file_checked(tree.is_file(&p)),
                GraphStep::Continue => break false,
                GraphStep::Finished => break true,
            }
            counts.push(builder.node_count());
        };
        if done {
            break;
        }
    }
    assert!(counts.windows(2).all(|w| w[0] <= w[1]));
    assert_eq!(*counts.last().unwrap(), 4);
    let graph = builder.finish();
    assert_eq!(paths(&graph), vec!["/p/flake.nix", "/p/a.nix", "/p/c.nix", "/p/b.nix"]);
}

#[test]
fn builder_handle_of_a_seen_path_names_the_next_index() {
    let tree = Tree::new(&[("/p/flake.nix", "{ a = _.self; }")]);
    let graph = build(&tree, "/p/flake.nix", &[("_.self", "/p/flake.nix")]).unwrap();
    assert_eq!(paths(&graph), vec!["/p/flake.nix"]);
    // the handle was recorded at index 1, where no node was added
    assert!(!graph.all_edges_end_at_nodes());
    assert!(!graph.dependencies_within_nodes(0));
    assert!(graph.dependencies_within_nodes(1));
}

#[test]
fn builder_handle_index_filled_by_a_later_node() {
    let tree = Tree::new(&[
        ("/p/flake.nix", "{ a = _.self; b = import ./x.nix; }"),
        ("/p/x.nix", "{ }"),
    ]);
    let graph = build(&tree, "/p/flake.nix", &[("_.self", "/p/flake.nix")]).unwrap();
    assert_eq!(paths(&graph), vec!["/p/flake.nix", "/p/x.nix"]);
    assert!(graph.all_edges_end_at_nodes());
    assert!(graph.dependencies_within_nodes(0));
    assert_eq!(
        edges(&graph),
        vec![
            ("/p/flake.nix".to_string(), "/p/x.nix".to_string()),
            ("/p/flake.nix".to_string(), "/p/x.nix".to_string()),
        ]
    );
}
