# mrx

`mrx` builds, caches and inspects Nix projects organised by *handles*:
every `main.nix` below the project directory defines a handle such as
`_.tools.fmt` (from `./tools/fmt/main.nix`), and files refer to each other
by path literals and by handles.

The library in `src/` is verified with Verus. Its logic works on plain
values; everything that touches the disk, the database or other programs
lives in `app/`, which hands the library what it found and acts on what the
library decides.

## Layout

- `src/text.rs`, `src/path.rs`: character sequences and Unix paths as
  `std::path` reads them (components, parents, joining, extensions).
- `src/attr.rs`: handles, and the set of handles a project defines.
- `src/ast.rs`: the expressions of a Nix file that matter here (handles,
  path literals, `import _/name`), read from the syntax tree of `rnix`.
- `src/graph.rs`, `src/graph_builder.rs`: the dependency graph and the state
  machine that builds it, asking its caller for file contents and for what
  paths resolve to.
- `src/fs.rs`, `src/file_path.rs`: absolute paths and paths relative to a
  directory.
- `src/config.rs`: the project configuration and its defaults.
- `src/nix_store_path.rs`, `src/nix_build.rs`, `src/nix_references.rs`,
  `src/json.rs`: store paths, and the arguments and output of `nix build` and
  `nix-store --query --requisites` (the JSON that `nix build` prints is read
  with `serde_json`).
- `src/cache.rs`: staleness of nodes, what to rebuild, what to record.
- `src/generate.rs`, `src/hook.rs`, `src/show.rs`, `src/mrx_build.rs`,
  `src/refresh.rs`, `src/cli.rs`: the commands' decisions and outputs.
- `app/`: the `mrx` program.
- `tests/`: tests of the library on concrete values.
