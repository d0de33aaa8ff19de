pub mod text;
pub mod assoc;
pub mod path;
pub mod attr;
pub mod hook;
pub mod nix_store_path;
pub mod config;
pub mod fs;
pub mod ast;
pub mod graph;
pub mod graph_builder;
pub mod json;
pub mod nix_build;
pub mod nix_references;
pub mod cache;
pub mod show;
pub mod generate;
pub mod mrx_build;
pub mod file_path;
pub mod refresh;
pub mod cli;
