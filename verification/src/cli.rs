//! The commands of the program.

use vstd::prelude::*;

verus! {

/// Commands meant for the program's own use rather than its users'.
#[derive(Debug, Clone)]
pub enum Plumbing {
    Cache(crate::cache::Options),
}

/// The commands.
#[derive(Debug, Clone)]
pub enum MrxCommand {
    Build(crate::mrx_build::Options),
    Generate(crate::generate::Options),
    Hook(crate::hook::Options),
    Show(crate::show::Options),
    Plumbing(Plumbing),
}

/// The program's arguments: a command, and another configuration file.
#[derive(Debug, Clone)]
pub struct Mrx {
    pub command: MrxCommand,
    pub config: Option<String>,
}

} // verus!
