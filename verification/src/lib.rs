//! Core engine of a terminal toolbox dashboard.
//!
//! The library discovers script modules beneath a directory tree, groups
//! them into a catalog ordered by category and name, and drives the
//! three-level (category / module / action) navigation state machine that
//! a front end renders.  All reading of the real file system and all
//! drawing stay outside; the engine works on plain values and keeps its
//! index-validity invariants under every operation.

use vstd::prelude::*;

pub mod app_state;
pub mod catalog;
pub mod config;
pub mod descriptor;
pub mod order;
pub mod registry;
pub mod runner;

verus! {

/// Errors surfaced by the engine.
#[derive(Debug)]
pub enum Error {
    /// A feature that is still a placeholder.
    Unimplemented,
    /// A module descriptor was found but could not be parsed or violated
    /// a descriptor invariant; carries the path of the offending node.
    DescriptorInvalid(String),
    /// Reading a node of the tree failed; carries the path of the node.
    ScanIo(String),
}

impl Error {
    /// A short, stable label for the error kind.
    pub fn kind_label(&self) -> (r: &'static str)
        ensures
            self is Unimplemented ==> r@ == "unimplemented"@,
            self is DescriptorInvalid ==> r@ == "descriptor invalid"@,
            self is ScanIo ==> r@ == "scan io"@,
    {
        match self {
            Error::Unimplemented => "unimplemented",
            Error::DescriptorInvalid(_) => "descriptor invalid",
            Error::ScanIo(_) => "scan io",
        }
    }
}

} // verus!
