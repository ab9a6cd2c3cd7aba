//! Toolchain version manager core.
//!
//! Given project manifests that declare `alias -> versioned tool identity`
//! pairs, the manager makes sure the right binaries exist on disk, are
//! trusted, and are reachable under their aliases, and it redirects an
//! invocation of an alias to the matching installed binary.
//!
//! This crate holds the verified core: the trust-and-install ledger, the
//! artifact resolver's selection logic, content-addressed tool storage paths
//! and link planning, the install orchestrator's decisions, and the
//! invocation dispatcher's decisions. File and network I/O, prompting, and
//! process spawning live outside the crate and hand plain values in.

pub mod artifact;
pub mod install;
pub mod ledger;
pub mod runner;
pub mod self_update;
pub mod storage;
pub mod tool;
pub mod version;
