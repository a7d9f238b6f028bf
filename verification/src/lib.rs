//! A build-metadata compiler core: it turns a package resolver's verbose
//! report into a compact, deterministic, content-addressed dependency
//! graph for a hermetic build orchestrator.
//!
//! The crate holds the verified engine: package-id canonicalization, the
//! cleaning pass, the edge-to-manifest reconciliation that recovers
//! per-edge feature activation, hash carry-forward, invariant checking and
//! the deterministic serializer. I/O, subprocesses and command-line
//! handling live outside the library.

pub mod bytes;
pub mod clean;
pub mod de;
pub mod error;
pub mod input;
pub mod nargo;
pub mod order;
pub mod output;
pub mod prefetch;
pub mod resolve;
pub mod run;
pub mod semver;
pub mod ser;
pub mod shell;
pub mod target_cfg;
pub mod vreq;
