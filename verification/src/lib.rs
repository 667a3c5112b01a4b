//! Mirror-synchronization engine for a toolchain's release channels.
//!
//! The library resolves a release manifest into a list of artifacts, models
//! the retry/atomic-publish discipline of the artifact fetcher, keeps a
//! per-channel history ledger, computes the retention sweep, and decides the
//! stage sequencing of a full sync run.  Everything here is pure logic over
//! plain values; the surrounding binary performs the actual network and
//! filesystem work and feeds the results back in.

pub mod batch;
pub mod coordinator;
pub mod errors;
pub mod fetch;
pub mod history;
pub mod manifest;
pub mod platforms;
pub mod retention;
pub mod strutil;
pub mod toml_doc;
