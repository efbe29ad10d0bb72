//! A verified core for acquiring a platform-specific context-server binary
//! and assembling its launch configuration.
//!
//! The pipeline is four independent steps, each a pure function with a
//! contract: `asset` names the artifact for a platform, `fetch` plans the
//! download (idempotent once the artifact is present), `credentials`
//! resolves ordered key-value sources with defined precedence, and
//! `command` assembles the final invocation. `launch` ties the steps
//! together once the caller reports the fetch outcome. All I/O — the probe,
//! the download, the settings lookup — belongs to the embedding host, which
//! hands this core plain values.

pub mod asset;
pub mod command;
pub mod credentials;
pub mod fetch;
pub mod launch;
pub mod text;
