//! Triage of dependency upgrades: which minor releases lie between the
//! installed and the newest version of each outdated package, in what order
//! they are shown, and how a review session over them reacts to keys and to
//! release notes that arrive in the background.
//!
//! Everything here works on plain values. Reading input, talking to the
//! registry and to GitHub, and painting the terminal are left to the caller.

pub mod app;
pub mod async_task;
pub mod github;
pub mod multi_select;
pub mod npm_registry;
pub mod release;
pub mod resolver;
pub mod semver;
pub mod text;
