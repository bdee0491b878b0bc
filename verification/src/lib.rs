//! ARKELÉS core: the vault of Markdown notes read into an index, mechanical
//! writes back to the notes, and the bridge to Hermes, the agent that does
//! the semantic work. Every function here states what it computes; reading
//! files, the database, the network and the clock is left to the caller.
use vstd::prelude::*;

pub mod config;
pub mod error;
pub mod hermes;
pub mod index;
pub mod ipc;
pub mod json;
pub mod text;
pub mod types;
pub mod vault;
pub mod watcher;

verus! {

/// The event the interface hears when the job ledger changed.
pub const JOBS_CHANGED_EVENT: &'static str = "hermes:jobs-changed";

/// The state the commands share: the configuration, and whether a full
/// scan is running (shown to the user as a calm state).
#[derive(Debug)]
pub struct AppState {
    pub config: config::Config,
    pub rebuilding: bool,
}

impl AppState {
    /// A state for this configuration, with no scan running.
    pub fn new(config: config::Config) -> (s: AppState)
        ensures
            s.config == config,
            !s.rebuilding,
    {
        AppState { config, rebuilding: false }
    }

    /// Whether a full scan is running.
    pub fn is_rebuilding(&self) -> (b: bool)
        ensures
            b == self.rebuilding,
    {
        self.rebuilding
    }

    /// Records whether a full scan is running; the flag reads back as set.
    pub fn set_rebuilding(&mut self, value: bool)
        ensures
            final(self).rebuilding == value,
            final(self).config == old(self).config,
    {
        self.rebuilding = value;
    }
}

} // verus!
