//! Application configuration: where the vault is, and where quick capture
//! writes. It lives in the application's own config directory, never in the
//! vault; reading and writing that file is the caller's part.
use vstd::prelude::*;

pub mod workspaces;

verus! {

/// The inbox quick capture appends to, relative to the vault root, until
/// one is configured. The application never creates it.
pub const DEFAULT_INBOX: &'static str = "Gelen Kutusu.md";

/// The configuration as stored.
#[derive(Debug, Clone, Default)]
pub struct ConfigData {
    /// Never hard-coded: `None` until the user picks a vault.
    pub vault_path: Option<String>,
    /// The inbox, relative to the vault root.
    pub inbox_path: Option<String>,
}

/// The live configuration.
#[derive(Debug, Clone)]
pub struct Config {
    pub data: ConfigData,
}

impl Config {
    /// A configuration holding `data`.
    pub fn new(data: ConfigData) -> (c: Config)
        ensures
            c.data == data,
    {
        Config { data }
    }

    /// The configured vault; `None` is a valid state.
    pub fn vault_path(&self) -> (p: Option<String>)
        ensures
            p == self.data.vault_path,
    {
        match &self.data.vault_path {
            Some(p) => Some(p.clone()),
            None => None,
        }
    }

    /// The inbox path: the configured one, or `Gelen Kutusu.md`.
    pub fn inbox_path(&self) -> (p: String)
        ensures
            p@ == match self.data.inbox_path {
                Some(i) => i@,
                None => "Gelen Kutusu.md"@,
            },
    {
        match &self.data.inbox_path {
            Some(i) => i.clone(),
            None => String::from_str(DEFAULT_INBOX),
        }
    }

    /// Points the configuration at another vault (already checked to be a
    /// readable directory); the inbox setting is kept.
    pub fn set_vault_path(&mut self, path: String)
        ensures
            final(self).data.vault_path == Some(path),
            final(self).data.inbox_path == old(self).data.inbox_path,
    {
        self.data.vault_path = Some(path);
    }
}

} // verus!
