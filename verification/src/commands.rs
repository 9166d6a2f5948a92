//! The commands, by the names under which they are called.

use vstd::prelude::*;

verus! {

/// Accounts: logging in, secrets and marketplaces.
#[derive(Clone, Copy, Debug, PartialEq, Eq, Structural)]
pub struct AccountCommand;

impl AccountCommand {
    /// The name under which the command is called.
    pub fn name(&self) -> (word: &'static str)
        ensures
            word@ == "account"@,
    {
        "account"
    }
}

/// The background process that holds unlocked accounts.
#[derive(Clone, Copy, Debug, PartialEq, Eq, Structural)]
pub struct AgentCommand;

impl AgentCommand {
    /// The name under which the command is called.
    pub fn name(&self) -> (word: &'static str)
        ensures
            word@ == "agent"@,
    {
        "agent"
    }
}

/// Bookmarks, notes and clips.
#[derive(Clone, Copy, Debug, PartialEq, Eq, Structural)]
pub struct AnnotationsCommand;

impl AnnotationsCommand {
    /// The name under which the command is called.
    pub fn name(&self) -> (word: &'static str)
        ensures
            word@ == "annotations"@,
    {
        "annotations"
    }
}

/// Raw calls against the API.
#[derive(Clone, Copy, Debug, PartialEq, Eq, Structural)]
pub struct ApiCommand;

impl ApiCommand {
    /// The name under which the command is called.
    pub fn name(&self) -> (word: &'static str)
        ensures
            word@ == "api"@,
    {
        "api"
    }
}

/// Archive, favourites, wishlist and lists.
#[derive(Clone, Copy, Debug, PartialEq, Eq, Structural)]
pub struct CollectionsCommand;

impl CollectionsCommand {
    /// The name under which the command is called.
    pub fn name(&self) -> (word: &'static str)
        ensures
            word@ == "collections"@,
    {
        "collections"
    }
}

/// Shell completions.
#[derive(Clone, Copy, Debug, PartialEq, Eq, Structural)]
pub struct CompletionsCommand;

impl CompletionsCommand {
    /// The name under which the command is called.
    pub fn name(&self) -> (word: &'static str)
        ensures
            word@ == "completions"@,
    {
        "completions"
    }
}

/// The settings.
#[derive(Clone, Copy, Debug, PartialEq, Eq, Structural)]
pub struct ConfigCommand;

impl ConfigCommand {
    /// The name under which the command is called.
    pub fn name(&self) -> (word: &'static str)
        ensures
            word@ == "config"@,
    {
        "config"
    }
}

/// The databases.
#[derive(Clone, Copy, Debug, PartialEq, Eq, Structural)]
pub struct DbCommand;

impl DbCommand {
    /// The name under which the command is called.
    pub fn name(&self) -> (word: &'static str)
        ensures
            word@ == "db"@,
    {
        "db"
    }
}

/// Downloads.
#[derive(Clone, Copy, Debug, PartialEq, Eq, Structural)]
pub struct DownloadCommand;

impl DownloadCommand {
    /// The name under which the command is called.
    pub fn name(&self) -> (word: &'static str)
        ensures
            word@ == "download"@,
    {
        "download"
    }
}

/// The library.
#[derive(Clone, Copy, Debug, PartialEq, Eq, Structural)]
pub struct LibraryCommand;

impl LibraryCommand {
    /// The name under which the command is called.
    pub fn name(&self) -> (word: &'static str)
        ensures
            word@ == "library"@,
    {
        "library"
    }
}

} // verus!
