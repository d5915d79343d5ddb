//! Copying sensitivity and FOV settings between the two games' config files.
//!
//! The library part works on the files' contents: which settings a file
//! holds, what a profile text says, what applying it would change, and the
//! rewritten text.  Reading and writing the files is the application's.

pub mod fields;
pub mod line;
pub mod content;
pub mod scan;
pub mod preview;
pub mod rewrite;
pub mod backup;
pub mod swap;

use vstd::prelude::*;

verus! {

/// Which game's config files.
#[derive(Debug, Clone, Copy, PartialEq, Eq, Structural, Hash)]
pub enum ConfigGame {
    Apex,
    R5,
}

impl ConfigGame {
    /// The folder under `Saved Games/Respawn` that holds the game's config.
    pub fn folder_name(self) -> (s: &'static str)
        ensures
            s@ == folder_name_spec(self),
    {
        match self {
            ConfigGame::Apex => "Apex",
            ConfigGame::R5 => "Apex_fnf",
        }
    }

    /// The short name used for the game's backup folder.
    pub fn slug(self) -> (s: &'static str)
        ensures
            s@ == slug_spec(self),
    {
        match self {
            ConfigGame::Apex => "apex",
            ConfigGame::R5 => "r5",
        }
    }
}

pub open spec fn folder_name_spec(g: ConfigGame) -> Seq<char> {
    match g {
        ConfigGame::Apex => "Apex"@,
        ConfigGame::R5 => "Apex_fnf"@,
    }
}

pub open spec fn slug_spec(g: ConfigGame) -> Seq<char> {
    match g {
        ConfigGame::Apex => "apex"@,
        ConfigGame::R5 => "r5"@,
    }
}

/// The part of the UI that shows a setting.
#[derive(Debug, Clone, Copy, PartialEq, Eq, Structural, Hash)]
pub enum ConfigSection {
    MouseKeyboard,
    Controller,
    Fov,
}

} // verus!
