//! Verified core of an installer that prepares a game directory for the
//! UE4SS scripting runtime.
//!
//! The installer finds the install directory of the game, unpacks a pinned
//! release of the runtime into the directory of the game's binaries, switches
//! the mod loader and the console on in two text files, and writes a
//! signature script. This library holds what is decided and computed on the
//! way; a program around it touches the disk and the network.
//!
//! - [`pipeline`] runs an installation as requests to the caller and replies
//!   from it, and [`effects`] says what a run leaves on disk.
//! - [`modlist`] and [`settings`] patch the two files; [`text`], [`lines`],
//!   [`syntax`] and [`document`] are what they are made of.
//! - [`archive`] opens what was fetched, [`layout`] names the places and the
//!   fixed contents, and [`error`] the failures.

pub mod archive;
pub mod document;
pub mod effects;
pub mod error;
pub mod layout;
pub mod lines;
pub mod modlist;
pub mod pipeline;
pub mod settings;
pub mod syntax;
pub mod text;
