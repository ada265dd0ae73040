//! Core logic of the Vrac outliner: identifiers, pagination cursors,
//! clipboard outlines, and the text handling of the terminal client.

use vstd::prelude::*;

pub mod editing;
pub mod editor;
pub mod cache;
pub mod commands;
pub mod completion;
pub mod config;
pub mod display;
pub mod error;
pub mod hex;
pub mod identity;
pub mod keys;
pub mod layout;
pub mod model;
pub mod moves;
pub mod navigation;
pub mod outline;
pub mod pagination;
pub mod panels;
pub mod paste;
pub mod performance;
pub mod prompts;
pub mod round_trip;
pub mod session;
pub mod setup;
pub mod text;
pub mod visible;
pub mod width;
pub mod workspace;

verus! {

} // verus!
