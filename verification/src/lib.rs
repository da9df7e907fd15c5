//! Verified core of the ChilloutVR MelonLoader assistant: PE / CLI metadata
//! reading for MelonLoader mod DLLs, version ordering, mod catalogue rules and
//! MelonLoader log analysis.

use vstd::prelude::*;

pub mod api;
pub mod archive;
pub mod config;
pub mod install;
pub mod listing;
pub mod log_scanner;
pub mod matching;
pub mod melon_dll;
pub mod models;
pub mod steam;
pub mod text;

