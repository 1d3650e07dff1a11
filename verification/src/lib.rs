//! Cascading environment declarations: discovery, composition and locking.
//!
//! A project declares its runtime environment in small files spread over a
//! directory tree. [`discovery`] finds and orders the files that apply to a
//! starting directory, [`compose`] merges them into one environment, and
//! [`lock`] freezes that environment and detects drift against a snapshot.
//!
//! The library never touches the file system or the layer store itself: it
//! says what it needs to know, and is told. What a discovery run returns
//! against a given file system is stated in [`expansion`], over the model of
//! [`world`]; [`tree`] and [`cycles`] hold what is promised about inheritance
//! and about circular includes.

use vstd::prelude::*;

pub mod bind;
pub mod compose;
pub mod cycles;
pub mod declaration;
pub mod discovery;
pub mod environment;
pub mod error;
pub mod expansion;
pub mod lock;
pub mod package;
pub mod path;
pub mod repository;
pub mod runtime;
pub mod show;
pub mod template;
pub mod text;
pub mod tree;
pub mod world;

verus! {

/// Name of the declaration file of a directory.
pub const SPENV_FILENAME: &'static str = ".spenv.yaml";

/// Name of the local override file of a directory.
pub const SPENV_LOCAL_FILENAME: &'static str = ".spenv.local.yaml";

/// Name of the lock file of a directory.
pub const SPENV_LOCK_FILENAME: &'static str = ".spenv.lock.yaml";

} // verus!
