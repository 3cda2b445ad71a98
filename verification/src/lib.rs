//! Explains why a program cannot be executed.
//!
//! Given the name a program was invoked by, the search path and a record of
//! what was observed on disk, the library classifies every search directory
//! and every file the name could refer to, and ranks the names found in those
//! directories by how close they are to the one that was asked for.
//!
//! Nothing in here touches the file system: callers observe the paths that
//! [`Which::wanted_paths`] lists, record the answers in a [`Disk`], and hand
//! both to [`Which::diagnose`].
pub mod bytes;
pub mod disk;
pub mod file_state;
pub mod path;
pub mod path_part;
pub mod path_with_state;
pub mod problem;
pub mod program;
pub mod suggest;
pub mod text;
pub mod which;

pub use crate::disk::Disk;
pub use crate::disk::PathFacts;
pub use crate::program::Program;
pub use crate::which::Ambient;
pub use crate::which::Which;
pub use crate::which::WhichError;
