//! Renames the part images of a layered character illustration to the
//! canonical names that downstream tools expect.
pub mod args;
pub mod error;
pub mod filename;
pub mod groups;
pub mod naming;
pub mod paths;
pub mod pipeline;
pub mod renamers;
pub mod validators;
