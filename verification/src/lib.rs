//! Idempotent, format-preserving structural editing of Nix flake files,
//! plus the devshell configuration logic around it.
//!
//! The editor parses a source text into a lossless tree (`syntax`, `parse`),
//! locates the `inputs` attribute set by structural pattern (`locate`),
//! checks for an existing entry and plans the minimal byte splice (`plan`),
//! and applies it to the original text (`edit`). Every byte of the original
//! appears unchanged in the output, which is proved, not hoped for.

pub mod config;
pub mod edit;
pub mod flake_url;
pub mod locate;
pub mod parse;
pub mod plan;
pub mod syntax;
pub mod text;
