//! Core of a per-project tool version manager: resolving version
//! specifiers against releases, choosing a platform asset, gating
//! installation on trust, and tracking installed tools and their links.

pub mod cli;
pub mod codec;
pub mod error;
pub mod home;
pub mod install;
pub mod links;
pub mod models;
pub mod range;
pub mod resolve;
pub mod select;
pub mod store;
pub mod trust;
pub mod version;
