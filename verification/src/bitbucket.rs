//! Read-only access to Bitbucket Data Center: the pull request's identity, state, checks and
//! comments.
//!
//! Everything here decides and computes; running `curl` and `git`, reading the environment and
//! walking the repository is the caller's part. A fetch is a [`fetch::Fetch`] that asks for one
//! thing after another and ends with the view to show; a run of a tool is a [`process::Run`].

pub mod association;
pub mod auth;
pub mod errors;
pub mod fetch;
pub mod normalize;
pub mod process;
pub mod readings;
pub mod runs;
pub mod steps;
pub mod tool;
pub mod urls;
