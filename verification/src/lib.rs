//! Sharing research papers on a Freechains network: notices of articles that can be
//! searched, and resources of any size stored as chains of linked chunks.
//!
//! The crate decides; it does not read, write or talk to a node. Whoever uses it
//! carries out the requests it hands out and tells it what came of them.

pub mod address;
pub mod chain;
pub mod chunk;
pub mod codec;
pub mod download;
pub mod error;
pub mod node;
pub mod reputation;
pub mod resource;
pub mod share;
pub mod upload;

pub use error::Error;
pub use share::{get_title, get_uri, search_all, share_article};
