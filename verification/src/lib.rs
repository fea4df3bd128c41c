//! Verified core of a self-hosted media archive server: input validation,
//! configuration, session and share-link rules, storage paths and digests.

pub mod auth;
pub mod config;
pub mod digest;
pub mod error;
pub mod hex;
pub mod http;
pub mod routes;
pub mod text;
pub mod util;
