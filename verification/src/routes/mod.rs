//! The decisions of the API's request handlers, apart from their storage and network
//! work.

pub mod admin;
pub mod dupes;
pub mod files;
pub mod share;
pub mod tags;
