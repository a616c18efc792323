//! Decision core of a CDN-backed directory synchroniser.
//!
//! The crate rates and selects content hosts, compares a published manifest
//! with what is on disk, and drives the download-and-verify loop. It performs
//! no I/O itself: callers carry out the requests it issues and report back.

pub mod args;
pub mod cache;
pub mod cdn;
pub mod fetch;
pub mod manifest;
pub mod rating;
pub mod scan;
pub mod text;
