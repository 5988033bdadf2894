//! Verified core of a bulletin-board feed service.
//!
//! The library extracts structured records from the bulletin board's HTML
//! pages, reconciles a remote id listing against a local cache of parsed
//! records, and hands the serving layer an atomically replaceable snapshot.

pub mod bundle;
pub mod compat;
pub mod dom;
pub mod serve;
pub mod extract;
pub mod post;
pub mod strmap;
pub mod sync;
pub mod text;
