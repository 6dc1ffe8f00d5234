//! Ingestion and aggregation of recorded exercise sessions.
//!
//! Decoded session records ([`tcx`]) are normalised into laps of track points
//! ([`common`]), summarised ([`aggregate`]) and indexed by a digest of each
//! session's natural key ([`id`], [`database`]). [`route`] picks out the
//! samples that can be drawn on a map.

pub mod aggregate;
pub mod common;
pub mod database;
pub mod error;
pub mod id;
pub mod route;
pub mod tcx;
pub mod units;
