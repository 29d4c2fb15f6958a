//! Telemetry bridge core: decodes a fixed-layout shared-memory segment of
//! hardware sensor readings, diffs it against the previous poll, and encodes
//! a compact binary frame plus, on structural change, a JSON catalog of the
//! sensors and readings.
//!
//! Everything here works on plain byte slices: the process that owns the
//! actual shared-memory mapping hands the mapped bytes in and distributes the
//! produced frames.
//!
//! - `wire`: little-endian integers, decimal rendering, signed timestamps
//! - `layout`: the segment's header and record tables, with bounds checks
//! - `groups`: runs of readings that share one owning sensor
//! - `text`: null-trimming, UTF-8 validation, JSON string escaping
//! - `snapshot`: the diff engine and the frame encoder (`Snapshot::poll`)
//! - `catalog`: the JSON catalog emitted on structural change
//! - `actor`: the distribution pipeline's decisions and cached latest state
//! - `errors`: how a poll fails

pub mod actor;
pub mod catalog;
pub mod errors;
pub mod groups;
pub mod layout;
pub mod snapshot;
pub mod text;
pub mod wire;
