//! Schedule import and substitute-matching engine for a school timetable.
//!
//! A timetable export arrives as a batch of loosely structured records.
//! The library normalizes each record into a typed lesson or availability,
//! deduplicates the entity names referenced by a batch, applies the batch to
//! an in-memory store as one atomic import (with a dry-run mode that
//! validates everything and keeps nothing), and answers the query "which
//! teachers can cover this absence" by correlating availability slots with
//! the absent lesson's slot. Absence status transitions are validated
//! against the substitute-binding rule.

pub mod dedup;
pub mod import;
pub mod absence;
pub mod matcher;
pub mod normalize;
pub mod store;
pub mod text;
pub mod types;
