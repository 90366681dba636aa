//! A small persistence layer that maps calendar dates to durable `Day`
//! records in a relational store.
//!
//! Given a date, the repository deterministically returns the one record
//! representing that date, creating it on first access; given a reference
//! that is either an identifier or an already-resolved value, it resolves it
//! to a concrete record; and it produces calendar-aligned batches of records
//! (a full Monday-to-Sunday week, or the partial week up to a given date).

pub mod date;
pub mod dto;
pub mod error;
pub mod repo;
pub mod store;

pub use date::Date;
pub use date::MAX_DAY_NUMBER;
pub use dto::Day;
pub use dto::DayReference;
pub use error::DayError;
pub use repo::day_from_row;
pub use repo::DayRepository;
