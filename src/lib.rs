//! Birthday records per (user, community), with a yearly announcement sweep.
//!
//! The library holds the calendar arithmetic, the record store with its
//! one-record-per-pair rule, and the decision of which birthdays are due on
//! a given UTC day. Reading and writing the durable file, the chat commands
//! and the periodic timer live in the application around it.

pub mod date;
pub mod text;
pub mod store;
pub mod scheduler;
pub mod query;
pub mod laws;
