//! In-memory personnel and department roster management.
//!
//! The crate keeps two related entity collections, departments and people,
//! in integer-keyed arenas owned by a single store. Alias indices stay
//! sorted by alias, department rosters stay sorted by the employees'
//! natural name order, and every person is enrolled in exactly the
//! department they point to.

pub mod lex;
pub mod date;
pub mod personnel;
pub mod department;
pub mod data_handling;
