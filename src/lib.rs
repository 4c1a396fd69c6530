//! A small persistence layer for study groups and classes kept in a SQLite
//! file: schema set-up, the fixed queries, and the typed mapping of result
//! rows, with the mapping and the identifier codec proved against their
//! specifications.
pub mod binding;
pub mod decimal;
pub mod model;
pub mod rows;
pub mod store;
