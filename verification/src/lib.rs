//! An in-memory relational store: typed tables whose rows carry a version for
//! optimistic updates and may refer to rows of other tables, with a drop that
//! cascades to every row that refers to the one removed.
//!
//! The engine is sequential: a caller that shares a [`database::Database`]
//! between tasks puts it behind a lock of its own.

pub mod value;
pub mod schema;
pub mod packet;
pub mod model;
pub mod preservation;
pub mod database;
pub mod cascade;
pub mod laws;
pub mod session;
