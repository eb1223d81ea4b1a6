//! A project tracker's store: projects, their tasks and their daily logs,
//! with the rules that decide what each operation reads and changes.
pub mod db;
pub mod invariants;
pub mod laws;
pub mod order;
pub mod records;
pub mod roundtrip;
pub mod scope;
pub mod search;
pub mod session;
pub mod state;
pub mod tables;
pub mod text;
pub mod transfer;
