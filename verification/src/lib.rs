//! Notification store: a query language for selecting stored desktop
//! notifications, its translation to SQL, and the decisions taken while a
//! notification is recorded.

pub mod cli;
pub mod db;
