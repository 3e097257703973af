//! The notification database: query parsing, SQL emission and the steps
//! of recording a notification.

pub mod flow;
pub mod intermediates;
pub mod lexer;
pub mod parser;
pub mod sql;
pub mod syntax;
pub mod text;
