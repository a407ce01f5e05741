//! Bookkeeping for bills and expenses: the records kept in the accounting
//! database, the order in which they are listed, and the SQL statements,
//! file names and replies that the web front end issues.

pub mod models;
pub mod order;
pub mod pages;
pub mod statements;
pub mod text;

