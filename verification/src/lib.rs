//! A small relational engine over comma-separated table files.
//!
//! Every table is one text file: a header line with the column names, then one line for
//! each row. The engine carries out four kinds of statement on an in-memory image of the
//! directory that holds these files ([`storage::DataRoot`]): create, insert, select and
//! delete. Reading the directory, writing it back and parsing statements are left to the
//! caller.

pub mod ast;
pub mod common;
pub mod error;
pub mod text;
pub mod number;
pub mod storage;
pub mod helpers;
pub mod utils;
pub mod commands;
pub mod laws;
