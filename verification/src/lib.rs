//! Shell aliases kept in named collections.

pub mod account;
pub mod arrival;
pub mod clock;
pub mod commands;
pub mod crypto;
pub mod effects;
pub mod error;
pub mod laws;
pub mod migration;
pub mod model;
pub mod names;
pub mod outside;
pub mod parse;
pub mod paths;
pub mod records;
pub mod release;
pub mod rows;
pub mod select;
pub mod shell;
pub mod startup;
pub mod store;
pub mod sync;
pub mod table;
pub mod text;
pub mod transfer;
