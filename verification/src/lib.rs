//! Core logic of `q`, a set of one-letter commands for reading, searching
//! and editing files: line handling and truncation, range parsing for
//! `print`, plain and regex replacement with backups, grep-style search
//! output, file finding by glob and type, directory trees and listings,
//! and the texts that each command reports.

pub mod chars;
pub mod engines;
pub mod find;
pub mod git;
pub mod laws;
pub mod listing;
pub mod order;
pub mod print;
pub mod replace;
pub mod reports;
pub mod search;
pub mod sorting;
pub mod text;
pub mod trunc;
