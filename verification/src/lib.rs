//! okibi: warm the tiles that people actually ask for.

#![allow(unused_imports)]

pub mod aggregate;
pub mod config;
pub mod digest;
pub mod epochs;
pub mod error;
pub mod hash;
pub mod invalidation;
pub mod manifest;
pub mod plan;
pub mod planner;
pub mod query;
pub mod query_rules;
pub mod quadkey;
pub mod report;
pub mod review;
pub mod sql;
pub mod sql_lines;
pub mod sql_text;
pub mod text;
pub mod sorted_map;
pub mod tile;
pub mod verify;
pub mod warm;
pub mod time;
pub mod timestamp;
pub mod window;
