//! The command logic of an Audible library client: how requests are composed,
//! how titles and files are resolved, planned, named and reported.

pub mod account;
pub mod agent;
pub mod annotations;
pub mod api;
pub mod catalog;
pub mod collections;
pub mod commands;
pub mod completions;
pub mod config;
pub mod db;
pub mod download;
pub mod hosts;
pub mod items;
pub mod json;
pub mod library;
pub mod lists;
pub mod paths;
pub mod tables;
pub mod text;
pub mod text_map;
pub mod units;
