//! Line-oriented substring search with a small command-line argument parser.
//!
//! The library splits a text into lines, selects the lines that contain a
//! query string (exactly, or up to ASCII case), and turns a raw argument
//! list into a validated search configuration.

pub mod config;
pub mod lines;
pub mod search;
pub mod text;
