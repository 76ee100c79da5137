//! Parsers for the pages of athletics.app (formerly atletiek.nu).
//!
//! Each parser reads a page through `scraper`, hands what it read to a
//! function over plain values, and returns the library's own records.
//! Those functions state exactly what they return.

pub mod calendar;
pub mod error;
pub mod html;
pub mod pattern;
pub mod text;
pub mod models;
