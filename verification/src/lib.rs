//! Scraping and response-shaping logic of a small web proxy.
pub mod text;
pub mod html;
pub mod pattern;
pub mod pornlulu;
pub mod json;
pub mod error;
pub mod startup;
pub mod address;
pub mod baihua;
