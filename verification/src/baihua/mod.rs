//! The forum archive scraped by the `Catcher`.
pub mod catcher;
pub mod routes;
