//! Text building blocks, checkpoint records, JSON rendering of scraped
//! chapters and the command model of a manga scraper.

pub mod text;
pub mod decimal;
pub mod args;
pub mod json;
pub mod checkpoint;
pub mod layout;
pub mod listing;
pub mod capture;
