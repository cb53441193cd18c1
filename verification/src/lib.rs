//! Vacancy formatting and new-vacancy selection for a Telegram bot that
//! relays Rust job offers published on HeadHunter.

pub mod text;
pub mod hh_api;
pub mod scheduler;
pub mod bot;
