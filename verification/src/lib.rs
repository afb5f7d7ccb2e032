//! Verified core of an exporter that turns an OBS scene collection into a
//! self-contained HTML overlay.

pub mod text;
pub mod utils;
pub mod json;
pub mod parser;
pub mod doc;
pub mod assets;
pub mod generator;
pub mod app;
