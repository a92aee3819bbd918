//! Palm Beach County property records: parcel control numbers, the parcel
//! layer's attribute records, the county detail page's embedded data block,
//! search-clause construction, preferences and text rendering.

pub mod text;
pub mod error;
pub mod pcn;
pub mod util;
pub mod json;
pub mod money;
pub mod details;
pub mod model;
pub mod client;
pub mod config;
pub mod cli;
pub mod commands;
pub mod formatter;
pub mod version;
