pub mod error;
pub mod fetch;
pub mod rss;
pub mod sanitize;
pub mod text;
pub mod xml_events;
