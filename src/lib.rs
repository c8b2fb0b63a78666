//! A recursive web crawler's core: link extraction, URL normalisation, the
//! per-URL crawl state machine and the crawl orchestrator.
pub mod base_url;
pub mod command;
pub mod error;
pub mod parser;
pub mod text;
pub mod url_worker;
pub mod web_url;
pub mod crawler;
