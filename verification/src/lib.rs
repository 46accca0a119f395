//! A static website gateway: it maps the host of a request to a directory of an
//! object store, and serves the note feed of one site from memory.
pub mod cache;
pub mod contents;
pub mod feed;
pub mod frame;
pub mod gateway;
pub mod html;
pub mod http;
pub mod json;
pub mod links;
pub mod note;
pub mod number;
pub mod percent;
pub mod query;
pub mod quotes;
pub mod reading;
pub mod safety;
pub mod schedule;
pub mod site;
pub mod store;
pub mod text;
pub mod trusted;
