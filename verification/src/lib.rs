//! Route model, store reducer and page content of a small routed Respo app.
pub mod pages;
pub mod query;
pub mod router;
pub mod router_util;
pub mod store;
pub mod text;
pub mod url;
