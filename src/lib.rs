//! A small CRUD server over a dataset of racing teams and their drivers:
//! request parsing, routing, sessions, the dataset store and the responses,
//! each stated and proved.

pub mod api;
pub mod dataset;
pub mod document;
pub mod json;
pub mod request;
pub mod router;
pub mod session;
pub mod text;
