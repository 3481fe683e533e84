//! The request layer: methods, form fields, responses and routes.

pub mod body_parser;
pub mod methods;
pub mod response;
pub mod server;
