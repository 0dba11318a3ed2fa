//! A verified core for a small image-blob service: a keyed store of image
//! records with insert-once semantics and aggregate accounting, an
//! upload-validation gate that accepts only bytes that fully decode as an
//! image, and the request-handling rules that map every outcome to an HTTP
//! status.

pub mod handlers;
pub mod laws;
pub mod store;
pub mod validate;
