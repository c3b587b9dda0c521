//! A small client library for a machine-translation HTTP API.
//!
//! The library holds the verified core of the client: building the
//! form-encoded request body, deciding how an API key is looked up and
//! persisted, and parsing the JSON response of the translation endpoint.
//! All I/O (argument handling, the key file, standard input, the HTTP
//! request itself) lives outside the library and hands in plain values.

pub mod credentials;
pub mod encoding;
pub mod request;
pub mod response;
