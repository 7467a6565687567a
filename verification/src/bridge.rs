//! Pieces of the local HTTP bridge that the front end talks to.
pub mod http;
pub mod routes;
