//! A minimal synchronous HTTP/1.1 server, verified.
//!
//! [`http`] holds the messages: a request is parsed from the bytes of a
//! connection without copying them, a response is written in its wire
//! form. [`server`] holds the rule by which one connection is answered and
//! the handler that the embedding program supplies.
//!
//! Two small studies stand apart from the server: [`dolphin`], of an error
//! type and of functions that fail in a fixed order, and
//! [`password_manager`], of a state kept in a type.
pub mod dolphin;
pub mod http;
pub mod password_manager;
pub mod server;
