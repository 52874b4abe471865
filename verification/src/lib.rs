//! The request-handling core of a small static-content server.
//!
//! A connection is served by a state machine ([`handler::handle_client`]) that never touches
//! the network or the filesystem itself: it is handed the outcome of each I/O step as an
//! [`handler::Event`] and answers with the next [`handler::Action`] to perform. Everything the
//! machine decides on the way (which path a request names, whether the canonical path lies
//! inside the served root, what a directory listing looks like, how a file is transferred)
//! is a verified function of this crate.

pub mod text;

pub mod request;
pub mod resolver;
pub mod response;
pub mod listing;
pub mod order;
pub mod handler;
pub mod connection;
