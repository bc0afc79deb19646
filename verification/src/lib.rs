//! The decisions of an HTTP benchmark client, verified: how a request is
//! written, how a response is read and its body discarded, how connections are
//! kept or dropped, and how the measured times are summed up.

pub mod address;
pub mod body;
pub mod body_laws;
pub mod fetcher;
pub mod head;
pub mod header_laws;
pub mod options;
pub mod parser;
pub mod producer;
pub mod report;
pub mod response;
pub mod text;
