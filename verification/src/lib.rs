//! A Matrix channel: the logic of talking to a homeserver over the
//! Client-Server API, with the network left to the caller.

pub mod adapter;
pub mod escape_laws;
pub mod html;
pub mod incoming;
pub mod json;
pub mod media;
pub mod message;
pub mod outgoing;
pub mod outside;
pub mod requests;
pub mod streaming;
pub mod sync;
pub mod text;
pub mod tools;
