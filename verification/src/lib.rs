//! Script Generator: a verified request adapter for a chat-completion API.
//!
//! The library builds the authenticated HTTP request for a prompt (two chat
//! messages, fixed model parameters, JSON body) and interprets the provider's
//! response (status code, JSON body) as either the generated text or one of a
//! small set of errors. The host application performs the actual network call
//! and hands the plain values (status, bytes) back to the library.

pub mod errors;
pub mod escape;
pub mod grammar;
pub mod laws;
pub mod parser;
pub mod unicode;
pub mod request;
pub mod response;
pub mod textual;
