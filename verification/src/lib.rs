//! A line-oriented chat protocol: the client's login and message framing,
//! the server's per-connection session, the password check against an
//! RSA-encrypted secret, interface selection and the chat window's model.

pub mod text;
pub mod client_server_utils;
pub mod client;
pub mod server;
pub mod gui;
