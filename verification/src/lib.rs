//! Verified core of a small web playground: a counter, a todo list's request
//! logic, a chat hub with its wire format, and the TLS certificate material the
//! server presents.

pub mod counter;
pub mod text;
pub mod json;
pub mod chat;
pub mod error;
pub mod todo;
pub mod cert;
