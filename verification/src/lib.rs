//! Library of a small command-line notifier: it formats a message body
//! (right-trimmed and HTML-escaped) into a preformatted block with an
//! optional title line, resolves an optional forward-proxy address from
//! plain configuration values, and builds the form-encoded request that
//! delivers the message.

pub mod text;
pub mod message;
pub mod proxy;
pub mod request;
