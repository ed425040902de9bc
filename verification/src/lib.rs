//! Mail server core: account configuration, mailbox reading, attachments,
//! composing and the tool surface, each with its contract.
pub mod text;
pub mod path;
pub mod html;
pub mod json;
pub mod mime;
pub mod email;
pub mod attachment;
pub mod mailbox;
pub mod report;
pub mod names;
pub mod secret;
pub mod config;
pub mod cli;
pub mod compose;
pub mod send;
pub mod reply;
pub mod schema;
pub mod tools;
