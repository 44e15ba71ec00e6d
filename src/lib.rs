//! A chat transcript kept as an editable markdown document: the role
//! alternation rules of a conversation, the section scanner that reads the
//! document back, and the renderers that write it and the request payload.

pub mod api;
pub mod conversation;
pub mod md_parser;
