pub mod conversation;
pub mod md_paraser;
pub mod ai;
pub mod setter;
pub mod document;
