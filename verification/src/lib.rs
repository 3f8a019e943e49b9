//! Translation resolution pipeline for visual-novel localization scripts:
//! a translation-unit data model, a normalizing content-addressed translation
//! memory, and a fault-tolerant batched client for an external translation
//! provider, orchestrated so that cache hits and live translations merge
//! without ever corrupting the persisted store.

pub mod ai;
pub mod command;
pub mod digest;
pub mod entry;
pub mod matcher;
pub mod pipeline;
pub mod project;
pub mod qa;
pub mod rebuild;
pub mod store;
pub mod strutil;
pub mod text;
pub mod tm;
