//! Core logic of a computer-assisted translation server: document parsing,
//! quality checks, translation-memory matching, term extraction, sentence
//! alignment bookkeeping, segment locking and the request rules of the API.

pub mod alignment;
pub mod analytics;
pub mod auth;
pub mod config;
pub mod error;
pub mod forms;
pub mod locks;
pub mod mt;
pub mod order;
pub mod plugin_api;
pub mod plugins;
pub mod qa;
pub mod records;
pub mod sentences;
pub mod terms;
pub mod text;
pub mod tm;
pub mod vendor;
pub mod xliff;
pub mod xml;
