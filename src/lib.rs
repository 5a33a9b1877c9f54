//! Translation of key/value game localisation files through a chat-completion
//! backend: chunking, prompt assembly, marker validation and reassembly.

pub mod text;
pub mod tokens;
pub mod error;
pub mod chunker;
pub mod merger;
pub mod naming;
pub mod validator;
pub mod glossary;
pub mod prompt;
pub mod models;
pub mod translator;
pub mod preprocess;
pub mod config;
pub mod defaults;
