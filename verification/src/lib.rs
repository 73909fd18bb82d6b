//! The logic of an MCP server in front of a language server: what it asks the language server, what it
//! makes of the answers, how it edits files, runs commands and keeps refactorings under discussion.
//! Processes, files and connections are left to the program around it.
pub mod args;
pub mod changes;
pub mod diagnostics;
pub mod edits;
pub mod errors;
pub mod find;
pub mod guidance;
pub mod handler;
pub mod ids;
pub mod json;
pub mod lsp;
pub mod manual;
pub mod models;
pub mod notices;
pub mod offsets;
pub mod protocol;
pub mod sessions;
pub mod splices;
pub mod stream;
pub mod symbols;
pub mod terminals;
pub mod text;
pub mod tools;
pub mod uri;
pub mod workspace;
