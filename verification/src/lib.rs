//! Indexing and caching of locally stored assistant conversation logs.
//!
//! Two tools write their conversations as newline-delimited JSON, each in a
//! format of its own. This library reads both, filters out what is no
//! session, and answers the questions of a host that browses projects and
//! sessions: which projects are there, which sessions has a project, what
//! does a session say. Around that it keeps a metadata cache that is valid
//! for as long as a log file is not modified, a small memory cache of
//! rendered sessions, and the manifest of a trash for deleted sessions.
//!
//! The library touches neither the file system nor a clock. Its caller reads
//! the log files and hands them over ([`store`]), and writes out what the
//! library decides ([`cache`], [`trash`]).
//!
//! Every function is verified against its contract. What rests on code that
//! is not verified is said where it stands: parsing and rendering JSON
//! ([`json`]), the LRU cache ([`memory`]), and a few string functions of the
//! standard library ([`text`]).

pub mod any_provider;
pub mod cache;
pub mod claude_provider;
pub mod codex_provider;
pub mod json;
pub mod lines;
pub mod listing;
pub mod memory;
pub mod paginate;
pub mod provider;
pub mod rank;
pub mod scan;
pub mod search;
pub mod seqs;
pub mod service;
pub mod store;
pub mod text;
pub mod trash;
pub mod types;
