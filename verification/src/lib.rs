//! The analysis engine of a language server for Amble, a small language
//! in which the worlds of interactive fiction are written: rooms, items,
//! characters, flags and named sets of rooms.
//!
//! The engine keeps, across all documents of a workspace, where each
//! symbol is defined and where it is used, and answers from that: the
//! diagnostics of a document, the symbol at a position, the kind of
//! symbol that is expected at a position, the edits of a rename, hovers,
//! outlines, and the indentation of a document.
//!
//! Parsing is not done here. Whoever parses hands over the syntax tree as
//! plain values ([`syntax::SyntaxTree`]) together with the nodes that the
//! queries for definitions and references found
//! ([`schedule::ParsedSource`]).
//!
//! - [`chars`]: operations on texts, character by character.
//! - [`text`]: positions and byte offsets in a document.
//! - [`encoding`]: how counts in characters and counts in bytes agree.
//! - [`symbols`]: kinds of symbols, locations, metadata.
//! - [`index`]: the symbol index of one kind, and the store of all kinds.
//! - [`syntax`]: syntax trees as plain values.
//! - [`extract`]: the metadata that a definition states.
//! - [`spans`]: ranges of nodes, and the spelling of flag references.
//! - [`schedule`]: the bodies of scheduled actions, and the player's start.
//! - [`analysis`]: what a document contributes to the store.
//! - [`backend`]: the state of the engine, and the analysis of a document.
//! - [`laws`]: what holds of every analysis.
//! - [`nested`]: what holds of a flag that a scheduled body defines.
//! - [`diagnostics`], [`report`]: the diagnostics of a document.
//! - [`context`]: the kind of symbol that is expected at a position.
//! - [`hover`]: the markdown that describes a definition.
//! - [`workspace`]: rename, outlines, search, completion entries.
//! - [`requests`]: the answers that are read off the symbol at a position.
//! - [`scanner`]: the decisions of the workspace scanner, and paths.
//! - [`format`], [`lists`]: the indentation of a document and its lists.
//! - [`extension`]: what an editor extension needs to start the server.

pub mod analysis;
pub mod backend;
pub mod chars;
pub mod context;
pub mod diagnostics;
pub mod encoding;
pub mod extension;
pub mod extract;
pub mod format;
pub mod hover;
pub mod index;
pub mod laws;
pub mod lists;
pub mod nested;
pub mod report;
pub mod requests;
pub mod scanner;
pub mod schedule;
pub mod spans;
pub mod symbols;
pub mod syntax;
pub mod text;
pub mod workspace;
