//! Data model and editing logic of the equipment procedure builder.
//!
//! A procedure (`Algorithm`) is a graph of steps. Each step leads to other
//! steps through its options (standard steps), through the two outcomes of a
//! measurement, through the acknowledgement of a safety warning, or through
//! the two outcomes of a nested sub-procedure. The library holds that graph,
//! the editor state around it (undo/redo, selection, search), the diagnostic
//! runner that walks it, the graph checks drawn on the canvas, the layering
//! used by the automatic layout, the archive catalogue and the interface
//! texts in both languages.
//!
//! Modules:
//! - `models`: the procedure, its steps and their views;
//! - `ids`: identifiers and time stamps;
//! - `text`: trimming, lower case, substring tests and the order of texts;
//! - `graph`: the targets of a step, the canvas checks, connector letters;
//! - `links`: drawing and cutting links, the style of single links;
//! - `layout`: the layering of the automatic layout;
//! - `editor`: the editor state, undo and redo, search, zoom steps;
//! - `edits`: the edits of the builder;
//! - `runner`: the diagnostic run;
//! - `archive`: the archive catalogue;
//! - `i18n`, `settings`: interface texts and preferences.
use vstd::prelude::*;

pub mod archive;
pub mod editor;
pub mod edits;
pub mod graph;
pub mod i18n;
pub mod ids;
pub mod layout;
pub mod links;
pub mod models;
pub mod runner;
pub mod settings;
pub mod text;

verus! {

} // verus!
