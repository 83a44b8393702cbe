//! Verified core of a streaming Markdown canvas renderer: renderer fallback
//! policy, the case-insensitive search index, the code-block highlighter and
//! its language profiles, selection and search navigation, the reader's
//! controls, feeding the simulated stream, and the integer parts of math
//! raster handling.
pub mod bytes;
pub mod text;
pub mod compat;
pub mod search;
pub mod scan;
pub mod shell;
pub mod language;
pub mod lexer;
pub mod highlight;
pub mod pack;
pub mod registry;
pub mod binary;
pub mod packs;
pub mod code;
pub mod japanese;
pub mod math;
pub mod document;
pub mod canvas;
pub mod controls;
pub mod feed;
