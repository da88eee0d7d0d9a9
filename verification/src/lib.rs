//! A strongly-typed client library for AnkiConnect, with verified text
//! helpers for cloze deletions, math delimiters and Markdown rendering.

pub mod text;
pub mod json;
pub mod error;
pub mod client;
pub mod cards;
pub mod decks;
pub mod gui;
pub mod media;
pub mod models;
pub mod notes;
pub mod markdown;

pub use client::{AnkiRequest, DEFAULT_URL, ANKI_CONNECT_VERSION};
pub use error::{AnkiError, Result};
