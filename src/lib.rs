//! Natural-language identification over a fixed set of candidate languages.
//!
//! The statistical engine (n-gram models, scoring, the rule-based script
//! shortcut) is the `lingua` crate. This library ranks what the engine reports,
//! applies the four detection operations to that ranking and renders their
//! results as text, with every step verified.
use vstd::prelude::*;

pub mod confidence;
pub mod detector;
pub mod engine;
pub mod facade;
pub mod language;
pub mod laws;
pub mod ranking;

pub use language::LanguageTag;
pub use detector::{
    detect_language, detect_language_with_confidence, detect_multiple_languages,
    detect_top_languages, Detector,
};
pub use ranking::ScoredLanguage;
