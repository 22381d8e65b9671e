//! Verified core of a Japanese on-screen reading assistant.
//!
//! The pipeline turns noisy per-word OCR detections into annotated text
//! runs: OCR output lines are parsed into word records, grouped by OCR line
//! identity and segmented into trustworthy runs, each run's geometry is
//! aggregated, a morphological analysis of the run's text (obtained by an
//! unverified transport layer) is validated against the run's character
//! count and re-aligned onto per-character pixel boxes, and each morpheme's
//! grammatical tag tuple is classified into a lexical category.

pub mod annotate;
pub mod categorize;
pub mod config;
pub mod jpn;
pub mod morph;
pub mod ocr;
pub mod parse;
pub mod script;
pub mod session;
