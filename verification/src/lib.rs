//! Archive detection, naming, path safety and extraction planning for an
//! archive extractor, with every decision stated and proved in Verus.
//!
//! The modules hold the logic only: reading files, running decoders and
//! drawing the interface happen in the program around this library, which
//! hands plain values in and acts on the plain values that come back.

pub mod format;
pub mod text;
pub mod paths;
pub mod entry;
pub mod formats;
pub mod extraction;
pub mod browse;
pub mod session;
pub mod theme;
pub mod cli;
pub mod report;
pub mod window;
