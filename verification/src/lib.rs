//! Video Squeezer: the planning, naming, and presentation rules behind a
//! batch video compressor, with their contracts.

pub mod binary64;
pub mod compression;
pub mod text;
pub mod formatting;
pub mod paths;
pub mod probe;
pub mod models;
pub mod encoder;
pub mod settings;
pub mod view;
pub mod scheduler;
