//! The live trader: its settings, and how live events reach the recorder and the engine.
pub mod config;
pub mod metadata;
pub mod pipeline;
