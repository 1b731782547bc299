//! A voxel engine's world rules and bookkeeping, verified: the block table, chunk lighting,
//! the edit journal's file format and a session's edits, the preferences file, the command line's grammar,
//! look-book sheets, menu navigation, the renderer's buffer and pair budgets, and the
//! measurement fixture's image metrics.

pub mod block;
pub mod config;
pub mod edits;
pub mod voxel;
pub mod light;
pub mod harness;
pub mod text;
pub mod journal;
pub mod idle;
pub mod lod;
pub mod render;
pub mod scene;
pub mod settings;
pub mod lookbook;
pub mod menu;
pub mod pools;
