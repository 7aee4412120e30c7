pub mod app;
pub mod anchor_invariants;
pub mod anchors;
pub mod docx;
pub mod error;
pub mod field_guarantees;
pub mod guarantees;
pub mod output;
pub mod parse;
pub mod sorted_map;
pub mod text;
pub mod xml;
