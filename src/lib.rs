//! Sequencing and synthesis for a small tone player: beat timing, note
//! names, click-free voices, and a cooperative scheduler that runs musical
//! lines one audio pass at a time.

pub mod beat;
pub mod instrument;
pub mod note;
pub mod player;
pub mod synth;
pub mod synth_registry;
pub mod tracks;
