//! Audira's playback, playlist and text logic, with its contracts.

pub mod clock;
pub mod folder;
pub mod icons;
pub mod metadata;
pub mod player;
pub mod playlist;
pub mod text;
pub mod theme;
pub mod waveform;
