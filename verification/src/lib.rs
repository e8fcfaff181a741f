//! Playlists for a sampler module that plays one sample per range of MIDI notes.
//!
//! A sample's file name carries its pitch ("dubstab-C1.wav"). The library reads
//! that pitch, orders the samples by it and writes the playlist text in which
//! each sample is given the note it sounds at and the note at which playback
//! passes to it from the sample below.

pub mod text;
pub mod pitch;
pub mod scan;
pub mod order;
pub mod decimal;
pub mod playlist;
pub mod extension;
