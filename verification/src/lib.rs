//! vox: the logic of a streaming text-to-speech reader — voice references,
//! sentence chunking, pronunciation fixes, provider bookkeeping, karaoke
//! timing, the seekable playback cursor, the reader UI's state and texts,
//! the command line's decisions, and the menu-bar companion's settings.

pub mod text;
pub mod voices;
pub mod kokoro;
pub mod sentences;
pub mod reason;
pub mod transport;
pub mod karaoke;
pub mod audio;
pub mod providers;
pub mod lexicon;
pub mod readout;
pub mod controls;
pub mod config;
pub mod reader;
pub mod view;
pub mod cli;
pub mod tray;
