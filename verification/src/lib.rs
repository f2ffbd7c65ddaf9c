//! A local speech-to-text daemon library: recording state machine, control
//! protocol, event serialization, model pool, and silence trimming, verified
//! with Verus. Audio capture, sockets, and the transcription engine are
//! consumed through narrow capabilities provided by the surrounding binary.
pub mod audio;
pub mod capture;
pub mod daemon;
pub mod error;
pub mod events;
pub mod ipc;
pub mod json;
pub mod model;
pub mod output;
pub mod text;
pub mod time;
pub mod types;
