//! The decision-making half of a pocket voice assistant.
pub mod bezel;
pub mod bytes;
pub mod captions;
pub mod chat;
pub mod crc;
pub mod diff;
pub mod draw;
pub mod form;
pub mod frames;
pub mod http;
pub mod pcm;
pub mod pins;
pub mod playback;
pub mod portal;
pub mod reply;
pub mod scene;
pub mod screens;
pub mod settings;
pub mod speech;
pub mod text;
pub mod tone;
pub mod touch;
pub mod ui;
pub mod vad;
pub mod wav;
pub mod wrap;
