//! The logic of Orochi, a desktop companion that captures GIFs, pastes canned texts, draws a
//! cursor overlay and collects the comments left on clips.
//!
//! The library decides and computes; the program around it talks to the screen, the clipboard,
//! the disk and the network, and hands in what they answer.

pub mod bridge;
pub mod cursor;
pub mod frame;
pub mod gif;
pub mod json;
pub mod monitors;
pub mod overlay;
pub mod paste;
pub mod picture;
pub mod quality;
pub mod shortcuts;
pub mod state;
pub mod text;
pub mod winutil;
