//! Verified core of the WhisperOSS dictation tool: hotkey tracking, text
//! rewriting, audio buffering and resampling, the Gemini Live session
//! controller, the request and answer formats of both providers, and the
//! decisions the desktop shell makes around them.

pub mod applog;
pub mod audio;
pub mod autostart;
pub mod casualize;
pub mod clipboard;
pub mod commands;
pub mod config;
pub mod dsp;
pub mod gemini;
pub mod groq;
pub mod hook;
pub mod hotkey_logic;
pub mod json;
pub mod keys;
pub mod overlay_state;
pub mod pipeline;
pub mod position;
pub mod prompts;
pub mod text;
