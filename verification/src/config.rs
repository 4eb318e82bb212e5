//! Persisted settings. Every field has a default so a bad or missing
//! configuration file can never brick the app. API keys are not here; they
//! live in the credential store. Reading and writing the JSON file is done by
//! the shell.

use vstd::prelude::*;
use crate::text::same_text;

verus! {

pub const DEFAULT_GROQ_MODEL: &'static str = "whisper-large-v3-turbo";
pub const DEFAULT_GEMINI_MODEL: &'static str = "gemini-3.5-transcribe-live";
/// The completed-audio model an older release saved; it is read as the live
/// model.
pub const LEGACY_GEMINI_MODEL: &'static str = "gemini-3.5-transcribe";

#[derive(Debug, Clone, Copy, PartialEq, Eq, Structural)]
pub enum TranscriptionProvider {
    Groq,
    Gemini,
}

impl Default for TranscriptionProvider {
    fn default() -> (p: Self)
        ensures
            p == TranscriptionProvider::Groq,
    {
        TranscriptionProvider::Groq
    }
}

#[derive(Debug, Clone, PartialEq)]
pub struct Config {
    /// Hold-to-dictate combo as lowercase key names, e.g. ["ctrl", "win"].
    pub hotkey: Vec<String>,
    pub use_formatter: bool,
    pub casual_mode: bool,
    /// Input device by name; `None` is the system default.
    pub input_device: Option<String>,
    /// "auto", "light" or "dark".
    pub theme: String,
    pub run_on_startup: bool,
    /// Custom vocabulary sent with each transcription; empty turns it off.
    pub vocabulary: Vec<String>,
    /// Only this provider receives recorded audio.
    pub transcription_provider: TranscriptionProvider,
    pub groq_model: String,
    pub gemini_model: String,
    /// Shows interim text on the overlay while speaking (Gemini).
    pub show_live_transcript: bool,
}

/// Views of a list of strings.
pub open spec fn views(v: Seq<String>) -> Seq<Seq<char>> {
    v.map_values(|s: String| s@)
}

impl Default for Config {
    fn default() -> (c: Self)
        ensures
            views(c.hotkey@) == seq!["ctrl"@, "win"@],
            !c.use_formatter,
            !c.casual_mode,
            c.input_device is None,
            c.theme@ == "auto"@,
            c.run_on_startup,
            c.vocabulary@.len() == 0,
            c.transcription_provider == TranscriptionProvider::Groq,
            c.groq_model@ == DEFAULT_GROQ_MODEL@,
            c.gemini_model@ == DEFAULT_GEMINI_MODEL@,
            c.show_live_transcript,
    {
        let mut hotkey: Vec<String> = Vec::new();
        hotkey.push("ctrl".to_owned());
        hotkey.push("win".to_owned());
        assert(views(hotkey@) =~= seq!["ctrl"@, "win"@]);
        Config {
            hotkey,
            use_formatter: false,
            casual_mode: false,
            input_device: None,
            theme: "auto".to_owned(),
            run_on_startup: true,
            vocabulary: Vec::new(),
            transcription_provider: TranscriptionProvider::Groq,
            groq_model: DEFAULT_GROQ_MODEL.to_owned(),
            gemini_model: DEFAULT_GEMINI_MODEL.to_owned(),
            show_live_transcript: true,
        }
    }
}

/// The Gemini model a stored name stands for: the legacy completed-audio
/// model is read as the live model.
pub open spec fn spec_live_model(m: Seq<char>) -> Seq<char> {
    if m == LEGACY_GEMINI_MODEL@ {
        DEFAULT_GEMINI_MODEL@
    } else {
        m
    }
}

/// The Gemini model to stream with for the stored name `model`.
pub fn live_model(model: &str) -> (r: String)
    ensures
        r@ == spec_live_model(model@),
{
    if same_text(model, LEGACY_GEMINI_MODEL) {
        DEFAULT_GEMINI_MODEL.to_owned()
    } else {
        model.to_owned()
    }
}

/// Brings a configuration read from an older release up to date: a saved
/// legacy Gemini model becomes the live model. Nothing else changes.
pub fn migrate(config: &mut Config)
    ensures
        final(config).gemini_model@ == spec_live_model(old(config).gemini_model@),
        final(config).hotkey == old(config).hotkey,
        final(config).use_formatter == old(config).use_formatter,
        final(config).casual_mode == old(config).casual_mode,
        final(config).input_device == old(config).input_device,
        final(config).theme == old(config).theme,
        final(config).run_on_startup == old(config).run_on_startup,
        final(config).vocabulary == old(config).vocabulary,
        final(config).transcription_provider == old(config).transcription_provider,
        final(config).groq_model == old(config).groq_model,
        final(config).show_live_transcript == old(config).show_live_transcript,
{
    let m = live_model(config.gemini_model.as_str());
    config.gemini_model = m;
}

} // verus!
