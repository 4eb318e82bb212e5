# WhisperOSS

Hold-to-dictate for Windows: hold Ctrl+Win, speak, release, and the words
are pasted at the cursor. Transcription goes to the selected provider only,
Groq (buffered upload) or Google Gemini Live (streamed).

- `src/` is the verified library: the hotkey tracker and keyboard-hook
  decisions, text rewriting, audio buffering and resampling, WAV encoding,
  the Gemini Live session controller, request and answer formats, the
  clipboard bookkeeping of the privacy paste, the microphone fallback, and
  the decisions of the dictation loop and the settings commands. Verus
  proves each function against its contract. The few calls into `base64`,
  `serde_json` and `std` that the logic makes (the `#[verifier::external_body]`
  wrappers in `src/json.rs`, `src/text.rs` and `src/gemini/protocol.rs`)
  are trusted: their contracts state what those crates do, and are not
  proved.
- `app/` is the desktop shell around it: the tray app, windows, microphone,
  keyboard hook, clipboard, registry, credential store and network calls.
- `tests/` run the library on concrete inputs.

## Behaviour worth knowing

- The Live session follows one transcript per dictation: when a pause
  finalizes a phrase and more speech follows, the later finalized text
  replaces the earlier one, and the result is the last finalized text.
- Resampling to 16 kHz is computed with exact rational arithmetic and
  rounds half-way values away from zero. Code that interpolates in
  floating point can land one step away on such values: at 44.1 kHz, output
  sample 14 of samples alternating 100 and -100 (starting with 100) is -18
  here, exactly -17.5 rounded.
- When a Groq answer with status 200 is not JSON, the error detail is
  `serde_json`'s description of the parse failure.
- The transcript of a Groq chat answer is read at the JSON pointer
  `/choices/0/message/content`; like any JSON pointer, its `0` also
  matches an object key `"0"`.
- The clipboard is restored with every format held as bytes in global
  memory (text, rich text, HTML, images as device-independent bitmaps,
  copied files). Formats held as other handles (bitmaps, metafiles,
  palettes, private and GDI-object formats) are not copied; Windows
  synthesizes the standard ones from what is restored.
