//! The decisions of the dictation loop. The shell runs the loop: it feeds
//! key events to the hold tracker, and at each step asks this module what to
//! do, then does it (recording, requests, the pill, the paste). Every pill
//! update belongs to one dictation; a dictation that was superseded never
//! touches the pill again.

use vstd::prelude::*;
use crate::casualize::casualize;
use crate::config::{Config, TranscriptionProvider, spec_live_model, live_model};
use crate::gemini::{GeminiError, LiveConfig, copy_strings, network_error};
use crate::groq::GroqError;
use crate::hook::{HookState, mask_of, set_suppression};
use crate::hotkey_logic::{Key, first_other, combo_other_vk, parse_combo, spec_parse_combo};
use crate::keys::{present, refreshed_key};
use crate::overlay_state::{describe_error, describe_gemini_error, gemini_pill, groq_pill};
use crate::text::{concat, copy_string, lowercase, same_text, trim, trimmed};

verus! {

/// Request timeout, for Groq and for Live finalization.
pub const REQUEST_TIMEOUT_MS: u64 = 15_000;
/// How long a paste waits for the target app to pull the text.
pub const PASTE_CONFIRM_TIMEOUT_MS: u64 = 5_000;
/// How long a finished Gemini dictation waits for its transcript.
pub const LIVE_RESULT_WAIT_MS: u64 = 70_000;
/// The pill when no microphone stream is open.
pub const NO_MIC_MESSAGE: &'static str = "No mic detected";
/// The pill when a silent take was recorded on a device other than the one
/// the user picked.
pub const CHECK_MIC_MESSAGE: &'static str = "Check your mic";
/// The pill when the privacy paste could not be staged.
pub const PASTE_FAILED_MESSAGE: &'static str = "Couldn't paste safely";

/// The cleanup applied to a transcript.
#[derive(Clone, Copy, PartialEq, Eq, Structural)]
pub enum Formatting {
    Raw,
    Casual,
    Ai,
}

/// Casual mode is a local rewrite and always wins, so it never triggers the
/// AI pass even with the formatter on; the AI pass runs only for formal
/// formatting.
pub fn formatting_mode(use_formatter: bool, casual: bool) -> (f: Formatting)
    ensures
        f == (if casual {
            Formatting::Casual
        } else if use_formatter {
            Formatting::Ai
        } else {
            Formatting::Raw
        }),
{
    if casual {
        Formatting::Casual
    } else if use_formatter {
        Formatting::Ai
    } else {
        Formatting::Raw
    }
}

/// How a dictation captures audio: buffered for an upload at the end, or
/// streamed to a Live session.
pub enum CaptureRoute {
    Buffered,
    Gemini(LiveConfig),
}

/// The route for the selected provider. Gemini streams with the live model
/// (a legacy saved name is read as it), the user's vocabulary, and smart
/// formatting exactly when the AI cleanup is selected.
pub fn capture_route(
    provider: TranscriptionProvider,
    key: String,
    model: String,
    vocabulary: Vec<String>,
    formatting: Formatting,
) -> (r: CaptureRoute)
    ensures
        provider == TranscriptionProvider::Groq ==> r is Buffered,
        provider == TranscriptionProvider::Gemini ==> (r matches CaptureRoute::Gemini(c) && c.key == key
            && c.model@ == spec_live_model(model@) && c.vocabulary == vocabulary && c.smart == (formatting
            == Formatting::Ai)),
{
    match provider {
        TranscriptionProvider::Groq => CaptureRoute::Buffered,
        TranscriptionProvider::Gemini => CaptureRoute::Gemini(
            LiveConfig {
                key,
                model: live_model(model.as_str()),
                vocabulary,
                smart: formatting == Formatting::Ai,
            },
        ),
    }
}

/// The Live configuration to keep warm for the next dictation: with Gemini
/// selected and a key at hand, the one that dictation will stream with;
/// otherwise none.
pub fn sync_gemini_prewarm(cfg: &Config, gemini_key: &str) -> (w: Option<LiveConfig>)
    ensures
        cfg.transcription_provider == TranscriptionProvider::Gemini && gemini_key@.len() > 0 ==> (w matches Some(
            c,
        ) && c.key@ == gemini_key@ && c.model@ == spec_live_model(cfg.gemini_model@) && crate::config::views(
            c.vocabulary@,
        ) == crate::config::views(cfg.vocabulary@) && c.smart == (
        !cfg.casual_mode && cfg.use_formatter)),
        !(cfg.transcription_provider == TranscriptionProvider::Gemini && gemini_key@.len() > 0) ==> w is None,
{
    if cfg.transcription_provider == TranscriptionProvider::Gemini && !gemini_key.is_empty() {
        let formatting = formatting_mode(cfg.use_formatter, cfg.casual_mode);
        Some(
            LiveConfig {
                key: gemini_key.to_owned(),
                model: live_model(cfg.gemini_model.as_str()),
                vocabulary: copy_strings(&cfg.vocabulary),
                smart: formatting == Formatting::Ai,
            },
        )
    } else {
        None
    }
}

/// The key for a dictation, refreshed from the store: a usable stored key
/// replaces the one in memory, which is updated; the flag reports a change.
pub fn refreshed_provider_key(memory: &mut String, vault_val: Option<String>) -> (r: (String, bool))
    ensures
        match vault_val {
            Some(v) if present(v@) => r.0@ == v@ && r.1 == (v@ != old(memory)@),
            _ => r.0@ == old(memory)@ && !r.1,
        },
        final(memory)@ == r.0@,
{
    let (key, changed) = refreshed_key(memory.as_str(), vault_val);
    if changed {
        *memory = copy_string(&key);
    }
    (key, changed)
}

/// The combo the tracker uses: the configured one when it is valid, else
/// Ctrl+Win; the flag tells that the default stood in.
pub fn combo_from_config(hotkey: &[String]) -> (r: (Vec<Key>, bool))
    ensures
        match spec_parse_combo(hotkey@.map_values(|s: String| s@)) {
            Some(c) => r.0@ == c && !r.1,
            None => r.0@ == seq![Key::Ctrl, Key::Win] && r.1,
        },
{
    match parse_combo(hotkey) {
        Some(c) => (c, false),
        None => {
            let mut c: Vec<Key> = Vec::new();
            c.push(Key::Ctrl);
            c.push(Key::Win);
            assert(c@ =~= seq![Key::Ctrl, Key::Win]);
            (c, true)
        },
    }
}

/// The modifiers of `combo`, in order.
pub open spec fn modifiers_of(combo: Seq<Key>) -> Seq<Key> {
    combo.filter(|k: Key| k.spec_is_modifier())
}

/// Points the hook at `combo`: it swallows the combo's regular key while
/// all the combo's modifiers are held.
pub fn apply_combo(hook: &mut HookState, combo: &[Key])
    ensures
        final(hook).suppress_vk == match first_other(combo@) {
            Some(vk) => vk,
            None => 0,
        },
        final(hook).required_mods == mask_of(modifiers_of(combo@)),
        final(hook).mods_down == old(hook).mods_down,
{
    let mut mods: Vec<Key> = Vec::new();
    let mut i: usize = 0;
    while i < combo.len()
        invariant
            i <= combo@.len(),
            mods@ == modifiers_of(combo@.take(i as int)),
        decreases combo.len() - i,
    {
        let k = combo[i];
        proof {
            reveal(Seq::filter);
            assert(combo@.take(i + 1).drop_last() =~= combo@.take(i as int));
        }
        if k.is_modifier() {
            mods.push(k);
        }
        i += 1;
    }
    assert(combo@.take(combo@.len() as int) =~= combo@);
    set_suppression(hook, combo_other_vk(combo), mods.as_slice());
}

/// True when the user picked a device but another one is recording, or none
/// is. A silent take there most likely means a broken microphone rather
/// than a quiet user.
pub fn on_fallback_device(wanted: &Option<String>, active: &Option<String>) -> (b: bool)
    ensures
        b == match (*wanted, *active) {
            (Some(w), Some(a)) => w@ != a@,
            (Some(_), None) => true,
            _ => false,
        },
{
    match (wanted, active) {
        (Some(w), Some(a)) => !same_text(w.as_str(), a.as_str()),
        (Some(_), None) => true,
        _ => false,
    }
}

/// What a dictation keeps from its start until it finishes.
pub struct ActiveCapture {
    pub provider: TranscriptionProvider,
    pub formatting: Formatting,
    pub vocabulary: Vec<String>,
    pub groq_model: String,
}

/// The settings and circumstances a dictation starts with.
pub struct StartRequest {
    pub provider: TranscriptionProvider,
    pub formatting: Formatting,
    pub vocabulary: Vec<String>,
    pub groq_model: String,
    pub gemini_model: String,
    pub show_live_transcript: bool,
    /// The selected provider's key, refreshed from the store.
    pub key: String,
    /// Whether a microphone stream is open.
    pub mic_healthy: bool,
}

/// How a dictation starts.
pub enum StartPlan {
    /// No key for the selected provider: open the settings at the key box.
    NeedKey,
    /// No microphone: show [`NO_MIC_MESSAGE`].
    NoMic,
    /// Record along `route`; with `stream_interim` the pill shows interim
    /// text while speaking.
    Record { capture: ActiveCapture, route: CaptureRoute, stream_interim: bool },
}

/// `p` is the plan for a dictation that starts with `req`.
pub open spec fn start_planned(req: StartRequest, p: StartPlan) -> bool {
    &&& req.key@.len() == 0 ==> p is NeedKey
    &&& req.key@.len() > 0 && !req.mic_healthy ==> p is NoMic
    &&& req.key@.len() > 0 && req.mic_healthy ==> (p matches StartPlan::Record { capture, route, stream_interim }
        && capture.provider == req.provider && capture.formatting == req.formatting
        && crate::config::views(capture.vocabulary@) == crate::config::views(req.vocabulary@)
        && capture.groq_model == req.groq_model
        && (req.provider == TranscriptionProvider::Groq ==> route is Buffered && !stream_interim)
        && (req.provider == TranscriptionProvider::Gemini ==> (route matches CaptureRoute::Gemini(c)
            && c.key == req.key && c.model@ == spec_live_model(req.gemini_model@) && c.vocabulary
            == req.vocabulary && c.smart == (req.formatting == Formatting::Ai)) && stream_interim
            == req.show_live_transcript))
}

/// Interim text goes to the pill exactly when the live-preview setting is on
/// and the dictation streams to Gemini: for every request that gets to
/// record, `stream_interim` is `show_live_transcript` for Gemini and off for
/// Groq.
pub proof fn lemma_preview_follows_setting(req: StartRequest, p: StartPlan)
    requires
        start_planned(req, p),
        req.key@.len() > 0,
        req.mic_healthy,
    ensures
        p matches StartPlan::Record { stream_interim, .. } && stream_interim == (req.provider
            == TranscriptionProvider::Gemini && req.show_live_transcript),
{
}

/// The plan for a dictation that starts with `req`. A missing key is checked
/// first, then the microphone.
pub fn plan_start(req: StartRequest) -> (p: StartPlan)
    ensures
        start_planned(req, p),
{
    if req.key.as_str().is_empty() {
        return StartPlan::NeedKey;
    }
    if !req.mic_healthy {
        return StartPlan::NoMic;
    }
    let capture = ActiveCapture {
        provider: req.provider,
        formatting: req.formatting,
        vocabulary: copy_strings(&req.vocabulary),
        groq_model: req.groq_model,
    };
    let stream_interim = req.provider == TranscriptionProvider::Gemini && req.show_live_transcript;
    let route = capture_route(req.provider, req.key, req.gemini_model, req.vocabulary, req.formatting);
    StartPlan::Record { capture, route, stream_interim }
}

/// The dictation in flight, if any.
pub struct Dictation {
    active: Option<ActiveCapture>,
}

impl Dictation {
    pub closed spec fn active(&self) -> Option<ActiveCapture> {
        self.active
    }

    /// No dictation in flight.
    pub fn new() -> (d: Self)
        ensures
            d.active() is None,
    {
        Dictation { active: None }
    }

    /// Recording started for `capture`.
    pub fn began(&mut self, capture: ActiveCapture)
        ensures
            final(self).active() == Some(capture),
    {
        self.active = Some(capture);
    }

    /// The hotkey was only tapped: the dictation is dropped; the flag tells
    /// whether a Live dictation must be cancelled too.
    pub fn cancel(&mut self) -> (cancel_live: bool)
        ensures
            cancel_live == (old(self).active() matches Some(c) && c.provider == TranscriptionProvider::Gemini),
            final(self).active() is None,
    {
        match self.active.take() {
            Some(c) => c.provider == TranscriptionProvider::Gemini,
            None => false,
        }
    }

    /// The hotkey was released after a real hold: the dictation to finish,
    /// if one was recording.
    pub fn finish(&mut self) -> (c: Option<ActiveCapture>)
        ensures
            c == old(self).active(),
            final(self).active() is None,
    {
        self.active.take()
    }
}

/// What follows a silent take.
pub struct SilentStep {
    /// A Live dictation must be cancelled.
    pub cancel_live: bool,
    /// The pill's error, or none to fade out quietly.
    pub error: Option<&'static str>,
}

/// A take with no speech is discarded; it is reported only when it was
/// recorded on a fallback device.
pub fn silent_take(provider: TranscriptionProvider, wanted: &Option<String>, active: &Option<String>) -> (s: SilentStep)
    ensures
        s.cancel_live == (provider == TranscriptionProvider::Gemini),
        match s.error {
            Some(m) => m@ == CHECK_MIC_MESSAGE@ && match (*wanted, *active) {
                (Some(w), Some(a)) => w@ != a@,
                (Some(_), None) => true,
                _ => false,
            },
            None => !match (*wanted, *active) {
                (Some(w), Some(a)) => w@ != a@,
                (Some(_), None) => true,
                _ => false,
            },
        },
{
    let error = if on_fallback_device(wanted, active) {
        Some(CHECK_MIC_MESSAGE)
    } else {
        None
    };
    SilentStep { cancel_live: provider == TranscriptionProvider::Gemini, error }
}

/// `v` joined with `sep` between neighbours.
pub open spec fn joined(v: Seq<Seq<char>>, sep: Seq<char>) -> Seq<char>
    decreases v.len(),
{
    if v.len() == 0 {
        Seq::empty()
    } else if v.len() == 1 {
        v[0]
    } else {
        joined(v.drop_last(), sep) + sep + v.last()
    }
}

/// The vocabulary as the prompt of a Groq transcription: the entries joined
/// with ", "; empty when there are none, and then no prompt is sent.
pub fn vocabulary_prompt(vocabulary: &Vec<String>) -> (p: String)
    ensures
        p@ == joined(crate::config::views(vocabulary@), ", "@),
{
    let ghost v = crate::config::views(vocabulary@);
    let mut p = String::new();
    let mut i: usize = 0;
    while i < vocabulary.len()
        invariant
            v == crate::config::views(vocabulary@),
            i <= vocabulary@.len(),
            p@ == joined(v.take(i as int), ", "@),
        decreases vocabulary.len() - i,
    {
        assert(v.take(i + 1).drop_last() =~= v.take(i as int));
        assert(v.take(i + 1).last() == vocabulary@[i as int]@);
        if i == 0 {
            p = copy_string(&vocabulary[i]);
            assert(v.take(1) =~= seq![v[0]]);
        } else {
            let q = concat(p.as_str(), ", ");
            p = concat(q.as_str(), vocabulary[i].as_str());
        }
        i += 1;
    }
    assert(v.take(v.len() as int) =~= v);
    p
}

/// Whether a finished transcript goes through the AI cleanup on Groq: only
/// for formal formatting with Groq selected. Gemini's smart transcription
/// formatted the text already, and a Gemini dictation never contacts Groq.
pub fn needs_format_pass(formatting: Formatting, provider: TranscriptionProvider) -> (b: bool)
    ensures
        b == (formatting == Formatting::Ai && provider == TranscriptionProvider::Groq),
{
    formatting == Formatting::Ai && provider == TranscriptionProvider::Groq
}

/// Where a finished dictation's transcript comes from.
pub enum TranscriptSource {
    /// Upload the take to Groq under `model` with `prompt`, then run the AI
    /// cleanup on Groq when `format_pass`.
    Groq { model: String, prompt: String, format_pass: bool },
    /// The Live session's transcript; nothing goes to Groq.
    GeminiLive,
}

/// `s` is where the transcript of the dictation `c` comes from: the
/// provider it started with, and nothing else.
pub open spec fn source_for(c: ActiveCapture, s: TranscriptSource) -> bool {
    match c.provider {
        TranscriptionProvider::Groq => s matches TranscriptSource::Groq { model, prompt, format_pass } && model@
            == c.groq_model@ && prompt@ == joined(crate::config::views(c.vocabulary@), ", "@) && format_pass == (
        c.formatting == Formatting::Ai),
        TranscriptionProvider::Gemini => s is GeminiLive,
    }
}

/// Where the transcript of the finished dictation `c` comes from.
pub fn transcript_source(c: &ActiveCapture) -> (s: TranscriptSource)
    ensures
        source_for(*c, s),
{
    match c.provider {
        TranscriptionProvider::Groq => TranscriptSource::Groq {
            model: copy_string(&c.groq_model),
            prompt: vocabulary_prompt(&c.vocabulary),
            format_pass: needs_format_pass(c.formatting, c.provider),
        },
        TranscriptionProvider::Gemini => TranscriptSource::GeminiLive,
    }
}

/// A dictation reaches only the provider selected when it started. With
/// Gemini selected it streams to a Live session and its transcript comes
/// from there, with no Groq request at all, neither an upload nor the AI
/// cleanup; with Groq selected it records for an upload, and no Live
/// session is used. `d` is the dictation in flight after recording began
/// under `plan`, and `finished` what finishing it returned.
pub proof fn lemma_dictation_reaches_selected_provider(
    req: StartRequest,
    plan: StartPlan,
    d: Dictation,
    finished: Option<ActiveCapture>,
    source: TranscriptSource,
)
    requires
        start_planned(req, plan),
        plan matches StartPlan::Record { capture, .. } && d.active() == Some(capture),
        finished == d.active(),
        finished matches Some(c) && source_for(c, source),
    ensures
        req.provider == TranscriptionProvider::Gemini ==> (plan matches StartPlan::Record { route, .. }
            && route is Gemini) && source is GeminiLive,
        req.provider == TranscriptionProvider::Groq ==> (plan matches StartPlan::Record { route, stream_interim, .. }
            && route is Buffered && !stream_interim) && source is Groq,
{
}

/// The text to paste for `text` under `formatting`. `formatted` is the AI
/// pass's outcome when it ran: an empty or failed pass falls back to the
/// raw text.
pub fn final_text(formatting: Formatting, text: &str, formatted: Option<Result<String, GroqError>>) -> (r: String)
    ensures
        formatting == Formatting::Casual ==> r@ == crate::casualize::casual_filter(lowercase(text@)),
        formatting == Formatting::Raw ==> r@ == text@,
        formatting == Formatting::Ai ==> r@ == match formatted {
            Some(Ok(f)) => if f@.len() > 0 {
                f@
            } else {
                text@
            },
            _ => text@,
        },
{
    match formatting {
        Formatting::Casual => casualize(text),
        Formatting::Raw => text.to_owned(),
        Formatting::Ai => match formatted {
            Some(Ok(f)) => if f.as_str().is_empty() {
                text.to_owned()
            } else {
                f
            },
            _ => text.to_owned(),
        },
    }
}

/// Why a transcription failed.
pub enum ProviderFailure {
    Groq(GroqError),
    Gemini(GeminiError),
}

/// The pill message and log detail of a failure.
pub open spec fn failure_pill(f: ProviderFailure) -> (Seq<char>, Seq<char>) {
    match f {
        ProviderFailure::Groq(e) => groq_pill(e),
        ProviderFailure::Gemini(e) => gemini_pill(e),
    }
}

/// Whether a failure is a rejected key.
pub open spec fn rejected_key(f: ProviderFailure) -> bool {
    match f {
        ProviderFailure::Groq(e) => e is Unauthorized,
        ProviderFailure::Gemini(e) => e is Unauthorized,
    }
}

/// What a finished transcription leads to.
pub enum TranscriptStep {
    /// A newer dictation owns the pill: do nothing visible.
    Discard,
    /// Nothing was said: fade out.
    Empty,
    /// Clean up and paste this text.
    Paste(String),
    /// Show the error; with `open_key_settings` the settings open at the
    /// key box as well.
    Fail { message: &'static str, detail: String, open_key_settings: bool },
}

/// The step after a transcription ended with `result`, for a dictation that
/// still owns the pill when `current`. A stale success is discarded; a
/// failure is always reported.
pub fn transcript_step(current: bool, result: Result<String, ProviderFailure>) -> (s: TranscriptStep)
    ensures
        match result {
            Ok(t) => if !current {
                s is Discard
            } else if t@.len() == 0 {
                s is Empty
            } else {
                s matches TranscriptStep::Paste(p) && p@ == t@
            },
            Err(f) => s matches TranscriptStep::Fail { message, detail, open_key_settings }
                && (message@, detail@) == failure_pill(f) && open_key_settings == rejected_key(f),
        },
{
    match result {
        Ok(t) => if !current {
            TranscriptStep::Discard
        } else if t.as_str().is_empty() {
            TranscriptStep::Empty
        } else {
            TranscriptStep::Paste(t)
        },
        Err(ProviderFailure::Groq(e)) => {
            let (message, detail) = describe_error(&e);
            let open_key_settings = match e {
                GroqError::Unauthorized => true,
                _ => false,
            };
            TranscriptStep::Fail { message, detail, open_key_settings }
        },
        Err(ProviderFailure::Gemini(e)) => {
            let (message, detail) = describe_gemini_error(&e);
            let open_key_settings = match e {
                GeminiError::Unauthorized => true,
                _ => false,
            };
            TranscriptStep::Fail { message, detail, open_key_settings }
        },
    }
}

/// The error of a Live dictation whose transcript did not arrive in
/// [`LIVE_RESULT_WAIT_MS`].
pub fn live_wait_timeout() -> (e: GeminiError)
    ensures
        e@ == crate::gemini::GeminiErrorView::Network("Live finalization timed out"@),
{
    network_error("Live finalization timed out")
}

/// The pill after a paste attempt: success unless the text could not be
/// staged. A paste the target app did not confirm still counts as success;
/// the text reached the clipboard mechanism.
pub fn paste_outcome(staged: bool) -> (error: Option<&'static str>)
    ensures
        staged ==> error is None,
        !staged ==> (error matches Some(m) && m@ == PASTE_FAILED_MESSAGE@),
{
    if staged {
        None
    } else {
        Some(PASTE_FAILED_MESSAGE)
    }
}

/// What the pill shows for a piece of interim text.
pub enum InterimStep {
    /// The dictation was superseded: stop following its stream.
    Stop,
    /// Blank text: nothing to show.
    Skip,
    /// Show `text`; widen the pill first when `expand`.
    Show { expand: bool, text: String },
}

/// The interim view of one dictation: the pill widens once, on the first
/// text.
pub struct InterimView {
    pub expanded: bool,
}

impl InterimView {
    pub fn new() -> (v: Self)
        ensures
            !v.expanded,
    {
        InterimView { expanded: false }
    }

    /// Interim `text` arrived for a dictation that owns the pill when
    /// `current`.
    pub fn on_text(&mut self, current: bool, text: &str) -> (s: InterimStep)
        ensures
            !current ==> s is Stop && final(self).expanded == old(self).expanded,
            current && trim(text@).len() == 0 ==> s is Skip && final(self).expanded == old(self).expanded,
            current && trim(text@).len() > 0 ==> (s matches InterimStep::Show { expand, text: t } && t@ == trim(
                text@,
            ) && expand == !old(self).expanded) && final(self).expanded,
    {
        if !current {
            return InterimStep::Stop;
        }
        let t = trimmed(text);
        if t.as_str().is_empty() {
            return InterimStep::Skip;
        }
        let expand = !self.expanded;
        self.expanded = true;
        InterimStep::Show { expand, text: t }
    }
}

/// Which window greets the user at startup.
pub enum StartupPrompt {
    /// The selected provider has a key: stay in the tray.
    Quiet,
    /// No Groq key: the welcome card.
    FirstRun,
    /// No Gemini key: the settings, at the key box.
    SettingsAtKey,
}

/// The greeting when the app starts with `provider` selected and these keys.
pub fn startup_prompt(provider: TranscriptionProvider, groq_key: &str, gemini_key: &str) -> (p: StartupPrompt)
    ensures
        provider == TranscriptionProvider::Groq ==> if groq_key@.len() == 0 {
            p is FirstRun
        } else {
            p is Quiet
        },
        provider == TranscriptionProvider::Gemini ==> if gemini_key@.len() == 0 {
            p is SettingsAtKey
        } else {
            p is Quiet
        },
{
    match provider {
        TranscriptionProvider::Groq => if groq_key.is_empty() {
            StartupPrompt::FirstRun
        } else {
            StartupPrompt::Quiet
        },
        TranscriptionProvider::Gemini => if gemini_key.is_empty() {
            StartupPrompt::SettingsAtKey
        } else {
            StartupPrompt::Quiet
        },
    }
}

/// A tray menu choice.
pub enum TrayAction {
    ShowSettings,
    Quit,
    Nothing,
}

/// The action of the tray menu item with the id `id`.
pub fn tray_action(id: &str) -> (a: TrayAction)
    ensures
        id@ == "show"@ ==> a is ShowSettings,
        id@ == "quit"@ ==> a is Quit,
        id@ != "show"@ && id@ != "quit"@ ==> a is Nothing,
{
    proof {
        reveal_strlit("show");
        reveal_strlit("quit");
        assert("quit"@[0] != "show"@[0]);
    }
    if same_text(id, "show") {
        TrayAction::ShowSettings
    } else if same_text(id, "quit") {
        TrayAction::Quit
    } else {
        TrayAction::Nothing
    }
}

} // verus!
