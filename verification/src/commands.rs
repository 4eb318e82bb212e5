//! What the settings window's commands decide before the shell stores a
//! value: theme names, model names that end up in a request path, the
//! vocabulary list, which provider a name selects, and the messages a key
//! check answers with.

use vstd::prelude::*;
use crate::config::{Config, TranscriptionProvider, DEFAULT_GEMINI_MODEL, DEFAULT_GROQ_MODEL};
use crate::gemini::GeminiError;
use crate::groq::GroqError;
use crate::text::{
    ascii_lower, chars_of, eq_ignore_ascii_case, equals_ignore_ascii_case, lemma_trim_idempotent, lowercase,
    same_text, to_lowercase, trim, trimmed,
};

verus! {

/// The theme a stored value selects: "dark" or "light" in any ASCII case,
/// and "auto" for anything else.
pub open spec fn spec_theme(value: Seq<char>) -> Seq<char> {
    if eq_ignore_ascii_case(value, "dark"@) {
        "dark"@
    } else if eq_ignore_ascii_case(value, "light"@) {
        "light"@
    } else {
        "auto"@
    }
}

/// Only three themes are valid; anything else falls back to "auto".
pub fn normalize_theme(value: &str) -> (r: String)
    ensures
        r@ == spec_theme(value@),
{
    if equals_ignore_ascii_case(value, "dark") {
        "dark".to_owned()
    } else if equals_ignore_ascii_case(value, "light") {
        "light".to_owned()
    } else {
        "auto".to_owned()
    }
}

/// A character a model name may hold: ASCII letters and digits, '-', '_',
/// '.' and '/'. Nothing that could add a query or change the request path
/// beyond the model segment.
pub open spec fn model_char(c: char) -> bool {
    ('0' <= c && c <= '9') || ('a' <= c && c <= 'z') || ('A' <= c && c <= 'Z') || c == '-' || c == '_'
        || c == '.' || c == '/'
}

/// Whether a "." or ".." path segment starts at `i` of `t`: such a segment
/// would move the request away from the model resource.
pub open spec fn dot_segment_at(t: Seq<char>, i: int) -> bool {
    &&& 0 <= i < t.len()
    &&& i == 0 || t[i - 1] == '/'
    &&& t[i] == '.'
    &&& (i + 1 == t.len() || t[i + 1] == '/') || (i + 1 < t.len() && t[i + 1] == '.' && (i + 2 == t.len()
        || t[i + 2] == '/'))
}

/// A name that can stand as the model segment of a request path: not empty,
/// only model characters, and no "." or ".." segment.
pub open spec fn safe_model_name(t: Seq<char>) -> bool {
    &&& t.len() > 0
    &&& forall|i: int| 0 <= i < t.len() ==> model_char(#[trigger] t[i])
    &&& forall|i: int| 0 <= i < t.len() ==> !#[trigger] dot_segment_at(t, i)
}

/// The model name stored for `value`: the trimmed value when it is a safe
/// model name, else `fallback`.
pub open spec fn spec_sanitized_model(value: Seq<char>, fallback: Seq<char>) -> Seq<char> {
    if safe_model_name(trim(value)) {
        trim(value)
    } else {
        fallback
    }
}

fn is_model_char(c: char) -> (b: bool)
    ensures
        b == model_char(c),
{
    ('0' <= c && c <= '9') || ('a' <= c && c <= 'z') || ('A' <= c && c <= 'Z') || c == '-' || c == '_'
        || c == '.' || c == '/'
}

fn starts_dot_segment(t: &Vec<char>, i: usize) -> (b: bool)
    requires
        i < t@.len(),
    ensures
        b == dot_segment_at(t@, i as int),
{
    let n = t.len();
    if !(i == 0 || t[i - 1] == '/') || t[i] != '.' {
        return false;
    }
    if i + 1 == n || t[i + 1] == '/' {
        return true;
    }
    t[i + 1] == '.' && (i + 2 == n || t[i + 2] == '/')
}

/// Executable form of [`spec_sanitized_model`].
pub fn sanitized_model(value: &str, fallback: &str) -> (r: String)
    ensures
        r@ == spec_sanitized_model(value@, fallback@),
{
    let t = trimmed(value);
    let cs = chars_of(t.as_str());
    if cs.len() == 0 {
        return fallback.to_owned();
    }
    let mut i: usize = 0;
    while i < cs.len()
        invariant
            cs@ == t@,
            t@ == trim(value@),
            i <= cs@.len(),
            forall|j: int| 0 <= j < i ==> model_char(#[trigger] cs@[j]),
            forall|j: int| 0 <= j < i ==> !#[trigger] dot_segment_at(cs@, j),
        decreases cs.len() - i,
    {
        if !is_model_char(cs[i]) || starts_dot_segment(&cs, i) {
            return fallback.to_owned();
        }
        i += 1;
    }
    t
}

/// Whether the entry at `i` of `v` is kept: it is not blank, and no earlier
/// non-blank entry lower-cases to the same text once trimmed.
pub open spec fn vocab_keeps(v: Seq<Seq<char>>, i: int) -> bool {
    &&& trim(v[i]).len() > 0
    &&& forall|j: int| 0 <= j < i && trim(v[j]).len() > 0 ==> #[trigger] vocab_key(v, j) != vocab_key(v, i)
}

/// The sanitized vocabulary of the first `n` entries of `v`: each kept entry
/// trimmed, in order.
pub open spec fn vocab_prefix(v: Seq<Seq<char>>, n: int) -> Seq<Seq<char>>
    decreases n,
{
    if n <= 0 {
        Seq::empty()
    } else if vocab_keeps(v, n - 1) {
        vocab_prefix(v, n - 1).push(trim(v[n - 1]))
    } else {
        vocab_prefix(v, n - 1)
    }
}

/// The sanitized vocabulary: entries trimmed, blanks dropped, and later
/// entries that match an earlier one ignoring case dropped.
pub open spec fn spec_sanitize_vocabulary(v: Seq<Seq<char>>) -> Seq<Seq<char>> {
    vocab_prefix(v, v.len() as int)
}

/// The keys of the entries kept among the first `n` of `v`, in order.
pub open spec fn seen_keys(v: Seq<Seq<char>>, n: int) -> Seq<Seq<char>>
    decreases n,
{
    if n <= 0 {
        Seq::empty()
    } else if vocab_keeps(v, n - 1) {
        seen_keys(v, n - 1).push(vocab_key(v, n - 1))
    } else {
        seen_keys(v, n - 1)
    }
}

/// A key is among the kept keys exactly when some non-blank entry has it.
proof fn lemma_seen_keys(v: Seq<Seq<char>>, n: int, x: Seq<char>)
    requires
        0 <= n <= v.len(),
    ensures
        seen_keys(v, n).contains(x) <==> exists|j: int|
            0 <= j < n && trim(v[j]).len() > 0 && #[trigger] vocab_key(v, j) == x,
    decreases n,
{
    if n > 0 {
        lemma_seen_keys(v, n - 1, x);
        if vocab_keeps(v, n - 1) {
            let s = seen_keys(v, n - 1);
            assert(s.push(vocab_key(v, n - 1)).contains(x) <==> (s.contains(x) || x == vocab_key(v, n - 1))) by {
                if s.push(vocab_key(v, n - 1)).contains(x) {
                    let k = choose|k: int| 0 <= k < s.len() + 1 && #[trigger] s.push(vocab_key(v, n - 1))[k] == x;
                    if k < s.len() {
                        assert(s[k] == x);
                    }
                }
                if s.contains(x) {
                    let k = choose|k: int| 0 <= k < s.len() && s[k] == x;
                    assert(s.push(vocab_key(v, n - 1))[k] == x);
                }
                if x == vocab_key(v, n - 1) {
                    assert(s.push(vocab_key(v, n - 1))[s.len() as int] == x);
                }
            }
        } else if trim(v[n - 1]).len() > 0 && vocab_key(v, n - 1) == x {
            let j = choose|j: int| 0 <= j < n - 1 && trim(v[j]).len() > 0 && #[trigger] vocab_key(v, j) == vocab_key(v, n - 1);
            assert(vocab_key(v, j) == x);
        }
    }
}

fn seen_contains(seen: &Vec<String>, key: &String) -> (b: bool)
    ensures
        b == crate::config::views(seen@).contains(key@),
{
    let ghost w = crate::config::views(seen@);
    let mut k: usize = 0;
    while k < seen.len()
        invariant
            w == crate::config::views(seen@),
            k <= seen@.len(),
            forall|j: int| 0 <= j < k ==> w[j] != key@,
        decreases seen.len() - k,
    {
        if same_text(seen[k].as_str(), key.as_str()) {
            assert(w[k as int] == key@);
            return true;
        }
        k += 1;
    }
    false
}

/// The comparison key of entry `j`: trimmed and lower-cased.
pub open spec fn vocab_key(v: Seq<Seq<char>>, j: int) -> Seq<char> {
    lowercase(trim(v[j]))
}

/// Executable form of [`spec_sanitize_vocabulary`].
pub fn sanitize_vocabulary(value: Vec<String>) -> (r: Vec<String>)
    ensures
        crate::config::views(r@) == spec_sanitize_vocabulary(crate::config::views(value@)),
{
    let ghost v = crate::config::views(value@);
    // `seen` holds the keys of the entries kept so far.
    let mut seen: Vec<String> = Vec::new();
    let mut out: Vec<String> = Vec::new();
    let mut i: usize = 0;
    while i < value.len()
        invariant
            v == crate::config::views(value@),
            v.len() == value@.len(),
            i <= value@.len(),
            crate::config::views(out@) == vocab_prefix(v, i as int),
            crate::config::views(seen@) == seen_keys(v, i as int),
        decreases value.len() - i,
    {
        let entry = trimmed(value[i].as_str());
        assert(v[i as int] == value@[i as int]@);
        if entry.as_str().is_empty() {
            assert(!vocab_keeps(v, i as int));
        } else {
            let key = to_lowercase(entry.as_str());
            assert(key@ == vocab_key(v, i as int));
            proof {
                lemma_seen_keys(v, i as int, key@);
            }
            if seen_contains(&seen, &key) {
                assert(!vocab_keeps(v, i as int));
            } else {
                assert(vocab_keeps(v, i as int));
                seen.push(key);
                out.push(entry);
                assert(crate::config::views(out@) =~= vocab_prefix(v, i as int).push(trim(v[i as int])));
                assert(crate::config::views(seen@) =~= seen_keys(v, i as int).push(vocab_key(v, i as int)));
            }
        }
        i += 1;
    }
    out
}

/// The provider a name from the settings window selects: "gemini" in any
/// ASCII case selects Gemini, anything else Groq.
pub fn provider_from_name(name: &str) -> (p: TranscriptionProvider)
    ensures
        p == (if eq_ignore_ascii_case(name@, "gemini"@) {
            TranscriptionProvider::Gemini
        } else {
            TranscriptionProvider::Groq
        }),
{
    if equals_ignore_ascii_case(name, "gemini") {
        TranscriptionProvider::Gemini
    } else {
        TranscriptionProvider::Groq
    }
}

/// Stores `value` as the model of the provider `provider` names, sanitized
/// against that provider's default. Nothing else changes.
pub fn apply_provider_model(cfg: &mut Config, provider: &str, value: &str)
    ensures
        eq_ignore_ascii_case(provider@, "gemini"@) ==> final(cfg).gemini_model@ == spec_sanitized_model(
            value@,
            DEFAULT_GEMINI_MODEL@,
        ) && final(cfg).groq_model == old(cfg).groq_model,
        !eq_ignore_ascii_case(provider@, "gemini"@) ==> final(cfg).groq_model@ == spec_sanitized_model(
            value@,
            DEFAULT_GROQ_MODEL@,
        ) && final(cfg).gemini_model == old(cfg).gemini_model,
        final(cfg).hotkey == old(cfg).hotkey,
        final(cfg).use_formatter == old(cfg).use_formatter,
        final(cfg).casual_mode == old(cfg).casual_mode,
        final(cfg).input_device == old(cfg).input_device,
        final(cfg).theme == old(cfg).theme,
        final(cfg).run_on_startup == old(cfg).run_on_startup,
        final(cfg).vocabulary == old(cfg).vocabulary,
        final(cfg).transcription_provider == old(cfg).transcription_provider,
        final(cfg).show_live_transcript == old(cfg).show_live_transcript,
{
    if equals_ignore_ascii_case(provider, "gemini") {
        cfg.gemini_model = sanitized_model(value, DEFAULT_GEMINI_MODEL);
    } else {
        cfg.groq_model = sanitized_model(value, DEFAULT_GROQ_MODEL);
    }
}

/// The input device a choice from the settings window stores: a blank name
/// means the system default.
pub fn microphone_choice(value: Option<String>) -> (r: Option<String>)
    ensures
        match value {
            Some(v) => if trim(v@).len() > 0 {
                r matches Some(w) && w@ == v@
            } else {
                r is None
            },
            None => r is None,
        },
{
    match value {
        Some(v) => {
            let t = trimmed(v.as_str());
            if t.as_str().is_empty() {
                None
            } else {
                Some(v)
            }
        },
        None => None,
    }
}

/// Which providers have a key.
pub struct KeyStatus {
    pub groq: bool,
    pub gemini: bool,
}

/// The key status for the keys held in memory.
pub fn key_status(groq_key: &str, gemini_key: &str) -> (s: KeyStatus)
    ensures
        s.groq == (groq_key@.len() > 0),
        s.gemini == (gemini_key@.len() > 0),
{
    KeyStatus { groq: !groq_key.is_empty(), gemini: !gemini_key.is_empty() }
}

/// Whether the selected provider has a key.
pub fn has_key_for(provider: TranscriptionProvider, groq_key: &str, gemini_key: &str) -> (b: bool)
    ensures
        b == match provider {
            TranscriptionProvider::Groq => groq_key@.len() > 0,
            TranscriptionProvider::Gemini => gemini_key@.len() > 0,
        },
{
    match provider {
        TranscriptionProvider::Groq => !groq_key.is_empty(),
        TranscriptionProvider::Gemini => !gemini_key.is_empty(),
    }
}

/// What the microphone is really doing: whether a stream is open, and the
/// device it opened, which differs from the user's choice when that device
/// was refused.
pub struct MicStatus {
    pub healthy: bool,
    pub active: Option<String>,
}

/// The message when the credential store refused the key.
pub const STORE_FAILED_MESSAGE: &'static str = "Couldn't save to Credential Manager";

/// Takes a validated key into memory, where the next dictation reads it,
/// only once the credential store kept it (`stored`); when the store
/// refused it, the key in memory stays as it was and the error is
/// [`STORE_FAILED_MESSAGE`].
pub fn commit_key(slot: &mut String, key: String, stored: bool) -> (r: Result<(), &'static str>)
    ensures
        stored ==> r is Ok && final(slot)@ == key@,
        !stored ==> (r matches Err(m) && m@ == STORE_FAILED_MESSAGE@) && final(slot)@ == old(slot)@,
{
    if !stored {
        return Err(STORE_FAILED_MESSAGE);
    }
    *slot = key;
    Ok(())
}

/// The key to validate and store: `key` trimmed, or the message "Enter a
/// key" when nothing is left.
pub fn key_to_save(key: &str) -> (r: Result<String, &'static str>)
    ensures
        trim(key@).len() > 0 ==> (r matches Ok(k) && k@ == trim(key@)),
        trim(key@).len() == 0 ==> (r matches Err(m) && m@ == "Enter a key"@),
{
    let t = trimmed(key);
    if t.as_str().is_empty() {
        Err("Enter a key")
    } else {
        Ok(t)
    }
}

/// The message shown when Groq's key check failed.
pub fn groq_key_rejection(e: &GroqError) -> (m: &'static str)
    ensures
        match *e {
            GroqError::Unauthorized => m@ == "Groq rejected this key"@,
            GroqError::Network(_) => m@ == "Couldn't reach Groq"@,
            GroqError::Server(_) => m@ == "Groq error, try again"@,
        },
{
    match e {
        GroqError::Unauthorized => "Groq rejected this key",
        GroqError::Network(_) => "Couldn't reach Groq",
        GroqError::Server(_) => "Groq error, try again",
    }
}

/// The message shown when Google's key check failed.
pub fn gemini_key_rejection(e: &GeminiError) -> (m: &'static str)
    ensures
        match *e {
            GeminiError::Unauthorized => m@ == "Google rejected this key"@,
            GeminiError::Network(_) => m@ == "Couldn't reach Google"@,
            GeminiError::Server(_) => m@ == "Google error, try again"@,
        },
{
    match e {
        GeminiError::Unauthorized => "Google rejected this key",
        GeminiError::Network(_) => "Couldn't reach Google",
        GeminiError::Server(_) => "Google error, try again",
    }
}

/// Only three themes are valid, and a stored theme stays as it is when it
/// is normalized again.
pub proof fn lemma_theme_is_valid_and_stable(value: Seq<char>)
    ensures
        spec_theme(value) == "dark"@ || spec_theme(value) == "light"@ || spec_theme(value) == "auto"@,
        spec_theme(spec_theme(value)) == spec_theme(value),
{
    reveal_strlit("dark");
    reveal_strlit("light");
    reveal_strlit("auto");
    let d = "dark"@;
    let l = "light"@;
    let a = "auto"@;
    assert(eq_ignore_ascii_case(d, d));
    assert(eq_ignore_ascii_case(l, l));
    assert(!eq_ignore_ascii_case(l, d));
    assert(!eq_ignore_ascii_case(a, l)) by {
        assert(ascii_lower(a[1]) != ascii_lower(l[1]));
    }
    assert(!eq_ignore_ascii_case(a, d)) by {
        assert(ascii_lower(a[0]) != ascii_lower(d[0]));
    }
}

/// A stored model name can never change the request path beyond the model
/// segment: it is the fallback, or the trimmed value, non-empty, of model
/// characters only, with no "." or ".." segment.
pub proof fn lemma_sanitized_model_is_safe(value: Seq<char>, fallback: Seq<char>)
    ensures
        spec_sanitized_model(value, fallback) == fallback || {
            let m = spec_sanitized_model(value, fallback);
            &&& safe_model_name(m)
            &&& m == trim(value)
        },
{
}

/// Every kept entry is non-blank and trimmed, and no two kept entries are
/// the same ignoring case.
pub proof fn lemma_vocabulary_is_clean(v: Seq<Seq<char>>)
    ensures
        forall|k: int|
            0 <= k < spec_sanitize_vocabulary(v).len() ==> {
                let e = #[trigger] spec_sanitize_vocabulary(v)[k];
                e.len() > 0 && trim(e) == e
            },
        forall|k: int, l: int|
            0 <= k < l < spec_sanitize_vocabulary(v).len() ==> lowercase(
                #[trigger] spec_sanitize_vocabulary(v)[k],
            ) != lowercase(#[trigger] spec_sanitize_vocabulary(v)[l]),
{
    lemma_vocab_prefix_clean(v, v.len() as int);
}

proof fn lemma_vocab_prefix_clean(v: Seq<Seq<char>>, n: int)
    requires
        0 <= n <= v.len(),
    ensures
        vocab_prefix(v, n).len() == seen_keys(v, n).len(),
        forall|k: int|
            0 <= k < vocab_prefix(v, n).len() ==> lowercase(#[trigger] vocab_prefix(v, n)[k]) == seen_keys(v, n)[k],
        forall|k: int|
            0 <= k < vocab_prefix(v, n).len() ==> {
                let e = #[trigger] vocab_prefix(v, n)[k];
                e.len() > 0 && trim(e) == e
            },
        forall|k: int, l: int|
            0 <= k < l < seen_keys(v, n).len() ==> #[trigger] seen_keys(v, n)[k] != #[trigger] seen_keys(v, n)[l],
    decreases n,
{
    if n > 0 {
        lemma_vocab_prefix_clean(v, n - 1);
        if vocab_keeps(v, n - 1) {
            let p = vocab_prefix(v, n - 1);
            let s = seen_keys(v, n - 1);
            let x = vocab_key(v, n - 1);
            lemma_trim_idempotent(v[n - 1]);
            lemma_seen_keys(v, n - 1, x);
            assert forall|k: int| 0 <= k < s.len() implies s[k] != x by {
                assert(s.contains(s[k]));
            }
            assert forall|k: int, l: int|
                0 <= k < l < seen_keys(v, n).len() implies #[trigger] seen_keys(v, n)[k] != #[trigger] seen_keys(
                v,
                n,
            )[l] by {
                if l == s.len() {
                    assert(seen_keys(v, n)[l] == x);
                    assert(seen_keys(v, n)[k] == s[k]);
                } else {
                    assert(seen_keys(v, n)[l] == s[l]);
                    assert(seen_keys(v, n)[k] == s[k]);
                }
            }
            assert forall|k: int|
                0 <= k < vocab_prefix(v, n).len() implies lowercase(#[trigger] vocab_prefix(v, n)[k]) == seen_keys(
                v,
                n,
            )[k] by {
                if k < p.len() {
                    assert(vocab_prefix(v, n)[k] == p[k]);
                    assert(seen_keys(v, n)[k] == s[k]);
                }
            }
        }
    }
}

} // verus!
