//! The transcript of one utterance as the server reports it: interim text
//! that is replaced as recognition proceeds, and finalized text that, once
//! reported, supersedes it.

use vstd::prelude::*;
use crate::text::{copy_string, trim, trimmed};

verus! {

#[derive(Debug, Clone, Copy, PartialEq, Eq, Structural)]
pub enum ServerSignal {
    Continue,
    SetupComplete,
    GenerationComplete,
    TurnComplete,
    GoAway,
}

/// The `serverContent` part of a Live server message, as the values the
/// transcript logic reads.
#[derive(Debug, Clone, PartialEq, Eq)]
pub struct ServerContent {
    /// `interimInputTranscription.text`, when it is a string.
    pub interim_text: Option<String>,
    /// `inputTranscription.text`, when it is a string.
    pub input_text: Option<String>,
    /// `turnComplete` is `true`.
    pub turn_complete: bool,
    /// `generationComplete` is `true`.
    pub generation_complete: bool,
}

/// A decoded Live server message.
#[derive(Debug, Clone, PartialEq, Eq)]
pub struct ServerMessage {
    /// The message has a `setupComplete` field.
    pub setup_complete: bool,
    /// The message has a `goAway` field.
    pub go_away: bool,
    pub server_content: Option<ServerContent>,
}

/// The signal a message carries, whatever the transcript holds.
pub open spec fn signal_of(m: ServerMessage) -> ServerSignal {
    if m.setup_complete {
        ServerSignal::SetupComplete
    } else if m.go_away {
        ServerSignal::GoAway
    } else {
        match m.server_content {
            None => ServerSignal::Continue,
            Some(c) => if c.turn_complete {
                ServerSignal::TurnComplete
            } else if c.generation_complete {
                ServerSignal::GenerationComplete
            } else {
                ServerSignal::Continue
            },
        }
    }
}

/// The finalized and interim text after `m` arrives when they were `fin` and
/// `int` before.
pub open spec fn ingest_text(fin: Seq<char>, pending: Seq<char>, m: ServerMessage) -> (Seq<char>, Seq<char>) {
    if m.setup_complete || m.go_away {
        (fin, pending)
    } else {
        match m.server_content {
            None => (fin, pending),
            Some(c) => {
                let int1 = match c.interim_text {
                    Some(t) => trim(t@),
                    None => pending,
                };
                match c.input_text {
                    Some(t) => (if trim(t@).len() > 0 { trim(t@) } else { fin }, Seq::empty()),
                    None => (fin, int1),
                }
            },
        }
    }
}

/// The text of an utterance: the finalized text once there is any, else the
/// latest interim text.
pub open spec fn text_of(fin: Seq<char>, pending: Seq<char>) -> Seq<char> {
    if fin.len() > 0 {
        fin
    } else {
        pending
    }
}

pub struct TranscriptBuffer {
    finalized: String,
    interim: String,
}

impl Default for TranscriptBuffer {
    fn default() -> (b: Self)
        ensures
            b.finalized() == Seq::<char>::empty(),
            b.interim() == Seq::<char>::empty(),
    {
        TranscriptBuffer { finalized: String::new(), interim: String::new() }
    }
}

impl TranscriptBuffer {
    pub closed spec fn finalized(&self) -> Seq<char> {
        self.finalized@
    }

    pub closed spec fn interim(&self) -> Seq<char> {
        self.interim@
    }

    /// Take in one server message; returns the signal it carries.
    pub fn ingest(&mut self, message: &ServerMessage) -> (s: ServerSignal)
        ensures
            s == signal_of(*message),
            (final(self).finalized(), final(self).interim()) == ingest_text(
                old(self).finalized(),
                old(self).interim(),
                *message,
            ),
    {
        if message.setup_complete {
            return ServerSignal::SetupComplete;
        }
        if message.go_away {
            return ServerSignal::GoAway;
        }
        let content = match &message.server_content {
            Some(c) => c,
            None => return ServerSignal::Continue,
        };
        if let Some(text) = &content.interim_text {
            self.interim = trimmed(text.as_str());
        }
        if let Some(text) = &content.input_text {
            let t = trimmed(text.as_str());
            if !t.as_str().is_empty() {
                self.finalized = t;
            }
            self.interim = String::new();
        }
        if content.turn_complete {
            ServerSignal::TurnComplete
        } else if content.generation_complete {
            ServerSignal::GenerationComplete
        } else {
            ServerSignal::Continue
        }
    }

    /// The utterance text so far: the finalized text once there is any, else
    /// the latest interim text.
    pub fn text(&self) -> (t: String)
        ensures
            t@ == text_of(self.finalized(), self.interim()),
    {
        if !self.finalized.as_str().is_empty() {
            copy_string(&self.finalized)
        } else {
            copy_string(&self.interim)
        }
    }
}

/// Finalized text supersedes interim text: after a message that finalizes
/// non-blank text, the utterance text is exactly that text, trimmed, whatever
/// interim text came before.
pub proof fn lemma_final_supersedes_interim(fin: Seq<char>, pending: Seq<char>, m: ServerMessage)
    requires
        !m.setup_complete,
        !m.go_away,
        m.server_content matches Some(c) && c.input_text matches Some(t) && trim(t@).len() > 0,
    ensures
        ({
            let (f, i) = ingest_text(fin, pending, m);
            text_of(f, i) == trim(m.server_content->0.input_text->0@)
        }),
{
}

/// The latest interim text replaces the earlier one: after a content
/// message that carries interim text `t` and no input text, the interim text
/// is `t` trimmed, whatever it was before, and the finalized text stays.
pub proof fn lemma_latest_interim_replaces(fin: Seq<char>, pending: Seq<char>, m: ServerMessage)
    requires
        !m.setup_complete,
        !m.go_away,
        m.server_content matches Some(c) && c.interim_text is Some && c.input_text is None,
    ensures
        ingest_text(fin, pending, m) == (fin, trim(m.server_content->0.interim_text->0@)),
        fin.len() == 0 ==> ({
            let (f, i) = ingest_text(fin, pending, m);
            text_of(f, i) == trim(m.server_content->0.interim_text->0@)
        }),
{
}

/// Interim text is never lost while nothing is finalized: the text of an
/// utterance with no finalized text is its latest interim text.
pub proof fn lemma_interim_kept_until_final(pending: Seq<char>)
    ensures
        text_of(Seq::empty(), pending) == pending,
{
}

} // verus!
