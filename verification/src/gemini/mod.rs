//! Gemini Live transcription: wire messages, the transcript state of one
//! utterance, the session controller that streams utterances over one
//! connection, and the reading of key-validation responses. Sockets, HTTP
//! and timers belong to the shell, which feeds events in and carries actions
//! out.

use vstd::prelude::*;
use crate::text::{copy_string, same_text};
use crate::config::views;

pub mod client;
pub mod live;
pub mod protocol;
pub mod transcript_buffer;

verus! {

#[derive(Debug)]
pub enum GeminiError {
    Unauthorized,
    Network(String),
    Server(String),
}

/// A Gemini error as plain values.
pub enum GeminiErrorView {
    Unauthorized,
    Network(Seq<char>),
    Server(Seq<char>),
}

impl View for GeminiError {
    type V = GeminiErrorView;

    open spec fn view(&self) -> GeminiErrorView {
        match self {
            GeminiError::Unauthorized => GeminiErrorView::Unauthorized,
            GeminiError::Network(d) => GeminiErrorView::Network(d@),
            GeminiError::Server(d) => GeminiErrorView::Server(d@),
        }
    }
}

impl GeminiError {
    /// A copy of this error.
    pub fn duplicate(&self) -> (r: Self)
        ensures
            r@ == self@,
    {
        match self {
            GeminiError::Unauthorized => GeminiError::Unauthorized,
            GeminiError::Network(d) => GeminiError::Network(copy_string(d)),
            GeminiError::Server(d) => GeminiError::Server(copy_string(d)),
        }
    }
}

/// A network error with a fixed description.
pub fn network_error(detail: &str) -> (e: GeminiError)
    ensures
        e@ == GeminiErrorView::Network(detail@),
{
    GeminiError::Network(detail.to_owned())
}

/// A server error with a fixed description.
pub fn server_error(detail: &str) -> (e: GeminiError)
    ensures
        e@ == GeminiErrorView::Server(detail@),
{
    GeminiError::Server(detail.to_owned())
}

#[derive(Clone, Debug, PartialEq, Eq)]
pub struct LiveConfig {
    pub key: String,
    pub model: String,
    pub vocabulary: Vec<String>,
    pub smart: bool,
}

/// A live configuration as plain values.
pub struct LiveConfigView {
    pub key: Seq<char>,
    pub model: Seq<char>,
    pub vocabulary: Seq<Seq<char>>,
    pub smart: bool,
}

impl View for LiveConfig {
    type V = LiveConfigView;

    open spec fn view(&self) -> LiveConfigView {
        LiveConfigView {
            key: self.key@,
            model: self.model@,
            vocabulary: views(self.vocabulary@),
            smart: self.smart,
        }
    }
}

/// A copy of a list of strings.
pub fn copy_strings(v: &Vec<String>) -> (r: Vec<String>)
    ensures
        views(r@) == views(v@),
{
    let mut r: Vec<String> = Vec::new();
    let mut i: usize = 0;
    while i < v.len()
        invariant
            i <= v@.len(),
            r@.len() == i,
            forall|j: int| 0 <= j < i ==> (#[trigger] r@[j])@ == v@[j]@,
        decreases v.len() - i,
    {
        let c = copy_string(&v[i]);
        r.push(c);
        i += 1;
    }
    assert(views(r@) =~= views(v@));
    r
}

/// Whether two lists of strings hold the same strings.
pub fn same_strings(a: &Vec<String>, b: &Vec<String>) -> (r: bool)
    ensures
        r == (views(a@) == views(b@)),
{
    if a.len() != b.len() {
        assert(views(a@).len() != views(b@).len());
        return false;
    }
    let mut i: usize = 0;
    while i < a.len()
        invariant
            a.len() == b.len(),
            i <= a@.len(),
            forall|j: int| 0 <= j < i ==> a@[j]@ == b@[j]@,
        decreases a.len() - i,
    {
        if !same_text(a[i].as_str(), b[i].as_str()) {
            assert(views(a@)[i as int] != views(b@)[i as int]);
            return false;
        }
        i += 1;
    }
    assert(views(a@) =~= views(b@));
    true
}

impl LiveConfig {
    /// A copy of this configuration.
    pub fn duplicate(&self) -> (r: Self)
        ensures
            r@ == self@,
    {
        LiveConfig {
            key: copy_string(&self.key),
            model: copy_string(&self.model),
            vocabulary: copy_strings(&self.vocabulary),
            smart: self.smart,
        }
    }

    /// Whether two configurations are equal.
    pub fn same_as(&self, other: &LiveConfig) -> (r: bool)
        ensures
            r == (self@ == other@),
    {
        same_text(self.key.as_str(), other.key.as_str()) && same_text(
            self.model.as_str(),
            other.model.as_str(),
        ) && same_strings(&self.vocabulary, &other.vocabulary) && self.smart == other.smart
    }
}

} // verus!
