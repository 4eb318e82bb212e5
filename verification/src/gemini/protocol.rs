//! Wire messages of the Live session, as the JSON text sent over the socket.
//! Object keys are written in sorted order and without white space, which is
//! how `serde_json` writes a `json!` value.

use vstd::prelude::*;
use base64::Engine;
use crate::dsp::pcm_le;
use crate::text::concat;
use crate::config::views;
use crate::json::{
    json_bool_at, json_present_at, json_quote, json_string, json_string_at, read_json_bool, read_json_present,
    read_json_string, utf8_chars, utf8_text,
};
use super::{GeminiErrorView, GeminiError, server_error};
use super::transcript_buffer::{ServerContent, ServerMessage};

verus! {

pub const PROD_WS_URL: &'static str = "wss://generativelanguage.googleapis.com/ws/google.ai.generativelanguage.v1beta.GenerativeService.BidiGenerateContent";

/// The digit for the six bits `v` in the URL-safe base64 alphabet:
/// `A`-`Z`, `a`-`z`, `0`-`9`, `-` and `_`.
pub open spec fn base64_url_digit(v: int) -> char {
    if v < 26 {
        ('A' as int + v) as char
    } else if v < 52 {
        ('a' as int + (v - 26)) as char
    } else if v < 62 {
        ('0' as int + (v - 52)) as char
    } else if v == 62 {
        '-'
    } else {
        '_'
    }
}

/// The URL-safe base64 encoding of `bytes` with padding: each group of three
/// bytes becomes four digits of six bits each, most significant first; a
/// last group of one or two bytes is filled with zero bits and padded with
/// `=` to four characters.
pub open spec fn base64_url(bytes: Seq<u8>) -> Seq<char>
    decreases bytes.len(),
{
    if bytes.len() == 0 {
        Seq::empty()
    } else if bytes.len() == 1 {
        let b0 = bytes[0] as int;
        seq![base64_url_digit(b0 / 4), base64_url_digit((b0 % 4) * 16), '=', '=']
    } else if bytes.len() == 2 {
        let (b0, b1) = (bytes[0] as int, bytes[1] as int);
        seq![base64_url_digit(b0 / 4), base64_url_digit((b0 % 4) * 16 + b1 / 16), base64_url_digit((b1 % 16) * 4), '=']
    } else {
        let (b0, b1, b2) = (bytes[0] as int, bytes[1] as int, bytes[2] as int);
        seq![
            base64_url_digit(b0 / 4),
            base64_url_digit((b0 % 4) * 16 + b1 / 16),
            base64_url_digit((b1 % 16) * 4 + b2 / 64),
            base64_url_digit(b2 % 64),
        ] + base64_url(bytes.skip(3))
    }
}

/// Calls `base64::engine::general_purpose::URL_SAFE.encode`. Trusted: the
/// result is [`base64_url`] of the bytes, as the crate's URL-safe alphabet
/// and padding configuration produce it.
#[verifier::external_body]
fn encode_base64_url(bytes: &[u8]) -> (r: String)
    ensures
        r@ == base64_url(bytes@),
{
    base64::engine::general_purpose::URL_SAFE.encode(bytes)
}

/// The JSON string literals of `v`, separated by commas.
pub open spec fn json_string_list(v: Seq<Seq<char>>) -> Seq<char>
    decreases v.len(),
{
    if v.len() == 0 {
        Seq::empty()
    } else if v.len() == 1 {
        json_string(v[0])
    } else {
        json_string_list(v.drop_last()) + ","@ + json_string(v.last())
    }
}

/// The `inputAudioTranscription` object: smart formatting and the custom
/// vocabulary when they are asked for, `{}` otherwise.
pub open spec fn transcription_object(vocabulary: Seq<Seq<char>>, smart: bool) -> Seq<char> {
    if vocabulary.len() == 0 && !smart {
        "{}"@
    } else if vocabulary.len() == 0 {
        "{\"mode\":\"SMART\"}"@
    } else if !smart {
        "{\"customVocabulary\":["@ + json_string_list(vocabulary) + "]"@ + "}"@
    } else {
        "{\"customVocabulary\":["@ + json_string_list(vocabulary) + "]"@ + ",\"mode\":\"SMART\""@ + "}"@
    }
}

/// The session setup message: text responses, input transcription with the
/// user's preferences, and activity detection left to the client.
pub open spec fn setup_text(model: Seq<char>, vocabulary: Seq<Seq<char>>, smart: bool) -> Seq<char> {
    "{\"setup\":{\"generationConfig\":{\"responseModalities\":[\"TEXT\"]},\"inputAudioTranscription\":"@
        + transcription_object(vocabulary, smart) + ",\"model\":"@ + json_string("models/"@ + model)
        + ",\"realtimeInputConfig\":{\"automaticActivityDetection\":{\"disabled\":true}}}}"@
}

fn json_list(v: &Vec<String>) -> (r: String)
    ensures
        r@ == json_string_list(views(v@)),
{
    let mut r = String::new();
    let mut i: usize = 0;
    while i < v.len()
        invariant
            i <= v@.len(),
            r@ == json_string_list(views(v@).take(i as int)),
        decreases v.len() - i,
    {
        let q = json_quote(v[i].as_str());
        let ghost prev = views(v@).take(i as int);
        assert(views(v@).take(i + 1).drop_last() =~= prev);
        if i == 0 {
            r = q;
        } else {
            let with_comma = concat(r.as_str(), ",");
            r = concat(with_comma.as_str(), q.as_str());
        }
        i += 1;
    }
    assert(views(v@).take(v@.len() as int) =~= views(v@));
    r
}

/// The session setup message for `model`, `vocabulary` and smart formatting.
pub fn setup_message(model: &str, vocabulary: &Vec<String>, smart: bool) -> (m: String)
    ensures
        m@ == setup_text(model@, views(vocabulary@), smart),
{
    let inner = if vocabulary.len() == 0 && !smart {
        "{}".to_owned()
    } else if vocabulary.len() == 0 {
        "{\"mode\":\"SMART\"}".to_owned()
    } else {
        let list = json_list(vocabulary);
        let a = concat("{\"customVocabulary\":[", list.as_str());
        let b = concat(a.as_str(), "]");
        let c = if smart {
            concat(b.as_str(), ",\"mode\":\"SMART\"")
        } else {
            b
        };
        concat(c.as_str(), "}")
    };
    let model_path = concat("models/", model);
    let quoted = json_quote(model_path.as_str());
    let s1 = concat(
        "{\"setup\":{\"generationConfig\":{\"responseModalities\":[\"TEXT\"]},\"inputAudioTranscription\":",
        inner.as_str(),
    );
    let s2 = concat(s1.as_str(), ",\"model\":");
    let s3 = concat(s2.as_str(), quoted.as_str());
    let m = concat(s3.as_str(), ",\"realtimeInputConfig\":{\"automaticActivityDetection\":{\"disabled\":true}}}}");
    assert(inner@ =~= transcription_object(views(vocabulary@), smart));
    assert(m@ =~= setup_text(model@, views(vocabulary@), smart));
    m
}

/// Marks the start of speech.
pub open spec fn activity_start_text() -> Seq<char> {
    "{\"realtimeInput\":{\"activityStart\":{}}}"@
}

/// Marks the end of speech.
pub open spec fn activity_end_text() -> Seq<char> {
    "{\"realtimeInput\":{\"activityEnd\":{}}}"@
}

/// One frame of 16 kHz PCM audio, little-endian and base64 encoded.
pub open spec fn audio_text(samples: Seq<i16>) -> Seq<char> {
    "{\"realtimeInput\":{\"audio\":{\"data\":\""@ + base64_url(pcm_le(samples))
        + "\",\"mimeType\":\"audio/pcm;rate=16000\"}}}"@
}

pub fn activity_start_message() -> (m: String)
    ensures
        m@ == activity_start_text(),
{
    "{\"realtimeInput\":{\"activityStart\":{}}}".to_owned()
}

pub fn activity_end_message() -> (m: String)
    ensures
        m@ == activity_end_text(),
{
    "{\"realtimeInput\":{\"activityEnd\":{}}}".to_owned()
}

/// The audio message carrying `samples`.
pub fn audio_message(samples: &[i16]) -> (m: String)
    ensures
        m@ == audio_text(samples@),
{
    let mut pcm: Vec<u8> = Vec::new();
    let mut i: usize = 0;
    while i < samples.len()
        invariant
            i <= samples@.len(),
            pcm@ == pcm_le(samples@.take(i as int)),
        decreases samples.len() - i,
    {
        let u = samples[i] as u16;
        pcm.push(u as u8);
        pcm.push((u >> 8) as u8);
        assert(pcm@ =~= pcm_le(samples@.take(i + 1)));
        i += 1;
    }
    assert(samples@.take(samples@.len() as int) =~= samples@);
    let data = encode_base64_url(pcm.as_slice());
    let a = concat("{\"realtimeInput\":{\"audio\":{\"data\":\"", data.as_str());
    concat(a.as_str(), "\",\"mimeType\":\"audio/pcm;rate=16000\"}}}")
}

/// A frame received on the Live socket, as far as decoding needs it.
pub enum WireFrame {
    Text(String),
    Binary(Vec<u8>),
    /// The server closed the connection, or the stream ended.
    Close,
    /// A ping, pong or raw frame: nothing to decode.
    Control,
}

/// An optional text as plain values.
pub open spec fn opt_text(t: Option<String>) -> Option<Seq<char>> {
    match t {
        Some(s) => Some(s@),
        None => None,
    }
}

/// A decoded server message as plain values: setup complete, go away, and
/// the server content (interim text, input text, turn complete, generation
/// complete).
pub open spec fn message_view(m: ServerMessage) -> (bool, bool, Option<(Option<Seq<char>>, Option<Seq<char>>, bool, bool)>) {
    (m.setup_complete, m.go_away, match m.server_content {
        Some(c) => Some((opt_text(c.interim_text), opt_text(c.input_text), c.turn_complete, c.generation_complete)),
        None => None,
    })
}

/// The server message the JSON text `t` holds, read as the transcript logic
/// reads it: whether `setupComplete`, `goAway` and `serverContent` are
/// there, the strings at `serverContent.interimInputTranscription.text` and
/// `serverContent.inputTranscription.text`, and whether
/// `serverContent.turnComplete` and `serverContent.generationComplete` are
/// `true`; `None` when `t` is not JSON.
pub open spec fn message_in(t: Seq<char>) -> Option<(bool, bool, Option<(Option<Seq<char>>, Option<Seq<char>>, bool, bool)>)> {
    match (
        json_present_at(t, "/setupComplete"@),
        json_present_at(t, "/goAway"@),
        json_present_at(t, "/serverContent"@),
    ) {
        (Ok(setup), Ok(away), Ok(content)) => if !content {
            Some((setup, away, None))
        } else {
            match (
                json_string_at(t, "/serverContent/interimInputTranscription/text"@),
                json_string_at(t, "/serverContent/inputTranscription/text"@),
                json_bool_at(t, "/serverContent/turnComplete"@),
                json_bool_at(t, "/serverContent/generationComplete"@),
            ) {
                (Ok(interim), Ok(input), Ok(turn), Ok(generation)) => Some(
                    (setup, away, Some((interim, input, turn == Some(true), generation == Some(true)))),
                ),
                _ => None,
            }
        },
        _ => None,
    }
}

/// Decodes the JSON text of a server message; a text that is not JSON is an
/// invalid response.
pub fn decode_text_message(text: &str) -> (r: Result<ServerMessage, GeminiError>)
    ensures
        match message_in(text@) {
            Some(v) => r matches Ok(m) && message_view(m) == v,
            None => r matches Err(e) && e@ == GeminiErrorView::Server("invalid Live response"@),
        },
{
    let setup = match read_json_present(text, "/setupComplete") {
        Ok(b) => b,
        Err(_) => return Err(server_error("invalid Live response")),
    };
    let away = match read_json_present(text, "/goAway") {
        Ok(b) => b,
        Err(_) => return Err(server_error("invalid Live response")),
    };
    let content = match read_json_present(text, "/serverContent") {
        Ok(b) => b,
        Err(_) => return Err(server_error("invalid Live response")),
    };
    if !content {
        return Ok(ServerMessage { setup_complete: setup, go_away: away, server_content: None });
    }
    let interim = match read_json_string(text, "/serverContent/interimInputTranscription/text") {
        Ok(t) => t,
        Err(_) => return Err(server_error("invalid Live response")),
    };
    let input = match read_json_string(text, "/serverContent/inputTranscription/text") {
        Ok(t) => t,
        Err(_) => return Err(server_error("invalid Live response")),
    };
    let turn = match read_json_bool(text, "/serverContent/turnComplete") {
        Ok(b) => b,
        Err(_) => return Err(server_error("invalid Live response")),
    };
    let generation = match read_json_bool(text, "/serverContent/generationComplete") {
        Ok(b) => b,
        Err(_) => return Err(server_error("invalid Live response")),
    };
    let turn_complete = match turn {
        Some(b) => b,
        None => false,
    };
    let generation_complete = match generation {
        Some(b) => b,
        None => false,
    };
    Ok(
        ServerMessage {
            setup_complete: setup,
            go_away: away,
            server_content: Some(
                ServerContent { interim_text: interim, input_text: input, turn_complete, generation_complete },
            ),
        },
    )
}

/// Decodes a frame from the Live socket: a text frame as JSON text, a binary
/// frame as UTF-8 JSON text, and nothing for a control frame. A frame that
/// is not JSON is an invalid response.
pub fn decode_server_message(frame: &WireFrame) -> (r: Result<Option<ServerMessage>, GeminiError>)
    ensures
        match *frame {
            WireFrame::Control | WireFrame::Close => r matches Ok(None),
            WireFrame::Text(t) => match message_in(t@) {
                Some(v) => r matches Ok(Some(m)) && message_view(m) == v,
                None => r matches Err(e) && e@ == GeminiErrorView::Server("invalid Live response"@),
            },
            WireFrame::Binary(b) => match utf8_chars(b@) {
                Some(t) => match message_in(t) {
                    Some(v) => r matches Ok(Some(m)) && message_view(m) == v,
                    None => r matches Err(e) && e@ == GeminiErrorView::Server("invalid Live response"@),
                },
                None => r matches Err(e) && e@ == GeminiErrorView::Server("invalid Live response"@),
            },
        },
{
    match frame {
        WireFrame::Control | WireFrame::Close => Ok(None),
        WireFrame::Text(t) => match decode_text_message(t.as_str()) {
            Ok(m) => Ok(Some(m)),
            Err(e) => Err(e),
        },
        WireFrame::Binary(b) => match utf8_text(b.as_slice()) {
            Some(t) => match decode_text_message(t.as_str()) {
                Ok(m) => Ok(Some(m)),
                Err(e) => Err(e),
            },
            None => Err(server_error("invalid Live response")),
        },
    }
}

} // verus!
