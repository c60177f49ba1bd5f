//! The protocol of the voice bridge: one line of JSON for a request, one for
//! the response to it.
use vstd::prelude::*;

use crate::text::{self, chars_of, string_of, trimmed, whitespace};

verus! {

/// What the bridge is asked for.
#[derive(Debug, PartialEq, Eq)]
pub enum BridgeRequest {
    Listen { seconds: u32 },
    Speak { text: String, voice_bank: Option<String> },
    SetVoiceBank { voice_bank: Option<String> },
    Shutdown,
}

/// What the bridge answers.
#[derive(Debug, PartialEq, Eq)]
pub enum BridgeResponse {
    Transcript { text: String },
    Spoke { ok: bool },
    Ack,
    Error { message: String },
}

/// The JSON of a response, or what to say where the bridge is gone.
pub open spec fn response_on(line: Seq<char>) -> Result<Seq<char>, Seq<char>> {
    if trimmed(line).len() > 0 {
        Ok(trimmed(line))
    } else {
        Err("voice bridge closed the connection"@)
    }
}

/// What was heard, by a response to a request to listen.
pub open spec fn heard_of(response: BridgeResponse) -> Result<Seq<char>, Seq<char>> {
    match response {
        BridgeResponse::Transcript { text } => Ok(text@),
        BridgeResponse::Error { message } => Err("voice bridge listen error: "@ + message@),
        _ => Err("unexpected response to listen"@),
    }
}

/// Whether the bridge spoke, by a response to a request to speak.
pub open spec fn spoken_of(response: BridgeResponse) -> Result<bool, Seq<char>> {
    match response {
        BridgeResponse::Spoke { ok } => Ok(ok),
        BridgeResponse::Error { message } => Err("voice bridge speak error: "@ + message@),
        _ => Err("unexpected response to speak"@),
    }
}

/// The JSON of a response, from the line that the bridge wrote; a blank line
/// means that the bridge is gone.
pub fn response_line(line: &str) -> (r: Result<String, String>)
    ensures
        match r {
            Ok(json) => json@ == trimmed(line@) && json@.len() > 0,
            Err(message) => trimmed(line@).len() == 0 && message@
                == "voice bridge closed the connection"@,
        },
        match r {
            Ok(json) => response_on(line@) == Ok::<Seq<char>, Seq<char>>(json@),
            Err(message) => response_on(line@) == Err::<Seq<char>, Seq<char>>(message@),
        },
{
    let chars = text::trim_chars(&chars_of(line));
    if chars.len() == 0 {
        Err("voice bridge closed the connection".to_string())
    } else {
        Ok(string_of(&chars))
    }
}

/// What the bridge heard, from its response to a request to listen.
pub fn listened(response: BridgeResponse) -> (r: Result<String, String>)
    ensures
        match response {
            BridgeResponse::Transcript { text } => r == Ok::<String, String>(text),
            BridgeResponse::Error { message } => r matches Err(e) && e@
                == "voice bridge listen error: "@ + message@,
            _ => r matches Err(e) && e@ == "unexpected response to listen"@,
        },
        match r {
            Ok(text) => heard_of(response) == Ok::<Seq<char>, Seq<char>>(text@),
            Err(message) => heard_of(response) == Err::<Seq<char>, Seq<char>>(message@),
        },
{
    match response {
        BridgeResponse::Transcript { text } => Ok(text),
        BridgeResponse::Error { message } => {
            let mut e = "voice bridge listen error: ".to_string();
            e.append(message.as_str());
            Err(e)
        },
        _ => Err("unexpected response to listen".to_string()),
    }
}

/// Whether the bridge spoke, from its response to a request to speak.
pub fn spoke(response: BridgeResponse) -> (r: Result<bool, String>)
    ensures
        match response {
            BridgeResponse::Spoke { ok } => r == Ok::<bool, String>(ok),
            BridgeResponse::Error { message } => r matches Err(e) && e@
                == "voice bridge speak error: "@ + message@,
            _ => r matches Err(e) && e@ == "unexpected response to speak"@,
        },
        match r {
            Ok(ok) => spoken_of(response) == Ok::<bool, Seq<char>>(ok),
            Err(message) => spoken_of(response) == Err::<bool, Seq<char>>(message@),
        },
{
    match response {
        BridgeResponse::Spoke { ok } => Ok(ok),
        BridgeResponse::Error { message } => {
            let mut e = "voice bridge speak error: ".to_string();
            e.append(message.as_str());
            Err(e)
        },
        _ => Err("unexpected response to speak".to_string()),
    }
}

/// A response is what stands on the line, whatever whitespace is around it; a
/// blank line is none.
pub proof fn law_a_response_is_what_stands_on_the_line(
    lead: Seq<char>,
    json: Seq<char>,
    tail: Seq<char>,
)
    requires
        forall|i: int| 0 <= i < lead.len() ==> whitespace(#[trigger] lead[i]),
        forall|i: int| 0 <= i < tail.len() ==> whitespace(#[trigger] tail[i]),
        json.len() > 0 ==> !whitespace(json[0]) && !whitespace(json.last()),
    ensures
        json.len() > 0 ==> response_on(lead + json + tail) == Ok::<Seq<char>, Seq<char>>(json),
        json.len() == 0 ==> response_on(lead + json + tail) is Err,
{
    text::law_whitespace_around_plays_no_part(lead, json, tail);
}

/// Listening succeeds exactly with a transcript, which is what was heard, and
/// speaking exactly with word on whether it was done. An error of the bridge is
/// told with what was being done.
pub proof fn law_each_request_has_its_response(response: BridgeResponse)
    ensures
        heard_of(response) is Ok <==> response is Transcript,
        spoken_of(response) is Ok <==> response is Spoke,
        response matches BridgeResponse::Transcript { text } ==> heard_of(response) == Ok::<
            Seq<char>,
            Seq<char>,
        >(text@),
        response matches BridgeResponse::Spoke { ok } ==> spoken_of(response) == Ok::<
            bool,
            Seq<char>,
        >(ok),
        response matches BridgeResponse::Error { message } ==> heard_of(response) == Err::<
            Seq<char>,
            Seq<char>,
        >("voice bridge listen error: "@ + message@) && spoken_of(response) == Err::<
            bool,
            Seq<char>,
        >("voice bridge speak error: "@ + message@),
{
}

} // verus!
