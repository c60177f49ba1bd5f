//! The messages between the daemon and its frontends. On the wire every message
//! is one line of JSON.
use vstd::prelude::*;

use crate::cmdrunner::{result_views, StepResult, StepResultView};
use crate::plan::{Plan, PlanView};
use crate::text::{self, chars_of, string_of, trimmed, whitespace};

verus! {

/// What a frontend sends.
#[derive(Debug, PartialEq, Eq)]
pub enum ClientMessage {
    /// What the user typed or said.
    UserText { text: String },
    /// The user approved a plan. `trigger_phrase` is the request as the client
    /// knows it.
    ApprovePlan { plan_id: String, trigger_phrase: String },
    /// The user rejected a plan.
    RejectPlan { plan_id: String },
    StartListening,
    StopListening,
    /// Remove a phrase from the memory bank.
    Forget { phrase: String },
    Ping,
}

/// What the daemon sends.
#[derive(Debug, PartialEq, Eq)]
pub enum ServerMessage {
    /// An answer with nothing to run.
    Reply { text: String },
    /// What the daemon does or finds while it handles a request.
    Thinking { text: String },
    /// A plan that runs only once it is approved.
    PlanProposed { plan: Plan, from_memory: bool },
    /// The daemon has begun to handle a request.
    Researching,
    /// What came of a plan, step by step.
    ExecutionResult { plan_id: String, success: bool, steps: Vec<StepOutcome> },
    Transcript { text: String },
    Listening { active: bool },
    Error { message: String },
    Pong,
}

/// What came of a step.
#[derive(Debug, PartialEq, Eq)]
pub struct StepOutcome {
    pub description: String,
    pub success: bool,
    pub detail: String,
}

/// The model of a `ServerMessage`.
pub enum MessageView {
    Reply { text: Seq<char> },
    Thinking { text: Seq<char> },
    PlanProposed { plan: PlanView, from_memory: bool },
    Researching,
    ExecutionResult { plan_id: Seq<char>, success: bool, steps: Seq<StepResultView> },
    Transcript { text: Seq<char> },
    Listening { active: bool },
    Error { message: Seq<char> },
    Pong,
}

impl View for StepOutcome {
    type V = StepResultView;

    open spec fn view(&self) -> StepResultView {
        StepResultView {
            description: self.description@,
            success: self.success,
            detail: self.detail@,
        }
    }
}

/// The models of a list of outcomes.
pub open spec fn outcome_views(steps: Seq<StepOutcome>) -> Seq<StepResultView> {
    steps.map_values(|s: StepOutcome| s@)
}

impl View for ServerMessage {
    type V = MessageView;

    open spec fn view(&self) -> MessageView {
        match *self {
            ServerMessage::Reply { text } => MessageView::Reply { text: text@ },
            ServerMessage::Thinking { text } => MessageView::Thinking { text: text@ },
            ServerMessage::PlanProposed { plan, from_memory } => MessageView::PlanProposed {
                plan: plan@,
                from_memory,
            },
            ServerMessage::Researching => MessageView::Researching,
            ServerMessage::ExecutionResult { plan_id, success, steps } => MessageView::ExecutionResult {
                plan_id: plan_id@,
                success,
                steps: outcome_views(steps@),
            },
            ServerMessage::Transcript { text } => MessageView::Transcript { text: text@ },
            ServerMessage::Listening { active } => MessageView::Listening { active },
            ServerMessage::Error { message } => MessageView::Error { message: message@ },
            ServerMessage::Pong => MessageView::Pong,
        }
    }
}

/// The outcomes that a frontend is shown: what came of each step.
pub fn outcomes_of(results: &Vec<StepResult>) -> (steps: Vec<StepOutcome>)
    ensures
        outcome_views(steps@) == result_views(results@),
{
    let mut steps: Vec<StepOutcome> = Vec::new();
    let ghost wanted = result_views(results@);
    for i in 0..results.len()
        invariant
            wanted == result_views(results@),
            outcome_views(steps@) == wanted.take(i as int),
    {
        let ghost before = outcome_views(steps@);
        let step = StepOutcome {
            description: results[i].description.clone(),
            success: results[i].success,
            detail: results[i].detail.clone(),
        };
        steps.push(step);
        assert(outcome_views(steps@) == before.push(step@));
        assert(wanted.take(i + 1) == before.push(wanted[i as int]));
    }
    assert(wanted.take(results@.len() as int) == wanted);
    steps
}

/// What a line of a connection is.
#[derive(Debug, PartialEq, Eq)]
pub enum Line {
    /// The connection is over.
    End,
    /// A blank line.
    Blank,
    /// The JSON of a message.
    Message { json: String },
}

/// The model of a `Line`.
pub enum LineView {
    End,
    Blank,
    Message { json: Seq<char> },
}

impl View for Line {
    type V = LineView;

    open spec fn view(&self) -> LineView {
        match *self {
            Line::End => LineView::End,
            Line::Blank => LineView::Blank,
            Line::Message { json } => LineView::Message { json: json@ },
        }
    }
}

/// What was read from a connection: `count` bytes that hold `line`.
pub open spec fn line_read(count: nat, line: Seq<char>) -> LineView {
    if count == 0 {
        LineView::End
    } else if trimmed(line).len() == 0 {
        LineView::Blank
    } else {
        LineView::Message { json: trimmed(line) }
    }
}

/// Tells what was read from a connection: `count` bytes that hold `line`.
pub fn classify_line(count: usize, line: &str) -> (r: Line)
    ensures
        match r {
            Line::End => count == 0,
            Line::Blank => count > 0 && trimmed(line@).len() == 0,
            Line::Message { json } => count > 0 && json@ == trimmed(line@) && json@.len() > 0,
        },
        r@ == line_read(count as nat, line@),
{
    if count == 0 {
        return Line::End;
    }
    let chars = text::trim_chars(&chars_of(line));
    if chars.len() == 0 {
        Line::Blank
    } else {
        Line::Message { json: string_of(&chars) }
    }
}

/// A line is a message exactly if something other than whitespace stands on it;
/// the whitespace around it plays no part. A connection that gives nothing more
/// is over.
pub proof fn law_lines_are_told_apart(count: nat, lead: Seq<char>, json: Seq<char>, tail: Seq<char>)
    requires
        forall|i: int| 0 <= i < lead.len() ==> whitespace(#[trigger] lead[i]),
        forall|i: int| 0 <= i < tail.len() ==> whitespace(#[trigger] tail[i]),
        json.len() > 0 ==> !whitespace(json[0]) && !whitespace(json.last()),
    ensures
        line_read(0, json) is End,
        count > 0 && json.len() > 0 ==> line_read(count, lead + json + tail) == (LineView::Message {
            json,
        }),
        count > 0 && json.len() == 0 ==> line_read(count, lead + json + tail) is Blank,
{
    text::law_whitespace_around_plays_no_part(lead, json, tail);
}

} // verus!
