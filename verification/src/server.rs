//! The daemon's side of a conversation. Every event, a message of a frontend or
//! the end of something that the daemon had begun, leads to a reaction: what to
//! send, what to say aloud, and what to do next. The caller does it and hands
//! back the next event.
use vstd::prelude::*;

use crate::cmdrunner::ExecutionReport;
use crate::command::utility_name_list;
use crate::desktop_index::{str_text, AppView};
use crate::dispatcher::{
    after_answer, answer_notes, answer_outcome, gated, holdable, law_approved_requests_are_instant,
    law_nothing_else_runs_unasked, law_proposed_plans_wait, runs_unasked, text_action, Approval,
    DispatchOutcome, DispatchView, Dispatcher, OutcomeView, TextAction, TextActionView,
    NO_FINDINGS_NOTE, RECALLED_NOTE,
};
use crate::fresh::{self, random_uuid, utc_moment};
use crate::ipc::{self, ClientMessage, MessageView, ServerMessage};
use crate::jan_client::{
    answer_plan, conversation, law_the_prompt_holds_what_the_model_needs, plan_prompt,
    CompletionRequest, CONTEXT_NOTE,
};
use crate::memory::{
    copy_writes, distinct_keys, law_forgotten_phrase_is_gone, lemma_pairs, lemma_remove,
    normalized, pairs_map, remember_writes, write_views, MemoryBank, SqlWrite, WriteView,
};
use crate::paths::{self, path_below};
use crate::personality::{prompt_text, Profile};
use crate::plan::{
    all_valid, law_sanitize_keeps_exactly_the_valid_steps, text_of, Plan, PlanView,
};
use crate::research::{self, context_text};
use crate::text::{
    self, chars_of, has_prefix, has_text, joined, same_ascii_case, string_of, texts, trimmed,
    whitespace,
};

verus! {

/// How long the daemon listens at a time.
pub const LISTEN_SECONDS: u32 = 5;

/// Where the daemon's socket is, in the runtime directory.
pub open spec fn socket_file(runtime_dir: Option<Seq<char>>) -> Seq<char> {
    let dir = match runtime_dir {
        Some(d) => d,
        None => "/tmp"@,
    };
    path_below(path_below(dir, "protogenos"@), "daemon.sock"@)
}

/// Where the daemon's socket is, from the value of `XDG_RUNTIME_DIR`.
pub fn socket_path(runtime_dir: Option<&str>) -> (path: String)
    ensures
        path@ == socket_file(str_text(runtime_dir)),
{
    let dir: &str = match runtime_dir {
        Some(d) => d,
        None => "/tmp",
    };
    paths::join_path(paths::join_path(dir, "protogenos").as_str(), "daemon.sock")
}

/// The phrase that a request to forget something names.
pub open spec fn forget_request(s: Seq<char>) -> Option<Seq<char>> {
    let t = trimmed(s);
    if t.len() > 7 && same_ascii_case(t.take(7), "forget "@) {
        Some(trimmed(t.skip(7)))
    } else {
        None
    }
}

/// The phrase that a request to forget something names.
pub fn forget_phrase(s: &str) -> (r: Option<String>)
    ensures
        match r {
            Some(phrase) => forget_request(s@) == Some(phrase@),
            None => forget_request(s@) is None,
        },
{
    let t = text::trim_chars(&chars_of(s));
    let n = t.len();
    if n <= 7 {
        return None;
    }
    let head = text::part(&t, 0, 7);
    assert(head@ == t@.take(7));
    if text::eq_ignore_ascii_case(&head, &chars_of("forget ")) {
        let rest = text::part(&t, 7, n);
        assert(rest@ == t@.skip(7));
        Some(string_of(&text::trim_chars(&rest)))
    } else {
        None
    }
}

/// A message to send. A connection on which a required message cannot be sent
/// is over; one that is not required is dropped.
pub struct Outgoing {
    pub message: ServerMessage,
    pub required: bool,
}

/// The model of an `Outgoing`.
pub struct OutgoingView {
    pub message: MessageView,
    pub required: bool,
}

impl View for Outgoing {
    type V = OutgoingView;

    open spec fn view(&self) -> OutgoingView {
        OutgoingView { message: self.message@, required: self.required }
    }
}

pub open spec fn outgoing_views(list: Seq<Outgoing>) -> Seq<OutgoingView> {
    list.map_values(|o: Outgoing| o@)
}

/// What to do after the messages of a reaction are sent.
pub enum Next {
    /// Nothing: read the next message.
    Done,
    /// Make the change, then hand in `Counted`.
    Count { request: String, plan: Plan, write: SqlWrite },
    /// Search the web for the queries, then hand in `Searched`.
    Search { request: String, queries: Vec<String> },
    /// Ask the model, then hand in `Answered`.
    Ask { request: String, completion: CompletionRequest },
    /// Make the changes that remember the approved plan with this id, then hand
    /// in `Stored`.
    Store { plan_id: String, writes: Vec<SqlWrite> },
    /// Make the change, then hand in `Forgotten`.
    Delete { phrase: String, write: SqlWrite },
    /// Run the plan, then hand in `Executed`.
    Execute { plan: Plan, approved: bool },
    /// Listen, then hand in `Heard`.
    Listen { seconds: u32 },
}

/// The model of a `Next`.
pub enum NextView {
    Done,
    Count { request: Seq<char>, plan: PlanView, write: WriteView },
    Search { request: Seq<char>, queries: Seq<Seq<char>> },
    Ask { request: Seq<char>, url: Seq<char>, model: Seq<char>, prompt: Seq<char> },
    Store { plan_id: Seq<char>, writes: Seq<WriteView> },
    Delete { phrase: Seq<char>, write: WriteView },
    Execute { plan: PlanView, approved: bool },
    Listen { seconds: u32 },
}

impl View for Next {
    type V = NextView;

    open spec fn view(&self) -> NextView {
        match *self {
            Next::Done => NextView::Done,
            Next::Count { request, plan, write } => NextView::Count {
                request: request@,
                plan: plan@,
                write: write@,
            },
            Next::Search { request, queries } => NextView::Search {
                request: request@,
                queries: texts(queries@),
            },
            Next::Ask { request, completion } => NextView::Ask {
                request: request@,
                url: completion.url@,
                model: completion.model@,
                prompt: completion.prompt@,
            },
            Next::Store { plan_id, writes } => NextView::Store {
                plan_id: plan_id@,
                writes: write_views(writes@),
            },
            Next::Delete { phrase, write } => NextView::Delete { phrase: phrase@, write: write@ },
            Next::Execute { plan, approved } => NextView::Execute { plan: plan@, approved },
            Next::Listen { seconds } => NextView::Listen { seconds },
        }
    }
}

/// What to do about an event: send the messages, say something aloud in the
/// background, and go on with `next`.
pub struct Reaction {
    pub sends: Vec<Outgoing>,
    pub speak: Option<String>,
    pub next: Next,
}

/// The model of a `Reaction`.
pub struct ReactionView {
    pub sends: Seq<OutgoingView>,
    pub speak: Option<Seq<char>>,
    pub next: NextView,
}

impl View for Reaction {
    type V = ReactionView;

    open spec fn view(&self) -> ReactionView {
        ReactionView {
            sends: outgoing_views(self.sends@),
            speak: text_of(self.speak),
            next: self.next@,
        }
    }
}

/// What happened.
pub enum ServerEvent {
    /// A frontend sent a message.
    Message { message: ClientMessage },
    /// A frontend sent a line that is no message.
    BadMessage { error: String },
    /// The use of a remembered plan was counted; `failure` tells why it was not.
    Counted { request: String, plan: Plan, write: SqlWrite, failure: Option<String> },
    /// The searches are over; one that failed has no page.
    Searched { request: String, pages: Vec<Option<String>> },
    /// The model answered.
    Answered { request: String, content: String },
    /// The model could not be asked.
    Unanswered { error: String },
    /// The changes that remember an approved plan were made; `failure` tells
    /// why not all of them, and `made` how many then were.
    Stored { plan_id: String, made: usize, failure: Option<String> },
    /// A phrase was deleted, or could not be.
    Forgotten { phrase: String, write: SqlWrite, done: bool },
    /// A plan ran.
    Executed { plan_id: String, report: ExecutionReport, approved: bool },
    /// What the voice bridge heard, or why it heard nothing.
    Heard { text: Result<String, String> },
}

/// The daemon's state: the dispatcher, the persona, whether there is a voice
/// bridge, and the plans that were approved and are being stored.
pub struct Server {
    pub dispatcher: Dispatcher,
    pub profile: Profile,
    pub voice: bool,
    /// An approved plan stays here until it is stored, and runs from here. No
    /// two have the same id.
    pub approved: Vec<Approval>,
}

/// The model of a `Server`.
pub struct ServerView {
    pub d: DispatchView,
    pub system_prompt: Seq<char>,
    pub voice: bool,
    /// The plans that are being stored and the changes that store them, under
    /// the plans' ids.
    pub approved: Map<Seq<char>, (PlanView, Seq<WriteView>)>,
}

pub open spec fn approved_pairs(rows: Seq<Approval>) -> Seq<
    (Seq<char>, (PlanView, Seq<WriteView>)),
> {
    rows.map_values(|a: Approval| (a.plan@.id, (a.plan@, write_views(a.writes@))))
}

impl View for Server {
    type V = ServerView;

    open spec fn view(&self) -> ServerView {
        ServerView {
            d: self.dispatcher@,
            system_prompt: prompt_text(self.profile.name@, self.profile.tone@),
            voice: self.voice,
            approved: pairs_map(approved_pairs(self.approved@)),
        }
    }
}

pub open spec fn required(message: MessageView) -> OutgoingView {
    OutgoingView { message, required: true }
}

/// The notes on how a request is handled, as messages.
pub open spec fn note_messages(notes: Seq<Seq<char>>) -> Seq<OutgoingView> {
    notes.map_values(
        |n: Seq<char>| OutgoingView { message: MessageView::Thinking { text: n }, required: false },
    )
}

/// The reaction that sends one required message and is done.
pub open spec fn answer_with(message: MessageView) -> ReactionView {
    ReactionView { sends: seq![required(message)], speak: None, next: NextView::Done }
}

/// What is said aloud: a text that is not blank, where there is a voice.
pub open spec fn spoken(voice: bool, s: Seq<char>) -> Option<Seq<char>> {
    if voice && trimmed(s).len() > 0 {
        Some(s)
    } else {
        None
    }
}

/// The reaction to an outcome of a request.
pub open spec fn outcome_reaction(
    voice: bool,
    sends: Seq<OutgoingView>,
    outcome: OutcomeView,
) -> ReactionView {
    match outcome {
        OutcomeView::Reply { text } => ReactionView {
            sends: sends.push(required(MessageView::Reply { text })),
            speak: spoken(voice, text),
            next: NextView::Done,
        },
        OutcomeView::NeedsConfirmation { plan } => ReactionView {
            sends: sends.push(required(MessageView::PlanProposed { plan, from_memory: false })),
            speak: spoken(voice, plan.reply),
            next: NextView::Done,
        },
        OutcomeView::Ran { plan } => ReactionView {
            sends,
            speak: spoken(voice, plan.reply),
            next: NextView::Execute { plan, approved: false },
        },
    }
}

/// The reaction to a request, typed or spoken.
pub open spec fn request_reaction(
    s: ServerView,
    request: Seq<char>,
    id: Seq<char>,
    now: Seq<char>,
) -> ReactionView {
    match forget_request(request) {
        Some(phrase) => delete_reaction(phrase),
        None => {
            let begun = seq![OutgoingView { message: MessageView::Researching, required: false }];
            match text_action(s.d, request, id, now) {
                TextActionView::Finished { notes, outcome } => outcome_reaction(
                    s.voice,
                    begun + note_messages(notes),
                    outcome,
                ),
                TextActionView::Recalled { plan, write } => ReactionView {
                    sends: begun,
                    speak: None,
                    next: NextView::Count { request, plan, write },
                },
                TextActionView::Research { notes, queries } => ReactionView {
                    sends: begun + note_messages(notes),
                    speak: None,
                    next: NextView::Search { request, queries },
                },
                TextActionView::Failed { message } => ReactionView {
                    sends: begun.push(required(MessageView::Error { message })),
                    speak: None,
                    next: NextView::Done,
                },
            }
        },
    }
}

/// The reaction to a request to forget a phrase.
pub open spec fn delete_reaction(phrase: Seq<char>) -> ReactionView {
    ReactionView {
        sends: Seq::empty(),
        speak: None,
        next: NextView::Delete {
            phrase,
            write: WriteView::DeletePhrase { phrase: normalized(phrase) },
        },
    }
}

/// The reaction with some messages sent before its own.
pub open spec fn preceded(sends: Seq<OutgoingView>, r: ReactionView) -> ReactionView {
    ReactionView { sends: sends + r.sends, ..r }
}

pub open spec fn forgotten_text(phrase: Seq<char>, known: bool) -> Seq<char> {
    if known {
        "Forgot '"@ + phrase + "'."@
    } else {
        "Didn't have '"@ + phrase + "' remembered."@
    }
}

pub open spec fn summary_text(stopped_early: bool) -> Seq<char> {
    if stopped_early {
        "Something in that plan failed -- check the details."@
    } else {
        "Done."@
    }
}

/// The reaction to a message of a frontend.
pub open spec fn message_reaction(
    s: ServerView,
    message: ClientMessage,
    id: Seq<char>,
    now: Seq<char>,
) -> ReactionView {
    match message {
        ClientMessage::Ping => answer_with(MessageView::Pong),
        ClientMessage::UserText { text } => request_reaction(s, text@, id, now),
        ClientMessage::ApprovePlan { plan_id, .. } => if s.d.pending.contains_key(plan_id@) {
            let (plan, request) = s.d.pending[plan_id@];
            ReactionView {
                sends: Seq::empty(),
                speak: None,
                next: NextView::Store {
                    plan_id: plan_id@,
                    writes: remember_writes(seq![request], plan, now),
                },
            }
        } else {
            answer_with(MessageView::Error { message: "plan not found or expired"@ })
        },
        ClientMessage::RejectPlan { .. } => answer_with(MessageView::Reply { text: "Cancelled."@ }),
        ClientMessage::Forget { phrase } => delete_reaction(phrase@),
        ClientMessage::StartListening => {
            let heard = seq![required(MessageView::Listening { active: true })];
            if s.voice {
                ReactionView {
                    sends: heard,
                    speak: None,
                    next: NextView::Listen { seconds: LISTEN_SECONDS },
                }
            } else {
                ReactionView {
                    sends: heard.push(
                        required(MessageView::Error { message: "voice bridge is not available"@ }),
                    ),
                    speak: None,
                    next: NextView::Done,
                }
            }
        },
        ClientMessage::StopListening => answer_with(MessageView::Listening { active: false }),
    }
}

/// The reaction to the end of the searches: what was found is told, and the
/// model is asked.
pub open spec fn search_reaction(
    s: ServerView,
    request: Seq<char>,
    pages: Seq<Option<String>>,
) -> ReactionView {
    let context = context_text(pages);
    ReactionView {
        sends: note_messages(
            seq![
                if context.len() == 0 {
                    NO_FINDINGS_NOTE@
                } else {
                    "Research findings:\n"@ + context
                },
            ],
        ),
        speak: None,
        next: NextView::Ask {
            request,
            url: s.d.base_url + "/v1/chat/completions"@,
            model: s.d.model,
            prompt: plan_prompt(
                request,
                s.system_prompt,
                s.d.apps.map_values(|a: AppView| a.name),
                utility_name_list(),
                if context.len() == 0 {
                    None
                } else {
                    Some(context)
                },
                s.d.history,
            ),
        },
    }
}

/// The reaction to the storing of an approved plan: the plan runs, unless
/// storing it failed or no such plan was being stored.
pub open spec fn stored_reaction(
    s: ServerView,
    plan_id: Seq<char>,
    failure: Option<Seq<char>>,
) -> ReactionView {
    if s.approved.contains_key(plan_id) {
        match failure {
            Some(message) => answer_with(MessageView::Error { message }),
            None => ReactionView {
                sends: Seq::empty(),
                speak: None,
                next: NextView::Execute { plan: s.approved[plan_id].0, approved: true },
            },
        }
    } else {
        answer_with(MessageView::Error { message: "plan not found or expired"@ })
    }
}

/// The reaction to an event. A new plan gets the given id; what is stored is
/// stored at the time `now`.
pub open spec fn reaction(
    s: ServerView,
    event: ServerEvent,
    id: Seq<char>,
    now: Seq<char>,
) -> ReactionView {
    match event {
        ServerEvent::Message { message } => message_reaction(s, message, id, now),
        ServerEvent::BadMessage { error } => answer_with(
            MessageView::Error { message: "bad message: "@ + error@ },
        ),
        ServerEvent::Counted { plan, failure, .. } => match failure {
            Some(e) => answer_with(MessageView::Error { message: e@ }),
            None => outcome_reaction(
                s.voice,
                note_messages(seq![RECALLED_NOTE@]),
                gated(plan@.sanitized()),
            ),
        },
        ServerEvent::Searched { request, pages } => search_reaction(s, request@, pages@),
        ServerEvent::Answered { content, .. } => {
            let proposed = answer_plan(content@, id);
            outcome_reaction(
                s.voice,
                note_messages(answer_notes(proposed)),
                answer_outcome(proposed),
            )
        },
        ServerEvent::Unanswered { error } => answer_with(MessageView::Error { message: error@ }),
        ServerEvent::Stored { plan_id, failure, .. } => stored_reaction(
            s,
            plan_id@,
            text_of(failure),
        ),
        ServerEvent::Forgotten { phrase, write, done } => answer_with(
            MessageView::Reply {
                text: forgotten_text(phrase@, done && s.d.bank.touched_by(write@)),
            },
        ),
        ServerEvent::Executed { plan_id, report, approved } => ReactionView {
            sends: seq![
                required(
                    MessageView::ExecutionResult {
                        plan_id: plan_id@,
                        success: !report@.stopped_early,
                        steps: report@.results,
                    },
                ),
            ],
            speak: if approved {
                spoken(s.voice, summary_text(report@.stopped_early))
            } else {
                None
            },
            next: NextView::Done,
        },
        ServerEvent::Heard { text } => {
            let silent = required(MessageView::Listening { active: false });
            match text {
                Ok(words) => if trimmed(words@).len() > 0 {
                    preceded(
                        seq![required(MessageView::Transcript { text: words@ }), silent],
                        request_reaction(s, words@, id, now),
                    )
                } else {
                    answer_with(MessageView::Listening { active: false })
                },
                Err(e) => ReactionView {
                    sends: seq![
                        silent,
                        required(MessageView::Error { message: "listen failed: "@ + e@ }),
                    ],
                    speak: None,
                    next: NextView::Done,
                },
            }
        },
    }
}

/// The changes that the database made: all of them, or the first `made` where
/// one failed.
pub open spec fn made_writes(
    writes: Seq<WriteView>,
    made: nat,
    failed: bool,
) -> Seq<WriteView> {
    if failed && made < writes.len() {
        writes.take(made as int)
    } else {
        writes
    }
}

/// The server after the storing of an approved plan, which it then keeps no
/// longer.
pub open spec fn after_storing(
    s: ServerView,
    plan_id: Seq<char>,
    made: nat,
    failed: bool,
) -> ServerView {
    if s.approved.contains_key(plan_id) {
        let writes = made_writes(s.approved[plan_id].1, made, failed);
        ServerView {
            d: DispatchView { bank: s.d.bank.after_all(writes), ..s.d },
            approved: s.approved.remove(plan_id),
            ..s
        }
    } else {
        s
    }
}

/// The server after an event.
pub open spec fn server_after(
    s: ServerView,
    event: ServerEvent,
    id: Seq<char>,
    now: Seq<char>,
) -> ServerView {
    match event {
        ServerEvent::Message { message } => match message {
            ClientMessage::ApprovePlan { plan_id, .. } => {
                let d = DispatchView { pending: s.d.pending.remove(plan_id@), ..s.d };
                if s.d.pending.contains_key(plan_id@) {
                    let (plan, request) = s.d.pending[plan_id@];
                    let writes = remember_writes(seq![request], plan, now);
                    ServerView { d, approved: s.approved.insert(plan_id@, (plan, writes)), ..s }
                } else {
                    ServerView { d, ..s }
                }
            },
            ClientMessage::RejectPlan { plan_id } => ServerView {
                d: DispatchView { pending: s.d.pending.remove(plan_id@), ..s.d },
                ..s
            },
            _ => s,
        },
        ServerEvent::Counted { request, plan, write, failure } => if failure is None {
            ServerView {
                d: DispatchView { bank: s.d.bank.after(write@), ..s.d }.holding(
                    plan@.sanitized(),
                    request@,
                ),
                ..s
            }
        } else {
            s
        },
        ServerEvent::Answered { request, content } => ServerView {
            d: after_answer(s.d, request@, answer_plan(content@, id)),
            ..s
        },
        ServerEvent::Stored { plan_id, made, failure } => after_storing(
            s,
            plan_id@,
            made as nat,
            failure is Some,
        ),
        ServerEvent::Forgotten { write, done, .. } => if done {
            ServerView { d: DispatchView { bank: s.d.bank.after(write@), ..s.d }, ..s }
        } else {
            s
        },
        _ => s,
    }
}

fn send(message: ServerMessage) -> (o: Outgoing)
    ensures
        o@ == required(message@),
{
    Outgoing { message, required: true }
}

fn only(message: ServerMessage) -> (r: Reaction)
    ensures
        r@ == answer_with(message@),
{
    let sends = vec![send(message)];
    assert(outgoing_views(sends@) == seq![required(message@)]);
    Reaction { sends, speak: None, next: Next::Done }
}

fn push_notes(sends: &mut Vec<Outgoing>, notes: &Vec<String>)
    ensures
        outgoing_views(final(sends)@) == outgoing_views(old(sends)@) + note_messages(texts(notes@)),
{
    let ghost start = outgoing_views(sends@);
    let ghost wanted = note_messages(texts(notes@));
    assert(start + wanted.take(0) == start);
    for i in 0..notes.len()
        invariant
            wanted == note_messages(texts(notes@)),
            outgoing_views(sends@) == start + wanted.take(i as int),
    {
        let ghost before = outgoing_views(sends@);
        let o = Outgoing {
            message: ServerMessage::Thinking { text: notes[i].clone() },
            required: false,
        };
        assert(texts(notes@)[i as int] == notes@[i as int]@);
        assert(o@ == wanted[i as int]);
        sends.push(o);
        assert(outgoing_views(sends@) == before.push(o@));
        assert(wanted.take(i + 1) == wanted.take(i as int).push(wanted[i as int]));
    }
    assert(wanted.take(notes@.len() as int) == wanted);
}

fn speech(voice: bool, s: &str) -> (r: Option<String>)
    ensures
        text_of(r) == spoken(voice, s@),
{
    if voice && text::trim_chars(&chars_of(s)).len() > 0 {
        Some(s.to_string())
    } else {
        None
    }
}

fn react_to_outcome(voice: bool, sends: Vec<Outgoing>, outcome: DispatchOutcome) -> (r: Reaction)
    ensures
        r@ == outcome_reaction(voice, outgoing_views(sends@), outcome@),
{
    let mut sends = sends;
    let ghost before = outgoing_views(sends@);
    match outcome {
        DispatchOutcome::Reply { text } => {
            let speak = speech(voice, text.as_str());
            let o = send(ServerMessage::Reply { text });
            sends.push(o);
            assert(outgoing_views(sends@) == before.push(o@));
            Reaction { sends, speak, next: Next::Done }
        },
        DispatchOutcome::NeedsConfirmation { plan } => {
            let speak = speech(voice, plan.reply.as_str());
            let o = send(ServerMessage::PlanProposed { plan, from_memory: false });
            sends.push(o);
            assert(outgoing_views(sends@) == before.push(o@));
            Reaction { sends, speak, next: Next::Done }
        },
        DispatchOutcome::Ran { plan } => {
            let speak = speech(voice, plan.reply.as_str());
            Reaction { sends, speak, next: Next::Execute { plan, approved: false } }
        },
    }
}

fn react_to_forget(phrase: &str) -> (r: Reaction)
    ensures
        r@ == delete_reaction(phrase@),
{
    let r = Reaction {
        sends: Vec::new(),
        speak: None,
        next: Next::Delete { phrase: phrase.to_string(), write: MemoryBank::forget(phrase) },
    };
    assert(r@.sends == Seq::<OutgoingView>::empty());
    r
}

fn prefixed(prefix: &str, s: &str) -> (out: String)
    ensures
        out@ == prefix@ + s@,
{
    let mut out = prefix.to_string();
    out.append(s);
    out
}

impl Server {
    /// The dispatcher is well formed, no approved plan occurs twice, and every
    /// one of them needed approval and holds valid steps only.
    pub open spec fn wf(&self) -> bool {
        &&& self.dispatcher.wf()
        &&& distinct_keys(approved_pairs(self.approved@))
        &&& forall|i: int|
            0 <= i < self.approved@.len() ==> holdable((#[trigger] self.approved@[i]).plan@)
    }

    pub fn new(dispatcher: Dispatcher, profile: Profile, voice: bool) -> (server: Server)
        requires
            dispatcher.wf(),
        ensures
            server.wf(),
            server@ == (ServerView {
                d: dispatcher@,
                system_prompt: prompt_text(profile.name@, profile.tone@),
                voice,
                approved: Map::empty(),
            }),
    {
        Server { dispatcher, profile, voice, approved: Vec::new() }
    }

    fn approved_row(&self, plan_id: &str) -> (r: Option<usize>)
        requires
            self.wf(),
        ensures
            match r {
                Some(i) => i < self.approved@.len() && self.approved@[i as int].plan@.id
                    == plan_id@ && self@.approved.contains_key(plan_id@)
                    && self@.approved[plan_id@] == (
                    self.approved@[i as int].plan@,
                    write_views(self.approved@[i as int].writes@),
                ),
                None => !self@.approved.contains_key(plan_id@),
            },
    {
        let ghost pairs = approved_pairs(self.approved@);
        proof {
            lemma_pairs(pairs);
        }
        for i in 0..self.approved.len()
            invariant
                pairs == approved_pairs(self.approved@),
                forall|j: int| 0 <= j < i ==> (#[trigger] pairs[j]).0 != plan_id@,
                forall|j: int|
                    0 <= j < pairs.len() ==> pairs_map(pairs).contains_key((#[trigger] pairs[j]).0)
                        && pairs_map(pairs)[pairs[j].0] == pairs[j].1,
        {
            assert(pairs[i as int].0 == self.approved@[i as int].plan@.id);
            if text::same(self.approved[i].plan.id.as_str(), plan_id) {
                return Some(i);
            }
        }
        None
    }

    fn take_approved(&mut self, plan_id: &str) -> (r: Option<Approval>)
        requires
            old(self).wf(),
        ensures
            final(self).wf(),
            final(self)@ == (ServerView {
                approved: old(self)@.approved.remove(plan_id@),
                ..old(self)@
            }),
            match r {
                Some(a) => old(self)@.approved.contains_key(plan_id@)
                    && old(self)@.approved[plan_id@] == (a.plan@, write_views(a.writes@)),
                None => !old(self)@.approved.contains_key(plan_id@),
            },
            forall|j: int|
                0 <= j < final(self).approved@.len() ==> (
                #[trigger] final(self).approved@[j]).plan@.id != plan_id@,
    {
        let ghost before = *self;
        let ghost pairs = approved_pairs(self.approved@);
        match self.approved_row(plan_id) {
            Some(i) => {
                proof {
                    lemma_remove(pairs, i as int);
                }
                let taken = self.approved.remove(i);
                proof {
                    assert(approved_pairs(self.approved@) == pairs.remove(i as int));
                    assert forall|j: int| 0 <= j < self.approved@.len() implies (
                    #[trigger] self.approved@[j]).plan@.id != plan_id@ && holdable(
                        self.approved@[j].plan@,
                    ) by {
                        assert(approved_pairs(self.approved@)[j].0 == self.approved@[j].plan@.id);
                        let k = if j < i {
                            j
                        } else {
                            j + 1
                        };
                        assert(self.approved@[j] == before.approved@[k]);
                    }
                }
                Some(taken)
            },
            None => {
                proof {
                    lemma_pairs(pairs);
                    assert forall|j: int| 0 <= j < self.approved@.len() implies (
                    #[trigger] self.approved@[j]).plan@.id != plan_id@ by {
                        assert(pairs[j].0 == self.approved@[j].plan@.id);
                    }
                    assert(before@.approved.remove(plan_id@) == before@.approved);
                }
                None
            },
        }
    }

    fn keep_approved(&mut self, approval: Approval)
        requires
            old(self).wf(),
            holdable(approval.plan@),
        ensures
            final(self).wf(),
            final(self)@ == (ServerView {
                approved: old(self)@.approved.insert(
                    approval.plan@.id,
                    (approval.plan@, write_views(approval.writes@)),
                ),
                ..old(self)@
            }),
    {
        let ghost before = *self;
        let id = approval.plan.id.clone();
        let _ = self.take_approved(id.as_str());
        let ghost kept = approved_pairs(self.approved@);
        let ghost rows = self.approved@;
        let ghost value = (approval.plan@, write_views(approval.writes@));
        self.approved.push(approval);
        proof {
            let after = approved_pairs(self.approved@);
            assert(after == kept.push((id@, value)));
            assert(after.drop_last() == kept);
            assert forall|i: int, j: int| 0 <= i < j < after.len() implies (
            #[trigger] after[i]).0 != (#[trigger] after[j]).0 by {
                if j == kept.len() {
                    assert(after[i].0 == rows[i].plan@.id);
                } else {
                    assert(kept[i].0 != kept[j].0);
                }
            }
            assert forall|i: int| 0 <= i < self.approved@.len() implies holdable(
                (#[trigger] self.approved@[i]).plan@,
            ) by {
                if i < rows.len() {
                    assert(self.approved@[i] == rows[i]);
                }
            }
            assert(self@.approved == before@.approved.insert(id@, value));
        }
    }

    fn react_to_request(&self, request: &str, id: &str, now: &str) -> (r: Reaction)
        requires
            self.wf(),
        ensures
            r@ == request_reaction(self@, request@, id@, now@),
    {
        if let Some(phrase) = forget_phrase(request) {
            return react_to_forget(phrase.as_str());
        }
        let mut sends: Vec<Outgoing> = Vec::new();
        let begun = Outgoing { message: ServerMessage::Researching, required: false };
        sends.push(begun);
        assert(outgoing_views(sends@) == seq![begun@]);
        match self.dispatcher.handle_text_at(request, id, now) {
            TextAction::Finished { notes, outcome } => {
                push_notes(&mut sends, &notes);
                react_to_outcome(self.voice, sends, outcome)
            },
            TextAction::Recalled { plan, write } => Reaction {
                sends,
                speak: None,
                next: Next::Count { request: request.to_string(), plan, write },
            },
            TextAction::Research { notes, queries } => {
                push_notes(&mut sends, &notes);
                Reaction {
                    sends,
                    speak: None,
                    next: Next::Search { request: request.to_string(), queries },
                }
            },
            TextAction::Failed { message } => {
                let o = send(ServerMessage::Error { message });
                sends.push(o);
                assert(outgoing_views(sends@) == seq![begun@].push(o@));
                Reaction { sends, speak: None, next: Next::Done }
            },
        }
    }

    fn react_to_message(&mut self, message: &ClientMessage, id: &str, now: &str) -> (r: Reaction)
        requires
            old(self).wf(),
        ensures
            final(self).wf(),
            r@ == message_reaction(old(self)@, *message, id@, now@),
            final(self)@ == server_after(
                old(self)@,
                (ServerEvent::Message { message: *message }),
                id@,
                now@,
            ),
    {
        match message {
            ClientMessage::Ping => only(ServerMessage::Pong),
            ClientMessage::UserText { text } => self.react_to_request(text.as_str(), id, now),
            ClientMessage::ApprovePlan { plan_id, trigger_phrase } => {
                match self.dispatcher.approve_at(plan_id.as_str(), trigger_phrase.as_str(), now) {
                    Some(approval) => {
                        let r = Reaction {
                            sends: Vec::new(),
                            speak: None,
                            next: Next::Store {
                                plan_id: plan_id.clone(),
                                writes: copy_writes(&approval.writes),
                            },
                        };
                        assert(r@.sends == Seq::<OutgoingView>::empty());
                        self.keep_approved(approval);
                        r
                    },
                    None => only(
                        ServerMessage::Error { message: "plan not found or expired".to_string() },
                    ),
                }
            },
            ClientMessage::RejectPlan { plan_id } => {
                self.dispatcher.reject(plan_id.as_str());
                only(ServerMessage::Reply { text: "Cancelled.".to_string() })
            },
            ClientMessage::Forget { phrase } => react_to_forget(phrase.as_str()),
            ClientMessage::StartListening => {
                let mut sends: Vec<Outgoing> = Vec::new();
                let on = send(ServerMessage::Listening { active: true });
                sends.push(on);
                assert(outgoing_views(sends@) == seq![on@]);
                if self.voice {
                    Reaction { sends, speak: None, next: Next::Listen { seconds: LISTEN_SECONDS } }
                } else {
                    let o = send(
                        ServerMessage::Error {
                            message: "voice bridge is not available".to_string(),
                        },
                    );
                    sends.push(o);
                    assert(outgoing_views(sends@) == seq![on@].push(o@));
                    Reaction { sends, speak: None, next: Next::Done }
                }
            },
            ClientMessage::StopListening => only(ServerMessage::Listening { active: false }),
        }
    }

    fn react_to_search(&self, request: &str, pages: &Vec<Option<String>>) -> (r: Reaction)
        ensures
            r@ == search_reaction(self@, request@, pages@),
    {
        let context = research::research_context(pages);
        let prompt = self.profile.system_prompt();
        let (note, completion) = self.dispatcher.ask_model(
            request,
            context.as_str(),
            prompt.as_str(),
        );
        let notes = vec![note];
        assert(texts(notes@) == seq![note@]);
        let mut sends: Vec<Outgoing> = Vec::new();
        push_notes(&mut sends, &notes);
        assert(outgoing_views(sends@) == note_messages(seq![note@]));
        Reaction {
            sends,
            speak: None,
            next: Next::Ask { request: request.to_string(), completion },
        }
    }

    fn commit_first(&mut self, writes: &Vec<SqlWrite>, count: usize)
        requires
            old(self).wf(),
            count <= writes@.len(),
        ensures
            final(self).wf(),
            final(self)@ == (ServerView {
                d: DispatchView {
                    bank: old(self)@.d.bank.after_all(write_views(writes@).take(count as int)),
                    ..old(self)@.d
                },
                ..old(self)@
            }),
    {
        let ghost before = *self;
        let ghost all = write_views(writes@);
        assert(before@.d.bank.after_all(all.take(0)) == before@.d.bank);
        for i in 0..count
            invariant
                all == write_views(writes@),
                count <= writes@.len(),
                self.wf(),
                self@ == (ServerView {
                    d: DispatchView {
                        bank: before@.d.bank.after_all(all.take(i as int)),
                        ..before@.d
                    },
                    ..before@
                }),
        {
            assert(all.take(i + 1).drop_last() == all.take(i as int));
            assert(all[i as int] == writes@[i as int]@);
            let _ = self.dispatcher.commit(&writes[i]);
        }
    }

    fn react_to_stored(&mut self, plan_id: &str, made: usize, failure: Option<String>) -> (r:
        Reaction)
        requires
            old(self).wf(),
        ensures
            final(self).wf(),
            r@ == stored_reaction(old(self)@, plan_id@, text_of(failure)),
            final(self)@ == after_storing(old(self)@, plan_id@, made as nat, failure is Some),
    {
        match self.take_approved(plan_id) {
            Some(approval) => {
                let ghost writes = write_views(approval.writes@);
                let total = approval.writes.len();
                let count: usize = if failure.is_some() && made < total {
                    made
                } else {
                    total
                };
                assert(writes.take(total as int) == writes);
                assert(writes.take(count as int) == made_writes(writes, made as nat, failure is Some));
                self.commit_first(&approval.writes, count);
                match failure {
                    Some(e) => only(ServerMessage::Error { message: e }),
                    None => {
                        let r = Reaction {
                            sends: Vec::new(),
                            speak: None,
                            next: Next::Execute { plan: approval.plan, approved: true },
                        };
                        assert(r@.sends == Seq::<OutgoingView>::empty());
                        r
                    },
                }
            },
            None => {
                assert(self@.approved == old(self)@.approved);
                only(ServerMessage::Error { message: "plan not found or expired".to_string() })
            },
        }
    }

    /// The reaction to an event, with the id for a new plan and the time given.
    #[verifier::rlimit(50)]
    pub fn handle_event_at(&mut self, event: ServerEvent, id: &str, now: &str) -> (r: Reaction)
        requires
            old(self).wf(),
        ensures
            final(self).wf(),
            r@ == reaction(old(self)@, event, id@, now@),
            final(self)@ == server_after(old(self)@, event, id@, now@),
    {
        match event {
            ServerEvent::Message { message } => self.react_to_message(&message, id, now),
            ServerEvent::BadMessage { error } => only(
                ServerMessage::Error { message: prefixed("bad message: ", error.as_str()) },
            ),
            ServerEvent::Counted { request, plan, write, failure } => {
                match failure {
                    Some(e) => only(ServerMessage::Error { message: e }),
                    None => {
                        let _ = self.dispatcher.commit(&write);
                        let settled = self.dispatcher.recalled(request.as_str(), plan);
                        let mut sends: Vec<Outgoing> = Vec::new();
                        push_notes(&mut sends, &settled.notes);
                        assert(outgoing_views(sends@) == note_messages(seq![RECALLED_NOTE@]));
                        react_to_outcome(self.voice, sends, settled.outcome)
                    },
                }
            },
            ServerEvent::Searched { request, pages } => self.react_to_search(
                request.as_str(),
                &pages,
            ),
            ServerEvent::Answered { request, content } => {
                let settled = self.dispatcher.handle_answer_at(
                    request.as_str(),
                    content.as_str(),
                    id,
                );
                let mut sends: Vec<Outgoing> = Vec::new();
                push_notes(&mut sends, &settled.notes);
                assert(outgoing_views(sends@) == note_messages(
                    answer_notes(answer_plan(content@, id@)),
                ));
                react_to_outcome(self.voice, sends, settled.outcome)
            },
            ServerEvent::Unanswered { error } => only(ServerMessage::Error { message: error }),
            ServerEvent::Stored { plan_id, made, failure } => self.react_to_stored(
                plan_id.as_str(),
                made,
                failure,
            ),
            ServerEvent::Forgotten { phrase, write, done } => {
                let known = if done {
                    self.dispatcher.commit(&write)
                } else {
                    false
                };
                let mut text = if known {
                    prefixed("Forgot '", phrase.as_str())
                } else {
                    prefixed("Didn't have '", phrase.as_str())
                };
                if known {
                    text.append("'.");
                } else {
                    text.append("' remembered.");
                }
                only(ServerMessage::Reply { text })
            },
            ServerEvent::Executed { plan_id, report, approved } => {
                let speak = if approved {
                    if report.stopped_early {
                        speech(self.voice, "Something in that plan failed -- check the details.")
                    } else {
                        speech(self.voice, "Done.")
                    }
                } else {
                    None
                };
                let o = send(
                    ServerMessage::ExecutionResult {
                        plan_id,
                        success: !report.stopped_early,
                        steps: ipc::outcomes_of(&report.results),
                    },
                );
                let sends = vec![o];
                assert(outgoing_views(sends@) == seq![o@]);
                Reaction { sends, speak, next: Next::Done }
            },
            ServerEvent::Heard { text } => {
                let silent = send(ServerMessage::Listening { active: false });
                match text {
                    Ok(words) => {
                        if text::trim_chars(&chars_of(words.as_str())).len() > 0 {
                            let told = send(ServerMessage::Transcript { text: words.clone() });
                            let mut sends = vec![told, silent];
                            let ghost lead = outgoing_views(sends@);
                            assert(lead == seq![told@, silent@]);
                            let r = self.react_to_request(words.as_str(), id, now);
                            let Reaction { sends: more, speak, next } = r;
                            let mut more = more;
                            let ghost rest = outgoing_views(more@);
                            sends.append(&mut more);
                            assert(outgoing_views(sends@) == lead + rest);
                            Reaction { sends, speak, next }
                        } else {
                            only(ServerMessage::Listening { active: false })
                        }
                    },
                    Err(e) => {
                        let o = send(
                            ServerMessage::Error { message: prefixed("listen failed: ", e.as_str()) },
                        );
                        let sends = vec![silent, o];
                        assert(outgoing_views(sends@) == seq![silent@, o@]);
                        Reaction { sends, speak: None, next: Next::Done }
                    },
                }
            },
        }
    }

    /// The reaction to an event.
    pub fn handle_event(&mut self, event: ServerEvent) -> (r: Reaction)
        requires
            old(self).wf(),
        ensures
            final(self).wf(),
            exists|id: Seq<char>, now: Seq<char>|
                random_uuid(id) && utc_moment(now) && r@ == reaction(old(self)@, event, id, now)
                    && final(self)@ == server_after(old(self)@, event, id, now),
    {
        let id = fresh::new_plan_id();
        let now = fresh::now();
        self.handle_event_at(event, id.as_str(), now.as_str())
    }
}

/// Nothing that changes the system runs without approval. A plan runs for one
/// of two reasons: all it holds is valid launches and utility actions; or it is
/// an approved plan that has just been stored, which is then kept no longer.
/// And a plan becomes an approved one only when a plan that waits is approved.
pub proof fn law_runs_are_harmless_or_approved(
    s: ServerView,
    event: ServerEvent,
    id: Seq<char>,
    now: Seq<char>,
    k: Seq<char>,
)
    ensures
        reaction(s, event, id, now).next matches NextView::Execute { plan, approved } ==> if approved {
            event matches ServerEvent::Stored { plan_id, failure, .. } && failure is None
                && s.approved.contains_key(plan_id@) && s.approved[plan_id@].0 == plan
                && !server_after(s, event, id, now).approved.contains_key(plan_id@)
        } else {
            runs_unasked(plan)
        },
        server_after(s, event, id, now).approved.contains_key(k) ==> (s.approved.contains_key(k)
            && server_after(s, event, id, now).approved[k] == s.approved[k]) || (event matches
            ServerEvent::Message { message: ClientMessage::ApprovePlan { plan_id, .. } } && plan_id@
            == k && s.d.pending.contains_key(k) && server_after(s, event, id, now).approved[k].0
            == s.d.pending[k].0),
{
    match event {
        ServerEvent::Message { message: ClientMessage::UserText { text } } => {
            law_nothing_else_runs_unasked(s.d, text@, id, now, arbitrary());
        },
        ServerEvent::Heard { text: Ok(words) } => {
            law_nothing_else_runs_unasked(s.d, words@, id, now, arbitrary());
        },
        ServerEvent::Counted { plan, .. } => {
            law_nothing_else_runs_unasked(s.d, id, id, now, plan@);
        },
        ServerEvent::Answered { content, .. } => {
            law_nothing_else_runs_unasked(s.d, id, id, now, answer_plan(content@, id));
        },
        _ => {},
    }
}

/// What was heard is handled exactly as if it had been typed, once the
/// transcript has been shown.
pub proof fn law_voice_is_typed_text(
    s: ServerView,
    heard: String,
    typed: String,
    id: Seq<char>,
    now: Seq<char>,
)
    requires
        heard@ == typed@,
        trimmed(heard@).len() > 0,
    ensures
        reaction(s, (ServerEvent::Heard { text: Ok(heard) }), id, now) == preceded(
            seq![
                required(MessageView::Transcript { text: heard@ }),
                required(MessageView::Listening { active: false }),
            ],
            reaction(
                s,
                (ServerEvent::Message { message: ClientMessage::UserText { text: typed } }),
                id,
                now,
            ),
        ),
{
}

/// Some message of the reaction must be sent.
pub open spec fn answers(r: ReactionView) -> bool {
    r.sends.len() > 0 && r.sends.last().required
}

/// A reaction either says what to do next or answers.
spec fn goes_on_or_answers(r: ReactionView) -> bool {
    r.next is Done ==> answers(r)
}

proof fn lemma_request_is_answered(
    s: ServerView,
    request: Seq<char>,
    id: Seq<char>,
    now: Seq<char>,
)
    ensures
        goes_on_or_answers(request_reaction(s, request, id, now)),
{
}

proof fn lemma_message_is_answered(
    s: ServerView,
    message: ClientMessage,
    id: Seq<char>,
    now: Seq<char>,
)
    ensures
        goes_on_or_answers(message_reaction(s, message, id, now)),
{
    if let ClientMessage::UserText { text } = message {
        lemma_request_is_answered(s, text@, id, now);
    }
}

/// No event is left without an answer: a reaction either says what to do next
/// or ends with a message that must be sent.
#[verifier::rlimit(30)]
pub proof fn law_every_event_is_answered(
    s: ServerView,
    event: ServerEvent,
    id: Seq<char>,
    now: Seq<char>,
)
    ensures
        reaction(s, event, id, now).next is Done ==> answers(reaction(s, event, id, now)),
{
    match event {
        ServerEvent::Message { message } => lemma_message_is_answered(s, message, id, now),
        ServerEvent::Heard { text: Ok(words) } => {
            lemma_request_is_answered(s, words@, id, now);
        },
        _ => {},
    }
}

/// What is approved is what was shown: a plan that a frontend is shown for
/// approval holds valid steps only, each with the line that its kind gives it;
/// it waits, from then on, under its id; and to approve it has this very plan
/// stored, and run once it is.
#[verifier::rlimit(50)]
pub proof fn law_shown_plan_is_what_is_approved(
    s: ServerView,
    event: ServerEvent,
    id: Seq<char>,
    now: Seq<char>,
    plan: PlanView,
    from_memory: bool,
    plan_id: String,
    trigger_phrase: String,
    approved_at: Seq<char>,
)
    requires
        reaction(s, event, id, now).sends.contains(
            required(MessageView::PlanProposed { plan, from_memory }),
        ),
        plan_id@ == plan.id,
    ensures
        ({
            let after = server_after(s, event, id, now);
            let approval = ServerEvent::Message {
                message: ClientMessage::ApprovePlan { plan_id, trigger_phrase },
            };
            &&& holdable(plan)
            &&& all_valid(plan.steps)
            &&& forall|i: int|
                0 <= i < plan.steps.len() ==> (#[trigger] plan.steps[i]).description
                    == plan.steps[i].kind.description()
            &&& after.d.pending.contains_key(plan.id)
            &&& after.d.pending[plan.id].0 == plan
            &&& reaction(after, approval, id, approved_at).next is Store
            &&& server_after(after, approval, id, approved_at).approved.contains_key(plan.id)
            &&& server_after(after, approval, id, approved_at).approved[plan.id].0 == plan
        }),
{
    let r = reaction(s, event, id, now);
    let shown = required(MessageView::PlanProposed { plan, from_memory });
    let k = choose|k: int| 0 <= k < r.sends.len() && r.sends[k] == shown;
    assert(r.sends[k].message is PlanProposed);
    match event {
        ServerEvent::Counted { request, plan: recalled, failure, .. } => {
            law_proposed_plans_wait(s.d, request@, recalled@);
            if failure is None {
                assert(k == r.sends.len() - 1);
            }
        },
        ServerEvent::Answered { request, content } => {
            law_proposed_plans_wait(s.d, request@, answer_plan(content@, id));
            assert(k == r.sends.len() - 1);
        },
        _ => {},
    }
    law_sanitize_keeps_exactly_the_valid_steps(plan);
    assert forall|i: int| 0 <= i < plan.steps.len() implies (#[trigger] plan.steps[i]).description
        == plan.steps[i].kind.description() by {
        assert(plan.sanitized().steps[i] == plan.steps[i]);
    }
}

/// What was approved once needs no research again: a plan that waits is
/// approved, the changes are made, and the same request, in any case and
/// spacing, leads to the launch of an application or to the approved plan.
pub proof fn law_approved_requests_need_no_research(
    s: ServerView,
    plan_id: String,
    trigger_phrase: String,
    approved_at: Seq<char>,
    made: usize,
    again: String,
    id: Seq<char>,
    now: Seq<char>,
)
    requires
        s.d.pending.contains_key(plan_id@),
        normalized(again@) == normalized(s.d.pending[plan_id@].1),
        forget_request(again@) is None,
    ensures
        ({
            let approval = ServerEvent::Message {
                message: ClientMessage::ApprovePlan { plan_id, trigger_phrase },
            };
            let storing = server_after(s, approval, id, approved_at);
            let stored = ServerEvent::Stored { plan_id, made, failure: None };
            let after = server_after(storing, stored, id, now);
            let asked = ServerEvent::Message { message: ClientMessage::UserText { text: again } };
            let plan = s.d.pending[plan_id@].0;
            &&& reaction(storing, stored, id, now).next == (NextView::Execute {
                plan,
                approved: true,
            })
            &&& match reaction(after, asked, id, now).next {
                NextView::Execute { plan: launched, approved } => !approved && runs_unasked(
                    launched,
                ),
                NextView::Count { plan: recalled, .. } => recalled == plan,
                _ => false,
            }
        }),
{
    let (plan, request) = s.d.pending[plan_id@];
    let approval = ServerEvent::Message {
        message: ClientMessage::ApprovePlan { plan_id, trigger_phrase },
    };
    let storing = server_after(s, approval, id, approved_at);
    let stored = ServerEvent::Stored { plan_id, made, failure: None };
    let after = server_after(storing, stored, id, now);
    law_approved_requests_are_instant(storing.d, plan, request, approved_at, again@, id, now);
    law_nothing_else_runs_unasked(after.d, again@, id, now, plan);
}

/// To approve a plan that does not wait, or waits no more, is refused, and
/// changes nothing.
pub proof fn law_unknown_approval_is_refused(
    s: ServerView,
    plan_id: String,
    trigger_phrase: String,
    id: Seq<char>,
    now: Seq<char>,
)
    requires
        !s.d.pending.contains_key(plan_id@),
    ensures
        ({
            let event = ServerEvent::Message {
                message: ClientMessage::ApprovePlan { plan_id, trigger_phrase },
            };
            &&& reaction(s, event, id, now) == answer_with(
                MessageView::Error { message: "plan not found or expired"@ },
            )
            &&& server_after(s, event, id, now) == s
        }),
{
    assert(s.d.pending.remove(plan_id@) == s.d.pending);
}

/// No event runs a plan twice for one approval: once the changes are made, to
/// say so again is refused and changes nothing.
pub proof fn law_an_approved_plan_runs_once(
    s: ServerView,
    plan_id: String,
    made: usize,
    failure: Option<String>,
    id: Seq<char>,
    now: Seq<char>,
)
    ensures
        ({
            let stored = ServerEvent::Stored { plan_id, made, failure };
            let after = server_after(s, stored, id, now);
            &&& reaction(after, stored, id, now) == answer_with(
                MessageView::Error { message: "plan not found or expired"@ },
            )
            &&& server_after(after, stored, id, now) == after
        }),
{
}

/// A request to forget names what follows the word, in any case and with any
/// blanks around it; any other request is none. The word alone is not enough.
pub proof fn law_requests_to_forget_name_a_phrase(
    lead: Seq<char>,
    word: Seq<char>,
    gap: Seq<char>,
    phrase: Seq<char>,
    tail: Seq<char>,
    s: Seq<char>,
)
    requires
        forall|i: int| 0 <= i < lead.len() ==> whitespace(#[trigger] lead[i]),
        forall|i: int| 0 <= i < gap.len() ==> whitespace(#[trigger] gap[i]),
        forall|i: int| 0 <= i < tail.len() ==> whitespace(#[trigger] tail[i]),
        same_ascii_case(word, "forget"@),
        phrase.len() > 0 && !whitespace(phrase[0]) && !whitespace(phrase.last()),
    ensures
        forget_request(lead + word + seq![' '] + gap + phrase + tail) == Some(phrase),
        forget_request(lead + word + tail) is None,
        trimmed(s).len() < 7 || !same_ascii_case(trimmed(s).take(6), "forget"@) || trimmed(s)[6]
            != ' ' ==> forget_request(s) is None,
        forget_request(s) matches Some(named) ==> named.len() > 0,
{
    reveal_strlit("forget");
    reveal_strlit("forget ");
    text::law_case_is_all_that_may_differ(word, "forget"@);
    assert(word.len() == 6);
    assert(word[0] == 'f' || word[0] == 'F');
    assert(word[5] == 't' || word[5] == 'T');
    let core = word + seq![' '] + gap + phrase;
    assert(core[0] == word[0] && core.last() == phrase.last());
    text::law_whitespace_around_plays_no_part(lead, core, tail);
    assert(lead + word + seq![' '] + gap + phrase + tail == lead + core + tail);
    assert(core.take(7) == word + seq![' ']);
    text::law_case_is_all_that_may_differ(core.take(7), "forget "@);
    assert forall|i: int| 0 <= i < 7 implies #[trigger] core.take(7)[i] == "forget "@[i] || ('A'
        <= core.take(7)[i] <= 'Z' && "forget "@[i] as u32 == core.take(7)[i] as u32 + 32) || ('A'
        <= "forget "@[i] <= 'Z' && core.take(7)[i] as u32 == "forget "@[i] as u32 + 32) by {
        if i < 6 {
            assert("forget "@[i] == "forget"@[i]);
            assert(core.take(7)[i] == word[i]);
        }
    }
    assert(core.skip(7) == gap + phrase);
    let nothing = Seq::<char>::empty();
    text::law_whitespace_around_plays_no_part(gap, phrase, nothing);
    assert(gap + phrase + nothing == gap + phrase);
    assert(word[0] == word[0] && !whitespace(word[0]) && !whitespace(word.last()));
    text::law_whitespace_around_plays_no_part(lead, word, tail);
    let t = trimmed(s);
    if let Some(named) = forget_request(s) {
        text::law_case_is_all_that_may_differ(t.take(7), "forget "@);
        text::law_case_is_all_that_may_differ(t.take(6), "forget"@);
        assert forall|i: int| 0 <= i < 6 implies #[trigger] t.take(6)[i] == "forget"@[i] || ('A'
            <= t.take(6)[i] <= 'Z' && "forget"@[i] as u32 == t.take(6)[i] as u32 + 32) || ('A'
            <= "forget"@[i] <= 'Z' && t.take(6)[i] as u32 == "forget"@[i] as u32 + 32) by {
            assert(t.take(7)[i] == t.take(6)[i]);
            assert("forget "@[i] == "forget"@[i]);
        }
        assert(t.take(7)[6] == t[6]);
        text::law_trimming_takes_the_whitespace_around(s);
        let rest = t.skip(7);
        text::law_trimming_takes_the_whitespace_around(rest);
        let (i, j) = choose|i: int, j: int|
            0 <= i <= j <= rest.len() && trimmed(rest) == #[trigger] rest.subrange(i, j) && (forall|
                k: int,
            | 0 <= k < i || j <= k < rest.len() ==> whitespace(#[trigger] rest[k]));
        assert(rest[rest.len() - 1] == t.last());
        if named.len() == 0 {
            assert(i == j);
            assert(whitespace(rest[rest.len() - 1]));
        }
    }
}

/// To forget a phrase has its normal form deleted; whoever asks is told that it
/// is forgotten exactly if it was known and could be deleted. From then on the
/// phrase leads nowhere, and all else is as it was.
pub proof fn law_a_phrase_is_forgotten(
    s: ServerView,
    phrase: String,
    write: SqlWrite,
    done: bool,
    id: Seq<char>,
    now: Seq<char>,
    other: Seq<char>,
)
    requires
        write@ == (WriteView::DeletePhrase { phrase: normalized(phrase@) }),
    ensures
        ({
            let asked = ServerEvent::Message { message: ClientMessage::Forget { phrase } };
            let deleted = ServerEvent::Forgotten { phrase, write, done };
            let after = server_after(s, deleted, id, now);
            let known = s.d.bank.phrases.contains_key(normalized(phrase@));
            &&& reaction(s, asked, id, now).next == (NextView::Delete {
                phrase: phrase@,
                write: write@,
            })
            &&& reaction(s, deleted, id, now).next is Done
            &&& done && known ==> reaction(s, deleted, id, now).sends == seq![
                required(MessageView::Reply { text: "Forgot '"@ + phrase@ + "'."@ }),
            ]
            &&& !(done && known) ==> reaction(s, deleted, id, now).sends == seq![
                required(
                    MessageView::Reply { text: "Didn't have '"@ + phrase@ + "' remembered."@ },
                ),
            ]
            &&& done ==> after.d.bank.lookup(phrase@) == Ok::<Option<PlanView>, Seq<char>>(None)
            &&& !done ==> after == s
            &&& normalized(other) != normalized(phrase@) ==> after.d.bank.lookup(other)
                == s.d.bank.lookup(other)
            &&& after.d.pending == s.d.pending && after.d.history == s.d.history && after.approved
                == s.approved
        }),
{
    law_forgotten_phrase_is_gone(s.d.bank, phrase@, phrase@);
    law_forgotten_phrase_is_gone(s.d.bank, phrase@, other);
}

/// To reject a plan drops it and only it: it can be approved no more, and
/// whoever rejected it is told that it is cancelled.
pub proof fn law_a_rejected_plan_is_gone(
    s: ServerView,
    plan_id: String,
    trigger_phrase: String,
    id: Seq<char>,
    now: Seq<char>,
    other: Seq<char>,
)
    ensures
        ({
            let rejected = ServerEvent::Message { message: ClientMessage::RejectPlan { plan_id } };
            let after = server_after(s, rejected, id, now);
            let approval = ServerEvent::Message {
                message: ClientMessage::ApprovePlan { plan_id, trigger_phrase },
            };
            &&& reaction(s, rejected, id, now).sends == seq![
                required(MessageView::Reply { text: "Cancelled."@ }),
            ]
            &&& reaction(s, rejected, id, now).next is Done
            &&& !after.d.pending.contains_key(plan_id@)
            &&& other != plan_id@ ==> after.d.pending.contains_key(other)
                == s.d.pending.contains_key(other) && (s.d.pending.contains_key(other)
                ==> after.d.pending[other] == s.d.pending[other])
            &&& reaction(after, approval, id, now).next is Done
            &&& after.d.bank == s.d.bank && after.approved == s.approved
        }),
{
}

/// A plan that was approved is remembered under the request that led to it,
/// whatever phrase the frontend sends along, and is then no longer waiting.
pub proof fn law_an_approved_plan_is_stored_under_its_request(
    s: ServerView,
    plan_id: String,
    trigger_phrase: String,
    id: Seq<char>,
    now: Seq<char>,
)
    requires
        s.d.pending.contains_key(plan_id@),
    ensures
        ({
            let approval = ServerEvent::Message {
                message: ClientMessage::ApprovePlan { plan_id, trigger_phrase },
            };
            let (plan, request) = s.d.pending[plan_id@];
            let after = server_after(s, approval, id, now);
            &&& reaction(s, approval, id, now).next == (NextView::Store {
                plan_id: plan_id@,
                writes: seq![
                    WriteView::StorePlan { created_at: now, plan },
                    WriteView::StorePhrase { phrase: normalized(request), intent_id: plan.id },
                ],
            })
            &&& !after.d.pending.contains_key(plan_id@)
            &&& after.d.bank == s.d.bank
        }),
{
    let (plan, request) = s.d.pending[plan_id@];
    assert(remember_writes(seq![request], plan, now) == seq![
        WriteView::StorePlan { created_at: now, plan },
        WriteView::StorePhrase { phrase: normalized(request), intent_id: plan.id },
    ]);
}

/// Where storing an approved plan failed, it does not run, the failure is told,
/// and only the changes that were made count.
pub proof fn law_a_plan_that_was_not_stored_does_not_run(
    s: ServerView,
    plan_id: String,
    made: usize,
    failure: String,
    id: Seq<char>,
    now: Seq<char>,
)
    requires
        s.approved.contains_key(plan_id@),
    ensures
        ({
            let event = ServerEvent::Stored { plan_id, made, failure: Some(failure) };
            let writes = s.approved[plan_id@].1;
            let after = server_after(s, event, id, now);
            &&& reaction(s, event, id, now).sends == seq![
                required(MessageView::Error { message: failure@ }),
            ]
            &&& reaction(s, event, id, now).next is Done
            &&& made <= writes.len() ==> after.d.bank == s.d.bank.after_all(
                writes.take(made as int),
            )
            &&& !after.approved.contains_key(plan_id@)
        }),
{
    let writes = s.approved[plan_id@].1;
    if made == writes.len() {
        assert(writes.take(made as int) == writes);
    }
}

/// The simple messages have simple answers: a ping is answered, listening goes
/// on for five seconds where there is a voice bridge and is refused where there
/// is none, and ends when asked.
pub proof fn law_simple_messages_have_simple_answers(
    s: ServerView,
    id: Seq<char>,
    now: Seq<char>,
    error: String,
)
    ensures
        ({
            let r = |m: ClientMessage| reaction(s, ServerEvent::Message { message: m }, id, now);
            &&& r(ClientMessage::Ping).sends == seq![required(MessageView::Pong)]
            &&& r(ClientMessage::Ping).next is Done
            &&& r(ClientMessage::StopListening).sends == seq![
                required(MessageView::Listening { active: false }),
            ]
            &&& r(ClientMessage::StopListening).next is Done
            &&& r(ClientMessage::StartListening).sends[0] == required(
                MessageView::Listening { active: true },
            )
            &&& s.voice ==> r(ClientMessage::StartListening).next == (NextView::Listen {
                seconds: 5,
            }) && r(ClientMessage::StartListening).sends.len() == 1
            &&& !s.voice ==> r(ClientMessage::StartListening).next is Done && r(
                ClientMessage::StartListening,
            ).sends.last() == required(
                MessageView::Error { message: "voice bridge is not available"@ },
            )
            &&& reaction(s, ServerEvent::BadMessage { error }, id, now).sends == seq![
                required(MessageView::Error { message: "bad message: "@ + error@ }),
            ]
            &&& reaction(s, ServerEvent::Unanswered { error }, id, now).sends == seq![
                required(MessageView::Error { message: error@ }),
            ]
        }),
{
}

/// What the voice bridge could not hear ends the listening and is told; what
/// was silence just ends it.
pub proof fn law_listening_always_ends(
    s: ServerView,
    heard: Result<String, String>,
    id: Seq<char>,
    now: Seq<char>,
)
    ensures
        ({
            let r = reaction(s, ServerEvent::Heard { text: heard }, id, now);
            let ended = required(MessageView::Listening { active: false });
            &&& r.sends.contains(ended)
            &&& heard matches Err(e) ==> r.sends.last() == required(
                MessageView::Error { message: "listen failed: "@ + e@ },
            ) && r.next is Done
            &&& heard matches Ok(words) ==> trimmed(words@).len() == 0 ==> r.sends == seq![ended]
                && r.next is Done
        }),
{
    let r = reaction(s, ServerEvent::Heard { text: heard }, id, now);
    let ended = required(MessageView::Listening { active: false });
    match heard {
        Ok(words) => {
            if trimmed(words@).len() > 0 {
                assert(r.sends[1] == ended);
            } else {
                assert(r.sends[0] == ended);
            }
        },
        Err(_) => {
            assert(r.sends[0] == ended);
        },
    }
}

/// Something is said aloud exactly if there is a voice bridge and there is more
/// than blanks to say; it is said as it is.
pub proof fn law_blanks_are_not_said_aloud(voice: bool, s: Seq<char>)
    ensures
        spoken(voice, s) is Some <==> voice && exists|i: int|
            0 <= i < s.len() && !whitespace(#[trigger] s[i]),
        spoken(voice, s) matches Some(said) ==> said == s,
{
    text::law_trimming_takes_the_whitespace_around(s);
    let (i, j) = choose|i: int, j: int|
        0 <= i <= j <= s.len() && trimmed(s) == #[trigger] s.subrange(i, j) && (forall|k: int|
            0 <= k < i || j <= k < s.len() ==> whitespace(#[trigger] s[k]));
    if trimmed(s).len() > 0 {
        assert(s[i] == trimmed(s)[0]);
        assert(!whitespace(s[i]));
    } else {
        assert forall|k: int| 0 <= k < s.len() implies whitespace(#[trigger] s[k]) by {}
    }
}

/// What came of a plan is told in full: every step, and success exactly if none
/// failed. Of an approved plan it is also said aloud whether it is done or
/// something failed.
pub proof fn law_what_came_of_a_plan_is_told(
    s: ServerView,
    plan_id: String,
    report: ExecutionReport,
    approved: bool,
    id: Seq<char>,
    now: Seq<char>,
)
    ensures
        ({
            let r = reaction(s, ServerEvent::Executed { plan_id, report, approved }, id, now);
            &&& r.sends == seq![
                required(
                    MessageView::ExecutionResult {
                        plan_id: plan_id@,
                        success: !report@.stopped_early,
                        steps: report@.results,
                    },
                ),
            ]
            &&& r.next is Done
            &&& !approved || !s.voice ==> r.speak is None
            &&& approved && s.voice && report@.stopped_early ==> r.speak == Some(
                "Something in that plan failed -- check the details."@,
            )
            &&& approved && s.voice && !report@.stopped_early ==> r.speak == Some("Done."@)
            &&& server_after(s, ServerEvent::Executed { plan_id, report, approved }, id, now) == s
        }),
{
    let bad = "Something in that plan failed -- check the details."@;
    let good = "Done."@;
    reveal_strlit("Something in that plan failed -- check the details.");
    reveal_strlit("Done.");
    law_blanks_are_not_said_aloud(true, bad);
    law_blanks_are_not_said_aloud(true, good);
    assert(!whitespace(bad[0]));
    assert(!whitespace(good[0]));
}

/// A plan that needs approval is always shown: where the model proposes one, or
/// the memory bank holds one, the last message is that very plan, its reply is
/// said aloud, and nothing runs.
pub proof fn law_plans_that_wait_are_shown(
    s: ServerView,
    request: String,
    content: String,
    recalled: Plan,
    write: SqlWrite,
    id: Seq<char>,
    now: Seq<char>,
)
    ensures
        ({
            let answered = reaction(s, ServerEvent::Answered { request, content }, id, now);
            let counted = reaction(
                s,
                ServerEvent::Counted { request, plan: recalled, write, failure: None },
                id,
                now,
            );
            let proposed = answer_plan(content@, id).sanitized();
            let known = recalled@.sanitized();
            &&& proposed.steps.len() > 0 && proposed.requires_confirmation ==> shows(
                answered,
                proposed,
                s.voice,
            )
            &&& known.requires_confirmation ==> shows(counted, known, s.voice)
            &&& proposed.steps.len() > 0 && !proposed.requires_confirmation ==> answered.next == (
            NextView::Execute { plan: proposed, approved: false })
            &&& !known.requires_confirmation ==> counted.next == (NextView::Execute {
                plan: known,
                approved: false,
            })
            &&& proposed.steps.len() == 0 ==> answered.next is Done && answered.sends.last()
                == required(MessageView::Reply { text: proposed.reply })
        }),
{
}

/// The reaction ends with the plan, says its reply, and does nothing more.
pub open spec fn shows(r: ReactionView, plan: PlanView, voice: bool) -> bool {
    &&& r.sends.len() > 0
    &&& r.sends.last().required
    &&& r.sends.last().message == (MessageView::PlanProposed { plan, from_memory: false })
    &&& r.speak == spoken(voice, plan.reply)
    &&& r.next is Done
}

/// What the user asks for is worked on at once: that it is, is told first, and
/// then what is done about it; only a request to forget is none of that.
pub proof fn law_requests_are_worked_on(
    s: ServerView,
    request: String,
    id: Seq<char>,
    now: Seq<char>,
)
    requires
        forget_request(request@) is None,
    ensures
        ({
            let event = ServerEvent::Message { message: ClientMessage::UserText { text: request } };
            let r = reaction(s, event, id, now);
            &&& r.sends.len() > 0 && r.sends[0].message is Researching
            &&& match text_action(s.d, request@, id, now) {
                TextActionView::Finished { outcome: OutcomeView::Ran { plan }, .. } => r.next == (
                NextView::Execute { plan, approved: false }),
                TextActionView::Finished { .. } => r.next is Done,
                TextActionView::Recalled { plan, write } => r.next == (NextView::Count {
                    request: request@,
                    plan,
                    write,
                }),
                TextActionView::Research { queries, .. } => r.next == (NextView::Search {
                    request: request@,
                    queries,
                }),
                TextActionView::Failed { message } => r.next is Done && r.sends.last()
                    == required(MessageView::Error { message }),
            }
            &&& server_after(s, event, id, now) == s
        }),
{
}

/// The notes of a request are passed on, all of them and in order, and none of
/// them is worth ending the connection for.
pub proof fn law_notes_are_passed_on(notes: Seq<Seq<char>>, i: int)
    requires
        0 <= i < notes.len(),
    ensures
        note_messages(notes).len() == notes.len(),
        note_messages(notes)[i].message == (MessageView::Thinking { text: notes[i] }),
        !note_messages(notes)[i].required,
{
}

/// Once the searches are over the model is asked: at its server, by its name,
/// with the request at the end and what was found in it, which is told too.
pub proof fn law_the_model_is_asked_with_what_was_found(
    s: ServerView,
    request: String,
    pages: Vec<Option<String>>,
    id: Seq<char>,
    now: Seq<char>,
)
    ensures
        ({
            let r = reaction(s, ServerEvent::Searched { request, pages }, id, now);
            let found = context_text(pages@);
            let end = "\nuser: "@ + request@ + "\nassistant JSON:"@;
            &&& r.next matches NextView::Ask { request: about, url, model, prompt } && about
                == request@ && url == s.d.base_url + "/v1/chat/completions"@ && model == s.d.model
                && has_prefix(prompt, s.system_prompt) && prompt.skip(prompt.len() - end.len())
                == end && (found.len() > 0 ==> has_text(prompt, CONTEXT_NOTE@ + found + "\n"@))
            &&& r.sends.len() == 1
            &&& found.len() > 0 ==> r.sends[0].message == (MessageView::Thinking {
                text: "Research findings:\n"@ + found,
            })
            &&& found.len() == 0 ==> r.sends[0].message == (MessageView::Thinking {
                text: NO_FINDINGS_NOTE@,
            })
            &&& server_after(s, ServerEvent::Searched { request, pages }, id, now) == s
        }),
{
    let found = context_text(pages@);
    let context = if found.len() == 0 {
        None
    } else {
        Some(found)
    };
    law_the_prompt_holds_what_the_model_needs(
        request@,
        s.system_prompt,
        s.d.apps.map_values(|a: AppView| a.name),
        utility_name_list(),
        context,
        s.d.history,
    );
}

/// The socket is in its own directory below the runtime directory, or below
/// /tmp where there is none.
pub proof fn law_the_socket_has_its_own_directory(dir: Seq<char>)
    requires
        dir.len() > 0 && dir.last() != '/',
    ensures
        socket_file(Some(dir)) == dir + "/protogenos/daemon.sock"@,
        socket_file(None) == "/tmp/protogenos/daemon.sock"@,
{
    reveal_strlit("/protogenos/daemon.sock");
    reveal_strlit("/tmp/protogenos/daemon.sock");
    reveal_strlit("protogenos");
    reveal_strlit("daemon.sock");
    reveal_strlit("/tmp");
    reveal_strlit("/");
    let a = path_below(dir, "protogenos"@);
    assert(a.last() == 's');
    assert(socket_file(Some(dir)) == dir + "/protogenos/daemon.sock"@);
    let b = path_below("/tmp"@, "protogenos"@);
    assert(b.last() == 's');
    assert(socket_file(None) == "/tmp/protogenos/daemon.sock"@);
}

/// A request to forget, typed or spoken, is the message to forget.
pub proof fn law_typed_requests_to_forget_are_messages_to_forget(
    s: ServerView,
    request: String,
    phrase: String,
    id: Seq<char>,
    now: Seq<char>,
)
    requires
        forget_request(request@) == Some(phrase@),
    ensures
        reaction(
            s,
            (ServerEvent::Message { message: ClientMessage::UserText { text: request } }),
            id,
            now,
        ) == reaction(
            s,
            (ServerEvent::Message { message: ClientMessage::Forget { phrase } }),
            id,
            now,
        ),
{
}

/// The model is told which applications there are, by their names, and which
/// utility actions.
pub proof fn law_the_model_is_told_what_there_is(
    s: ServerView,
    request: String,
    pages: Vec<Option<String>>,
    names: Seq<Seq<char>>,
    id: Seq<char>,
    now: Seq<char>,
)
    requires
        names.len() == s.d.apps.len(),
        forall|i: int| 0 <= i < names.len() ==> #[trigger] names[i] == s.d.apps[i].name,
    ensures
        reaction(s, (ServerEvent::Searched { request, pages }), id, now).next matches NextView::Ask {
            prompt,
            ..
        } && (names.len() > 0 ==> has_text(
            prompt,
            "\n\nKnown launchable apps: "@ + joined(names, ", "@) + "\n"@,
        )) && has_text(
            prompt,
            "Known utility actions: "@ + joined(utility_name_list(), ", "@) + "\n"@,
        ) && (conversation(s.d.history).len() > 0 ==> has_text(
            prompt,
            "\n\nConversation so far:\n"@ + conversation(s.d.history) + "\n"@,
        )),
{
    let found = context_text(pages@);
    let context = if found.len() == 0 {
        None
    } else {
        Some(found)
    };
    let apps = s.d.apps.map_values(|a: AppView| a.name);
    assert(apps == names);
    law_the_prompt_holds_what_the_model_needs(
        request@,
        s.system_prompt,
        apps,
        utility_name_list(),
        context,
        s.d.history,
    );
}

} // verus!
