//! The frontend: what it sends to the daemon, and what it shows of what the
//! daemon sends. It decides and runs nothing itself.
use vstd::prelude::*;

use crate::cmdrunner::StepResultView;
use crate::desktop_index::str_text;
use crate::ipc::{outcome_views, ClientMessage, MessageView, ServerMessage, StepOutcome};
use crate::paths::{self, path_below};
use crate::plan::{Plan, PlanView};
use crate::text::{self, chars_of, trimmed, whitespace};

verus! {

/// What the avatar shows.
#[derive(Debug, Clone, Copy, PartialEq, Eq, Structural)]
pub enum AvatarState {
    Idle,
    Listening,
    Thinking,
    Speaking,
}

impl AvatarState {
    pub open spec fn file(self) -> Seq<char> {
        match self {
            AvatarState::Idle => "idle.png"@,
            AvatarState::Listening => "listening.png"@,
            AvatarState::Thinking => "thinking.png"@,
            AvatarState::Speaking => "speaking.png"@,
        }
    }

    /// The image of the state.
    pub fn filename(self) -> (name: &'static str)
        ensures
            name@ == self.file(),
    {
        match self {
            AvatarState::Idle => "idle.png",
            AvatarState::Listening => "listening.png",
            AvatarState::Thinking => "thinking.png",
            AvatarState::Speaking => "speaking.png",
        }
    }

    pub open spec fn tooltip_text(self) -> Seq<char> {
        match self {
            AvatarState::Idle => "Protogen: idle"@,
            AvatarState::Listening => "Protogen: listening"@,
            AvatarState::Thinking => "Protogen: thinking"@,
            AvatarState::Speaking => "Protogen: speaking"@,
        }
    }

    pub fn tooltip(self) -> (s: &'static str)
        ensures
            s@ == self.tooltip_text(),
    {
        match self {
            AvatarState::Idle => "Protogen: idle",
            AvatarState::Listening => "Protogen: listening",
            AvatarState::Thinking => "Protogen: thinking",
            AvatarState::Speaking => "Protogen: speaking",
        }
    }
}

/// The folder of the avatar's images: the one that is set, else the user's
/// own, else the shared one.
pub open spec fn avatar_folder(set: Option<Seq<char>>, home: Option<Seq<char>>) -> Seq<char> {
    match set {
        Some(dir) => dir,
        None => match home {
            Some(h) => path_below(h, ".local/share/protogenos/avatar"@),
            None => "/usr/share/protogenos/avatar"@,
        },
    }
}

/// The folder of the avatar's images, from the values of `PROTOGEN_AVATAR_DIR`
/// and `HOME`.
pub fn avatar_dir(set: Option<&str>, home: Option<&str>) -> (dir: String)
    ensures
        dir@ == avatar_folder(str_text(set), str_text(home)),
{
    match set {
        Some(dir) => dir.to_string(),
        None => match home {
            Some(h) => paths::join_path(h, ".local/share/protogenos/avatar"),
            None => "/usr/share/protogenos/avatar".to_string(),
        },
    }
}

/// One change of what is shown.
pub enum UiAction {
    /// Show what the user said.
    PushUser { text: String },
    /// Show what the assistant says.
    PushAssistant { text: String },
    /// Show a note.
    PushNote { text: String },
    /// Show a plan, with buttons to approve and reject it.
    PushPlan { plan: Plan },
    SetAvatar { state: AvatarState },
}

/// The model of a `UiAction`.
pub enum UiActionView {
    PushUser { text: Seq<char> },
    PushAssistant { text: Seq<char> },
    PushNote { text: Seq<char> },
    PushPlan { plan: PlanView },
    SetAvatar { state: AvatarState },
}

impl View for UiAction {
    type V = UiActionView;

    open spec fn view(&self) -> UiActionView {
        match *self {
            UiAction::PushUser { text } => UiActionView::PushUser { text: text@ },
            UiAction::PushAssistant { text } => UiActionView::PushAssistant { text: text@ },
            UiAction::PushNote { text } => UiActionView::PushNote { text: text@ },
            UiAction::PushPlan { plan } => UiActionView::PushPlan { plan: plan@ },
            UiAction::SetAvatar { state } => UiActionView::SetAvatar { state },
        }
    }
}

pub open spec fn action_views(actions: Seq<UiAction>) -> Seq<UiActionView> {
    actions.map_values(|a: UiAction| a@)
}

/// The note on what came of a step.
pub open spec fn step_note(step: StepResultView) -> Seq<char> {
    step.description + " -- "@ + (if step.success {
        "done"@
    } else {
        "failed"@
    }) + " ("@ + step.detail + ")"@
}

pub open spec fn step_notes(steps: Seq<StepResultView>) -> Seq<UiActionView> {
    steps.map_values(|s: StepResultView| UiActionView::PushNote { text: step_note(s) })
}

/// What is shown of a message of the daemon.
pub open spec fn shown(message: MessageView) -> Seq<UiActionView> {
    let idle = UiActionView::SetAvatar { state: AvatarState::Idle };
    match message {
        MessageView::Reply { text } => seq![UiActionView::PushAssistant { text }, idle],
        MessageView::Thinking { text } => seq![UiActionView::PushNote { text }],
        MessageView::Researching => seq![
            UiActionView::SetAvatar { state: AvatarState::Thinking },
            UiActionView::PushNote { text: "researching..."@ },
        ],
        MessageView::PlanProposed { plan, .. } => seq![idle, UiActionView::PushPlan { plan }],
        MessageView::ExecutionResult { steps, .. } => seq![idle] + step_notes(steps),
        MessageView::Error { message } => seq![
            UiActionView::PushNote { text: "Error: "@ + message },
            idle,
        ],
        MessageView::Transcript { text } => seq![UiActionView::PushUser { text }],
        MessageView::Listening { active } => seq![
            UiActionView::SetAvatar {
                state: if active {
                    AvatarState::Listening
                } else {
                    AvatarState::Idle
                },
            },
        ],
        MessageView::Pong => Seq::empty(),
    }
}

fn idle() -> (a: UiAction)
    ensures
        a@ == (UiActionView::SetAvatar { state: AvatarState::Idle }),
{
    UiAction::SetAvatar { state: AvatarState::Idle }
}

fn note_of(step: &StepOutcome) -> (text: String)
    ensures
        text@ == step_note(step@),
{
    let mut text = step.description.clone();
    text.append(" -- ");
    if step.success {
        text.append("done");
    } else {
        text.append("failed");
    }
    text.append(" (");
    text.append(step.detail.as_str());
    text.append(")");
    text
}

/// What to show of a message of the daemon, in order.
pub fn show(message: ServerMessage) -> (actions: Vec<UiAction>)
    ensures
        action_views(actions@) == shown(message@),
{
    let ghost wanted = shown(message@);
    let mut actions: Vec<UiAction> = Vec::new();
    match message {
        ServerMessage::Reply { text } => {
            actions.push(UiAction::PushAssistant { text });
            actions.push(idle());
        },
        ServerMessage::Thinking { text } => {
            actions.push(UiAction::PushNote { text });
        },
        ServerMessage::Researching => {
            actions.push(UiAction::SetAvatar { state: AvatarState::Thinking });
            actions.push(UiAction::PushNote { text: "researching...".to_string() });
        },
        ServerMessage::PlanProposed { plan, .. } => {
            actions.push(idle());
            actions.push(UiAction::PushPlan { plan });
        },
        ServerMessage::ExecutionResult { steps, .. } => {
            actions.push(idle());
            let ghost notes = step_notes(outcome_views(steps@));
            let ghost lead = seq![UiActionView::SetAvatar { state: AvatarState::Idle }];
            assert(action_views(actions@) == lead + notes.take(0));
            for i in 0..steps.len()
                invariant
                    notes == step_notes(outcome_views(steps@)),
                    action_views(actions@) == lead + notes.take(i as int),
            {
                let ghost before = action_views(actions@);
                let text = note_of(&steps[i]);
                let note = UiAction::PushNote { text };
                assert(outcome_views(steps@)[i as int] == steps@[i as int]@);
                assert(note@ == notes[i as int]);
                actions.push(note);
                assert(action_views(actions@) == before.push(note@));
                assert(notes.take(i + 1) == notes.take(i as int).push(notes[i as int]));
            }
            assert(notes.take(steps@.len() as int) == notes);
        },
        ServerMessage::Error { message } => {
            let mut text = "Error: ".to_string();
            text.append(message.as_str());
            actions.push(UiAction::PushNote { text });
            actions.push(idle());
        },
        ServerMessage::Transcript { text } => {
            actions.push(UiAction::PushUser { text });
        },
        ServerMessage::Listening { active } => {
            let state = if active {
                AvatarState::Listening
            } else {
                AvatarState::Idle
            };
            actions.push(UiAction::SetAvatar { state });
        },
        ServerMessage::Pong => {},
    }
    assert(action_views(actions@) == wanted);
    actions
}

/// The frontend's memory of the conversation: what the user sent last, and
/// whether the microphone is on.
#[derive(Debug, PartialEq, Eq)]
pub struct DaemonClient {
    pub last_user_text: String,
    pub listening: bool,
}

/// What is sent for what the user entered.
pub open spec fn sent_for(text: Seq<char>) -> Option<Seq<char>> {
    if trimmed(text).len() > 0 {
        Some(text)
    } else {
        None
    }
}

impl DaemonClient {
    pub fn new() -> (c: DaemonClient)
        ensures
            c.last_user_text@ == Seq::<char>::empty(),
            !c.listening,
    {
        DaemonClient { last_user_text: String::new(), listening: false }
    }

    /// The message for what the user entered; a blank text is not sent.
    pub fn send_text(&mut self, text: &str) -> (message: Option<ClientMessage>)
        ensures
            final(self).listening == old(self).listening,
            match message {
                Some(m) => trimmed(text@).len() > 0 && final(self).last_user_text@ == text@
                    && (m matches ClientMessage::UserText { text: t } && t@ == text@),
                None => trimmed(text@).len() == 0 && *final(self) == *old(self),
            },
            match message {
                Some(m) => m matches ClientMessage::UserText { text: t } && sent_for(text@) == Some(
                    t@,
                ),
                None => sent_for(text@) is None,
            },
    {
        if text::trim_chars(&chars_of(text)).len() == 0 {
            return None;
        }
        self.last_user_text = text.to_string();
        Some(ClientMessage::UserText { text: text.to_string() })
    }

    /// The message that approves a plan.
    pub fn approve_plan(&self, plan_id: &str) -> (message: ClientMessage)
        ensures
            message matches ClientMessage::ApprovePlan { plan_id: id, trigger_phrase } && id@
                == plan_id@ && trigger_phrase@ == self.last_user_text@,
    {
        ClientMessage::ApprovePlan {
            plan_id: plan_id.to_string(),
            trigger_phrase: self.last_user_text.clone(),
        }
    }

    /// The message that rejects a plan.
    pub fn reject_plan(&self, plan_id: &str) -> (message: ClientMessage)
        ensures
            message matches ClientMessage::RejectPlan { plan_id: id } && id@ == plan_id@,
    {
        ClientMessage::RejectPlan { plan_id: plan_id.to_string() }
    }

    /// The message that has the daemon listen.
    pub fn start_listening(&self) -> (message: ClientMessage)
        ensures
            message is StartListening,
    {
        ClientMessage::StartListening
    }

    /// The message that has the daemon stop listening.
    pub fn stop_listening(&self) -> (message: ClientMessage)
        ensures
            message is StopListening,
    {
        ClientMessage::StopListening
    }

    /// The message and the avatar for a click on the microphone, which turns
    /// listening on and off in turn.
    pub fn toggle_listening(&mut self) -> (r: (ClientMessage, AvatarState))
        ensures
            final(self).last_user_text == old(self).last_user_text,
            final(self).listening == !old(self).listening,
            final(self).listening ==> r.0 is StartListening && r.1 == AvatarState::Listening,
            !final(self).listening ==> r.0 is StopListening && r.1 == AvatarState::Idle,
    {
        self.listening = !self.listening;
        if self.listening {
            (self.start_listening(), AvatarState::Listening)
        } else {
            (self.stop_listening(), AvatarState::Idle)
        }
    }
}

/// A plan is shown whole, and only for the user to decide on.
pub proof fn law_only_proposed_plans_get_buttons(message: MessageView, plan: PlanView)
    ensures
        shown(message).contains(UiActionView::PushPlan { plan }) <==> (message matches
            MessageView::PlanProposed { plan: p, .. } && p == plan),
{
    let list = shown(message);
    if let MessageView::PlanProposed { plan: p, .. } = message {
        assert(list[1] == UiActionView::PushPlan { plan: p });
        if list.contains(UiActionView::PushPlan { plan }) {
            let i = choose|i: int| 0 <= i < list.len() && list[i] == UiActionView::PushPlan { plan };
            assert(i == 0 || i == 1);
        }
    } else {
        assert forall|i: int| 0 <= i < list.len() implies !(#[trigger] list[i] is PushPlan) by {}
    }
}

/// Each state of the avatar has its own image and its own tip, and both go by
/// the name of the state.
pub proof fn law_the_avatar_goes_by_the_name_of_its_state(state: AvatarState)
    ensures
        ({
            let name = match state {
                AvatarState::Idle => "idle"@,
                AvatarState::Listening => "listening"@,
                AvatarState::Thinking => "thinking"@,
                AvatarState::Speaking => "speaking"@,
            };
            state.file() == name + ".png"@ && state.tooltip_text() == "Protogen: "@ + name
        }),
{
    reveal_strlit("idle");
    reveal_strlit("listening");
    reveal_strlit("thinking");
    reveal_strlit("speaking");
    reveal_strlit(".png");
    reveal_strlit("Protogen: ");
    reveal_strlit("idle.png");
    reveal_strlit("listening.png");
    reveal_strlit("thinking.png");
    reveal_strlit("speaking.png");
    reveal_strlit("Protogen: idle");
    reveal_strlit("Protogen: listening");
    reveal_strlit("Protogen: thinking");
    reveal_strlit("Protogen: speaking");
    assert(state.file() == match state {
        AvatarState::Idle => "idle"@,
        AvatarState::Listening => "listening"@,
        AvatarState::Thinking => "thinking"@,
        AvatarState::Speaking => "speaking"@,
    } + ".png"@);
    assert(state.tooltip_text() == "Protogen: "@ + match state {
        AvatarState::Idle => "idle"@,
        AvatarState::Listening => "listening"@,
        AvatarState::Thinking => "thinking"@,
        AvatarState::Speaking => "speaking"@,
    });
}

/// The state that the avatar is left in by what is shown, if it is changed.
pub open spec fn avatar_after(actions: Seq<UiActionView>) -> Option<AvatarState>
    decreases actions.len(),
{
    if actions.len() == 0 {
        None
    } else {
        match actions.last() {
            UiActionView::SetAvatar { state } => Some(state),
            _ => avatar_after(actions.drop_last()),
        }
    }
}

/// The avatar thinks while the daemon works on a request, listens while the
/// daemon does, and is idle once there is an answer, a plan, a result or an
/// error. Nothing else changes it.
pub proof fn law_the_avatar_follows_the_daemon(message: MessageView)
    ensures
        avatar_after(shown(message)) == match message {
            MessageView::Researching => Some(AvatarState::Thinking),
            MessageView::Listening { active: true } => Some(AvatarState::Listening),
            MessageView::Listening { active: false } => Some(AvatarState::Idle),
            MessageView::Reply { .. } | MessageView::PlanProposed { .. }
            | MessageView::ExecutionResult { .. } | MessageView::Error { .. } => Some(
                AvatarState::Idle,
            ),
            MessageView::Thinking { .. } | MessageView::Transcript { .. } | MessageView::Pong => None,
        },
{
    reveal_with_fuel(avatar_after, 4);
    let list = shown(message);
    match message {
        MessageView::ExecutionResult { steps, .. } => {
            lemma_notes_keep_the_avatar(
                seq![UiActionView::SetAvatar { state: AvatarState::Idle }],
                step_notes(steps),
            );
        },
        _ => {
            if list.len() == 2 {
                assert(list.drop_last() == seq![list[0]]);
                assert(seq![list[0]].last() == list[0]);
                assert(seq![list[0]].drop_last() == Seq::<UiActionView>::empty());
            } else if list.len() == 1 {
                assert(list.drop_last() == Seq::<UiActionView>::empty());
            }
        },
    }
}

proof fn lemma_notes_keep_the_avatar(lead: Seq<UiActionView>, notes: Seq<UiActionView>)
    requires
        forall|i: int| 0 <= i < notes.len() ==> #[trigger] notes[i] is PushNote,
    ensures
        avatar_after(lead + notes) == avatar_after(lead),
    decreases notes.len(),
{
    if notes.len() == 0 {
        assert(lead + notes == lead);
    } else {
        let init = notes.drop_last();
        assert forall|i: int| 0 <= i < init.len() implies #[trigger] init[i] is PushNote by {
            assert(init[i] == notes[i]);
        }
        lemma_notes_keep_the_avatar(lead, init);
        assert((lead + notes).drop_last() == lead + init);
        assert((lead + notes).last() == notes[notes.len() - 1]);
    }
}

/// What the daemon says is shown: a reply as the assistant's words, what was
/// heard as the user's, a thought as a note, and an error as a note that says
/// so.
pub proof fn law_what_is_said_is_shown(text: Seq<char>)
    ensures
        shown((MessageView::Reply { text })).contains((UiActionView::PushAssistant { text })),
        shown((MessageView::Transcript { text })).contains((UiActionView::PushUser { text })),
        shown((MessageView::Thinking { text })).contains((UiActionView::PushNote { text })),
        shown((MessageView::Error { message: text })).contains(
            (UiActionView::PushNote { text: "Error: "@ + text }),
        ),
        shown(MessageView::Researching).contains(
            (UiActionView::PushNote { text: "researching..."@ }),
        ),
        shown(MessageView::Pong).len() == 0,
{
    let a = shown(MessageView::Reply { text });
    assert(a[0] == UiActionView::PushAssistant { text });
    let b = shown(MessageView::Transcript { text });
    assert(b[0] == UiActionView::PushUser { text });
    let c = shown(MessageView::Thinking { text });
    assert(c[0] == UiActionView::PushNote { text });
    let d = shown(MessageView::Error { message: text });
    assert(d[0] == UiActionView::PushNote { text: "Error: "@ + text });
    let e = shown(MessageView::Researching);
    assert(e[1] == UiActionView::PushNote { text: "researching..."@ });
}

/// Of the run of a plan every step is shown, in order: its line, then that it
/// is done or that it failed, then what there is to say of it.
pub proof fn law_every_step_of_a_run_is_shown(
    plan_id: Seq<char>,
    success: bool,
    steps: Seq<StepResultView>,
    i: int,
)
    requires
        0 <= i < steps.len(),
    ensures
        ({
            let list = shown((MessageView::ExecutionResult { plan_id, success, steps }));
            let told = if steps[i].success {
                " -- done ("@
            } else {
                " -- failed ("@
            };
            &&& list.len() == steps.len() + 1
            &&& list[i + 1] == (UiActionView::PushNote {
                text: steps[i].description + told + steps[i].detail + ")"@,
            })
        }),
{
    reveal_strlit(" -- ");
    reveal_strlit("done");
    reveal_strlit("failed");
    reveal_strlit(" (");
    reveal_strlit(" -- done (");
    reveal_strlit(" -- failed (");
    assert(" -- done ("@ == " -- "@ + "done"@ + " ("@);
    assert(" -- failed ("@ == " -- "@ + "failed"@ + " ("@);
    let list = shown(MessageView::ExecutionResult { plan_id, success, steps });
    assert(list[i + 1] == step_notes(steps)[i]);
    let told = if steps[i].success {
        " -- done ("@
    } else {
        " -- failed ("@
    };
    assert(step_note(steps[i]) == steps[i].description + told + steps[i].detail + ")"@);
}

/// The images are taken from the folder that is set; else from the user's own;
/// without a home, from the shared one.
pub proof fn law_the_users_images_come_first(set: Seq<char>, home: Option<Seq<char>>, h: Seq<char>)
    ensures
        avatar_folder(Some(set), home) == set,
        avatar_folder(None, Some(h)) == path_below(h, ".local/share/protogenos/avatar"@),
        avatar_folder(None, None) == "/usr/share/protogenos/avatar"@,
{
}

/// What the user enters is sent as it is, if it is more than whitespace.
pub proof fn law_blanks_are_not_sent(text: Seq<char>)
    ensures
        sent_for(text) is Some <==> exists|i: int| 0 <= i < text.len() && !whitespace(
            #[trigger] text[i],
        ),
        sent_for(text) matches Some(sent) ==> sent == text,
{
    text::law_trimming_takes_the_whitespace_around(text);
    let (i, j) = choose|i: int, j: int|
        0 <= i <= j <= text.len() && trimmed(text) == #[trigger] text.subrange(i, j) && (forall|
            k: int,
        | 0 <= k < i || j <= k < text.len() ==> whitespace(#[trigger] text[k]));
    if trimmed(text).len() > 0 {
        assert(text[i] == trimmed(text)[0]);
        assert(!whitespace(text[i]));
    } else {
        assert forall|k: int| 0 <= k < text.len() implies whitespace(#[trigger] text[k]) by {}
    }
}

} // verus!
