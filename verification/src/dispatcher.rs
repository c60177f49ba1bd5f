//! What to do about a request: launch an application that it names, recall a
//! plan that was approved before, or have the model propose a plan. A plan that
//! changes the system is held until the user approves it.
//!
//! A request goes through the functions here in turn. Between them the caller
//! searches the web, asks the model and writes to the database.
use vstd::prelude::*;

use crate::command::{self, utility_name_list};
use crate::desktop_index::{resolution, AppIndex, AppView};
use crate::fresh::{self, random_uuid, utc_moment};
use crate::jan_client::{
    self, answer_plan, plan_prompt, turns, CompletionRequest, JanClient,
};
use crate::memory::{
    distinct_keys, law_remembered_plan_is_found, lemma_pairs, lemma_remove, normalized, pairs_map,
    remember_writes, write_views, BankView, MemoryBank, SqlWrite, WriteView,
};
use crate::plan::{
    all_valid, dropped_descriptions, law_only_launch_and_utility_skip_confirmation,
    law_sanitize_idempotent, law_sanitize_keeps_exactly_the_valid_steps, step_lines, valid_step,
    KindView, Plan, PlanView, Step, StepKind, StepView,
};
use crate::research::{self, query_texts};
use crate::text::{self, chars_of, decimal, has_prefix, has_text, joined, lowercase, texts};

verus! {

/// A plan that waits for the user's approval, with the request that led to it.
pub struct PendingPlan {
    pub plan: Plan,
    pub request: String,
}

pub struct Dispatcher {
    pub memory: MemoryBank,
    pub app_index: AppIndex,
    pub jan: JanClient,
    pub distro: String,
    /// The plans that wait for approval; no two have the same id.
    pub pending: Vec<PendingPlan>,
    /// The conversation so far: who spoke, and what was said.
    pub history: Vec<(String, String)>,
}

/// The model of a `Dispatcher`: what its answers depend on.
pub struct DispatchView {
    pub bank: BankView,
    pub apps: Seq<AppView>,
    /// Where the model server is, and which model it is asked for.
    pub base_url: Seq<char>,
    pub model: Seq<char>,
    pub distro: Seq<char>,
    /// The plans that wait for approval and their requests, under their ids.
    pub pending: Map<Seq<char>, (PlanView, Seq<char>)>,
    pub history: Seq<(Seq<char>, Seq<char>)>,
}

pub open spec fn pending_pairs(rows: Seq<PendingPlan>) -> Seq<
    (Seq<char>, (PlanView, Seq<char>)),
> {
    rows.map_values(|r: PendingPlan| (r.plan@.id, (r.plan@, r.request@)))
}

impl View for Dispatcher {
    type V = DispatchView;

    open spec fn view(&self) -> DispatchView {
        DispatchView {
            bank: self.memory@,
            apps: self.app_index.apps(),
            base_url: self.jan.base_url@,
            model: self.jan.model@,
            distro: self.distro@,
            pending: pairs_map(pending_pairs(self.pending@)),
            history: turns(self.history@),
        }
    }
}

/// A plan that may wait for approval: it needs approval, and validation finds
/// nothing to drop in it.
pub open spec fn holdable(plan: PlanView) -> bool {
    plan.requires_confirmation && plan.sanitized() == plan
}

/// What became of a request.
pub enum DispatchOutcome {
    /// The plan runs at once.
    Ran { plan: Plan },
    /// The plan runs only after the user's approval.
    NeedsConfirmation { plan: Plan },
    /// There is nothing to do but to answer.
    Reply { text: String },
}

/// The model of a `DispatchOutcome`.
pub enum OutcomeView {
    Ran { plan: PlanView },
    NeedsConfirmation { plan: PlanView },
    Reply { text: Seq<char> },
}

impl View for DispatchOutcome {
    type V = OutcomeView;

    open spec fn view(&self) -> OutcomeView {
        match *self {
            DispatchOutcome::Ran { plan } => OutcomeView::Ran { plan: plan@ },
            DispatchOutcome::NeedsConfirmation { plan } => OutcomeView::NeedsConfirmation {
                plan: plan@,
            },
            DispatchOutcome::Reply { text } => OutcomeView::Reply { text: text@ },
        }
    }
}

/// What to do about a request.
pub enum TextAction {
    /// It is settled. The notes tell the user what was done.
    Finished { notes: Vec<String>, outcome: DispatchOutcome },
    /// A plan is remembered for it: make the change, then call `recalled`.
    Recalled { plan: Plan, write: SqlWrite },
    /// Nothing is known about it: search the web for the queries, then call
    /// `ask_model`.
    Research { notes: Vec<String>, queries: Vec<String> },
    /// It cannot be handled.
    Failed { message: String },
}

/// The model of a `TextAction`.
pub enum TextActionView {
    Finished { notes: Seq<Seq<char>>, outcome: OutcomeView },
    Recalled { plan: PlanView, write: WriteView },
    Research { notes: Seq<Seq<char>>, queries: Seq<Seq<char>> },
    Failed { message: Seq<char> },
}

impl View for TextAction {
    type V = TextActionView;

    open spec fn view(&self) -> TextActionView {
        match *self {
            TextAction::Finished { notes, outcome } => TextActionView::Finished {
                notes: texts(notes@),
                outcome: outcome@,
            },
            TextAction::Recalled { plan, write } => TextActionView::Recalled {
                plan: plan@,
                write: write@,
            },
            TextAction::Research { notes, queries } => TextActionView::Research {
                notes: texts(notes@),
                queries: texts(queries@),
            },
            TextAction::Failed { message } => TextActionView::Failed { message: message@ },
        }
    }
}

/// An outcome, with the notes that tell the user how it came about.
pub struct Settled {
    pub notes: Vec<String>,
    pub outcome: DispatchOutcome,
}

/// The model of a `Settled`.
pub struct SettledView {
    pub notes: Seq<Seq<char>>,
    pub outcome: OutcomeView,
}

impl View for Settled {
    type V = SettledView;

    open spec fn view(&self) -> SettledView {
        SettledView { notes: texts(self.notes@), outcome: self.outcome@ }
    }
}

/// The application that a request to open something names.
pub open spec fn requested_app(apps: Seq<AppView>, request: Seq<char>) -> Option<AppView> {
    let lower = lowercase(request);
    if has_prefix(lower, "open "@) || has_prefix(lower, "launch "@) || has_prefix(lower, "focus "@) {
        match resolution(apps, lower) {
            Some(k) => Some(apps[k]),
            None => None,
        }
    } else {
        None
    }
}

/// The plan that launches or focuses one application.
pub open spec fn launch_plan(app: AppView, id: Seq<char>) -> PlanView {
    PlanView {
        id,
        thinking: Seq::empty(),
        reply: "Opening "@ + app.name + "."@,
        steps: seq![
            StepView {
                kind: KindView::LaunchOrFocus { app_id: app.id },
                description: "Open or focus "@ + app.name,
            },
        ],
        requires_confirmation: false,
    }.finalized()
}

pub open spec fn matched_note(request: Seq<char>, app: AppView) -> Seq<char> {
    "Matched '"@ + request + "' directly to the app '"@ + app.name
        + "' in the launcher index -- no need to ask the model."@
}

pub const RECALLED_NOTE: &'static str = "Found this exact request in memory -- skipping research.";

pub const UNKNOWN_NOTE: &'static str = "Nothing in memory for this -- looking it up and asking the model for a plan.";

pub const NO_FINDINGS_NOTE: &'static str = "Research turned up nothing useful -- relying on the model's own knowledge.";

/// What to do about a request. A plan that launches an application gets the
/// given id; the use of a remembered plan is counted at the time `now`.
pub open spec fn text_action(
    d: DispatchView,
    request: Seq<char>,
    id: Seq<char>,
    now: Seq<char>,
) -> TextActionView {
    match requested_app(d.apps, request) {
        Some(app) => TextActionView::Finished {
            notes: seq![matched_note(request, app)],
            outcome: OutcomeView::Ran { plan: launch_plan(app, id) },
        },
        None => match d.bank.lookup(request) {
            Ok(Some(plan)) => TextActionView::Recalled {
                plan,
                write: WriteView::CountUse { at: now, phrase: normalized(request) },
            },
            Ok(None) => TextActionView::Research {
                notes: seq![UNKNOWN_NOTE@],
                queries: query_texts(request, d.distro),
            },
            Err(message) => TextActionView::Failed { message },
        },
    }
}

/// The outcome of a plan with steps: it runs at once or needs approval.
pub open spec fn gated(plan: PlanView) -> OutcomeView {
    if plan.requires_confirmation {
        OutcomeView::NeedsConfirmation { plan }
    } else {
        OutcomeView::Ran { plan }
    }
}

impl DispatchView {
    /// The dispatcher once a plan has been decided on: held if it needs
    /// approval.
    pub open spec fn holding(self, plan: PlanView, request: Seq<char>) -> DispatchView {
        if plan.requires_confirmation {
            DispatchView { pending: self.pending.insert(plan.id, (plan, request)), ..self }
        } else {
            self
        }
    }

    /// The dispatcher after one more exchange.
    pub open spec fn having_said(self, request: Seq<char>, reply: Seq<char>) -> DispatchView {
        DispatchView {
            history: self.history.push(("user"@, request)).push(("assistant"@, reply)),
            ..self
        }
    }
}

/// What the user is told about what the model proposed and about what
/// validation dropped of it.
pub open spec fn answer_notes(proposed: PlanView) -> Seq<Seq<char>> {
    let thinking = if proposed.thinking.len() > 0 {
        seq!["Thinking: "@ + proposed.thinking]
    } else {
        Seq::empty()
    };
    let decided = seq!["Decided: "@ + proposed.reply];
    let steps = if proposed.steps.len() > 0 {
        seq![
            "Proposed steps before validation:\n- "@ + joined(
                step_lines(proposed.steps),
                "\n- "@,
            ),
        ]
    } else {
        Seq::empty()
    };
    let refused = dropped_descriptions(proposed.steps);
    let dropped = if refused.len() > 0 {
        seq![
            "Note: dropped "@ + decimal(refused.len()) + " step(s) that didn't pass validation: "@
                + joined(refused, ", "@),
        ]
    } else {
        Seq::empty()
    };
    thinking + decided + steps + dropped
}

/// What becomes of a request for which the model proposed a plan: only the
/// plan's valid steps count.
pub open spec fn answer_outcome(proposed: PlanView) -> OutcomeView {
    let plan = proposed.sanitized();
    if plan.steps.len() == 0 {
        OutcomeView::Reply { text: plan.reply }
    } else {
        gated(plan)
    }
}

/// The dispatcher after the model proposed a plan.
pub open spec fn after_answer(
    d: DispatchView,
    request: Seq<char>,
    proposed: PlanView,
) -> DispatchView {
    let plan = proposed.sanitized();
    let said = d.having_said(request, plan.reply);
    if plan.steps.len() == 0 {
        said
    } else {
        said.holding(plan, request)
    }
}

/// A plan that was approved, with the changes that remember it.
pub struct Approval {
    pub plan: Plan,
    pub writes: Vec<SqlWrite>,
}

fn concat3(a: &str, b: &str, c: &str) -> (out: String)
    ensures
        out@ == a@ + b@ + c@,
{
    let mut out = a.to_string();
    out.append(b);
    out.append(c);
    out
}

impl Dispatcher {
    /// No phrase, intent, application or pending plan occurs twice, and every
    /// plan that waits needs approval and holds valid steps only.
    pub open spec fn wf(&self) -> bool {
        &&& self.memory.wf()
        &&& self.app_index.wf()
        &&& distinct_keys(pending_pairs(self.pending@))
        &&& forall|i: int|
            0 <= i < self.pending@.len() ==> holdable((#[trigger] self.pending@[i]).plan@)
    }

    pub fn new(memory: MemoryBank, app_index: AppIndex, jan: JanClient, distro: &str) -> (d:
        Dispatcher)
        requires
            memory.wf(),
            app_index.wf(),
        ensures
            d.wf(),
            d@ == (DispatchView {
                bank: memory@,
                apps: app_index.apps(),
                base_url: jan.base_url@,
                model: jan.model@,
                distro: distro@,
                pending: Map::empty(),
                history: Seq::empty(),
            }),
    {
        let d = Dispatcher {
            memory,
            app_index,
            jan,
            distro: distro.to_string(),
            pending: Vec::new(),
            history: Vec::new(),
        };
        assert(d@.history == Seq::<(Seq<char>, Seq<char>)>::empty());
        d
    }

    /// What to do about a request, with the id for a new plan and the time
    /// given.
    pub fn handle_text_at(&self, request: &str, id: &str, now: &str) -> (action: TextAction)
        requires
            self.wf(),
        ensures
            action@ == text_action(self@, request@, id@, now@),
    {
        let lower = request.to_lowercase();
        if text::starts_with(lower.as_str(), "open ") || text::starts_with(
            lower.as_str(),
            "launch ",
        ) || text::starts_with(lower.as_str(), "focus ") {
            if let Some(app) = self.app_index.resolve(lower.as_str()) {
                let mut note = "Matched '".to_string();
                note.append(request);
                note.append("' directly to the app '");
                note.append(app.name.as_str());
                note.append("' in the launcher index -- no need to ask the model.");
                let mut description = "Open or focus ".to_string();
                description.append(app.name.as_str());
                let step = Step {
                    kind: StepKind::LaunchOrFocus { app_id: app.id.clone() },
                    description,
                };
                let raw = Plan {
                    id: id.to_string(),
                    thinking: String::new(),
                    reply: concat3("Opening ", app.name.as_str(), "."),
                    steps: vec![step],
                    requires_confirmation: false,
                };
                assert(raw@.steps == seq![step@]);
                assert(raw@.thinking == Seq::<char>::empty());
                let plan = raw.finalize();
                assert(plan@ == launch_plan(app@, id@));
                let notes = vec![note];
                assert(texts(notes@) == seq![note@]);
                return TextAction::Finished { notes, outcome: DispatchOutcome::Ran { plan } };
            }
        }
        match self.memory.lookup_phrase_at(request, now) {
            Ok(Some(recall)) => TextAction::Recalled { plan: recall.plan, write: recall.write },
            Ok(None) => {
                let notes = vec![UNKNOWN_NOTE.to_string()];
                assert(texts(notes@) == seq![UNKNOWN_NOTE@]);
                TextAction::Research {
                    notes,
                    queries: research::research_queries(request, self.distro.as_str()),
                }
            },
            Err(message) => TextAction::Failed { message },
        }
    }

    /// What to do about a request.
    pub fn handle_text(&self, request: &str) -> (action: TextAction)
        requires
            self.wf(),
        ensures
            exists|id: Seq<char>, now: Seq<char>|
                random_uuid(id) && utc_moment(now) && action@ == text_action(
                    self@,
                    request@,
                    id,
                    now,
                ),
    {
        let id = fresh::new_plan_id();
        let now = fresh::now();
        self.handle_text_at(request, id.as_str(), now.as_str())
    }

    fn pending_row(&self, plan_id: &str) -> (r: Option<usize>)
        requires
            self.wf(),
        ensures
            match r {
                Some(i) => i < self.pending@.len() && self.pending@[i as int].plan@.id == plan_id@
                    && self@.pending.contains_key(plan_id@) && self@.pending[plan_id@] == (
                    self.pending@[i as int].plan@,
                    self.pending@[i as int].request@,
                ),
                None => !self@.pending.contains_key(plan_id@),
            },
    {
        let ghost pairs = pending_pairs(self.pending@);
        proof {
            lemma_pairs(pairs);
        }
        for i in 0..self.pending.len()
            invariant
                pairs == pending_pairs(self.pending@),
                forall|j: int| 0 <= j < i ==> (#[trigger] pairs[j]).0 != plan_id@,
                forall|j: int|
                    0 <= j < pairs.len() ==> pairs_map(pairs).contains_key((#[trigger] pairs[j]).0)
                        && pairs_map(pairs)[pairs[j].0] == pairs[j].1,
        {
            assert(pairs[i as int].0 == self.pending@[i as int].plan@.id);
            if text::same(self.pending[i].plan.id.as_str(), plan_id) {
                return Some(i);
            }
        }
        None
    }

    fn take_pending(&mut self, plan_id: &str) -> (r: Option<PendingPlan>)
        requires
            old(self).wf(),
        ensures
            final(self).wf(),
            final(self)@ == (DispatchView {
                pending: old(self)@.pending.remove(plan_id@),
                ..old(self)@
            }),
            match r {
                Some(p) => old(self)@.pending.contains_key(plan_id@)
                    && old(self)@.pending[plan_id@] == (p.plan@, p.request@) && p.plan@.id
                    == plan_id@ && holdable(p.plan@),
                None => !old(self)@.pending.contains_key(plan_id@),
            },
            forall|j: int|
                0 <= j < final(self).pending@.len() ==> (
                #[trigger] final(self).pending@[j]).plan@.id != plan_id@,
    {
        let ghost before = *self;
        let ghost pairs = pending_pairs(self.pending@);
        match self.pending_row(plan_id) {
            Some(i) => {
                proof {
                    lemma_remove(pairs, i as int);
                }
                let taken = self.pending.remove(i);
                proof {
                    assert(pending_pairs(self.pending@) == pairs.remove(i as int));
                    assert forall|j: int| 0 <= j < self.pending@.len() implies (
                    #[trigger] self.pending@[j]).plan@.id != plan_id@ && holdable(
                        self.pending@[j].plan@,
                    ) by {
                        assert(pending_pairs(self.pending@)[j].0 == self.pending@[j].plan@.id);
                        let k = if j < i {
                            j
                        } else {
                            j + 1
                        };
                        assert(self.pending@[j] == before.pending@[k]);
                    }
                }
                Some(taken)
            },
            None => {
                proof {
                    lemma_pairs(pairs);
                    assert forall|j: int| 0 <= j < self.pending@.len() implies (
                    #[trigger] self.pending@[j]).plan@.id != plan_id@ by {
                        assert(pairs[j].0 == self.pending@[j].plan@.id);
                    }
                    assert(before@.pending.remove(plan_id@) == before@.pending);
                }
                None
            },
        }
    }

    fn hold(&mut self, plan: &Plan, request: &str)
        requires
            old(self).wf(),
            plan@.sanitized() == plan@,
        ensures
            final(self).wf(),
            final(self)@ == old(self)@.holding(plan@, request@),
    {
        if !plan.requires_confirmation {
            return;
        }
        let ghost before = *self;
        let id = plan.id.clone();
        let _ = self.take_pending(id.as_str());
        let ghost kept = pending_pairs(self.pending@);
        let ghost rows = self.pending@;
        let row = PendingPlan { plan: plan.clone(), request: request.to_string() };
        self.pending.push(row);
        proof {
            let now = pending_pairs(self.pending@);
            assert(now == kept.push((plan@.id, (plan@, request@))));
            assert(now.drop_last() == kept);
            assert forall|i: int, j: int| 0 <= i < j < now.len() implies (#[trigger] now[i]).0 != (
            #[trigger] now[j]).0 by {
                if j == kept.len() {
                    assert(now[i].0 == rows[i].plan@.id);
                } else {
                    assert(kept[i].0 != kept[j].0);
                }
            }
            assert forall|i: int| 0 <= i < self.pending@.len() implies holdable(
                (#[trigger] self.pending@[i]).plan@,
            ) by {
                if i < rows.len() {
                    assert(self.pending@[i] == rows[i]);
                }
            }
            assert(self@.pending == before@.pending.insert(plan@.id, (plan@, request@)));
        }
    }

    /// Settles a request for which a plan was remembered, once the use of the
    /// plan has been counted.
    pub fn recalled(&mut self, request: &str, plan: Plan) -> (settled: Settled)
        requires
            old(self).wf(),
        ensures
            final(self).wf(),
            settled@ == (SettledView {
                notes: seq![RECALLED_NOTE@],
                outcome: gated(plan@.sanitized()),
            }),
            final(self)@ == old(self)@.holding(plan@.sanitized(), request@),
    {
        proof {
            law_sanitize_idempotent(plan@);
        }
        let (plan, _) = plan.sanitize();
        self.hold(&plan, request);
        let notes = vec![RECALLED_NOTE.to_string()];
        assert(texts(notes@) == seq![RECALLED_NOTE@]);
        let outcome = if plan.requires_confirmation {
            DispatchOutcome::NeedsConfirmation { plan }
        } else {
            DispatchOutcome::Ran { plan }
        };
        Settled { notes, outcome }
    }

    /// What to tell the user about the research, and what to ask the model.
    pub fn ask_model(&self, request: &str, web_context: &str, system_prompt: &str) -> (r: (
        String,
        CompletionRequest,
    ))
        ensures
            r.0@ == if web_context@.len() == 0 {
                NO_FINDINGS_NOTE@
            } else {
                "Research findings:\n"@ + web_context@
            },
            r.1.url@ == self@.base_url + "/v1/chat/completions"@,
            r.1.model@ == self@.model,
            r.1.prompt@ == plan_prompt(
                request@,
                system_prompt@,
                self@.apps.map_values(|a: AppView| a.name),
                utility_name_list(),
                if web_context@.len() == 0 {
                    None
                } else {
                    Some(web_context@)
                },
                self@.history,
            ),
    {
        let names = self.app_index.all_names();
        let utilities = command::utility_names();
        if chars_of(web_context).len() == 0 {
            let asked = self.jan.research_plan(
                request,
                system_prompt,
                &names,
                &utilities,
                None,
                &self.history,
            );
            (NO_FINDINGS_NOTE.to_string(), asked)
        } else {
            let mut note = "Research findings:\n".to_string();
            note.append(web_context);
            let asked = self.jan.research_plan(
                request,
                system_prompt,
                &names,
                &utilities,
                Some(web_context),
                &self.history,
            );
            (note, asked)
        }
    }

    /// Settles a request for which the model proposed a plan.
    pub fn handle_proposal(&mut self, request: &str, proposed: Plan) -> (settled: Settled)
        requires
            old(self).wf(),
        ensures
            final(self).wf(),
            settled@ == (SettledView {
                notes: answer_notes(proposed@),
                outcome: answer_outcome(proposed@),
            }),
            final(self)@ == after_answer(old(self)@, request@, proposed@),
    {
        let ghost before = *self;
        let ghost raw = proposed@;
        let mut notes: Vec<String> = Vec::new();
        if chars_of(proposed.thinking.as_str()).len() > 0 {
            notes.push(concat3("Thinking: ", proposed.thinking.as_str(), ""));
            proof {
                reveal_strlit("");
            }
            assert(texts(notes@) == seq!["Thinking: "@ + raw.thinking]);
        }
        let ghost thinking = texts(notes@);
        notes.push(concat3("Decided: ", proposed.reply.as_str(), ""));
        proof {
            reveal_strlit("");
        }
        assert(texts(notes@) == thinking + seq!["Decided: "@ + raw.reply]);
        let ghost decided = texts(notes@);
        if proposed.steps.len() > 0 {
            let list = proposed.step_descriptions();
            let line = concat3(
                "Proposed steps before validation:\n- ",
                text::join(&list, "\n- ").as_str(),
                "",
            );
            notes.push(line);
            assert(texts(notes@) == decided + seq![line@]);
            assert(line@ == "Proposed steps before validation:\n- "@ + joined(
                step_lines(raw.steps),
                "\n- "@,
            ));
        }
        let ghost listed = texts(notes@);
        proof {
            law_sanitize_idempotent(raw);
        }
        let (plan, dropped) = proposed.sanitize();
        if dropped.len() > 0 {
            let mut line = concat3(
                "Note: dropped ",
                text::decimal_text(dropped.len() as u64).as_str(),
                " step(s) that didn't pass validation: ",
            );
            line.append(text::join(&dropped, ", ").as_str());
            notes.push(line);
            assert(texts(notes@) == listed + seq![line@]);
        }
        assert(texts(dropped@).len() == dropped@.len());
        assert(texts(notes@) == answer_notes(raw));
        self.history.push(("user".to_string(), request.to_string()));
        self.history.push(("assistant".to_string(), plan.reply.clone()));
        assert(self@.history == before@.history.push(("user"@, request@)).push(
            ("assistant"@, plan@.reply),
        ));
        let ghost said = before@.having_said(request@, plan@.reply);
        assert(self@ == said);
        assert(plan@.steps.len() == plan.steps@.len());
        if plan.steps.len() == 0 {
            return Settled { notes, outcome: DispatchOutcome::Reply { text: plan.reply } };
        }
        self.hold(&plan, request);
        let outcome = if plan.requires_confirmation {
            DispatchOutcome::NeedsConfirmation { plan }
        } else {
            DispatchOutcome::Ran { plan }
        };
        Settled { notes, outcome }
    }

    /// Settles a request for which the model gave an answer, with the id for a
    /// new plan given.
    pub fn handle_answer_at(&mut self, request: &str, content: &str, id: &str) -> (settled: Settled)
        requires
            old(self).wf(),
        ensures
            final(self).wf(),
            settled@ == (SettledView {
                notes: answer_notes(answer_plan(content@, id@)),
                outcome: answer_outcome(answer_plan(content@, id@)),
            }),
            final(self)@ == after_answer(old(self)@, request@, answer_plan(content@, id@)),
    {
        let proposed = jan_client::plan_of_answer(content, id);
        self.handle_proposal(request, proposed)
    }

    /// Settles a request for which the model gave an answer.
    pub fn handle_answer(&mut self, request: &str, content: &str) -> (settled: Settled)
        requires
            old(self).wf(),
        ensures
            final(self).wf(),
            exists|id: Seq<char>|
                random_uuid(id) && settled@ == (SettledView {
                    notes: answer_notes(#[trigger] answer_plan(content@, id)),
                    outcome: answer_outcome(answer_plan(content@, id)),
                }) && final(self)@ == after_answer(
                    old(self)@,
                    request@,
                    answer_plan(content@, id),
                ),
    {
        let proposed = jan_client::plan_from_answer(content);
        let ghost id = proposed@.id;
        let ghost plan = proposed@;
        let settled = self.handle_proposal(request, proposed);
        assert(plan == answer_plan(content@, id));
        settled
    }

    /// Takes an approved plan out of those that wait, with the changes that
    /// remember it at the time `now`. It is remembered under the request that
    /// led to it, whatever phrase the client sends along. There is nothing to
    /// take where no such plan waits.
    pub fn approve_at(&mut self, plan_id: &str, _client_trigger_phrase: &str, now: &str) -> (r:
        Option<Approval>)
        requires
            old(self).wf(),
        ensures
            final(self).wf(),
            final(self)@ == (DispatchView {
                pending: old(self)@.pending.remove(plan_id@),
                ..old(self)@
            }),
            match r {
                Some(approval) => old(self)@.pending.contains_key(plan_id@) && ({
                    let (plan, request) = old(self)@.pending[plan_id@];
                    approval.plan@ == plan && write_views(approval.writes@) == remember_writes(
                        seq![request],
                        plan,
                        now@,
                    )
                }) && holdable(approval.plan@) && approval.plan@.id == plan_id@,
                None => !old(self)@.pending.contains_key(plan_id@),
            },
    {
        match self.take_pending(plan_id) {
            Some(entry) => {
                let phrases = vec![entry.request];
                assert(texts(phrases@) == seq![entry.request@]);
                let writes = MemoryBank::remember_at(&phrases, &entry.plan, now);
                Some(Approval { plan: entry.plan, writes })
            },
            None => None,
        }
    }

    /// Takes an approved plan out of those that wait, with the changes that
    /// remember it.
    pub fn approve(&mut self, plan_id: &str, client_trigger_phrase: &str) -> (r: Option<Approval>)
        requires
            old(self).wf(),
        ensures
            final(self).wf(),
            final(self)@ == (DispatchView {
                pending: old(self)@.pending.remove(plan_id@),
                ..old(self)@
            }),
            match r {
                Some(approval) => old(self)@.pending.contains_key(plan_id@) && approval.plan@
                    == old(self)@.pending[plan_id@].0 && holdable(approval.plan@)
                    && approval.plan@.id == plan_id@ && exists|now: Seq<char>|
                    utc_moment(now) && write_views(approval.writes@) == remember_writes(
                        seq![old(self)@.pending[plan_id@].1],
                        approval.plan@,
                        now,
                    ),
                None => !old(self)@.pending.contains_key(plan_id@),
            },
    {
        let now = fresh::now();
        self.approve_at(plan_id, client_trigger_phrase, now.as_str())
    }

    /// Drops a plan from those that wait.
    pub fn reject(&mut self, plan_id: &str)
        requires
            old(self).wf(),
        ensures
            final(self).wf(),
            final(self)@ == (DispatchView {
                pending: old(self)@.pending.remove(plan_id@),
                ..old(self)@
            }),
    {
        let _ = self.take_pending(plan_id);
    }

    /// Makes a change of the memory bank that the database has made. Tells
    /// whether it touched a row.
    pub fn commit(&mut self, write: &SqlWrite) -> (touched: bool)
        requires
            old(self).wf(),
        ensures
            final(self).wf(),
            final(self)@ == (DispatchView { bank: old(self)@.bank.after(write@), ..old(self)@ }),
            touched == old(self)@.bank.touched_by(write@),
    {
        self.memory.apply(write)
    }

    /// Puts a fresh index of the applications in the place of the old one.
    pub fn refresh_app_index(&mut self, fresh: AppIndex)
        requires
            old(self).wf(),
            fresh.wf(),
        ensures
            final(self).wf(),
            final(self)@ == (DispatchView { apps: fresh.apps(), ..old(self)@ }),
    {
        self.app_index = fresh;
    }
}

/// A step that may run without approval.
pub open spec fn unasked(kind: KindView) -> bool {
    kind is LaunchOrFocus || kind is Utility
}

/// Every step of the plan may run without approval, and its data is valid.
pub open spec fn runs_unasked(plan: PlanView) -> bool {
    &&& all_valid(plan.steps)
    &&& forall|i: int| 0 <= i < plan.steps.len() ==> unasked((#[trigger] plan.steps[i]).kind)
}

proof fn lemma_gated(raw: PlanView)
    ensures
        gated(raw.sanitized()) matches OutcomeView::Ran { plan } ==> runs_unasked(plan),
        gated(raw.sanitized()) matches OutcomeView::NeedsConfirmation { plan } ==> holdable(plan),
{
    law_sanitize_keeps_exactly_the_valid_steps(raw);
    law_sanitize_idempotent(raw);
    let kept = PlanView { steps: raw.steps.filter(valid_step()), ..raw };
    law_only_launch_and_utility_skip_confirmation(kept);
}

/// Nothing but the launch of an application and utility actions ever runs
/// without the user's approval: not what a request asks for directly, not what
/// the memory bank holds, and not what the model proposes.
pub proof fn law_nothing_else_runs_unasked(
    d: DispatchView,
    request: Seq<char>,
    id: Seq<char>,
    now: Seq<char>,
    raw: PlanView,
)
    ensures
        text_action(d, request, id, now) matches TextActionView::Finished {
            outcome: OutcomeView::Ran { plan },
            ..
        } ==> runs_unasked(plan),
        gated(raw.sanitized()) matches OutcomeView::Ran { plan } ==> runs_unasked(plan),
        answer_outcome(raw) matches OutcomeView::Ran { plan } ==> runs_unasked(plan),
{
    lemma_gated(raw);
}

/// A plan that is shown for approval waits under its id with the request that
/// led to it, holds valid steps only and needs approval.
pub proof fn law_proposed_plans_wait(d: DispatchView, request: Seq<char>, raw: PlanView)
    ensures
        gated(raw.sanitized()) matches OutcomeView::NeedsConfirmation { plan } ==> holdable(plan)
            && d.holding(raw.sanitized(), request).pending.contains_key(plan.id) && d.holding(
            raw.sanitized(),
            request,
        ).pending[plan.id] == (plan, request),
        answer_outcome(raw) matches OutcomeView::NeedsConfirmation { plan } ==> holdable(plan)
            && after_answer(d, request, raw).pending.contains_key(plan.id) && after_answer(
            d,
            request,
            raw,
        ).pending[plan.id] == (plan, request),
{
    lemma_gated(raw);
}

/// A request whose plan was approved is instant from then on: the same request,
/// in any case and spacing, is answered by the launch of an application or by
/// the approved plan, never by research.
pub proof fn law_approved_requests_are_instant(
    d: DispatchView,
    plan: PlanView,
    request: Seq<char>,
    stored_at: Seq<char>,
    again: Seq<char>,
    id: Seq<char>,
    now: Seq<char>,
)
    requires
        normalized(again) == normalized(request),
    ensures
        ({
            let after = DispatchView {
                bank: d.bank.after_all(remember_writes(seq![request], plan, stored_at)),
                ..d
            };
            match text_action(after, again, id, now) {
                TextActionView::Finished { outcome, .. } => requested_app(d.apps, again) is Some,
                TextActionView::Recalled { plan: recalled, .. } => recalled == plan,
                _ => false,
            }
        }),
{
    assert(seq![request][0] == request);
    law_remembered_plan_is_found(d.bank, seq![request], plan, stored_at, 0, again);
}

/// A plan runs at most once for one approval: after it was approved or
/// rejected, it waits no more, and every other plan waits as before.
pub proof fn law_approval_is_spent(d: DispatchView, plan_id: Seq<char>, other: Seq<char>)
    ensures
        ({
            let after = DispatchView { pending: d.pending.remove(plan_id), ..d };
            &&& !after.pending.contains_key(plan_id)
            &&& other != plan_id ==> (after.pending.contains_key(other)
                <==> d.pending.contains_key(other)) && (d.pending.contains_key(other)
                ==> after.pending[other] == d.pending[other])
        }),
{
}

/// A request that starts with "open", "launch" or "focus", in any case that
/// lower-casing evens out, and means an application of the index, opens that
/// application at once, whatever the memory bank holds: one step, which needs
/// no approval, under the application's own id.
pub proof fn law_requests_to_open_are_instant(
    d: DispatchView,
    request: Seq<char>,
    id: Seq<char>,
    now: Seq<char>,
    k: int,
)
    requires
        ({
            let lower = lowercase(request);
            &&& has_prefix(lower, "open "@) || has_prefix(lower, "launch "@) || has_prefix(
                lower,
                "focus "@,
            )
            &&& resolution(d.apps, lower) == Some(k)
        }),
    ensures
        text_action(d, request, id, now) matches TextActionView::Finished {
            notes,
            outcome: OutcomeView::Ran { plan },
        } && plan.id == id && !plan.requires_confirmation && plan.steps.len() == 1
            && plan.steps[0].kind == (KindView::LaunchOrFocus { app_id: d.apps[k].id })
            && plan.steps[0].description == "Open or focus "@ + d.apps[k].id && plan.reply
            == "Opening "@ + d.apps[k].name + "."@ && notes.len() == 1 && has_text(
            notes[0],
            request,
        ) && has_text(notes[0], d.apps[k].name),
{
    let app = d.apps[k];
    let plan = launch_plan(app, id);
    let raw = PlanView {
        id,
        thinking: Seq::empty(),
        reply: "Opening "@ + app.name + "."@,
        steps: seq![
            StepView {
                kind: KindView::LaunchOrFocus { app_id: app.id },
                description: "Open or focus "@ + app.name,
            },
        ],
        requires_confirmation: false,
    };
    law_only_launch_and_utility_skip_confirmation(raw);
    assert(plan.steps[0].kind is LaunchOrFocus);
    let tail = "' in the launcher index -- no need to ask the model."@;
    let middle = "' directly to the app '"@;
    text::law_a_text_holds_its_parts(request, "Matched '"@, request, middle + app.name + tail);
    assert("Matched '"@ + request + (middle + app.name + tail) == matched_note(request, app));
    text::law_a_text_holds_its_parts(request, "Matched '"@ + request + middle, app.name, tail);
}

/// Any other request is answered by what the memory bank holds for it: the
/// plan, the use of which is then counted; the error where what is stored is no
/// plan; and research where there is nothing.
pub proof fn law_other_requests_are_looked_up(
    d: DispatchView,
    request: Seq<char>,
    id: Seq<char>,
    now: Seq<char>,
)
    requires
        ({
            let lower = lowercase(request);
            ||| !has_prefix(lower, "open "@) && !has_prefix(lower, "launch "@) && !has_prefix(
                lower,
                "focus "@,
            )
            ||| resolution(d.apps, lower) is None
        }),
    ensures
        match d.bank.lookup(request) {
            Ok(Some(plan)) => text_action(d, request, id, now) == (TextActionView::Recalled {
                plan,
                write: WriteView::CountUse { at: now, phrase: normalized(request) },
            }),
            Ok(None) => text_action(d, request, id, now) matches TextActionView::Research {
                queries,
                ..
            } && queries == query_texts(request, d.distro),
            Err(message) => text_action(d, request, id, now) == (TextActionView::Failed { message }),
        },
{
}

/// What the model answered becomes part of the conversation, after what was
/// asked, and nothing else of the dispatcher changes but the plans that wait.
pub proof fn law_an_exchange_joins_the_conversation(
    d: DispatchView,
    request: Seq<char>,
    proposed: PlanView,
)
    ensures
        ({
            let after = after_answer(d, request, proposed);
            &&& after.history == d.history + seq![
                ("user"@, request),
                ("assistant"@, proposed.reply),
            ]
            &&& after.bank == d.bank && after.apps == d.apps && after.distro == d.distro
                && after.base_url == d.base_url && after.model == d.model
            &&& forall|k: Seq<char>|
                k != proposed.id ==> (#[trigger] after.pending.contains_key(k)
                    == d.pending.contains_key(k)) && (d.pending.contains_key(k) ==> after.pending[k]
                    == d.pending[k])
        }),
{
    assert(d.history.push(("user"@, request)).push(("assistant"@, proposed.reply)) == d.history
        + seq![("user"@, request), ("assistant"@, proposed.reply)]);
}

/// A plan of the model's with nothing valid in it is only talk: its reply is
/// given, nothing waits and nothing runs. One with valid steps waits exactly if
/// it needs approval, and runs exactly if it does not.
pub proof fn law_a_proposal_talks_waits_or_runs(
    d: DispatchView,
    request: Seq<char>,
    proposed: PlanView,
)
    ensures
        ({
            let plan = proposed.sanitized();
            let after = after_answer(d, request, proposed);
            if plan.steps.len() == 0 {
                answer_outcome(proposed) == (OutcomeView::Reply { text: proposed.reply })
                    && after.pending == d.pending
            } else if plan.requires_confirmation {
                answer_outcome(proposed) == (OutcomeView::NeedsConfirmation { plan })
                    && after.pending == d.pending.insert(plan.id, (plan, request))
            } else {
                answer_outcome(proposed) == (OutcomeView::Ran { plan }) && after.pending
                    == d.pending
            }
        }),
{
}

/// The user is told what the model decided; before that its reasoning, where it
/// gave some; then its steps, where it proposed some, by their lines; and last
/// how many of them were dropped, and which.
pub proof fn law_the_user_is_told_what_the_model_proposed(proposed: PlanView)
    ensures
        ({
            let notes = answer_notes(proposed);
            let dropped = dropped_descriptions(proposed.steps);
            let decided: int = if proposed.thinking.len() > 0 {
                1
            } else {
                0
            };
            let listed: int = if proposed.steps.len() > 0 {
                1
            } else {
                0
            };
            &&& proposed.thinking.len() > 0 ==> notes[0] == "Thinking: "@ + proposed.thinking
            &&& notes[decided] == "Decided: "@ + proposed.reply
            &&& proposed.steps.len() > 0 ==> has_prefix(
                notes[decided + 1],
                "Proposed steps before validation:"@,
            ) && has_text(notes[decided + 1], joined(step_lines(proposed.steps), "\n- "@))
            &&& dropped.len() > 0 ==> notes.last() == "Note: dropped "@ + decimal(dropped.len())
                + " step(s) that didn't pass validation: "@ + joined(dropped, ", "@)
            &&& notes.len() == decided + 1 + listed + (if dropped.len() > 0 {
                1int
            } else {
                0int
            })
        }),
{
    if proposed.steps.len() > 0 {
        let lead = "Proposed steps before validation:\n- "@;
        let list = joined(step_lines(proposed.steps), "\n- "@);
        text::law_a_text_holds_its_parts(list, lead, list, Seq::empty());
        assert(lead + list + Seq::<char>::empty() == lead + list);
        reveal_strlit("Proposed steps before validation:\n- ");
        reveal_strlit("Proposed steps before validation:");
        let head = "Proposed steps before validation:"@;
        assert((lead + list).take(head.len() as int) == head);
        text::law_a_text_stands_where_its_characters_do(lead + list, head, 0);
    }
}

} // verus!
