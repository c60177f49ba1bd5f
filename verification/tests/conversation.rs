use protogen::cmdrunner::{ExecutionReport, StepResult};
use protogen::desktop_index::{AppIndex, DesktopFile};
use protogen::dispatcher::{Dispatcher, DispatchOutcome, TextAction};
use protogen::ipc::{classify_line, outcomes_of, ClientMessage, Line, ServerMessage};
use protogen::jan_client::JanClient;
use protogen::memory::{MemoryBank, SqlWrite};
use protogen::personality::{load_profile, profile_path, Profile};
use protogen::plan::{PackageManager, Plan, Step, StepKind};
use protogen::server::{forget_phrase, socket_path, Next, Reaction, Server, ServerEvent};

fn s(t: &str) -> String {
    t.to_string()
}

fn index() -> AppIndex {
    AppIndex::scan(&vec![DesktopFile {
        path: s("/a/firefox.desktop"),
        content: s("[Desktop Entry]\nName=Firefox\nExec=firefox\n"),
    }])
}

fn server(voice: bool) -> Server {
    Server::new(
        Dispatcher::new(
            MemoryBank::new(),
            index(),
            JanClient::new("http://127.0.0.1:1337", "m"),
            "arch",
        ),
        Profile::default(),
        voice,
    )
}

fn text(t: &str) -> ServerEvent {
    ServerEvent::Message { message: ClientMessage::UserText { text: s(t) } }
}

fn messages(r: &Reaction) -> Vec<&ServerMessage> {
    r.sends.iter().map(|o| &o.message).collect()
}

fn notes(r: &Reaction) -> Vec<String> {
    r.sends
        .iter()
        .filter_map(|o| match &o.message {
            ServerMessage::Thinking { text } => {
                assert!(!o.required);
                Some(text.clone())
            }
            _ => None,
        })
        .collect()
}

fn last(r: &Reaction) -> &ServerMessage {
    let o = r.sends.last().unwrap();
    assert!(o.required);
    &o.message
}

fn answer(steps: &[&str]) -> String {
    format!(
        "Sure: {{\"thinking\": \"Needs a package.\", \"reply\": \"On it.\", \"steps\": [{}]}}",
        steps.join(", ")
    )
}

const INSTALL: &str = r#"{"kind": "install_package", "manager": "pacman", "packages": ["hyprland"]}"#;
const REBOOT: &str = r#"{"kind": "power_action", "action": "reboot"}"#;

fn answered(request: &str, steps: &[&str]) -> ServerEvent {
    ServerEvent::Answered { request: s(request), content: answer(steps) }
}

fn proposed(r: &Reaction) -> Plan {
    match last(r) {
        ServerMessage::PlanProposed { plan, from_memory } => {
            assert!(!from_memory);
            plan.clone()
        }
        other => panic!("no plan: {other:?}"),
    }
}

fn approve(server: &mut Server, id: &str, phrase: &str) -> Reaction {
    server.handle_event(ServerEvent::Message {
        message: ClientMessage::ApprovePlan { plan_id: s(id), trigger_phrase: s(phrase) },
    })
}

#[test]
fn ping_and_listening() {
    let mut sv = server(false);
    let r = sv.handle_event(ServerEvent::Message { message: ClientMessage::Ping });
    assert_eq!(messages(&r), vec![&ServerMessage::Pong]);
    assert!(matches!(r.next, Next::Done));
    let r = sv.handle_event(ServerEvent::Message { message: ClientMessage::StopListening });
    assert_eq!(messages(&r), vec![&ServerMessage::Listening { active: false }]);
    let r = sv.handle_event(ServerEvent::Message { message: ClientMessage::StartListening });
    assert_eq!(
        messages(&r),
        vec![
            &ServerMessage::Listening { active: true },
            &ServerMessage::Error { message: s("voice bridge is not available") },
        ]
    );
    let mut sv = server(true);
    let r = sv.handle_event(ServerEvent::Message { message: ClientMessage::StartListening });
    assert!(matches!(r.next, Next::Listen { seconds: 5 }));
}

#[test]
fn known_applications_open_at_once() {
    let mut sv = server(true);
    let r = sv.handle_event(text("Open Firefox"));
    assert_eq!(messages(&r)[0], &ServerMessage::Researching);
    assert_eq!(
        notes(&r),
        vec!["Matched 'Open Firefox' directly to the app 'Firefox' in the launcher index -- no need to ask the model."]
    );
    assert_eq!(r.speak, Some(s("Opening Firefox.")));
    match r.next {
        Next::Execute { plan, approved } => {
            assert!(!approved);
            assert!(!plan.requires_confirmation);
            assert_eq!(plan.reply, "Opening Firefox.");
            assert_eq!(plan.thinking, "");
            assert_eq!(plan.steps.len(), 1);
            assert_eq!(plan.steps[0].kind, StepKind::LaunchOrFocus { app_id: s("firefox") });
            assert_eq!(plan.steps[0].description, "Open or focus firefox");
        }
        _ => panic!("not run"),
    }
    // Only requests to open something take this way.
    let r = sv.handle_event(text("firefox"));
    assert!(matches!(r.next, Next::Search { .. }));
}

#[test]
fn unknown_requests_are_researched() {
    let mut sv = server(false);
    let r = sv.handle_event(text("install hyperland and reboot"));
    assert_eq!(
        notes(&r),
        vec!["Nothing in memory for this -- looking it up and asking the model for a plan."]
    );
    match r.next {
        Next::Search { request, queries } => {
            assert_eq!(request, "install hyperland and reboot");
            assert_eq!(
                queries,
                vec![
                    "install hyperland and reboot arch package name",
                    "install hyperland and reboot arch wiki OR official docs",
                ]
            );
        }
        _ => panic!("not researched"),
    }
    let r = sv.handle_event(ServerEvent::Searched { request: s("x"), pages: vec![None, None] });
    assert_eq!(
        notes(&r),
        vec!["Research turned up nothing useful -- relying on the model's own knowledge."]
    );
    match r.next {
        Next::Ask { request, completion } => {
            assert_eq!(request, "x");
            assert_eq!(completion.url, "http://127.0.0.1:1337/v1/chat/completions");
            assert_eq!(completion.model, "m");
            assert!(completion.prompt.starts_with("You are Protogen, a local system assistant"));
            assert!(completion.prompt.contains("Known launchable apps: Firefox\n"));
            assert!(completion.prompt.contains("Known utility actions: volume_up, volume_down, mute"));
            assert!(!completion.prompt.contains("Research context"));
        }
        _ => panic!("not asked"),
    }
    let page = "result__body href=\"u\" result__a\">T</a> result__snippet\">S</a>";
    let r = sv.handle_event(ServerEvent::Searched { request: s("x"), pages: vec![Some(s(page))] });
    assert_eq!(notes(&r), vec!["Research findings:\n- T (u): S"]);
}

#[test]
fn approved_plans_run_and_are_remembered() {
    let mut sv = server(true);
    let request = "ProtoOS install Hyperland and reboot";
    let r = sv.handle_event(answered(request, &[INSTALL, REBOOT]));
    assert_eq!(
        notes(&r),
        vec![
            "Thinking: Needs a package.",
            "Decided: On it.",
            "Proposed steps before validation:\n- Install via Pacman: hyprland\n- Reboot the machine",
        ]
    );
    assert_eq!(r.speak, Some(s("On it.")));
    let plan = proposed(&r);
    assert_eq!(
        plan.step_descriptions(),
        vec!["Install via Pacman: hyprland", "Reboot the machine"]
    );
    // The client's own phrase plays no part.
    let r = approve(&mut sv, &plan.id, "something else");
    assert!(r.sends.is_empty());
    let (plan_id, writes) = match r.next {
        Next::Store { plan_id, writes } => (plan_id, writes),
        _ => panic!("not stored"),
    };
    assert_eq!(plan_id, plan.id);
    match &writes[1] {
        SqlWrite::StorePhrase { phrase, intent_id } => {
            assert_eq!(phrase, "protoos install hyperland and reboot");
            assert_eq!(intent_id, &plan.id);
        }
        _ => panic!("no phrase"),
    }
    let stored = || ServerEvent::Stored { plan_id: plan.id.clone(), made: 2, failure: None };
    let r = sv.handle_event(stored());
    match r.next {
        Next::Execute { plan: run, approved } => {
            assert!(approved);
            assert_eq!(run, plan);
        }
        _ => panic!("not run"),
    }
    // A plan runs once for one approval, and an approval is spent once.
    let r = sv.handle_event(stored());
    assert_eq!(last(&r), &ServerMessage::Error { message: s("plan not found or expired") });
    assert!(matches!(r.next, Next::Done));
    let r = approve(&mut sv, &plan.id, request);
    assert_eq!(last(&r), &ServerMessage::Error { message: s("plan not found or expired") });
    // The same request needs no research any more, but still approval.
    let r = sv.handle_event(text("protoos  INSTALL hyperland and reboot"));
    let (again, recalled, write) = match r.next {
        Next::Count { request, plan, write } => (request, plan, write),
        _ => panic!("not recalled"),
    };
    assert_eq!(recalled, plan);
    let r = sv.handle_event(ServerEvent::Counted { request: again, plan: recalled, write, failure: None });
    assert_eq!(notes(&r), vec!["Found this exact request in memory -- skipping research."]);
    assert_eq!(proposed(&r), plan);
    assert!(matches!(approve(&mut sv, &plan.id, "").next, Next::Store { .. }));
}

#[test]
fn rejected_plans_never_run() {
    let mut sv = server(false);
    let plan = proposed(&sv.handle_event(answered("x", &[REBOOT])));
    let other = proposed(&sv.handle_event(answered("y", &[REBOOT])));
    let r = sv.handle_event(ServerEvent::Message {
        message: ClientMessage::RejectPlan { plan_id: plan.id.clone() },
    });
    assert_eq!(messages(&r), vec![&ServerMessage::Reply { text: s("Cancelled.") }]);
    assert!(matches!(r.next, Next::Done));
    let r = approve(&mut sv, &plan.id, "x");
    assert_eq!(last(&r), &ServerMessage::Error { message: s("plan not found or expired") });
    assert!(matches!(approve(&mut sv, &other.id, "y").next, Next::Store { .. }));
}

#[test]
fn invalid_steps_are_dropped_and_reported() {
    let mut sv = server(false);
    let bad = r#"{"kind": "install_package", "manager": "apt", "packages": ["a;b"]}"#;
    let mute = r#"{"kind": "utility", "name": "mute"}"#;
    let r = sv.handle_event(answered("x", &[mute, bad]));
    assert_eq!(
        notes(&r).last().unwrap(),
        "Note: dropped 1 step(s) that didn't pass validation: Install via Apt: a;b"
    );
    match r.next {
        Next::Execute { plan, approved } => {
            assert!(!approved);
            assert_eq!(plan.step_descriptions(), vec!["Run utility action: mute"]);
        }
        _ => panic!("not run"),
    }
    let r = sv.handle_event(answered("x", &[bad]));
    assert_eq!(last(&r), &ServerMessage::Reply { text: s("On it.") });
    assert!(matches!(r.next, Next::Done));
}

#[test]
fn the_conversation_is_kept() {
    let mut sv = server(false);
    sv.handle_event(ServerEvent::Answered { request: s("hello"), content: s(" Hi. ") });
    let r = sv.handle_event(ServerEvent::Searched { request: s("x"), pages: vec![] });
    match r.next {
        Next::Ask { completion, .. } => {
            assert!(completion.prompt.contains("Conversation so far:\nuser: hello\nassistant: Hi.\n"))
        }
        _ => panic!("not asked"),
    }
}

#[test]
fn errors_are_answered() {
    let mut sv = server(false);
    let r = sv.handle_event(ServerEvent::BadMessage { error: s("eof") });
    assert_eq!(last(&r), &ServerMessage::Error { message: s("bad message: eof") });
    let r = sv.handle_event(ServerEvent::Unanswered { error: s("calling Jan.ai server") });
    assert_eq!(last(&r), &ServerMessage::Error { message: s("calling Jan.ai server") });
    let plan = proposed(&sv.handle_event(answered("x", &[REBOOT])));
    // A plan that was not approved cannot be said to be stored.
    let stored = |failure| ServerEvent::Stored { plan_id: plan.id.clone(), made: 1, failure };
    let r = sv.handle_event(stored(None));
    assert_eq!(last(&r), &ServerMessage::Error { message: s("plan not found or expired") });
    assert!(matches!(approve(&mut sv, &plan.id, "x").next, Next::Store { .. }));
    let r = sv.handle_event(stored(Some(s("disk full"))));
    assert_eq!(last(&r), &ServerMessage::Error { message: s("disk full") });
    assert!(matches!(r.next, Next::Done));
    // Only the first change was made: the plan is there, the phrase is not.
    assert!(sv.dispatcher.memory.all_phrases().is_empty());
    assert_eq!(sv.dispatcher.memory.intents.len(), 1);
    assert!(sv.approved.is_empty());
    sv.dispatcher.memory.store_intent("1", Err(s("bad json")));
    sv.dispatcher.commit(&SqlWrite::StorePhrase { phrase: s("broken"), intent_id: s("1") });
    let r = sv.handle_event(text("broken"));
    assert_eq!(last(&r), &ServerMessage::Error { message: s("bad json") });
}

#[test]
fn forgetting_by_message_and_by_words() {
    let mut sv = server(false);
    let plan = Plan { id: s("1"), thinking: s(""), reply: s("r"), steps: vec![], requires_confirmation: false };
    for write in MemoryBank::remember(&vec![s("Install X")], &plan) {
        sv.dispatcher.commit(&write);
    }
    let ways = [
        ServerEvent::Message { message: ClientMessage::Forget { phrase: s("install x") } },
        text("Forget install x"),
        ServerEvent::Heard { text: Ok(s("forget install x ")) },
    ];
    let mut known = true;
    for event in ways {
        let (phrase, write) = match sv.handle_event(event).next {
            Next::Delete { phrase, write } => (phrase, write),
            _ => panic!("not forgotten"),
        };
        assert_eq!(phrase, "install x");
        let r = sv.handle_event(ServerEvent::Forgotten { phrase, write, done: true });
        let expected = if known { "Forgot 'install x'." } else { "Didn't have 'install x' remembered." };
        assert_eq!(last(&r), &ServerMessage::Reply { text: s(expected) });
        known = false;
    }
    assert!(matches!(sv.handle_event(text("install x")).next, Next::Search { .. }));
    let write = MemoryBank::forget("install x");
    let r = sv.handle_event(ServerEvent::Forgotten { phrase: s("p"), write, done: false });
    assert_eq!(last(&r), &ServerMessage::Reply { text: s("Didn't have 'p' remembered.") });
}

#[test]
fn requests_to_forget() {
    assert_eq!(forget_phrase(" FORGET  Install X "), Some(s("Install X")));
    assert_eq!(forget_phrase("forget"), None);
    assert_eq!(forget_phrase("forget   "), None);
    assert_eq!(forget_phrase("forgetful"), None);
    assert_eq!(forget_phrase("please forget x"), None);
}

#[test]
fn what_is_heard_is_handled_like_typed_text() {
    let mut sv = server(true);
    let r = sv.handle_event(ServerEvent::Heard { text: Ok(s("open firefox")) });
    assert_eq!(messages(&r)[0], &ServerMessage::Transcript { text: s("open firefox") });
    assert_eq!(messages(&r)[1], &ServerMessage::Listening { active: false });
    assert_eq!(messages(&r)[2], &ServerMessage::Researching);
    assert!(matches!(r.next, Next::Execute { .. }));
    let r = sv.handle_event(ServerEvent::Heard { text: Ok(s("  \n")) });
    assert_eq!(messages(&r), vec![&ServerMessage::Listening { active: false }]);
    let r = sv.handle_event(ServerEvent::Heard { text: Err(s("no microphone")) });
    assert_eq!(
        messages(&r),
        vec![
            &ServerMessage::Listening { active: false },
            &ServerMessage::Error { message: s("listen failed: no microphone") },
        ]
    );
}

fn report(success: bool) -> ExecutionReport {
    ExecutionReport {
        results: vec![StepResult { description: s("d"), success, detail: s("x") }],
        stopped_early: !success,
    }
}

#[test]
fn results_are_reported() {
    let mut sv = server(true);
    let r = sv.handle_event(ServerEvent::Executed { plan_id: s("p"), report: report(true), approved: true });
    assert_eq!(r.speak, Some(s("Done.")));
    match last(&r) {
        ServerMessage::ExecutionResult { plan_id, success, steps } => {
            assert_eq!(plan_id, "p");
            assert!(*success);
            assert_eq!(steps, &outcomes_of(&report(true).results));
            assert_eq!(steps[0].description, "d");
        }
        _ => panic!("no result"),
    }
    let r = sv.handle_event(ServerEvent::Executed { plan_id: s("p"), report: report(false), approved: true });
    assert_eq!(r.speak, Some(s("Something in that plan failed -- check the details.")));
    let r = sv.handle_event(ServerEvent::Executed { plan_id: s("p"), report: report(false), approved: false });
    assert_eq!(r.speak, None);
    let mut quiet = server(false);
    let r = quiet.handle_event(ServerEvent::Executed { plan_id: s("p"), report: report(true), approved: true });
    assert_eq!(r.speak, None);
}

#[test]
fn a_tampered_memory_cannot_run_unasked() {
    let mut sv = server(false);
    let plan = Plan {
        id: s("1"),
        thinking: s(""),
        reply: s("r"),
        steps: vec![
            Step {
                kind: StepKind::InstallPackage { manager: PackageManager::Apt, packages: vec![s("x")] },
                description: s("Play a song"),
            },
            Step {
                kind: StepKind::InstallPackage { manager: PackageManager::Apt, packages: vec![s("x;y")] },
                description: s("Play another"),
            },
        ],
        requires_confirmation: false,
    };
    let write = SqlWrite::CountUse { at: s("t"), phrase: s("x") };
    let r = sv.handle_event(ServerEvent::Counted { request: s("x"), plan, write, failure: None });
    let shown = proposed(&r);
    assert!(shown.requires_confirmation);
    assert_eq!(shown.step_descriptions(), vec!["Install via Apt: x"]);
}

#[test]
fn the_dispatcher_alone() {
    let sv = server(false);
    match sv.dispatcher.handle_text_at("launch firefox", "id", "now") {
        TextAction::Finished { outcome: DispatchOutcome::Ran { plan }, .. } => assert_eq!(plan.id, "id"),
        _ => panic!("not run"),
    }
    match sv.dispatcher.handle_text("open firefox") {
        TextAction::Finished { outcome: DispatchOutcome::Ran { plan }, .. } => {
            assert_eq!(plan.id.len(), 36)
        }
        _ => panic!("not run"),
    }
    let mut sv = sv;
    sv.dispatcher.refresh_app_index(AppIndex::scan(&vec![]));
    assert!(matches!(sv.dispatcher.handle_text("open firefox"), TextAction::Research { .. }));
}

#[test]
fn lines_of_a_connection() {
    assert_eq!(classify_line(0, ""), Line::End);
    assert_eq!(classify_line(2, " \n"), Line::Blank);
    assert_eq!(classify_line(4, " {} \n"), Line::Message { json: s("{}") });
}

#[test]
fn where_things_are() {
    assert_eq!(socket_path(Some("/run/user/1000")), "/run/user/1000/protogenos/daemon.sock");
    assert_eq!(socket_path(None), "/tmp/protogenos/daemon.sock");
    assert_eq!(profile_path(Some("/c")), "/c/profile.json");
    assert_eq!(profile_path(None), "profile.json");
}

#[test]
fn the_persona() {
    let p = load_profile(None);
    assert_eq!(p.name, "Protogen");
    assert!(p.tone.starts_with("terse, dry-witted"));
    let own = Profile { name: s("N"), tone: s("T") };
    let p = load_profile(Some(own));
    let prompt = p.system_prompt();
    assert!(prompt.starts_with("You are N, a local system assistant running on the user's own machine, "));
    assert!(prompt.contains("\n\nPersonality: T\n\nHard rule, non-negotiable: you may ONLY propose steps"));
    assert!(prompt.ends_with("is not an invitation to also restyle anything."));
}

#[test]
fn the_dispatcher_settles_answers_and_approvals() {
    let mut d = server(false).dispatcher;
    let settled = d.handle_answer("reboot now", &answer(&[REBOOT]));
    assert_eq!(settled.notes.len(), 3);
    let plan = match settled.outcome {
        DispatchOutcome::NeedsConfirmation { plan } => plan,
        _ => panic!("not asked"),
    };
    assert_eq!(plan.id.len(), 36);
    assert!(d.approve("other", "x").is_none());
    let approval = d.approve(&plan.id, "x").unwrap();
    assert_eq!(approval.plan, plan);
    for write in &approval.writes {
        assert!(d.commit(write));
    }
    match d.handle_text("Reboot NOW") {
        TextAction::Recalled { plan: recalled, .. } => assert_eq!(recalled, plan),
        _ => panic!("not recalled"),
    }
    d.reject(&plan.id);
    assert!(d.approve(&plan.id, "x").is_none());
}
