use protogen::backend::{
    data_dir, detect_distro, memory_path, start_jan_server, start_voice_bridge, supervise,
    wait_for_jan_ready, BackendConfig, Readiness, Supervision,
};
use protogen::ipc::{ClientMessage, ServerMessage, StepOutcome};
use protogen::plan::Plan;
use protogen::ui::{avatar_dir, show, AvatarState, DaemonClient, UiAction};
use protogen::voice::{listened, response_line, spoke, BridgeResponse};

fn s(t: &str) -> String {
    t.to_string()
}

#[test]
fn settings_have_defaults() {
    let cfg = BackendConfig::from_settings(None, None, None, None, None);
    assert_eq!(cfg.jan_binary, "jan");
    assert_eq!(cfg.jan_port, 1337);
    assert_eq!(cfg.jan_model, "deepseek-v4");
    assert_eq!(cfg.voice_bridge_script, "/usr/share/protogenos/voice_bridge/voice_bridge.py");
    assert_eq!(cfg.voice_bridge_python, "python3");
    assert_eq!(cfg.jan_base_url(), "http://127.0.0.1:1337");
    let cfg = BackendConfig::from_settings(
        Some("/opt/jan"),
        Some("8080"),
        Some("qwen"),
        Some("/v.py"),
        Some("py"),
    );
    let jan = start_jan_server(&cfg);
    assert_eq!(jan.program, "/opt/jan");
    assert_eq!(jan.args, vec!["serve", "qwen", "--port", "8080"]);
    let voice = start_voice_bridge(&cfg);
    assert_eq!((voice.program.as_str(), voice.args), ("py", vec![s("/v.py")]));
    assert_eq!(BackendConfig::from_settings(None, Some("x"), None, None, None).jan_port, 1337);
    assert_eq!(BackendConfig::from_settings(None, Some("70000"), None, None, None).jan_port, 1337);
}

#[test]
fn restarts_are_bounded() {
    // Processes that never start, that are gone at once, and both in turn.
    let broken: [&dyn Fn(usize) -> Option<u64>; 3] =
        [&|_| None, &|_| Some(0), &|i| if i % 2 == 0 { None } else { Some(59) }];
    for ran_secs in broken {
        let mut retries = 0;
        let mut delays = Vec::new();
        while let Supervision::Restart { retries: next, delay_secs } =
            supervise(retries, ran_secs(delays.len()))
        {
            delays.push(delay_secs);
            retries = next;
        }
        assert_eq!(delays, vec![2, 4, 8, 16, 32]);
    }
    assert_eq!(supervise(5, None), Supervision::GiveUp);
    assert_eq!(supervise(5, Some(59)), Supervision::GiveUp);
    assert_eq!(supervise(5, Some(60)), Supervision::Restart { retries: 1, delay_secs: 2 });
    assert_eq!(supervise(2, Some(3600)), Supervision::Restart { retries: 1, delay_secs: 2 });
}

#[test]
fn waiting_for_the_server() {
    assert_eq!(wait_for_jan_ready(None, 0, 60000), Readiness::Ask);
    assert_eq!(wait_for_jan_ready(None, 60000, 60000), Readiness::GiveUp);
    assert_eq!(wait_for_jan_ready(Some(true), 70000, 60000), Readiness::Ready);
    assert_eq!(wait_for_jan_ready(Some(false), 10, 60000), Readiness::Wait { millis: 500 });
}

#[test]
fn distributions_are_named() {
    assert_eq!(detect_distro(Some("NAME=\"Arch\"\nID=arch\nID=x\n")), "arch");
    assert_eq!(detect_distro(Some("VERSION_ID=1\nID=\"opensuse-leap\"\r\n")), "opensuse-leap");
    assert_eq!(detect_distro(Some(" ID=x\n")), "linux");
    assert_eq!(detect_distro(None), "linux");
}

#[test]
fn data_is_kept_somewhere() {
    assert_eq!(data_dir(Some("/d")), "/d");
    assert_eq!(data_dir(None), ".protogenos");
    assert_eq!(memory_path("/d"), "/d/memory.sqlite3");
}

#[test]
fn the_voice_bridge_answers() {
    assert_eq!(response_line(" {} \n"), Ok(s("{}")));
    assert_eq!(response_line("\n"), Err(s("voice bridge closed the connection")));
    assert_eq!(listened(BridgeResponse::Transcript { text: s("hi") }), Ok(s("hi")));
    assert_eq!(
        listened(BridgeResponse::Error { message: s("no mic") }),
        Err(s("voice bridge listen error: no mic"))
    );
    assert_eq!(listened(BridgeResponse::Ack), Err(s("unexpected response to listen")));
    assert_eq!(spoke(BridgeResponse::Spoke { ok: false }), Ok(false));
    assert_eq!(
        spoke(BridgeResponse::Error { message: s("x") }),
        Err(s("voice bridge speak error: x"))
    );
    assert_eq!(
        spoke(BridgeResponse::Transcript { text: s("x") }),
        Err(s("unexpected response to speak"))
    );
}

#[test]
fn the_avatar_has_images() {
    assert_eq!(AvatarState::Idle.filename(), "idle.png");
    assert_eq!(AvatarState::Listening.filename(), "listening.png");
    assert_eq!(AvatarState::Thinking.tooltip(), "Protogen: thinking");
    assert_eq!(AvatarState::Speaking.filename(), "speaking.png");
    assert_eq!(avatar_dir(Some("/a"), Some("/h")), "/a");
    assert_eq!(avatar_dir(None, Some("/h")), "/h/.local/share/protogenos/avatar");
    assert_eq!(avatar_dir(None, None), "/usr/share/protogenos/avatar");
}

fn shown(message: ServerMessage) -> Vec<String> {
    show(message)
        .into_iter()
        .map(|a| match a {
            UiAction::PushUser { text } => format!("user {text}"),
            UiAction::PushAssistant { text } => format!("assistant {text}"),
            UiAction::PushNote { text } => format!("note {text}"),
            UiAction::PushPlan { plan } => format!("plan {}", plan.id),
            UiAction::SetAvatar { state } => format!("avatar {state:?}"),
        })
        .collect()
}

#[test]
fn messages_are_shown() {
    assert_eq!(shown(ServerMessage::Reply { text: s("x") }), vec!["assistant x", "avatar Idle"]);
    assert_eq!(shown(ServerMessage::Thinking { text: s("x") }), vec!["note x"]);
    assert_eq!(shown(ServerMessage::Researching), vec!["avatar Thinking", "note researching..."]);
    assert_eq!(shown(ServerMessage::Error { message: s("x") }), vec!["note Error: x", "avatar Idle"]);
    assert_eq!(shown(ServerMessage::Transcript { text: s("x") }), vec!["user x"]);
    assert_eq!(shown(ServerMessage::Listening { active: true }), vec!["avatar Listening"]);
    assert_eq!(shown(ServerMessage::Listening { active: false }), vec!["avatar Idle"]);
    assert!(shown(ServerMessage::Pong).is_empty());
    let plan = Plan { id: s("7"), thinking: s(""), reply: s(""), steps: vec![], requires_confirmation: true };
    assert_eq!(
        shown(ServerMessage::PlanProposed { plan, from_memory: false }),
        vec!["avatar Idle", "plan 7"]
    );
    let step = |d: &str, success| StepOutcome { description: s(d), success, detail: s("why") };
    assert_eq!(
        shown(ServerMessage::ExecutionResult {
            plan_id: s("7"),
            success: false,
            steps: vec![step("a", true), step("b", false)],
        }),
        vec!["avatar Idle", "note a -- done (why)", "note b -- failed (why)"]
    );
}

#[test]
fn the_frontend_sends() {
    let mut client = DaemonClient::new();
    assert_eq!(client.send_text("  "), None);
    assert_eq!(client.send_text(" hi "), Some(ClientMessage::UserText { text: s(" hi ") }));
    assert_eq!(
        client.approve_plan("7"),
        ClientMessage::ApprovePlan { plan_id: s("7"), trigger_phrase: s(" hi ") }
    );
    assert_eq!(client.reject_plan("7"), ClientMessage::RejectPlan { plan_id: s("7") });
    assert_eq!(client.toggle_listening(), (ClientMessage::StartListening, AvatarState::Listening));
    assert_eq!(client.toggle_listening(), (ClientMessage::StopListening, AvatarState::Idle));
}
