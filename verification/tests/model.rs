use protogen::fields::{parse_fields, split_outside, Field};
use protogen::jan_client::{
    completion_content, extract_json, json_block, plan_from_answer, plan_of_answer, plan_with_id,
    read_completion, read_response, try_parse_step, JanClient, LlmPlanResponse, SCHEMA_NOTE,
};
use protogen::json::{json_value, parse_json, JsonValue};
use protogen::plan::{PackageManager, PowerActionKind, StepKind, SystemctlVerb};

fn s(t: &str) -> String {
    t.to_string()
}

fn json(text: &str) -> JsonValue {
    parse_json(&text.as_bytes().to_vec()).unwrap()
}

fn step(text: &str) -> Option<StepKind> {
    try_parse_step(&json(text))
}

#[test]
fn documents_are_read() {
    assert_eq!(
        json(r#"{"b": [1, true, null, "xé"], "a": {}}"#),
        JsonValue::Object(vec![
            (s("a"), JsonValue::Object(vec![])),
            (
                s("b"),
                JsonValue::List(vec![
                    JsonValue::Number,
                    JsonValue::Bool(true),
                    JsonValue::Null,
                    JsonValue::Text(s("x\u{e9}")),
                ])
            ),
        ])
    );
    assert_eq!(parse_json(&b"{".to_vec()), None);
    assert_eq!(parse_json(&vec![0xff]), None);
    assert_eq!(json_value(serde_json::Value::String(s("x"))), JsonValue::Text(s("x")));
}

#[test]
fn documents_are_taken_apart() {
    let v = json(r#"{"a": [10, "b"], "c": false}"#);
    assert_eq!(v.get("a").unwrap().at(1).unwrap().as_str(), Some(&s("b")));
    assert_eq!(v.get("a").unwrap().at(2), None);
    assert_eq!(v.get("c").unwrap().as_bool(), Some(false));
    assert_eq!(v.get("d"), None);
    assert_eq!(v.at(0), None);
    assert_eq!(v.get("c").unwrap().get("x"), None);
    assert_eq!(v.get_str("c"), None);
}

#[test]
fn every_step_kind_is_read() {
    assert_eq!(
        step(r#"{"kind": "launch_or_focus", "app_id": "firefox"}"#),
        Some(StepKind::LaunchOrFocus { app_id: s("firefox") })
    );
    assert_eq!(
        step(r#"{"kind": "close_window", "app_id": "firefox"}"#),
        Some(StepKind::CloseWindow { app_id: s("firefox") })
    );
    assert_eq!(
        step(r#"{"kind": "run_in_terminal", "binary": "ls", "args": ["-l"]}"#),
        Some(StepKind::RunInTerminal { binary: s("ls"), args: vec![s("-l")] })
    );
    assert_eq!(
        step(r#"{"kind": "run_in_terminal", "binary": "htop", "args": []}"#),
        Some(StepKind::RunInTerminal { binary: s("htop"), args: vec![] })
    );
    assert_eq!(
        step(r#"{"kind": "install_package", "manager": "aur", "packages": ["a", 1, "b"]}"#),
        Some(StepKind::InstallPackage {
            manager: PackageManager::Aur,
            packages: vec![s("a"), s("b")]
        })
    );
    assert_eq!(
        step(r#"{"kind": "remove_package", "manager": "zypper", "packages": ["a"]}"#),
        Some(StepKind::RemovePackage { manager: PackageManager::Zypper, packages: vec![s("a")] })
    );
    assert_eq!(
        step(r#"{"kind": "systemctl", "verb": "disable_now", "unit": "x.service", "user_scope": true}"#),
        Some(StepKind::Systemctl {
            verb: SystemctlVerb::DisableNow,
            unit: Some(s("x.service")),
            user_scope: true
        })
    );
    assert_eq!(
        step(r#"{"kind": "systemctl", "verb": "stop", "unit": 3, "user_scope": "yes"}"#),
        Some(StepKind::Systemctl { verb: SystemctlVerb::Stop, unit: None, user_scope: false })
    );
    assert_eq!(
        step(r#"{"kind": "power_action", "action": "suspend"}"#),
        Some(StepKind::PowerAction { action: PowerActionKind::Suspend })
    );
    assert_eq!(
        step(r#"{"kind": "utility", "name": "mute"}"#),
        Some(StepKind::Utility { name: s("mute") })
    );
    assert_eq!(
        step(r#"{"kind": "set_config", "file": "f", "group": "g", "key": "k", "value": "v"}"#),
        Some(StepKind::SetConfig { file: s("f"), group: s("g"), key: s("k"), value: s("v") })
    );
}

#[test]
fn anything_else_gives_no_step() {
    let none = [
        r#"{"kind": "shell", "command": "rm -rf /"}"#,
        r#"{"kind": 3}"#,
        r#"{"app_id": "firefox"}"#,
        r#""launch_or_focus""#,
        r#"{"kind": "launch_or_focus"}"#,
        r#"{"kind": "install_package", "manager": "brew", "packages": ["a"]}"#,
        r#"{"kind": "install_package", "manager": "apt", "packages": []}"#,
        r#"{"kind": "install_package", "manager": "apt", "packages": [1]}"#,
        r#"{"kind": "install_package", "manager": "apt", "packages": "a"}"#,
        r#"{"kind": "run_in_terminal", "binary": "ls", "args": "-l"}"#,
        r#"{"kind": "run_in_terminal", "binary": "ls", "args": ["-l", 3]}"#,
        r#"{"kind": "run_in_terminal", "binary": "htop"}"#,
        r#"{"kind": "run_in_terminal", "args": []}"#,
        r#"{"kind": "systemctl", "verb": "mask"}"#,
        r#"{"kind": "power_action", "action": "explode"}"#,
        r#"{"kind": "set_config", "file": "f", "group": "g", "key": "k"}"#,
    ];
    for text in none {
        assert_eq!(step(text), None, "{text}");
    }
}

#[test]
fn the_prompt_holds_everything() {
    let client = JanClient::new("http://127.0.0.1:1337", "m");
    assert_eq!(client.health(), "http://127.0.0.1:1337/v1/models");
    let empty = client.research_plan("do it", "SYS", &vec![], &vec![], None, &vec![]);
    assert_eq!(empty.url, "http://127.0.0.1:1337/v1/chat/completions");
    assert_eq!(empty.model, "m");
    assert_eq!(
        empty.prompt,
        format!(
            "SYS\n\nKnown launchable apps: (none indexed yet)\nKnown utility actions: (none defined)\n{SCHEMA_NOTE}\nuser: do it\nassistant JSON:"
        )
    );
    let history: Vec<(String, String)> =
        (0..8).map(|i| (s(if i % 2 == 0 { "user" } else { "assistant" }), i.to_string())).collect();
    let full = client.research_plan(
        "do it",
        "SYS",
        &vec![s("Kate"), s("Firefox")],
        &vec![s("mute")],
        Some("- a (u): b"),
        &history,
    );
    assert_eq!(
        full.prompt,
        format!(
            "SYS\n\nKnown launchable apps: Kate, Firefox\nKnown utility actions: mute\n{SCHEMA_NOTE}\
             \n\nResearch context gathered from the web for this request (use it for correct package/unit names, \
             but still only emit the allowed step kinds above):\n- a (u): b\n\
             \n\nConversation so far:\nuser: 2\nassistant: 3\nuser: 4\nassistant: 5\nuser: 6\nassistant: 7\n\
             \nuser: do it\nassistant JSON:"
        )
    );
}

#[test]
fn answers_of_the_server_are_read() {
    let body = br#"{"choices": [{"message": {"content": "hi"}}]}"#.to_vec();
    assert_eq!(read_completion(true, "200 OK", &body), Ok(s("hi")));
    assert_eq!(
        read_completion(false, "500 Internal Server Error", &body),
        Err(s("Jan.ai server returned status 500 Internal Server Error"))
    );
    assert_eq!(read_completion(true, "200 OK", &b"<html>".to_vec()), Err(s("parsing Jan.ai response")));
    for shape in [r#"{}"#, r#"{"choices": []}"#, r#"{"choices": {"0": 1}}"#, r#"{"choices": [{"message": {"content": null}}]}"#] {
        assert_eq!(completion_content(&json(shape)), "", "{shape}");
    }
}

#[test]
fn the_first_block_is_found_in_prose() {
    let block = |t: &str| json_block(t);
    assert_eq!(block("Sure!\n```json\n{\"a\": {}}\n```\nDone."), Some(s("{\"a\": {}}")));
    assert_eq!(block("{\"a\": 1} or {\"b\": 2}"), Some(s("{\"a\": 1}")));
    assert_eq!(block("x {\"a\": \"}{\"} y}"), Some(s("{\"a\": \"}{\"}")));
    assert_eq!(block(r#"{"a": "\"}"} {"#), Some(s(r#"{"a": "\"}"}"#)));
    assert_eq!(block(r#"{"a": "\\"} }"#), Some(s(r#"{"a": "\\"}"#)));
    assert_eq!(block("  no braces  "), None);
    assert_eq!(block("only { open"), None);
    assert_eq!(block("only } closed"), None);
    assert_eq!(block("} {"), None);
    assert_eq!(block("} {} {"), Some(s("{}")));
    assert_eq!(block(""), None);
}

#[test]
fn answers_are_read_in_the_shape_asked_for() {
    assert_eq!(
        extract_json("{\"reply\":\"a\"} or {\"reply\":\"b\"}"),
        Some(LlmPlanResponse { thinking: s(""), reply: s("a"), steps: vec![] })
    );
    assert_eq!(
        extract_json(r#"Here: {"steps": [1, "x"], "reply": "r", "thinking": "t", "more": 0}."#),
        Some(LlmPlanResponse {
            thinking: s("t"),
            reply: s("r"),
            steps: vec![JsonValue::Number, JsonValue::Text(s("x"))],
        })
    );
    for other in [
        "} {",
        "no json",
        "{x}",
        r#"{"steps": []}"#,
        r#"{"reply": 1}"#,
        r#"{"reply": "r", "steps": null}"#,
        r#"{"reply": "r", "steps": {}}"#,
    ] {
        assert_eq!(extract_json(other), None, "{other}");
    }
    assert_eq!(
        extract_json(r#"{"reply": "r", "thinking": null}"#),
        Some(LlmPlanResponse { thinking: s(""), reply: s("r"), steps: vec![] })
    );
    assert_eq!(read_response(&vec![]), None);
    let plan = plan_of_answer("} {", "id");
    assert_eq!((plan.reply.as_str(), plan.steps.len()), ("} {", 0));
    let plan = plan_of_answer(r#"Ok {"reply": "r", "steps": [{"kind": "utility", "name": "mute"}]}"#, "id");
    assert_eq!(plan.reply, "r");
    assert_eq!(plan.step_descriptions(), vec!["Run utility action: mute"]);
}

fn field(name: &str, value: Option<JsonValue>) -> Field {
    Field { name: s(name), value }
}

fn said(reply: &str) -> Option<LlmPlanResponse> {
    Some(LlmPlanResponse { thinking: s(""), reply: s(reply), steps: vec![] })
}

#[test]
fn members_are_read_one_by_one() {
    let text = |t: &str| Some(JsonValue::Text(s(t)));
    assert_eq!(read_response(&vec![field("reply", text("a"))]), said("a"));
    assert_eq!(read_response(&vec![field("reply", None)]), None);
    assert_eq!(read_response(&vec![field("reply", text("a")), field("reply", text("b"))]), None);
    assert_eq!(
        read_response(&vec![field("x", None), field("reply", text("a")), field("x", None)]),
        said("a")
    );
    assert_eq!(
        parse_fields(r#"{ "a" : "x,:{}" , "b":[1,{"c":2}], "\u0061": 1e999, "": "\ud800" }"#),
        Some(vec![
            field("a", text("x,:{}")),
            field(
                "b",
                Some(JsonValue::List(vec![
                    JsonValue::Number,
                    JsonValue::Object(vec![(s("c"), JsonValue::Number)]),
                ]))
            ),
            field("a", None),
            field("", None),
        ])
    );
    assert_eq!(parse_fields("{ }"), Some(vec![]));
    let split = |t: &str| -> Vec<String> {
        let pieces = split_outside(&t.chars().collect(), ',');
        pieces.iter().map(|p| p.iter().collect()).collect()
    };
    let text = r#"a,"b,\",c",[d,{e,f}],,"#;
    assert_eq!(split(text), vec!["a", r#""b,\",c""#, "[d,{e,f}]", "", ""]);
    assert_eq!(split(text).join(","), text);
    for other in ["", "{", "[]", "{\"a\":}", "{\"a\":1,}", "{\"a\":01}", "{\"\\ud800\":1}", "{a:1}", "{,}"] {
        assert_eq!(parse_fields(other), None, "{other}");
    }
}

#[test]
fn repeated_members_make_no_answer() {
    for other in [
        r#"{"reply": "a", "reply": "b"}"#,
        r#"{"reply": "a", "re\u0070ly": "a"}"#,
        r#"{"steps": [], "reply": "a", "steps": []}"#,
    ] {
        assert_eq!(extract_json(other), None, "{other}");
        assert_eq!(plan_of_answer(other, "id").reply, other);
    }
    assert_eq!(extract_json(r#"{"reply": "a", "note": 1, "note": 2}"#), said("a"));
    assert_eq!(extract_json(r#"{"thinking": "x", "thinking": "y", "reply": "a"}"#), said("a"));
}

#[test]
fn members_that_nobody_reads_may_be_any_json() {
    let deep = |n: usize| format!("{}{}", "[".repeat(n), "]".repeat(n));
    assert_eq!(extract_json(r#"{"n": 1e999, "reply": "a"}"#), said("a"));
    assert_eq!(extract_json(r#"{"n": "\ud800", "reply": "a"}"#), said("a"));
    assert_eq!(extract_json(&format!(r#"{{"n": {}, "reply": "a"}}"#, deep(500))), said("a"));
    // What is read must fit: numbers in range, and not nested too deep.
    assert_eq!(extract_json(r#"{"steps": [1e999], "reply": "a"}"#), None);
    let steps = |n: usize| extract_json(&format!(r#"{{"reply": "a", "steps": {}}}"#, deep(n)));
    assert!(steps(126).is_some());
    assert!(steps(127).is_none());
    // And all of it must be JSON.
    for other in [r#"{"reply": "a", "n": 01}"#, r#"{"reply": "a", "n": }"#, r#"{"reply": "a",}"#] {
        assert_eq!(extract_json(other), None, "{other}");
    }
}

fn response(steps: &[&str]) -> LlmPlanResponse {
    LlmPlanResponse {
        thinking: s("hm"),
        reply: s("Sure."),
        steps: steps.iter().map(|t| json(t)).collect(),
    }
}

#[test]
fn the_model_cannot_waive_confirmation() {
    let plan = plan_with_id(
        "ignored",
        Some(response(&[
            r#"{"kind": "utility", "name": "mute", "description": "harmless", "requires_confirmation": false}"#,
            r#"{"kind": "shell", "command": "x"}"#,
            r#"{"kind": "power_action", "action": "reboot", "requires_confirmation": false}"#,
        ])),
        "id",
    );
    assert!(plan.requires_confirmation);
    assert_eq!(plan.id, "id");
    assert_eq!((plan.thinking.as_str(), plan.reply.as_str()), ("hm", "Sure."));
    assert_eq!(
        plan.step_descriptions(),
        vec!["Run utility action: mute", "Reboot the machine"]
    );
}

#[test]
fn words_become_the_reply() {
    let plan = plan_with_id("  Hello there. \n", None, "id");
    assert_eq!(plan.reply, "Hello there.");
    assert!(plan.steps.is_empty());
    assert!(!plan.requires_confirmation);
}

#[test]
fn new_plans_get_new_ids() {
    let a = plan_from_answer("x").id;
    let b = plan_from_answer("x").id;
    assert_ne!(a, b);
    for id in [a, b] {
        assert_eq!(id.len(), 36);
        for (i, c) in id.chars().enumerate() {
            if [8, 13, 18, 23].contains(&i) {
                assert_eq!(c, '-');
            } else {
                assert!(c.is_ascii_hexdigit() && !c.is_ascii_uppercase());
            }
        }
        assert_eq!(&id[14..15], "4");
        assert!("89ab".contains(&id[19..20]));
    }
}
