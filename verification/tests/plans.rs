use protogen::plan::{
    is_valid_config_text, is_valid_package_name, is_valid_terminal_token, is_valid_unit_name,
    PackageManager, Plan, PowerActionKind, Step, StepKind, SystemctlVerb,
};

fn s(t: &str) -> String {
    t.to_string()
}

fn step(kind: StepKind) -> Step {
    Step { kind, description: s("told by the model") }
}

fn plan(steps: Vec<Step>) -> Plan {
    Plan { id: s("p"), thinking: s(""), reply: s("ok"), steps, requires_confirmation: false }
}

fn install(packages: &[&str]) -> StepKind {
    StepKind::InstallPackage {
        manager: PackageManager::Pacman,
        packages: packages.iter().map(|p| p.to_string()).collect(),
    }
}

#[test]
fn descriptions_say_what_will_run() {
    let cases = vec![
        (install(&["hyprland"]), "Install via Pacman: hyprland"),
        (install(&["a", "b"]), "Install via Pacman: a, b"),
        (
            StepKind::RemovePackage { manager: PackageManager::Flatpak, packages: vec![s("x")] },
            "Remove via Flatpak: x",
        ),
        (StepKind::LaunchOrFocus { app_id: s("firefox") }, "Open or focus firefox"),
        (StepKind::CloseWindow { app_id: s("firefox") }, "Close firefox"),
        (
            StepKind::RunInTerminal { binary: s("htop"), args: vec![] },
            "Run 'htop' in a new terminal",
        ),
        (
            StepKind::RunInTerminal { binary: s("ls"), args: vec![s("-l"), s("/tmp")] },
            "Run 'ls -l /tmp' in a new terminal",
        ),
        (
            StepKind::Systemctl {
                verb: SystemctlVerb::EnableNow,
                unit: Some(s("sshd.service")),
                user_scope: true,
            },
            "systemctl EnableNow sshd.service (user)",
        ),
        (
            StepKind::Systemctl { verb: SystemctlVerb::Restart, unit: None, user_scope: false },
            "systemctl Restart",
        ),
        (StepKind::PowerAction { action: PowerActionKind::Reboot }, "Reboot the machine"),
        (StepKind::PowerAction { action: PowerActionKind::Suspend }, "Suspend the machine"),
        (StepKind::Utility { name: s("mute") }, "Run utility action: mute"),
        (
            StepKind::SetConfig { file: s("kwinrc"), group: s("G"), key: s("k"), value: s("v") },
            "Set [kwinrc] G/k = v",
        ),
    ];
    for (kind, expected) in cases {
        assert_eq!(kind.describe(), expected);
    }
}

#[test]
fn only_launches_and_utilities_skip_confirmation() {
    assert!(!StepKind::LaunchOrFocus { app_id: s("a") }.is_system_changing());
    assert!(!StepKind::Utility { name: s("mute") }.is_system_changing());
    assert!(StepKind::CloseWindow { app_id: s("a") }.is_system_changing());
    assert!(StepKind::RunInTerminal { binary: s("a"), args: vec![] }.is_system_changing());
    assert!(install(&["a"]).is_system_changing());
    assert!(StepKind::PowerAction { action: PowerActionKind::Shutdown }.is_system_changing());
    let quiet = plan(vec![
        step(StepKind::LaunchOrFocus { app_id: s("a") }),
        step(StepKind::Utility { name: s("mute") }),
    ]);
    assert!(!quiet.finalize().requires_confirmation);
    let loud = plan(vec![
        step(StepKind::Utility { name: s("mute") }),
        step(StepKind::PowerAction { action: PowerActionKind::Reboot }),
    ]);
    assert!(loud.finalize().requires_confirmation);
}

#[test]
fn finalizing_replaces_descriptions() {
    let p = plan(vec![step(install(&["hyprland"]))]).finalize();
    assert_eq!(p.steps[0].description, "Install via Pacman: hyprland");
    assert_eq!(p.step_descriptions(), vec![s("Install via Pacman: hyprland")]);
    let again = p.clone().finalize();
    assert_eq!(again, p);
}

#[test]
fn package_names_are_checked() {
    for name in ["hyprland", "gtk4", "lib32-foo", "a.b_c+d-e", &"x".repeat(127)] {
        assert!(is_valid_package_name(name), "{name}");
    }
    for name in ["", "a b", "a;b", "../x", "a|b", "$(x)", "gr\u{fc}n", &"x".repeat(128)] {
        assert!(!is_valid_package_name(name), "{name}");
    }
}

#[test]
fn unit_names_are_checked() {
    assert!(is_valid_unit_name("getty@tty1.service"));
    assert!(is_valid_unit_name("a:b"));
    assert!(!is_valid_unit_name("a+b"));
    assert!(!is_valid_unit_name("a b"));
    assert!(!is_valid_unit_name(""));
    assert!(!is_valid_unit_name(&"u".repeat(128)));
}

#[test]
fn terminal_tokens_are_checked() {
    assert!(is_valid_terminal_token("/usr/bin/htop"));
    assert!(is_valid_terminal_token("two words"));
    for c in ['\n', '\0', ';', '|', '&', '`', '$', '<', '>'] {
        assert!(!is_valid_terminal_token(&format!("a{c}b")));
    }
    assert!(!is_valid_terminal_token(""));
    assert!(is_valid_terminal_token(&"t".repeat(511)));
    assert!(!is_valid_terminal_token(&"t".repeat(512)));
    // The limit is on bytes.
    assert!(!is_valid_terminal_token(&"\u{e9}".repeat(256)));
}

#[test]
fn config_texts_are_checked() {
    assert!(is_valid_config_text("Breeze Dark"));
    assert!(is_valid_config_text("a/b(c)"));
    for c in ['\n', '\0', ';', '|', '&', '`', '$', '<', '>'] {
        assert!(!is_valid_config_text(&format!("a{c}b")));
    }
    assert!(!is_valid_config_text(""));
    assert!(is_valid_config_text(&"v".repeat(255)));
    assert!(!is_valid_config_text(&"v".repeat(256)));
    let (kept, dropped) = plan(vec![step(StepKind::SetConfig {
        file: s("kwinrc"),
        group: s("Windows"),
        key: s("Mode"),
        value: s("on && reboot"),
    })])
    .sanitize();
    assert!(kept.steps.is_empty());
    assert_eq!(dropped, vec![s("told by the model")]);
}

#[test]
fn sanitizing_drops_invalid_steps_only() {
    let p = plan(vec![
        step(install(&["good"])),
        Step { kind: install(&["bad;rm"]), description: s("Install via Pacman: bad;rm") },
        step(StepKind::Utility { name: s("anything") }),
        Step { kind: install(&[]), description: s("nothing") },
        step(StepKind::Systemctl {
            verb: SystemctlVerb::Stop,
            unit: Some(s("x y")),
            user_scope: false,
        }),
        step(StepKind::Systemctl { verb: SystemctlVerb::Stop, unit: None, user_scope: false }),
        step(StepKind::RunInTerminal { binary: s("sh"), args: vec![s("a|b")] }),
        step(StepKind::SetConfig { file: s("f"), group: s("g"), key: s("k"), value: s("a;b") }),
        step(StepKind::SetConfig { file: s("f"), group: s("g"), key: s("k"), value: s("on && reboot") }),
        step(StepKind::SetConfig { file: s("f"), group: s("g"), key: s("k"), value: s("a b") }),
    ]);
    let (kept, dropped) = p.sanitize();
    assert_eq!(
        kept.step_descriptions(),
        vec![
            s("Install via Pacman: good"),
            s("Run utility action: anything"),
            s("systemctl Stop"),
            s("Set [f] g/k = a b"),
        ]
    );
    assert_eq!(
        dropped,
        vec![
            s("Install via Pacman: bad;rm"),
            s("nothing"),
            s("told by the model"),
            s("told by the model"),
            s("told by the model"),
            s("told by the model"),
        ]
    );
    assert!(kept.requires_confirmation);
    let (again, none) = kept.clone().sanitize();
    assert_eq!(again, kept);
    assert!(none.is_empty());
}

#[test]
fn dropping_the_only_risky_step_lifts_the_confirmation() {
    let (kept, _) =
        plan(vec![step(StepKind::Utility { name: s("mute") }), step(install(&["a b"]))]).sanitize();
    assert!(!kept.requires_confirmation);
    assert_eq!(kept.steps.len(), 1);
}
