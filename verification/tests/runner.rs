use protogen::cmdrunner::{
    check_output, execute_plan, execute_step, finish_step, probe, ExecutionReport, StepAction,
    StepEvent,
};
use protogen::command::{utility_command, utility_names, CommandLine};
use protogen::desktop_index::{AppIndex, DesktopFile};
use protogen::focus_or_launch::FocusOrLaunchResult;
use protogen::plan::{PackageManager, Plan, PowerActionKind, Step, StepKind, SystemctlVerb};

fn s(t: &str) -> String {
    t.to_string()
}

fn strings(list: &[&str]) -> Vec<String> {
    list.iter().map(|x| x.to_string()).collect()
}

fn step(kind: StepKind) -> Step {
    let description = kind.describe();
    Step { kind, description }
}

fn index() -> AppIndex {
    AppIndex::scan(&vec![DesktopFile {
        path: s("/a/org.kde.kate.desktop"),
        content: s("[Desktop Entry]\nName=Kate\nExec=kate\n"),
    }])
}

fn command_of(kind: StepKind, found: bool) -> CommandLine {
    match execute_step(&step(kind), &index(), found) {
        StepAction::Run { command } => command,
        StepAction::Spawn { command } => command,
        _ => panic!("no command"),
    }
}

fn line(program: &str, args: &[&str]) -> CommandLine {
    CommandLine { program: s(program), args: strings(args) }
}

#[test]
fn packages_are_installed() {
    let install = |manager| StepKind::InstallPackage { manager, packages: strings(&["x", "y"]) };
    assert_eq!(
        command_of(install(PackageManager::Pacman), false),
        line("sudo", &["pacman", "-S", "--needed", "--noconfirm", "x", "y"])
    );
    assert_eq!(
        command_of(install(PackageManager::Aur), true),
        line("paru", &["-S", "--needed", "--noconfirm", "x", "y"])
    );
    assert_eq!(
        command_of(install(PackageManager::Aur), false),
        line("yay", &["-S", "--needed", "--noconfirm", "x", "y"])
    );
    assert_eq!(
        command_of(install(PackageManager::Apt), false),
        line("sudo", &["apt-get", "install", "-y", "x", "y"])
    );
    assert_eq!(
        command_of(install(PackageManager::Dnf), false),
        line("sudo", &["dnf", "install", "-y", "x", "y"])
    );
    assert_eq!(
        command_of(install(PackageManager::Zypper), false),
        line("sudo", &["zypper", "install", "-y", "x", "y"])
    );
    assert_eq!(
        command_of(install(PackageManager::Flatpak), false),
        line("flatpak", &["install", "-y", "flathub", "x", "y"])
    );
}

#[test]
fn packages_are_removed() {
    let remove = |manager| StepKind::RemovePackage { manager, packages: strings(&["x"]) };
    assert_eq!(
        command_of(remove(PackageManager::Pacman), false),
        line("sudo", &["pacman", "-R", "--noconfirm", "x"])
    );
    assert_eq!(command_of(remove(PackageManager::Aur), true), line("paru", &["-R", "--noconfirm", "x"]));
    assert_eq!(
        command_of(remove(PackageManager::Apt), false),
        line("sudo", &["apt-get", "remove", "-y", "x"])
    );
    assert_eq!(
        command_of(remove(PackageManager::Dnf), false),
        line("sudo", &["dnf", "remove", "-y", "x"])
    );
    assert_eq!(
        command_of(remove(PackageManager::Zypper), false),
        line("sudo", &["zypper", "remove", "-y", "x"])
    );
    assert_eq!(
        command_of(remove(PackageManager::Flatpak), false),
        line("flatpak", &["uninstall", "-y", "x"])
    );
}

#[test]
fn services_power_and_settings() {
    assert_eq!(
        command_of(
            StepKind::Systemctl {
                verb: SystemctlVerb::EnableNow,
                unit: Some(s("sshd.service")),
                user_scope: false
            },
            false
        ),
        line("sudo", &["systemctl", "enable", "--now", "sshd.service"])
    );
    assert_eq!(
        command_of(
            StepKind::Systemctl { verb: SystemctlVerb::Restart, unit: None, user_scope: true },
            false
        ),
        line("systemctl", &["--user", "restart"])
    );
    assert_eq!(
        command_of(StepKind::PowerAction { action: PowerActionKind::Shutdown }, false),
        line("systemctl", &["poweroff"])
    );
    let config =
        || StepKind::SetConfig { file: s("kwinrc"), group: s("G"), key: s("k"), value: s("a b") };
    assert_eq!(
        command_of(config(), true),
        line("kwriteconfig6", &["--file", "kwinrc", "--group", "G", "--key", "k", "a b"])
    );
    assert_eq!(command_of(config(), false).program, "kwriteconfig5");
    assert_eq!(
        command_of(StepKind::RunInTerminal { binary: s("htop"), args: strings(&["-d", "5"]) }, true),
        line("xdg-terminal-exec", &["htop", "-d", "5"])
    );
}

#[test]
fn every_listed_utility_has_a_command() {
    for name in utility_names() {
        assert!(utility_command(&name).is_some(), "{name}");
    }
    assert_eq!(utility_names().len(), 7);
    assert_eq!(
        utility_command("volume_up"),
        Some(("pactl", vec!["set-sink-volume", "@DEFAULT_SINK@", "+5%"]))
    );
    assert_eq!(utility_command("brightness_down"), Some(("brightnessctl", vec!["set", "10%-"])));
    assert_eq!(utility_command("screenshot"), Some(("spectacle", vec!["-b", "-n"])));
    assert_eq!(utility_command("rm"), None);
    assert_eq!(
        command_of(StepKind::Utility { name: s("lock_screen") }, false),
        line("loginctl", &["lock-session"])
    );
}

#[test]
fn programs_to_look_for() {
    let aur = StepKind::InstallPackage { manager: PackageManager::Aur, packages: vec![] };
    assert_eq!(probe(&aur), Some(s("paru")));
    let pacman = StepKind::RemovePackage { manager: PackageManager::Pacman, packages: vec![] };
    assert_eq!(probe(&pacman), None);
    assert_eq!(probe(&StepKind::RunInTerminal { binary: s("htop"), args: vec![] }), Some(s("htop")));
    let config = StepKind::SetConfig { file: s("f"), group: s("g"), key: s("k"), value: s("v") };
    assert_eq!(probe(&config), Some(s("kwriteconfig6")));
}

#[test]
fn steps_that_cannot_be_done() {
    let fail = |kind| match execute_step(&step(kind), &index(), false) {
        StepAction::Fail { message } => message,
        _ => panic!("done"),
    };
    assert_eq!(
        fail(StepKind::LaunchOrFocus { app_id: s("quux") }),
        "app 'quux' not found in launcher index"
    );
    assert_eq!(
        fail(StepKind::CloseWindow { app_id: s("quux") }),
        "app 'quux' not found in launcher index"
    );
    assert_eq!(fail(StepKind::Utility { name: s("dance") }), "unknown utility action 'dance'");
    assert_eq!(
        fail(StepKind::RunInTerminal { binary: s("nosuch"), args: vec![] }),
        "binary 'nosuch' not found"
    );
    match execute_step(
        &step(StepKind::RunInTerminal { binary: s("./run"), args: vec![] }),
        &index(),
        true,
    ) {
        StepAction::Fail { message } => assert_eq!(message, "binary './run' not found"),
        _ => panic!("run"),
    }
    assert_eq!(
        command_of(StepKind::RunInTerminal { binary: s("/opt/run"), args: vec![] }, true),
        line("xdg-terminal-exec", &["/opt/run"])
    );
}

#[test]
fn applications_are_found_by_id_or_name() {
    for id in ["org.kde.kate", "kate", "Kate"] {
        match execute_step(&step(StepKind::LaunchOrFocus { app_id: s(id) }), &index(), false) {
            StepAction::Open { app } => assert_eq!(app.id, "org.kde.kate"),
            _ => panic!("not opened"),
        }
        match execute_step(&step(StepKind::CloseWindow { app_id: s(id) }), &index(), false) {
            StepAction::Close { app } => assert_eq!(app.id, "org.kde.kate"),
            _ => panic!("not closed"),
        }
    }
}

#[test]
fn output_is_checked() {
    assert_eq!(
        check_output(true, "exit status: 0", &b" done \n".to_vec(), &b"x".to_vec()),
        Ok(s("done"))
    );
    assert_eq!(
        check_output(false, "exit status: 1", &b"x".to_vec(), &b" broken\n".to_vec()),
        Err(s("exit exit status: 1: broken"))
    );
}

#[test]
fn results_say_what_happened() {
    let st = step(StepKind::Utility { name: s("mute") });
    let r = finish_step(&st, &StepEvent::Opened { result: FocusOrLaunchResult::Focused });
    assert_eq!((r.success, r.detail.as_str()), (true, "Focused"));
    assert_eq!(r.description, "Run utility action: mute");
    let r = finish_step(&st, &StepEvent::Opened { result: FocusOrLaunchResult::Launched });
    assert_eq!(r.detail, "Launched");
    let r = finish_step(&st, &StepEvent::Closed { count: 2 });
    assert_eq!((r.success, r.detail.as_str()), (true, "Closed 2 window(s)"));
    let r = finish_step(&st, &StepEvent::Spawned);
    assert_eq!((r.success, r.detail.as_str()), (true, "Launched"));
    let r = finish_step(&st, &StepEvent::Failed { message: s("no") });
    assert_eq!((r.success, r.detail.as_str()), (false, "no"));
    let r = finish_step(
        &st,
        &StepEvent::Exited {
            success: false,
            status: s("exit status: 2"),
            stdout: vec![],
            stderr: vec![0xff],
        },
    );
    assert_eq!((r.success, r.detail.as_str()), (false, "exit exit status: 2: \u{fffd}"));
}

fn run(outcomes: &[bool], steps: usize) -> ExecutionReport {
    let plan = Plan {
        id: s("p"),
        thinking: s(""),
        reply: s(""),
        steps: (0..steps).map(|i| step(StepKind::Utility { name: i.to_string() })).collect(),
        requires_confirmation: false,
    };
    let mut report = ExecutionReport::new();
    while let Some(i) = execute_plan(&plan, &report) {
        assert_eq!(i, report.results.len());
        let event = if outcomes[i] {
            StepEvent::Spawned
        } else {
            StepEvent::Failed { message: s("no") }
        };
        report.record(&plan, &event);
    }
    report
}

#[test]
fn runs_stop_at_the_first_failure() {
    let report = run(&[true, false, true], 3);
    assert!(report.stopped_early);
    assert_eq!(report.results.len(), 2);
    assert!(report.results[0].success);
    assert!(!report.results[1].success);
    assert_eq!(report.results[1].description, "Run utility action: 1");
}

#[test]
fn runs_without_failure_are_complete() {
    let report = run(&[true, true], 2);
    assert!(!report.stopped_early);
    assert_eq!(report.results.len(), 2);
    let report = run(&[], 0);
    assert!(!report.stopped_early);
    assert!(report.results.is_empty());
}
