use protogen::command::CommandLine;
use protogen::desktop_index::AppEntry;
use protogen::focus_or_launch::{
    close_all_windows, detect_focus_tool, first_window, focus_or_launch, launch_fresh,
    try_focus_existing, windows_of, CloseAction, CloseProgress, FocusAction, FocusOrLaunchResult,
    FocusProgress, FocusTool, LaunchAction, LaunchProgress, ToolChoice,
};

fn app(command: &[&str]) -> AppEntry {
    AppEntry {
        id: "firefox".to_string(),
        name: "Firefox".to_string(),
        command: command.iter().map(|c| c.to_string()).collect(),
        wm_class_guess: "firefox".to_string(),
        desktop_file: "/a/firefox.desktop".to_string(),
        no_display: false,
    }
}

fn line(program: &str, args: &[&str]) -> CommandLine {
    CommandLine {
        program: program.to_string(),
        args: args.iter().map(|a| a.to_string()).collect(),
    }
}

const LISTING: &str = "0x01  0 konsole.Konsole  host  shell\n0x02  0 Navigator.Firefox host a page\n0x03 1 navigator.firefox host another\nshort line\n";

#[test]
fn the_better_tool_is_preferred() {
    assert_eq!(detect_focus_tool(true, true), FocusTool::Kdotool);
    assert_eq!(detect_focus_tool(true, false), FocusTool::Kdotool);
    assert_eq!(detect_focus_tool(false, true), FocusTool::Wmctrl);
    assert_eq!(detect_focus_tool(false, false), FocusTool::NoTool);
}

#[test]
fn the_first_look_decides_on_the_tool() {
    let mut choice = ToolChoice::new();
    assert_eq!(choice.tool, None);
    assert_eq!(choice.settle(false, true), FocusTool::Wmctrl);
    assert_eq!(choice.settle(true, true), FocusTool::Wmctrl);
    assert_eq!(choice.settle(false, false), FocusTool::Wmctrl);
    let mut none = ToolChoice::new();
    assert_eq!(none.settle(false, false), FocusTool::NoTool);
    assert_eq!(none.settle(true, false), FocusTool::NoTool);
}

#[test]
fn listings_are_read() {
    assert_eq!(windows_of(FocusTool::Wmctrl, "FireFox", LISTING), vec!["0x02", "0x03"]);
    assert_eq!(first_window(FocusTool::Wmctrl, "firefox", LISTING), Some("0x02".to_string()));
    assert_eq!(first_window(FocusTool::Wmctrl, "kate", LISTING), None);
    assert_eq!(windows_of(FocusTool::Kdotool, "x", " {a} \n\n{b}\n"), vec!["{a}", "{b}"]);
    assert_eq!(first_window(FocusTool::Kdotool, "x", " {a} \n{b}"), Some("{a}".to_string()));
    // Only the first line counts for focusing.
    assert_eq!(first_window(FocusTool::Kdotool, "x", "\n{b}\n"), None);
    assert!(windows_of(FocusTool::NoTool, "x", "a\n").is_empty());
}

#[test]
fn an_open_window_is_focused() {
    let app = app(&["firefox"]);
    match try_focus_existing(&app, FocusTool::Kdotool, &FocusProgress::Started) {
        FocusAction::List { command } => {
            assert_eq!(command, line("kdotool", &["search", "--class", "firefox"]))
        }
        _ => panic!("no listing"),
    }
    let listed = FocusProgress::Listed { stdout: b"{id}\n".to_vec() };
    match try_focus_existing(&app, FocusTool::Kdotool, &listed) {
        FocusAction::Activate { command } => {
            assert_eq!(command, line("kdotool", &["windowactivate", "{id}"]))
        }
        _ => panic!("no activation"),
    }
    let progress =
        LaunchProgress::Focusing { progress: FocusProgress::Activated { success: true } };
    match focus_or_launch(&app, FocusTool::Kdotool, &progress) {
        LaunchAction::Done { result } => assert_eq!(result, FocusOrLaunchResult::Focused),
        _ => panic!("not done"),
    }
}

#[test]
fn wmctrl_is_asked_by_id() {
    let app = app(&["firefox"]);
    match try_focus_existing(&app, FocusTool::Wmctrl, &FocusProgress::Started) {
        FocusAction::List { command } => assert_eq!(command, line("wmctrl", &["-lx"])),
        _ => panic!("no listing"),
    }
    let listed = FocusProgress::Listed { stdout: LISTING.as_bytes().to_vec() };
    match try_focus_existing(&app, FocusTool::Wmctrl, &listed) {
        FocusAction::Activate { command } => {
            assert_eq!(command, line("wmctrl", &["-i", "-a", "0x02"]))
        }
        _ => panic!("no activation"),
    }
}

#[test]
fn without_a_window_the_application_is_launched() {
    let app = app(&["/usr/bin/firefox", "--new"]);
    let expected = line("/usr/bin/firefox", &["--new"]);
    let starts = [
        (FocusTool::NoTool, FocusProgress::Started),
        (FocusTool::Kdotool, FocusProgress::Listed { stdout: Vec::new() }),
        (FocusTool::Wmctrl, FocusProgress::Activated { success: false }),
    ];
    for (tool, progress) in starts {
        match focus_or_launch(&app, tool, &LaunchProgress::Focusing { progress }) {
            LaunchAction::Launch { command } => assert_eq!(command, expected),
            _ => panic!("not launched"),
        }
    }
    match focus_or_launch(&app, FocusTool::NoTool, &LaunchProgress::Started) {
        LaunchAction::Done { result } => assert_eq!(result, FocusOrLaunchResult::Launched),
        _ => panic!("not done"),
    }
}

#[test]
fn an_empty_command_cannot_be_launched() {
    assert_eq!(launch_fresh(&app(&[])), Err("empty exec".to_string()));
    let progress = LaunchProgress::Focusing { progress: FocusProgress::Started };
    match focus_or_launch(&app(&[]), FocusTool::NoTool, &progress) {
        LaunchAction::Fail { message } => assert_eq!(message, "empty exec"),
        _ => panic!("launched nothing"),
    }
}

#[test]
fn every_window_is_closed_and_counted() {
    let app = app(&["firefox"]);
    let mut progress = CloseProgress::Listed { stdout: LISTING.as_bytes().to_vec() };
    let mut commands = Vec::new();
    let mut outcomes = vec![true, false].into_iter();
    let closed = loop {
        match close_all_windows(&app, FocusTool::Wmctrl, &progress) {
            CloseAction::List { .. } => panic!("listed already"),
            CloseAction::Close { command, rest, closed } => {
                commands.push(command);
                progress = CloseProgress::Closed { rest, closed, success: outcomes.next().unwrap() };
            }
            CloseAction::Done { closed } => break closed,
        }
    };
    assert_eq!(closed, 1);
    assert_eq!(
        commands,
        vec![line("wmctrl", &["-i", "-c", "0x02"]), line("wmctrl", &["-i", "-c", "0x03"])]
    );
    match close_all_windows(&app, FocusTool::NoTool, &CloseProgress::Started) {
        CloseAction::Done { closed } => assert_eq!(closed, 0),
        _ => panic!("nothing to close with"),
    }
    match close_all_windows(&app, FocusTool::Kdotool, &CloseProgress::Listed { stdout: b"{a}".to_vec() }) {
        CloseAction::Close { command, rest, closed } => {
            assert_eq!(command, line("kdotool", &["windowclose", "{a}"]));
            assert!(rest.is_empty());
            assert_eq!(closed, 0);
        }
        _ => panic!("not closed"),
    }
}

#[test]
fn listings_that_are_no_utf8_are_repaired() {
    let listed = FocusProgress::Listed { stdout: vec![0xff, b'\n'] };
    match try_focus_existing(&app(&["f"]), FocusTool::Kdotool, &listed) {
        FocusAction::Activate { command } => {
            assert_eq!(command, line("kdotool", &["windowactivate", "\u{fffd}"]))
        }
        _ => panic!("no activation"),
    }
}
