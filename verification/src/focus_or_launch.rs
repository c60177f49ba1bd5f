//! Opening an application brings its open window to the front instead of
//! starting it a second time. Windows are found and activated by kdotool, or
//! by wmctrl where only that is installed; without either, or without a window
//! to focus, the application is launched.
//!
//! The functions here decide; the caller runs the commands that they name and
//! hands back what came of them.
use vstd::prelude::*;

use crate::command::{
    argv, command, lemma_one_more_word, lemma_one_word, slice_texts, CommandLine, CommandView,
};
use crate::desktop_index::{AppEntry, AppView};
use crate::text::{
    self, char_lists, chars_of, has_text, lines_of, lowercase, output_text, string_of, texts,
    trimmed, words,
};

verus! {

#[derive(Debug, Clone, Copy, PartialEq, Eq, Structural)]
pub enum FocusTool {
    Kdotool,
    Wmctrl,
    NoTool,
}

#[derive(Debug, Clone, Copy, PartialEq, Eq, Structural)]
pub enum FocusOrLaunchResult {
    Focused,
    Launched,
}

impl FocusOrLaunchResult {
    pub open spec fn label_text(self) -> Seq<char> {
        match self {
            FocusOrLaunchResult::Focused => "Focused"@,
            FocusOrLaunchResult::Launched => "Launched"@,
        }
    }

    /// The name of the result as reports show it.
    pub fn label(self) -> (r: &'static str)
        ensures
            r@ == self.label_text(),
    {
        match self {
            FocusOrLaunchResult::Focused => "Focused",
            FocusOrLaunchResult::Launched => "Launched",
        }
    }
}

/// The tool to use: kdotool where it is installed, else wmctrl where it is.
pub fn detect_focus_tool(kdotool_found: bool, wmctrl_found: bool) -> (tool: FocusTool)
    ensures
        tool == if kdotool_found {
            FocusTool::Kdotool
        } else if wmctrl_found {
            FocusTool::Wmctrl
        } else {
            FocusTool::NoTool
        },
        tool == (ToolChoice { tool: None }).settled(kdotool_found, wmctrl_found),
{
    if kdotool_found {
        FocusTool::Kdotool
    } else if wmctrl_found {
        FocusTool::Wmctrl
    } else {
        FocusTool::NoTool
    }
}

/// The tool that was chosen at the first look, kept from then on: tools that
/// come or go later change nothing.
#[derive(Debug, PartialEq, Eq)]
pub struct ToolChoice {
    pub tool: Option<FocusTool>,
}

impl ToolChoice {
    /// The tool in use after a look that found these tools.
    pub open spec fn settled(self, kdotool_found: bool, wmctrl_found: bool) -> FocusTool {
        match self.tool {
            Some(tool) => tool,
            None => if kdotool_found {
                FocusTool::Kdotool
            } else if wmctrl_found {
                FocusTool::Wmctrl
            } else {
                FocusTool::NoTool
            },
        }
    }

    /// No look has been taken yet.
    pub fn new() -> (choice: ToolChoice)
        ensures
            choice.tool is None,
    {
        ToolChoice { tool: None }
    }

    /// The tool in use: the one that was chosen before, or else the one that
    /// `detect_focus_tool` chooses, which is kept.
    pub fn settle(&mut self, kdotool_found: bool, wmctrl_found: bool) -> (tool: FocusTool)
        ensures
            tool == old(self).settled(kdotool_found, wmctrl_found),
            final(self).tool == Some(tool),
    {
        match self.tool {
            Some(tool) => tool,
            None => {
                let tool = detect_focus_tool(kdotool_found, wmctrl_found);
                self.tool = Some(tool);
                tool
            },
        }
    }
}

/// The first look decides: it chooses kdotool where it is installed, else
/// wmctrl where it is; every later look gives the same tool, whatever is
/// installed by then.
pub proof fn law_first_look_decides(first: (bool, bool), later: (bool, bool))
    ensures
        ({
            let tool = ToolChoice { tool: None }.settled(first.0, first.1);
            &&& tool == if first.0 {
                FocusTool::Kdotool
            } else if first.1 {
                FocusTool::Wmctrl
            } else {
                FocusTool::NoTool
            }
            &&& ToolChoice { tool: Some(tool) }.settled(later.0, later.1) == tool
        }),
{
}

/// The command that lists windows.
pub open spec fn list_command(tool: FocusTool, class: Seq<char>) -> Option<CommandView> {
    match tool {
        FocusTool::Kdotool => Some(
            CommandView { program: "kdotool"@, args: seq!["search"@, "--class"@, class] },
        ),
        FocusTool::Wmctrl => Some(CommandView { program: "wmctrl"@, args: seq!["-lx"@] }),
        FocusTool::NoTool => None,
    }
}

/// The command that brings a window to the front.
pub open spec fn activate_command(tool: FocusTool, id: Seq<char>) -> CommandView {
    match tool {
        FocusTool::Kdotool => CommandView { program: "kdotool"@, args: seq!["windowactivate"@, id] },
        _ => CommandView { program: "wmctrl"@, args: seq!["-i"@, "-a"@, id] },
    }
}

/// The command that closes a window.
pub open spec fn close_command(tool: FocusTool, id: Seq<char>) -> CommandView {
    match tool {
        FocusTool::Kdotool => CommandView { program: "kdotool"@, args: seq!["windowclose"@, id] },
        _ => CommandView { program: "wmctrl"@, args: seq!["-i"@, "-c"@, id] },
    }
}

fn fixed_command(program: &str, args: Vec<&str>) -> (c: CommandLine)
    ensures
        c@ == (CommandView { program: program@, args: slice_texts(args@) }),
{
    let ghost wanted = slice_texts(args@);
    let c = command(program, args, &Vec::new());
    assert(c@.args == wanted);
    c
}

fn list_cmd(tool: FocusTool, class: &str) -> (r: Option<CommandLine>)
    ensures
        match r {
            Some(c) => list_command(tool, class@) == Some(c@),
            None => list_command(tool, class@) is None,
        },
{
    match tool {
        FocusTool::Kdotool => {
            let args = vec!["search", "--class", class];
            assert(slice_texts(args@) == seq!["search"@, "--class"@, class@]);
            Some(fixed_command("kdotool", args))
        },
        FocusTool::Wmctrl => {
            let args = vec!["-lx"];
            assert(slice_texts(args@) == seq!["-lx"@]);
            Some(fixed_command("wmctrl", args))
        },
        FocusTool::NoTool => None,
    }
}

fn activate_cmd(tool: FocusTool, id: &str) -> (c: CommandLine)
    ensures
        c@ == activate_command(tool, id@),
{
    match tool {
        FocusTool::Kdotool => {
            let args = vec!["windowactivate", id];
            assert(slice_texts(args@) == seq!["windowactivate"@, id@]);
            fixed_command("kdotool", args)
        },
        _ => {
            let args = vec!["-i", "-a", id];
            assert(slice_texts(args@) == seq!["-i"@, "-a"@, id@]);
            fixed_command("wmctrl", args)
        },
    }
}

fn close_cmd(tool: FocusTool, id: &str) -> (c: CommandLine)
    ensures
        c@ == close_command(tool, id@),
{
    match tool {
        FocusTool::Kdotool => {
            let args = vec!["windowclose", id];
            assert(slice_texts(args@) == seq!["windowclose"@, id@]);
            fixed_command("kdotool", args)
        },
        _ => {
            let args = vec!["-i", "-c", id];
            assert(slice_texts(args@) == seq!["-i"@, "-c"@, id@]);
            fixed_command("wmctrl", args)
        },
    }
}

/// A line of wmctrl's listing (id, desktop, class, host, title) whose window
/// class holds the class that is looked for, up to case.
pub open spec fn wmctrl_match(line: Seq<char>, class: Seq<char>) -> bool {
    words(line).len() > 2 && has_text(lowercase(words(line)[2]), lowercase(class))
}

/// The windows that a line of a listing names: none or one.
pub open spec fn window_of_line(tool: FocusTool, class: Seq<char>, line: Seq<char>) -> Option<
    Seq<char>,
> {
    match tool {
        FocusTool::Kdotool => if trimmed(line).len() > 0 {
            Some(trimmed(line))
        } else {
            None
        },
        FocusTool::Wmctrl => if wmctrl_match(line, class) {
            Some(words(line)[0])
        } else {
            None
        },
        FocusTool::NoTool => None,
    }
}

/// The windows that the lines of a listing name, in order.
pub open spec fn windows_in(tool: FocusTool, class: Seq<char>, lines: Seq<Seq<char>>) -> Seq<
    Seq<char>,
>
    decreases lines.len(),
{
    if lines.len() == 0 {
        Seq::empty()
    } else {
        let before = windows_in(tool, class, lines.drop_last());
        match window_of_line(tool, class, lines.last()) {
            Some(id) => before.push(id),
            None => before,
        }
    }
}

/// The windows of the class that a listing names, in order.
pub open spec fn listed_windows(tool: FocusTool, class: Seq<char>, listing: Seq<char>) -> Seq<
    Seq<char>,
> {
    windows_in(tool, class, lines_of(listing))
}

/// The window to bring to the front: for kdotool the one on the first line,
/// for wmctrl the first that matches.
pub open spec fn focus_target(tool: FocusTool, class: Seq<char>, listing: Seq<char>) -> Option<
    Seq<char>,
> {
    match tool {
        FocusTool::Kdotool => if lines_of(listing).len() > 0 {
            window_of_line(tool, class, lines_of(listing)[0])
        } else {
            None
        },
        _ => if listed_windows(tool, class, listing).len() > 0 {
            Some(listed_windows(tool, class, listing)[0])
        } else {
            None
        },
    }
}

fn line_window(tool: FocusTool, class: &str, line: &Vec<char>) -> (r: Option<String>)
    ensures
        match r {
            Some(id) => window_of_line(tool, class@, line@) == Some(id@),
            None => window_of_line(tool, class@, line@) is None,
        },
{
    match tool {
        FocusTool::Kdotool => {
            let id = text::trim_chars(line);
            if id.len() > 0 {
                Some(string_of(&id))
            } else {
                None
            }
        },
        FocusTool::Wmctrl => {
            let fields = text::split_whitespace(line);
            assert(char_lists(fields@).len() == fields@.len());
            if fields.len() > 2 {
                assert(char_lists(fields@)[2] == fields@[2]@);
                assert(char_lists(fields@)[0] == fields@[0]@);
                let window_class = chars_of(string_of(&fields[2]).to_lowercase().as_str());
                let wanted = chars_of(class.to_lowercase().as_str());
                if text::contains(&window_class, &wanted) {
                    return Some(string_of(&fields[0]));
                }
            }
            None
        },
        FocusTool::NoTool => None,
    }
}

/// The windows of the class that a listing names, in order.
pub fn windows_of(tool: FocusTool, class: &str, listing: &str) -> (ids: Vec<String>)
    ensures
        texts(ids@) == listed_windows(tool, class@, listing@),
{
    let lines = text::lines(&chars_of(listing));
    let ghost all = lines_of(listing@);
    let mut ids: Vec<String> = Vec::new();
    assert(all == char_lists(lines@));
    assert(texts(ids@) == windows_in(tool, class@, all.take(0)));
    for i in 0..lines.len()
        invariant
            all == char_lists(lines@),
            texts(ids@) == windows_in(tool, class@, all.take(i as int)),
    {
        assert(all[i as int] == lines@[i as int]@);
        assert(all.take(i + 1).drop_last() == all.take(i as int));
        let ghost before = texts(ids@);
        if let Some(id) = line_window(tool, class, &lines[i]) {
            ids.push(id);
            assert(texts(ids@) == before.push(id@));
        }
    }
    assert(all.take(all.len() as int) == all);
    ids
}

/// The window to bring to the front.
pub fn first_window(tool: FocusTool, class: &str, listing: &str) -> (r: Option<String>)
    ensures
        match r {
            Some(id) => focus_target(tool, class@, listing@) == Some(id@),
            None => focus_target(tool, class@, listing@) is None,
        },
{
    if tool == FocusTool::Kdotool {
        let lines = text::lines(&chars_of(listing));
        assert(char_lists(lines@).len() == lines@.len());
        if lines.len() > 0 {
            assert(char_lists(lines@)[0] == lines@[0]@);
            line_window(tool, class, &lines[0])
        } else {
            None
        }
    } else {
        let ids = windows_of(tool, class, listing);
        assert(texts(ids@).len() == ids@.len());
        if ids.len() > 0 {
            assert(texts(ids@)[0] == ids@[0]@);
            Some(ids[0].clone())
        } else {
            None
        }
    }
}

/// What has come of the search for a window so far.
pub enum FocusProgress {
    Started,
    /// The listing command wrote this.
    Listed { stdout: Vec<u8> },
    /// The activation command ended, successfully or not.
    Activated { success: bool },
}

/// What to do next to focus a window.
pub enum FocusAction {
    /// Run the command and hand back what it wrote.
    List { command: CommandLine },
    /// Run the command and hand back whether it succeeded.
    Activate { command: CommandLine },
    /// A window was focused, or there is none.
    Done { focused: bool },
}

/// The model of a `FocusAction`.
pub enum FocusActionView {
    List { command: CommandView },
    Activate { command: CommandView },
    Done { focused: bool },
}

impl View for FocusAction {
    type V = FocusActionView;

    open spec fn view(&self) -> FocusActionView {
        match *self {
            FocusAction::List { command } => FocusActionView::List { command: command@ },
            FocusAction::Activate { command } => FocusActionView::Activate { command: command@ },
            FocusAction::Done { focused } => FocusActionView::Done { focused },
        }
    }
}

/// What to do next to focus a window of an application.
pub open spec fn focus_step(app: AppView, tool: FocusTool, progress: FocusProgress) -> FocusActionView {
    let class = app.wm_class_guess;
    match progress {
        FocusProgress::Started => match list_command(tool, class) {
            Some(command) => FocusActionView::List { command },
            None => FocusActionView::Done { focused: false },
        },
        FocusProgress::Listed { stdout } => match focus_target(tool, class, output_text(stdout@)) {
            Some(id) => FocusActionView::Activate { command: activate_command(tool, id) },
            None => FocusActionView::Done { focused: false },
        },
        FocusProgress::Activated { success } => FocusActionView::Done { focused: success },
    }
}

/// What to do next to focus a window of an application.
pub fn try_focus_existing(app: &AppEntry, tool: FocusTool, progress: &FocusProgress) -> (action:
    FocusAction)
    ensures
        action@ == focus_step(app@, tool, *progress),
{
    let class = app.wm_class_guess.as_str();
    match progress {
        FocusProgress::Started => {
            match list_cmd(tool, class) {
                Some(command) => FocusAction::List { command },
                None => FocusAction::Done { focused: false },
            }
        },
        FocusProgress::Listed { stdout } => {
            let listing = text::decode_output(stdout);
            match first_window(tool, class, listing.as_str()) {
                Some(id) => FocusAction::Activate { command: activate_cmd(tool, id.as_str()) },
                None => FocusAction::Done { focused: false },
            }
        },
        FocusProgress::Activated { success } => FocusAction::Done { focused: *success },
    }
}

/// The command that starts an application; there is none if its command is
/// empty.
pub open spec fn launch_command(app: AppView) -> Option<CommandView> {
    if app.command.len() == 0 {
        None
    } else {
        Some(CommandView { program: app.command[0], args: app.command.drop_first() })
    }
}

/// The command that starts an application afresh.
pub fn launch_fresh(app: &AppEntry) -> (r: Result<CommandLine, String>)
    ensures
        match r {
            Ok(c) => launch_command(app@) == Some(c@),
            Err(message) => launch_command(app@) is None && message@ == "empty exec"@,
        },
{
    let ghost all = texts(app.command@);
    if app.command.len() == 0 {
        return Err("empty exec".to_string());
    }
    assert(all[0] == app.command@[0]@);
    let mut args: Vec<String> = Vec::new();
    for i in 1..app.command.len()
        invariant
            all == texts(app.command@),
            all.len() > 0,
            texts(args@) == all.drop_first().take(i - 1),
    {
        let ghost before = texts(args@);
        args.push(app.command[i].clone());
        assert(texts(args@) == before.push(all[i as int]));
        assert(all.drop_first().take(i as int) == before.push(all.drop_first()[i - 1]));
    }
    assert(all.drop_first().take(all.len() - 1) == all.drop_first());
    Ok(CommandLine { program: app.command[0].clone(), args })
}

/// What has come of opening an application so far.
pub enum LaunchProgress {
    Focusing { progress: FocusProgress },
    /// The application was started.
    Started,
}

/// What to do next to open an application.
pub enum LaunchAction {
    /// Run the command and hand back what it wrote.
    List { command: CommandLine },
    /// Run the command and hand back whether it succeeded.
    Activate { command: CommandLine },
    /// Start the command, detached, and hand back that it runs.
    Launch { command: CommandLine },
    Done { result: FocusOrLaunchResult },
    Fail { message: String },
}

/// The model of a `LaunchAction`.
pub enum LaunchActionView {
    List { command: CommandView },
    Activate { command: CommandView },
    Launch { command: CommandView },
    Done { result: FocusOrLaunchResult },
    Fail { message: Seq<char> },
}

impl View for LaunchAction {
    type V = LaunchActionView;

    open spec fn view(&self) -> LaunchActionView {
        match *self {
            LaunchAction::List { command } => LaunchActionView::List { command: command@ },
            LaunchAction::Activate { command } => LaunchActionView::Activate { command: command@ },
            LaunchAction::Launch { command } => LaunchActionView::Launch { command: command@ },
            LaunchAction::Done { result } => LaunchActionView::Done { result },
            LaunchAction::Fail { message } => LaunchActionView::Fail { message: message@ },
        }
    }
}

/// What to do next to open an application: focus its window, and launch it if
/// there was none to focus.
pub open spec fn launch_step(app: AppView, tool: FocusTool, progress: LaunchProgress) -> LaunchActionView {
    match progress {
        LaunchProgress::Focusing { progress } => match focus_step(app, tool, progress) {
            FocusActionView::List { command } => LaunchActionView::List { command },
            FocusActionView::Activate { command } => LaunchActionView::Activate { command },
            FocusActionView::Done { focused } => if focused {
                LaunchActionView::Done { result: FocusOrLaunchResult::Focused }
            } else {
                match launch_command(app) {
                    Some(command) => LaunchActionView::Launch { command },
                    None => LaunchActionView::Fail { message: "empty exec"@ },
                }
            },
        },
        LaunchProgress::Started => LaunchActionView::Done { result: FocusOrLaunchResult::Launched },
    }
}

/// What to do next to open an application.
pub fn focus_or_launch(app: &AppEntry, tool: FocusTool, progress: &LaunchProgress) -> (action:
    LaunchAction)
    ensures
        action@ == launch_step(app@, tool, *progress),
{
    match progress {
        LaunchProgress::Focusing { progress } => {
            match try_focus_existing(app, tool, progress) {
                FocusAction::List { command } => LaunchAction::List { command },
                FocusAction::Activate { command } => LaunchAction::Activate { command },
                FocusAction::Done { focused } => {
                    if focused {
                        LaunchAction::Done { result: FocusOrLaunchResult::Focused }
                    } else {
                        match launch_fresh(app) {
                            Ok(command) => LaunchAction::Launch { command },
                            Err(message) => LaunchAction::Fail { message },
                        }
                    }
                },
            }
        },
        LaunchProgress::Started => LaunchAction::Done { result: FocusOrLaunchResult::Launched },
    }
}

/// What has come of closing the windows of an application so far.
pub enum CloseProgress {
    Started,
    /// The listing command wrote this.
    Listed { stdout: Vec<u8> },
    /// One more close command ended; `rest` are the windows still to close and
    /// `closed` counts those closed before it.
    Closed { rest: Vec<String>, closed: u32, success: bool },
}

/// What to do next to close the windows of an application.
pub enum CloseAction {
    /// Run the command and hand back what it wrote.
    List { command: CommandLine },
    /// Run the command and hand back whether it succeeded, with `rest` and
    /// `closed` as they are.
    Close { command: CommandLine, rest: Vec<String>, closed: u32 },
    /// So many windows were closed.
    Done { closed: u32 },
}

/// The model of a `CloseAction`.
pub enum CloseActionView {
    List { command: CommandView },
    Close { command: CommandView, rest: Seq<Seq<char>>, closed: u32 },
    Done { closed: u32 },
}

impl View for CloseAction {
    type V = CloseActionView;

    open spec fn view(&self) -> CloseActionView {
        match *self {
            CloseAction::List { command } => CloseActionView::List { command: command@ },
            CloseAction::Close { command, rest, closed } => CloseActionView::Close {
                command: command@,
                rest: texts(rest@),
                closed,
            },
            CloseAction::Done { closed } => CloseActionView::Done { closed },
        }
    }
}

/// Close the first of these windows, or be done.
pub open spec fn close_next(tool: FocusTool, ids: Seq<Seq<char>>, closed: u32) -> CloseActionView {
    if ids.len() == 0 {
        CloseActionView::Done { closed }
    } else {
        CloseActionView::Close {
            command: close_command(tool, ids[0]),
            rest: ids.drop_first(),
            closed,
        }
    }
}

/// What to do next to close the windows of an application. The count of closed
/// windows is that of the close commands that succeeded.
pub open spec fn close_step(app: AppView, tool: FocusTool, progress: CloseProgress) -> CloseActionView {
    let class = app.wm_class_guess;
    match progress {
        CloseProgress::Started => match list_command(tool, class) {
            Some(command) => CloseActionView::List { command },
            None => CloseActionView::Done { closed: 0 },
        },
        CloseProgress::Listed { stdout } => close_next(
            tool,
            listed_windows(tool, class, output_text(stdout@)),
            0,
        ),
        CloseProgress::Closed { rest, closed, success } => close_next(
            tool,
            texts(rest@),
            if success {
                (closed + 1) as u32
            } else {
                closed
            },
        ),
    }
}

fn next_close(tool: FocusTool, ids: &Vec<String>, closed: u32) -> (action: CloseAction)
    ensures
        action@ == close_next(tool, texts(ids@), closed),
{
    let ghost all = texts(ids@);
    if ids.len() == 0 {
        return CloseAction::Done { closed };
    }
    assert(all[0] == ids@[0]@);
    let mut rest: Vec<String> = Vec::new();
    for i in 1..ids.len()
        invariant
            all == texts(ids@),
            all.len() > 0,
            texts(rest@) == all.drop_first().take(i - 1),
    {
        let ghost before = texts(rest@);
        rest.push(ids[i].clone());
        assert(texts(rest@) == before.push(all[i as int]));
        assert(all.drop_first().take(i as int) == before.push(all.drop_first()[i - 1]));
    }
    assert(all.drop_first().take(all.len() - 1) == all.drop_first());
    CloseAction::Close { command: close_cmd(tool, ids[0].as_str()), rest, closed }
}

/// What to do next to close the windows of an application.
pub fn close_all_windows(app: &AppEntry, tool: FocusTool, progress: &CloseProgress) -> (action:
    CloseAction)
    requires
        *progress matches CloseProgress::Closed { closed, success, .. } ==> !success || closed
            < u32::MAX,
    ensures
        action@ == close_step(app@, tool, *progress),
{
    let class = app.wm_class_guess.as_str();
    match progress {
        CloseProgress::Started => {
            match list_cmd(tool, class) {
                Some(command) => CloseAction::List { command },
                None => CloseAction::Done { closed: 0 },
            }
        },
        CloseProgress::Listed { stdout } => {
            let listing = text::decode_output(stdout);
            next_close(tool, &windows_of(tool, class, listing.as_str()), 0)
        },
        CloseProgress::Closed { rest, closed, success } => {
            let count: u32 = if *success {
                *closed + 1
            } else {
                *closed
            };
            next_close(tool, rest, count)
        },
    }
}

/// An application is started only where there was no window to focus: no tool
/// is installed, no listed window fits, or the activation failed.
pub proof fn law_no_second_window(app: AppView, tool: FocusTool, progress: FocusProgress)
    requires
        launch_step(app, tool, LaunchProgress::Focusing { progress }) is Launch,
    ensures
        match progress {
            FocusProgress::Started => tool == FocusTool::NoTool,
            FocusProgress::Listed { stdout } => focus_target(
                tool,
                app.wm_class_guess,
                output_text(stdout@),
            ) is None,
            FocusProgress::Activated { success } => !success,
        },
{
}

/// What is started is the application's own command, and a window is said to
/// be focused only after its activation succeeded.
pub proof fn law_launches_the_application(app: AppView, tool: FocusTool, progress: LaunchProgress)
    ensures
        launch_step(app, tool, progress) matches LaunchActionView::Launch { command }
            ==> app.command == seq![command.program] + command.args,
        launch_step(app, tool, progress) == (LaunchActionView::Done {
            result: FocusOrLaunchResult::Focused,
        }) ==> progress == (LaunchProgress::Focusing {
            progress: FocusProgress::Activated { success: true },
        }),
{
    if launch_step(app, tool, progress) is Launch {
        assert(app.command == seq![app.command[0]] + app.command.drop_first());
    }
}

/// How many close commands succeed, where the outcomes of the commands, in
/// order, are given.
pub open spec fn successes(outcomes: Seq<bool>) -> nat
    decreases outcomes.len(),
{
    if outcomes.len() == 0 {
        0
    } else {
        successes(outcomes.drop_first()) + if outcomes[0] {
            1nat
        } else {
            0nat
        }
    }
}

/// The count that closing windows ends with, where the outcomes of the close
/// commands, in order, are given.
pub open spec fn closed_in_the_end(
    tool: FocusTool,
    action: CloseActionView,
    outcomes: Seq<bool>,
) -> Option<int>
    decreases outcomes.len(),
{
    match action {
        CloseActionView::Done { closed } => Some(closed as int),
        CloseActionView::Close { rest, closed, .. } => if outcomes.len() == 0 {
            None
        } else {
            closed_in_the_end(
                tool,
                close_next(
                    tool,
                    rest,
                    if outcomes[0] {
                        (closed + 1) as u32
                    } else {
                        closed
                    },
                ),
                outcomes.drop_first(),
            )
        },
        CloseActionView::List { .. } => None,
    }
}

/// Closing windows runs one close command for each of them, and reports how
/// many of the commands succeeded.
pub proof fn law_close_counts_successes(
    tool: FocusTool,
    ids: Seq<Seq<char>>,
    closed: u32,
    outcomes: Seq<bool>,
)
    requires
        outcomes.len() == ids.len(),
        closed + ids.len() <= u32::MAX,
    ensures
        closed_in_the_end(tool, close_next(tool, ids, closed), outcomes) == Some(
            closed + successes(outcomes),
        ),
    decreases ids.len(),
{
    if ids.len() > 0 {
        let next = if outcomes[0] {
            (closed + 1) as u32
        } else {
            closed
        };
        law_close_counts_successes(tool, ids.drop_first(), next, outcomes.drop_first());
    }
}

proof fn lemma_typed_list_kdotool()
    ensures
        words("kdotool search --class"@) == seq!["kdotool"@, "search"@, "--class"@],
{
    reveal_strlit("kdotool");
    reveal_strlit("search");
    reveal_strlit("--class");
    reveal_strlit("kdotool search --class");
    lemma_one_word("kdotool"@);
    let l1 = "kdotool"@.push(' ') + "search"@;
    lemma_one_more_word("kdotool"@, "search"@);
    let l2 = l1.push(' ') + "--class"@;
    lemma_one_more_word(l1, "--class"@);
    assert("kdotool search --class"@ == l2);
    assert(words("kdotool search --class"@) == seq!["kdotool"@, "search"@, "--class"@]);
}

proof fn lemma_typed_list_wmctrl()
    ensures
        words("wmctrl -lx"@) == seq!["wmctrl"@, "-lx"@],
{
    reveal_strlit("wmctrl");
    reveal_strlit("-lx");
    reveal_strlit("wmctrl -lx");
    lemma_one_word("wmctrl"@);
    let l1 = "wmctrl"@.push(' ') + "-lx"@;
    lemma_one_more_word("wmctrl"@, "-lx"@);
    assert("wmctrl -lx"@ == l1);
    assert(words("wmctrl -lx"@) == seq!["wmctrl"@, "-lx"@]);
}

proof fn lemma_typed_activate_kdotool()
    ensures
        words("kdotool windowactivate"@) == seq!["kdotool"@, "windowactivate"@],
{
    reveal_strlit("kdotool");
    reveal_strlit("windowactivate");
    reveal_strlit("kdotool windowactivate");
    lemma_one_word("kdotool"@);
    let l1 = "kdotool"@.push(' ') + "windowactivate"@;
    lemma_one_more_word("kdotool"@, "windowactivate"@);
    assert("kdotool windowactivate"@ == l1);
    assert(words("kdotool windowactivate"@) == seq!["kdotool"@, "windowactivate"@]);
}

proof fn lemma_typed_activate_wmctrl()
    ensures
        words("wmctrl -i -a"@) == seq!["wmctrl"@, "-i"@, "-a"@],
{
    reveal_strlit("wmctrl");
    reveal_strlit("-i");
    reveal_strlit("-a");
    reveal_strlit("wmctrl -i -a");
    lemma_one_word("wmctrl"@);
    let l1 = "wmctrl"@.push(' ') + "-i"@;
    lemma_one_more_word("wmctrl"@, "-i"@);
    let l2 = l1.push(' ') + "-a"@;
    lemma_one_more_word(l1, "-a"@);
    assert("wmctrl -i -a"@ == l2);
    assert(words("wmctrl -i -a"@) == seq!["wmctrl"@, "-i"@, "-a"@]);
}

proof fn lemma_typed_close_kdotool()
    ensures
        words("kdotool windowclose"@) == seq!["kdotool"@, "windowclose"@],
{
    reveal_strlit("kdotool");
    reveal_strlit("windowclose");
    reveal_strlit("kdotool windowclose");
    lemma_one_word("kdotool"@);
    let l1 = "kdotool"@.push(' ') + "windowclose"@;
    lemma_one_more_word("kdotool"@, "windowclose"@);
    assert("kdotool windowclose"@ == l1);
    assert(words("kdotool windowclose"@) == seq!["kdotool"@, "windowclose"@]);
}

proof fn lemma_typed_close_wmctrl()
    ensures
        words("wmctrl -i -c"@) == seq!["wmctrl"@, "-i"@, "-c"@],
{
    reveal_strlit("wmctrl");
    reveal_strlit("-i");
    reveal_strlit("-c");
    reveal_strlit("wmctrl -i -c");
    lemma_one_word("wmctrl"@);
    let l1 = "wmctrl"@.push(' ') + "-i"@;
    lemma_one_more_word("wmctrl"@, "-i"@);
    let l2 = l1.push(' ') + "-c"@;
    lemma_one_more_word(l1, "-c"@);
    assert("wmctrl -i -c"@ == l2);
    assert(words("wmctrl -i -c"@) == seq!["wmctrl"@, "-i"@, "-c"@]);
}

/// Windows are listed, brought to the front and closed by the tool in use, each
/// by the command for it, which is given the class or the window.
pub proof fn law_windows_are_handled_by_the_tool(tool: FocusTool, class: Seq<char>, id: Seq<char>)
    ensures
        match tool {
            FocusTool::Kdotool => (list_command(tool, class) matches Some(c) && argv(c) == words(
                "kdotool search --class"@,
            ).push(class)) && argv(activate_command(tool, id)) == words(
                "kdotool windowactivate"@,
            ).push(id) && argv(close_command(tool, id)) == words("kdotool windowclose"@).push(id),
            FocusTool::Wmctrl => (list_command(tool, class) matches Some(c) && argv(c) == words(
                "wmctrl -lx"@,
            )) && argv(activate_command(tool, id)) == words("wmctrl -i -a"@).push(id) && argv(
                close_command(tool, id),
            ) == words("wmctrl -i -c"@).push(id),
            FocusTool::NoTool => list_command(tool, class) is None,
        },
{
    lemma_typed_list_kdotool();
    lemma_typed_list_wmctrl();
    lemma_typed_activate_kdotool();
    lemma_typed_activate_wmctrl();
    lemma_typed_close_kdotool();
    lemma_typed_close_wmctrl();
    if let Some(c) = list_command(tool, class) {
        if tool is Kdotool {
            assert(argv(c) == seq!["kdotool"@, "search"@, "--class"@].push(class));
        } else {
            assert(argv(c) == seq!["wmctrl"@, "-lx"@]);
        }
    }
    let a = activate_command(tool, id);
    let c = close_command(tool, id);
    if tool is Kdotool {
        assert(argv(a) == seq!["kdotool"@, "windowactivate"@].push(id));
        assert(argv(c) == seq!["kdotool"@, "windowclose"@].push(id));
    } else {
        assert(argv(a) == seq!["wmctrl"@, "-i"@, "-a"@].push(id));
        assert(argv(c) == seq!["wmctrl"@, "-i"@, "-c"@].push(id));
    }
}

/// A listing is read line by line, in order.
pub proof fn law_listings_are_read_line_by_line(
    tool: FocusTool,
    class: Seq<char>,
    a: Seq<Seq<char>>,
    b: Seq<Seq<char>>,
    line: Seq<char>,
)
    ensures
        windows_in(tool, class, a + b) == windows_in(tool, class, a) + windows_in(tool, class, b),
        windows_in(tool, class, seq![line]) == match window_of_line(tool, class, line) {
            Some(id) => seq![id],
            None => Seq::empty(),
        },
    decreases b.len(),
{
    assert(seq![line].drop_last() == Seq::<Seq<char>>::empty());
    assert(seq![line].last() == line);
    assert(windows_in(tool, class, Seq::empty()) == Seq::<Seq<char>>::empty());
    assert(windows_in(tool, class, seq![line]) == match window_of_line(tool, class, line) {
        Some(id) => seq![id],
        None => Seq::empty(),
    });
    if b.len() == 0 {
        assert(a + b == a);
        assert(windows_in(tool, class, a) + windows_in(tool, class, b) == windows_in(tool, class, a));
    } else {
        law_listings_are_read_line_by_line(tool, class, a, b.drop_last(), line);
        assert((a + b).drop_last() == a + b.drop_last());
        assert((a + b).last() == b.last());
        assert(windows_in(tool, class, a + b) == windows_in(tool, class, a) + windows_in(
            tool,
            class,
            b,
        ));
    }
}

/// kdotool lists only windows of the class that it was asked for, one on a
/// line. A line of wmctrl's, which names a window, a desktop and a class in its
/// first three words, counts exactly if that class holds the one that is looked
/// for, up to case. Nothing is listed where there is no tool.
pub proof fn law_a_line_names_a_window(
    class: Seq<char>,
    line: Seq<char>,
    window: Seq<char>,
    desktop: Seq<char>,
    window_class: Seq<char>,
    more: Seq<Seq<char>>,
)
    ensures
        window_of_line(FocusTool::NoTool, class, line) is None,
        trimmed(line).len() == 0 ==> window_of_line(FocusTool::Kdotool, class, line) is None,
        trimmed(line).len() > 0 ==> window_of_line(FocusTool::Kdotool, class, line) == Some(
            trimmed(line),
        ),
        words(line) == seq![window, desktop, window_class] + more ==> (window_of_line(
            FocusTool::Wmctrl,
            class,
            line,
        ) == if has_text(lowercase(window_class), lowercase(class)) {
            Some(window)
        } else {
            None
        }),
        words(line).len() < 3 ==> window_of_line(FocusTool::Wmctrl, class, line) is None,
{
    if words(line) == seq![window, desktop, window_class] + more {
        assert(words(line)[0] == window && words(line)[2] == window_class);
    }
}

/// The window that is brought to the front is the first that is listed: of
/// kdotool's listing the one on its first line, of wmctrl's the first that fits.
pub proof fn law_the_first_window_is_brought_to_the_front(
    class: Seq<char>,
    first: Seq<char>,
    rest: Seq<char>,
    listing: Seq<char>,
)
    requires
        !first.contains('\n'),
        first.len() == 0 || first.last() != '\r',
    ensures
        focus_target(FocusTool::Kdotool, class, first.push('\n') + rest) == window_of_line(
            FocusTool::Kdotool,
            class,
            first,
        ),
        focus_target(FocusTool::Kdotool, class, Seq::empty()) is None,
        focus_target(FocusTool::Wmctrl, class, listing) == (if listed_windows(
            FocusTool::Wmctrl,
            class,
            listing,
        ).len() > 0 {
            Some(listed_windows(FocusTool::Wmctrl, class, listing)[0])
        } else {
            None
        }),
        window_of_line(FocusTool::Wmctrl, class, first) matches Some(id) ==> focus_target(
            FocusTool::Wmctrl,
            class,
            first.push('\n') + rest,
        ) == Some(id),
        window_of_line(FocusTool::Wmctrl, class, first) is None ==> focus_target(
            FocusTool::Wmctrl,
            class,
            first.push('\n') + rest,
        ) == focus_target(FocusTool::Wmctrl, class, rest),
{
    text::law_lines_end_at_line_feeds(first, rest, first);
    text::law_lines_end_at_line_feeds(first, rest, Seq::empty());
    let lines = lines_of(first.push('\n') + rest);
    assert(lines == seq![first] + lines_of(rest));
    assert(lines[0] == first);
    law_listings_are_read_line_by_line(
        FocusTool::Wmctrl,
        class,
        seq![first],
        lines_of(rest),
        first,
    );
    let all = listed_windows(FocusTool::Wmctrl, class, first.push('\n') + rest);
    let others = listed_windows(FocusTool::Wmctrl, class, rest);
    match window_of_line(FocusTool::Wmctrl, class, first) {
        Some(id) => {
            assert(all == seq![id] + others);
            assert(all[0] == id);
        },
        None => {
            assert(Seq::<Seq<char>>::empty() + others == others);
        },
    }
}

/// Opening goes from the listing to the activation to the end: a window that
/// was activated is the end of it; without a tool, without a window and after
/// an activation that failed the application is launched, and that it runs is
/// then the end. It fails only where its command is empty.
pub proof fn law_opening_goes_on_to_its_end(
    app: AppView,
    tool: FocusTool,
    stdout: Vec<u8>,
    class: Seq<char>,
)
    requires
        class == app.wm_class_guess,
    ensures
        ({
            let at = |p: FocusProgress|
                launch_step(app, tool, LaunchProgress::Focusing { progress: p });
            let started = |a: LaunchActionView|
                if app.command.len() == 0 {
                    a == (LaunchActionView::Fail { message: "empty exec"@ })
                } else {
                    a matches LaunchActionView::Launch { command } && argv(command) == app.command
                };
            &&& launch_step(app, tool, LaunchProgress::Started) == (LaunchActionView::Done {
                result: FocusOrLaunchResult::Launched,
            })
            &&& at(FocusProgress::Activated { success: true }) == (LaunchActionView::Done {
                result: FocusOrLaunchResult::Focused,
            })
            &&& started(at(FocusProgress::Activated { success: false }))
            &&& tool is NoTool ==> started(at(FocusProgress::Started))
            &&& !(tool is NoTool) ==> (at(FocusProgress::Started) matches LaunchActionView::List {
                command,
            } && Some(command) == list_command(tool, class))
            &&& match focus_target(tool, class, output_text(stdout@)) {
                Some(id) => at(FocusProgress::Listed { stdout }) == (LaunchActionView::Activate {
                    command: activate_command(tool, id),
                }),
                None => started(at(FocusProgress::Listed { stdout })),
            }
        }),
{
    if app.command.len() > 0 {
        let c = launch_command(app)->0;
        assert(argv(c) == app.command);
    }
}

/// Closing goes through every listed window, in order: each gets its own close
/// command and none is left out; without a tool or a window nothing is closed.
pub proof fn law_every_listed_window_is_closed(
    app: AppView,
    tool: FocusTool,
    stdout: Vec<u8>,
    ids: Seq<Seq<char>>,
    closed: u32,
)
    ensures
        tool is NoTool ==> close_step(app, tool, CloseProgress::Started) == (CloseActionView::Done {
            closed: 0,
        }),
        !(tool is NoTool) ==> (close_step(app, tool, CloseProgress::Started) matches
            CloseActionView::List { command } && Some(command) == list_command(
            tool,
            app.wm_class_guess,
        )),
        close_step(app, tool, (CloseProgress::Listed { stdout })) == close_next(
            tool,
            listed_windows(tool, app.wm_class_guess, output_text(stdout@)),
            0,
        ),
        ids.len() == 0 ==> close_next(tool, ids, closed) == (CloseActionView::Done { closed }),
        ids.len() > 0 ==> (close_next(tool, ids, closed) matches CloseActionView::Close {
            command,
            rest,
            closed: so_far,
        } && command == close_command(tool, ids[0]) && seq![ids[0]] + rest == ids && so_far
            == closed),
{
    if ids.len() > 0 {
        assert(seq![ids[0]] + ids.drop_first() == ids);
    }
}

/// One more window counts as closed exactly if its close command succeeded.
pub proof fn law_only_closed_windows_count(
    app: AppView,
    tool: FocusTool,
    rest: Vec<String>,
    closed: u32,
)
    requires
        closed < u32::MAX,
        texts(rest@).len() == 0,
    ensures
        close_step(app, tool, (CloseProgress::Closed { rest, closed, success: true })) == (
        CloseActionView::Done { closed: (closed + 1) as u32 }),
        close_step(app, tool, (CloseProgress::Closed { rest, closed, success: false })) == (
        CloseActionView::Done { closed }),
{
}

/// A report says whether a window was focused or the application launched.
pub proof fn law_results_are_told_by_name(result: FocusOrLaunchResult)
    ensures
        result.label_text() == "Focused"@ <==> result is Focused,
        result.label_text() == "Launched"@ <==> result is Launched,
{
    reveal_strlit("Focused");
    reveal_strlit("Launched");
    assert("Focused"@.len() != "Launched"@.len());
}

/// kdotool is used wherever it is installed, wmctrl only where kdotool is not,
/// and nothing only where neither is.
pub proof fn law_the_better_tool_is_used(kdotool_found: bool, wmctrl_found: bool)
    ensures
        ({
            let tool = (ToolChoice { tool: None }).settled(kdotool_found, wmctrl_found);
            &&& tool is Kdotool <==> kdotool_found
            &&& tool is Wmctrl <==> wmctrl_found && !kdotool_found
            &&& tool is NoTool <==> !wmctrl_found && !kdotool_found
        }),
{
}

} // verus!
