//! From steps to processes. Every step becomes a program with an explicit
//! argument vector, or the opening or closing of a known application; no step
//! becomes shell text. The steps of a plan run one at a time, in order, and the
//! run stops at the first failure.
//!
//! The functions here decide; the caller does what they say and hands back what
//! came of it.
use vstd::prelude::*;

use crate::command::{
    self, argv, config_command, install_command, law_listed_utilities_have_commands,
    law_packages_are_installed_by_their_manager, law_packages_are_removed_by_their_manager,
    law_power_actions_do_what_they_are_called, law_systemctl_is_given_the_verb,
    law_the_terminal_runs_the_binary, power_command, remove_command, systemctl_command,
    terminal_command, utility, utility_name_list, CommandLine, CommandView,
};
use crate::desktop_index::{
    id_position, law_resolution_is_indexed, resolution, AppEntry, AppIndex, AppView,
};
use crate::focus_or_launch::FocusOrLaunchResult;
use crate::plan::{
    KindView, PackageManager, Plan, PowerActionKind, Step, StepKind, StepView, SystemctlVerb,
};
use crate::text::{self, chars_of, decimal, has_prefix, has_text, output_text, trimmed, words};

verus! {

/// What came of a step.
#[derive(Debug, PartialEq, Eq)]
pub struct StepResult {
    pub description: String,
    pub success: bool,
    pub detail: String,
}

/// The model of a `StepResult`.
pub struct StepResultView {
    pub description: Seq<char>,
    pub success: bool,
    pub detail: Seq<char>,
}

impl View for StepResult {
    type V = StepResultView;

    open spec fn view(&self) -> StepResultView {
        StepResultView {
            description: self.description@,
            success: self.success,
            detail: self.detail@,
        }
    }
}

/// The models of a list of results.
pub open spec fn result_views(results: Seq<StepResult>) -> Seq<StepResultView> {
    results.map_values(|r: StepResult| r@)
}

/// What a step asks for.
pub enum StepAction {
    /// Focus or launch the application.
    Open { app: AppEntry },
    /// Close the windows of the application.
    Close { app: AppEntry },
    /// Run the command to its end.
    Run { command: CommandLine },
    /// Start the command, detached.
    Spawn { command: CommandLine },
    /// Nothing can be done.
    Fail { message: String },
}

/// The model of a `StepAction`.
pub enum StepActionView {
    Open { app: AppView },
    Close { app: AppView },
    Run { command: CommandView },
    Spawn { command: CommandView },
    Fail { message: Seq<char> },
}

impl View for StepAction {
    type V = StepActionView;

    open spec fn view(&self) -> StepActionView {
        match *self {
            StepAction::Open { app } => StepActionView::Open { app: app@ },
            StepAction::Close { app } => StepActionView::Close { app: app@ },
            StepAction::Run { command } => StepActionView::Run { command: command@ },
            StepAction::Spawn { command } => StepActionView::Spawn { command: command@ },
            StepAction::Fail { message } => StepActionView::Fail { message: message@ },
        }
    }
}

/// The program whose presence decides what a step does.
pub open spec fn probed(kind: KindView) -> Option<Seq<char>> {
    match kind {
        KindView::InstallPackage { manager: PackageManager::Aur, .. } => Some("paru"@),
        KindView::RemovePackage { manager: PackageManager::Aur, .. } => Some("paru"@),
        KindView::SetConfig { .. } => Some("kwriteconfig6"@),
        KindView::RunInTerminal { binary, .. } => Some(binary),
        _ => None,
    }
}

/// The program to look for on the system before `execute_step` is called.
pub fn probe(kind: &StepKind) -> (r: Option<String>)
    ensures
        match r {
            Some(program) => probed(kind@) == Some(program@),
            None => probed(kind@) is None,
        },
{
    match kind {
        StepKind::InstallPackage { manager, .. } => {
            if *manager == PackageManager::Aur {
                Some("paru".to_string())
            } else {
                None
            }
        },
        StepKind::RemovePackage { manager, .. } => {
            if *manager == PackageManager::Aur {
                Some("paru".to_string())
            } else {
                None
            }
        },
        StepKind::SetConfig { .. } => Some("kwriteconfig6".to_string()),
        StepKind::RunInTerminal { binary, .. } => Some(binary.clone()),
        _ => None,
    }
}

/// The application that a step names: the one with that id, else the one that
/// the id resolves to as free text.
pub open spec fn named_app(apps: Seq<AppView>, app_id: Seq<char>) -> Option<AppView> {
    match id_position(apps, app_id, 0) {
        Some(k) => Some(apps[k]),
        None => match resolution(apps, app_id) {
            Some(k) => Some(apps[k]),
            None => None,
        },
    }
}

fn find_app<'a>(index: &'a AppIndex, app_id: &str) -> (r: Option<&'a AppEntry>)
    ensures
        match r {
            Some(app) => named_app(index.apps(), app_id@) == Some(app@),
            None => named_app(index.apps(), app_id@) is None,
        },
{
    match index.get(app_id) {
        Some(app) => Some(app),
        None => index.resolve(app_id),
    }
}

pub open spec fn app_not_found(app_id: Seq<char>) -> Seq<char> {
    "app '"@ + app_id + "' not found in launcher index"@
}

pub open spec fn unknown_utility(name: Seq<char>) -> Seq<char> {
    "unknown utility action '"@ + name + "'"@
}

pub open spec fn binary_not_found(binary: Seq<char>) -> Seq<char> {
    "binary '"@ + binary + "' not found"@
}

/// A binary is named by a name to look up or by an absolute path, not by a
/// path relative to wherever the daemon runs.
pub open spec fn absolute_or_name(binary: Seq<char>) -> bool {
    !binary.contains('/') || binary[0] == '/'
}

fn is_absolute_or_name(binary: &str) -> (r: bool)
    ensures
        r == absolute_or_name(binary@),
{
    let chars = chars_of(binary);
    for i in 0..chars.len()
        invariant
            chars@ == binary@,
            forall|j: int| 0 <= j < i ==> binary@[j] != '/',
    {
        if chars[i] == '/' {
            assert(binary@.contains(binary@[i as int]));
            return i == 0;
        }
    }
    true
}

/// What a step asks for, given the index and whether the program that
/// `probed` names is installed.
pub open spec fn step_action(kind: KindView, apps: Seq<AppView>, found: bool) -> StepActionView {
    match kind {
        KindView::LaunchOrFocus { app_id } => match named_app(apps, app_id) {
            Some(app) => StepActionView::Open { app },
            None => StepActionView::Fail { message: app_not_found(app_id) },
        },
        KindView::CloseWindow { app_id } => match named_app(apps, app_id) {
            Some(app) => StepActionView::Close { app },
            None => StepActionView::Fail { message: app_not_found(app_id) },
        },
        KindView::RunInTerminal { binary, args } => if found && absolute_or_name(binary) {
            StepActionView::Spawn { command: terminal_command(binary, args) }
        } else {
            StepActionView::Fail { message: binary_not_found(binary) }
        },
        KindView::InstallPackage { manager, packages } => StepActionView::Run {
            command: install_command(manager, packages, found),
        },
        KindView::RemovePackage { manager, packages } => StepActionView::Run {
            command: remove_command(manager, packages, found),
        },
        KindView::Systemctl { verb, unit, user_scope } => StepActionView::Run {
            command: systemctl_command(verb, unit, user_scope),
        },
        KindView::PowerAction { action } => StepActionView::Run { command: power_command(action) },
        KindView::Utility { name } => match utility(name) {
            Some(command) => StepActionView::Run { command },
            None => StepActionView::Fail { message: unknown_utility(name) },
        },
        KindView::SetConfig { file, group, key, value } => StepActionView::Run {
            command: config_command(file, group, key, value, found),
        },
    }
}

fn quoted(before: &str, name: &str, after: &str) -> (out: String)
    ensures
        out@ == before@ + name@ + after@,
{
    let mut out = before.to_string();
    out.append(name);
    out.append(after);
    out
}

/// What a step asks for. `found` tells whether the program that `probe` names
/// is installed; it is not read where `probe` names none.
pub fn execute_step(step: &Step, app_index: &AppIndex, found: bool) -> (action: StepAction)
    ensures
        action@ == step_action(step@.kind, app_index.apps(), found),
{
    match &step.kind {
        StepKind::LaunchOrFocus { app_id } => {
            match find_app(app_index, app_id.as_str()) {
                Some(app) => StepAction::Open { app: app.clone() },
                None => StepAction::Fail {
                    message: quoted("app '", app_id.as_str(), "' not found in launcher index"),
                },
            }
        },
        StepKind::CloseWindow { app_id } => {
            match find_app(app_index, app_id.as_str()) {
                Some(app) => StepAction::Close { app: app.clone() },
                None => StepAction::Fail {
                    message: quoted("app '", app_id.as_str(), "' not found in launcher index"),
                },
            }
        },
        StepKind::RunInTerminal { binary, args } => {
            if found && is_absolute_or_name(binary.as_str()) {
                StepAction::Spawn { command: command::terminal_cmd(binary.as_str(), args) }
            } else {
                StepAction::Fail { message: quoted("binary '", binary.as_str(), "' not found") }
            }
        },
        StepKind::InstallPackage { manager, packages } => {
            StepAction::Run { command: command::manager_install_cmd(*manager, packages, found) }
        },
        StepKind::RemovePackage { manager, packages } => {
            StepAction::Run { command: command::manager_remove_cmd(*manager, packages, found) }
        },
        StepKind::Systemctl { verb, unit, user_scope } => {
            StepAction::Run { command: command::systemctl_cmd(*verb, unit, *user_scope) }
        },
        StepKind::PowerAction { action } => {
            StepAction::Run { command: command::power_cmd(*action) }
        },
        StepKind::Utility { name } => {
            match command::utility_command(name.as_str()) {
                Some((program, args)) => {
                    let ghost wanted = command::slice_texts(args@);
                    let c = command::command(program, args, &Vec::new());
                    assert(c@.args == wanted);
                    StepAction::Run { command: c }
                },
                None => StepAction::Fail {
                    message: quoted("unknown utility action '", name.as_str(), "'"),
                },
            }
        },
        StepKind::SetConfig { file, group, key, value } => {
            StepAction::Run {
                command: command::set_config(
                    file.as_str(),
                    group.as_str(),
                    key.as_str(),
                    value.as_str(),
                    found,
                ),
            }
        },
    }
}

/// What came of a `StepAction`.
pub enum StepEvent {
    /// The application was focused or launched.
    Opened { result: FocusOrLaunchResult },
    /// So many windows were closed.
    Closed { count: u32 },
    /// The command ended. `status` is its exit status in words.
    Exited { success: bool, status: String, stdout: Vec<u8>, stderr: Vec<u8> },
    /// The command was started.
    Spawned,
    /// The action could not be done.
    Failed { message: String },
}

/// What the end of a command says: its output, or its exit status and what it
/// wrote to its error stream.
pub open spec fn exit_detail(
    success: bool,
    status: Seq<char>,
    stdout: Seq<u8>,
    stderr: Seq<u8>,
) -> Seq<char> {
    if success {
        trimmed(output_text(stdout))
    } else {
        "exit "@ + status + ": "@ + trimmed(output_text(stderr))
    }
}

/// The output of a command that succeeded, or what to say of one that failed.
pub fn check_output(success: bool, status: &str, stdout: &Vec<u8>, stderr: &Vec<u8>) -> (r: Result<
    String,
    String,
>)
    ensures
        match r {
            Ok(detail) => success && detail@ == exit_detail(success, status@, stdout@, stderr@),
            Err(detail) => !success && detail@ == exit_detail(success, status@, stdout@, stderr@),
        },
{
    if success {
        Ok(text::trim(text::decode_output(stdout).as_str()))
    } else {
        let mut message = "exit ".to_string();
        message.append(status);
        message.append(": ");
        message.append(text::trim(text::decode_output(stderr).as_str()).as_str());
        Err(message)
    }
}

/// Whether a step succeeded.
pub open spec fn event_success(event: StepEvent) -> bool {
    match event {
        StepEvent::Exited { success, .. } => success,
        StepEvent::Failed { .. } => false,
        _ => true,
    }
}

/// What there is to say of a step that came to its end.
pub open spec fn event_detail(event: StepEvent) -> Seq<char> {
    match event {
        StepEvent::Opened { result } => result.label_text(),
        StepEvent::Closed { count } => "Closed "@ + decimal(count as nat) + " window(s)"@,
        StepEvent::Exited { success, status, stdout, stderr } => exit_detail(
            success,
            status@,
            stdout@,
            stderr@,
        ),
        StepEvent::Spawned => FocusOrLaunchResult::Launched.label_text(),
        StepEvent::Failed { message } => message@,
    }
}

/// The result of a step.
pub open spec fn step_result(step: StepView, event: StepEvent) -> StepResultView {
    StepResultView {
        description: step.description,
        success: event_success(event),
        detail: event_detail(event),
    }
}

/// The result of a step whose action came to its end.
pub fn finish_step(step: &Step, event: &StepEvent) -> (r: StepResult)
    ensures
        r@ == step_result(step@, *event),
{
    let description = step.description.clone();
    match event {
        StepEvent::Opened { result } => {
            StepResult { description, success: true, detail: result.label().to_string() }
        },
        StepEvent::Closed { count } => {
            let number = text::decimal_text(*count as u64);
            StepResult {
                description,
                success: true,
                detail: quoted("Closed ", number.as_str(), " window(s)"),
            }
        },
        StepEvent::Exited { success, status, stdout, stderr } => {
            match check_output(*success, status.as_str(), stdout, stderr) {
                Ok(detail) => StepResult { description, success: true, detail },
                Err(detail) => StepResult { description, success: false, detail },
            }
        },
        StepEvent::Spawned => {
            StepResult {
                description,
                success: true,
                detail: FocusOrLaunchResult::Launched.label().to_string(),
            }
        },
        StepEvent::Failed { message } => {
            StepResult { description, success: false, detail: message.clone() }
        },
    }
}

/// What the run of a plan has come to: the results of its first steps, in
/// order, and whether one of them failed.
#[derive(Debug, PartialEq, Eq)]
pub struct ExecutionReport {
    pub results: Vec<StepResult>,
    pub stopped_early: bool,
}

/// The model of an `ExecutionReport`.
pub struct ReportView {
    pub results: Seq<StepResultView>,
    pub stopped_early: bool,
}

impl View for ExecutionReport {
    type V = ReportView;

    open spec fn view(&self) -> ReportView {
        ReportView { results: result_views(self.results@), stopped_early: self.stopped_early }
    }
}

impl ReportView {
    /// The results are those of the first steps of the plan, in order; all but
    /// the last succeeded, and the run stopped early exactly if the last
    /// failed.
    pub open spec fn follows(self, steps: Seq<StepView>) -> bool {
        &&& self.results.len() <= steps.len()
        &&& forall|i: int|
            0 <= i < self.results.len() ==> (#[trigger] self.results[i]).description
                == steps[i].description
        &&& forall|i: int| 0 <= i < self.results.len() - 1 ==> (#[trigger] self.results[i]).success
        &&& self.stopped_early == (self.results.len() > 0 && !self.results.last().success)
    }

    /// The step to run next; the run is over if there is none.
    pub open spec fn next(self, steps: Seq<StepView>) -> Option<int> {
        if self.stopped_early || self.results.len() >= steps.len() {
            None
        } else {
            Some(self.results.len() as int)
        }
    }

    /// The report after one more result.
    pub open spec fn with(self, result: StepResultView) -> ReportView {
        ReportView {
            results: self.results.push(result),
            stopped_early: self.stopped_early || !result.success,
        }
    }
}

/// The report of a run in which `outcomes[i]` is what came of the i-th step.
pub open spec fn report_after(steps: Seq<StepView>, outcomes: Seq<StepEvent>) -> ReportView
    decreases outcomes.len(),
{
    if outcomes.len() == 0 {
        ReportView { results: Seq::empty(), stopped_early: false }
    } else {
        let before = report_after(steps, outcomes.drop_last());
        match before.next(steps) {
            Some(i) => before.with(step_result(steps[i], outcomes.last())),
            None => before,
        }
    }
}

impl ExecutionReport {
    /// The report of a run that has not begun.
    pub fn new() -> (r: ExecutionReport)
        ensures
            r@ == (ReportView { results: Seq::empty(), stopped_early: false }),
    {
        let r = ExecutionReport { results: Vec::new(), stopped_early: false };
        assert(r@.results == Seq::<StepResultView>::empty());
        r
    }

    /// Adds what came of the step that `execute_plan` named.
    pub fn record(&mut self, plan: &Plan, event: &StepEvent)
        requires
            old(self)@.next(plan@.steps) is Some,
        ensures
            final(self)@ == old(self)@.with(
                step_result(plan@.steps[old(self)@.next(plan@.steps)->0], *event),
            ),
    {
        let ghost before = self@;
        let i: usize = self.results.len();
        assert(plan@.steps[i as int] == plan.steps@[i as int]@);
        let result = finish_step(&plan.steps[i], event);
        if !result.success {
            self.stopped_early = true;
        }
        self.results.push(result);
        assert(self@.results == before.results.push(result@));
    }
}

/// The step of the plan to run next: the first that has no result yet, as long
/// as none has failed.
pub fn execute_plan(plan: &Plan, report: &ExecutionReport) -> (next: Option<usize>)
    ensures
        match next {
            Some(i) => report@.next(plan@.steps) == Some(i as int) && i < plan@.steps.len(),
            None => report@.next(plan@.steps) is None,
        },
{
    if report.stopped_early || report.results.len() >= plan.steps.len() {
        None
    } else {
        Some(report.results.len())
    }
}

/// Whatever comes of the steps, at every point of a run the results are those
/// of the first steps of the plan, in order, and only the last can be a
/// failure.
pub proof fn law_steps_run_in_order(steps: Seq<StepView>, outcomes: Seq<StepEvent>)
    ensures
        report_after(steps, outcomes).follows(steps),
    decreases outcomes.len(),
{
    if outcomes.len() > 0 {
        law_steps_run_in_order(steps, outcomes.drop_last());
    }
}

/// The run stops at the first failure: once a step has failed, no step runs
/// any more, and the report stays as it is.
pub proof fn law_stops_at_first_failure(
    steps: Seq<StepView>,
    outcomes: Seq<StepEvent>,
    more: Seq<StepEvent>,
)
    requires
        report_after(steps, outcomes).stopped_early,
    ensures
        report_after(steps, outcomes).next(steps) is None,
        report_after(steps, outcomes + more) == report_after(steps, outcomes),
    decreases more.len(),
{
    if more.len() == 0 {
        assert(outcomes + more == outcomes);
    } else {
        law_stops_at_first_failure(steps, outcomes, more.drop_last());
        assert((outcomes + more).drop_last() == outcomes + more.drop_last());
    }
}

/// A run that is over and did not stop early has run every step of the plan,
/// and every step succeeded; a run that stopped early has run the steps up to
/// the one that failed, and that one failed.
pub proof fn law_a_run_is_complete_or_failed(steps: Seq<StepView>, outcomes: Seq<StepEvent>)
    requires
        report_after(steps, outcomes).next(steps) is None,
    ensures
        ({
            let report = report_after(steps, outcomes);
            if report.stopped_early {
                0 < report.results.len() <= steps.len() && !report.results.last().success
            } else {
                report.results.len() == steps.len() && forall|i: int|
                    0 <= i < steps.len() ==> (#[trigger] report.results[i]).success
            }
        }),
{
    law_steps_run_in_order(steps, outcomes);
}

/// The programs that a step can start. None of them is a shell.
pub open spec fn allowed_program(p: Seq<char>) -> bool {
    ||| p == "sudo"@
    ||| p == "paru"@
    ||| p == "yay"@
    ||| p == "flatpak"@
    ||| p == "systemctl"@
    ||| p == "pactl"@
    ||| p == "brightnessctl"@
    ||| p == "loginctl"@
    ||| p == "spectacle"@
    ||| p == "kwriteconfig6"@
    ||| p == "kwriteconfig5"@
    ||| p == "xdg-terminal-exec"@
}

/// The programs that a step can have sudo start. None of them is a shell.
pub open spec fn allowed_under_sudo(p: Seq<char>) -> bool {
    p == "pacman"@ || p == "apt-get"@ || p == "dnf"@ || p == "zypper"@ || p == "systemctl"@
}

/// The command that an action starts.
pub open spec fn started_command(action: StepActionView) -> Option<CommandView> {
    match action {
        StepActionView::Run { command } => Some(command),
        StepActionView::Spawn { command } => Some(command),
        _ => None,
    }
}

/// The texts of a step that may become arguments.
pub open spec fn given_text(kind: KindView, a: Seq<char>) -> bool {
    match kind {
        KindView::InstallPackage { packages, .. } => packages.contains(a),
        KindView::RemovePackage { packages, .. } => packages.contains(a),
        KindView::Systemctl { unit, .. } => unit == Some(a),
        KindView::RunInTerminal { binary, args } => a == binary || args.contains(a),
        KindView::SetConfig { file, group, key, value } => a == file || a == group || a == key || a
            == value,
        _ => false,
    }
}

/// The arguments that are fixed in code.
pub open spec fn fixed_argument(a: Seq<char>) -> bool {
    ||| a == "pacman"@
    ||| a == "apt-get"@
    ||| a == "dnf"@
    ||| a == "zypper"@
    ||| a == "systemctl"@
    ||| a == "-S"@
    ||| a == "-R"@
    ||| a == "--needed"@
    ||| a == "--noconfirm"@
    ||| a == "install"@
    ||| a == "remove"@
    ||| a == "uninstall"@
    ||| a == "-y"@
    ||| a == "flathub"@
    ||| a == "--user"@
    ||| a == "--now"@
    ||| a == "start"@
    ||| a == "stop"@
    ||| a == "restart"@
    ||| a == "enable"@
    ||| a == "disable"@
    ||| a == "reboot"@
    ||| a == "poweroff"@
    ||| a == "suspend"@
    ||| a == "--file"@
    ||| a == "--group"@
    ||| a == "--key"@
    ||| a == "set-sink-volume"@
    ||| a == "set-sink-mute"@
    ||| a == "@DEFAULT_SINK@"@
    ||| a == "+5%"@
    ||| a == "-5%"@
    ||| a == "toggle"@
    ||| a == "set"@
    ||| a == "+10%"@
    ||| a == "10%-"@
    ||| a == "lock-session"@
    ||| a == "-b"@
    ||| a == "-n"@
}

/// The common shells.
pub open spec fn is_shell(p: Seq<char>) -> bool {
    p == "sh"@ || p == "bash"@ || p == "dash"@ || p == "zsh"@ || p == "fish"@ || p == "ksh"@
}

proof fn lemma_no_shell_is_allowed(p: Seq<char>)
    ensures
        is_shell(p) ==> !allowed_program(p) && !allowed_under_sudo(p),
{
    reveal_strlit("sh");
    reveal_strlit("bash");
    reveal_strlit("dash");
    reveal_strlit("zsh");
    reveal_strlit("fish");
    reveal_strlit("ksh");
    reveal_strlit("sudo");
    reveal_strlit("paru");
    reveal_strlit("yay");
    reveal_strlit("flatpak");
    reveal_strlit("systemctl");
    reveal_strlit("pactl");
    reveal_strlit("brightnessctl");
    reveal_strlit("loginctl");
    reveal_strlit("spectacle");
    reveal_strlit("kwriteconfig6");
    reveal_strlit("kwriteconfig5");
    reveal_strlit("xdg-terminal-exec");
    reveal_strlit("pacman");
    reveal_strlit("apt-get");
    reveal_strlit("dnf");
    reveal_strlit("zypper");
    if is_shell(p) {
        assert(p.len() <= 4);
        if allowed_program(p) {
            assert(p[0] == 's' && p[1] == 'u' || p[0] == 'p' || p[0] == 'y');
        }
        if allowed_under_sudo(p) {
            assert(p[0] == 'd' && p[1] == 'n');
        }
    }
}

proof fn lemma_sudo_is_itself()
    ensures
        "paru"@ != "sudo"@,
        "yay"@ != "sudo"@,
        "flatpak"@ != "sudo"@,
        "systemctl"@ != "sudo"@,
        "pactl"@ != "sudo"@,
        "brightnessctl"@ != "sudo"@,
        "loginctl"@ != "sudo"@,
        "spectacle"@ != "sudo"@,
        "kwriteconfig6"@ != "sudo"@,
        "kwriteconfig5"@ != "sudo"@,
        "xdg-terminal-exec"@ != "sudo"@,
{
    reveal_strlit("sudo");
    reveal_strlit("paru");
    reveal_strlit("yay");
    reveal_strlit("flatpak");
    reveal_strlit("systemctl");
    reveal_strlit("pactl");
    reveal_strlit("brightnessctl");
    reveal_strlit("loginctl");
    reveal_strlit("spectacle");
    reveal_strlit("kwriteconfig6");
    reveal_strlit("kwriteconfig5");
    reveal_strlit("xdg-terminal-exec");
    assert("paru"@[0] != "sudo"@[0]);
    assert("systemctl"@.len() != "sudo"@.len());
    assert("spectacle"@.len() != "sudo"@.len());
}

/// No step starts a program outside a fixed list, neither itself nor through
/// sudo, whatever the step holds; no shell is on that list.
pub proof fn law_programs_are_fixed(kind: KindView, apps: Seq<AppView>, found: bool)
    ensures
        started_command(step_action(kind, apps, found)) matches Some(c) ==> allowed_program(
            c.program,
        ) && !is_shell(c.program) && (c.program == "sudo"@ ==> c.args.len() > 0
            && allowed_under_sudo(c.args[0]) && !is_shell(c.args[0])),
{
    lemma_sudo_is_itself();
    if let Some(c) = started_command(step_action(kind, apps, found)) {
        lemma_no_shell_is_allowed(c.program);
        lemma_no_shell_is_allowed(c.args[0]);
    }
}

/// Every argument of a command that a step starts is fixed in code or is, as a
/// whole, a text of the step: no text of a step is ever taken apart or joined
/// into a command.
pub proof fn law_arguments_are_fixed_or_given(
    kind: KindView,
    apps: Seq<AppView>,
    found: bool,
    i: int,
)
    requires
        started_command(step_action(kind, apps, found)) is Some,
        0 <= i < started_command(step_action(kind, apps, found))->0.args.len(),
    ensures
        fixed_argument(started_command(step_action(kind, apps, found))->0.args[i]) || given_text(
            kind,
            started_command(step_action(kind, apps, found))->0.args[i],
        ),
{
}

/// A package step runs the manager that it names: what is to be installed is
/// installed and what is to be removed is removed, all of it and in order.
/// `found` tells of paru, and only the AUR asks for it.
pub proof fn law_package_steps_run_their_manager(
    manager: PackageManager,
    packages: Seq<Seq<char>>,
    apps: Seq<AppView>,
    found: bool,
)
    ensures
        step_action((KindView::InstallPackage { manager, packages }), apps, found) matches
            StepActionView::Run { command } && argv(command) == words(
            match manager {
                PackageManager::Pacman => "sudo pacman -S --needed --noconfirm"@,
                PackageManager::Aur => if found {
                    "paru -S --needed --noconfirm"@
                } else {
                    "yay -S --needed --noconfirm"@
                },
                PackageManager::Apt => "sudo apt-get install -y"@,
                PackageManager::Dnf => "sudo dnf install -y"@,
                PackageManager::Zypper => "sudo zypper install -y"@,
                PackageManager::Flatpak => "flatpak install -y flathub"@,
            },
        ) + packages,
        step_action((KindView::RemovePackage { manager, packages }), apps, found) matches
            StepActionView::Run { command } && argv(command) == words(
            match manager {
                PackageManager::Pacman => "sudo pacman -R --noconfirm"@,
                PackageManager::Aur => if found {
                    "paru -R --noconfirm"@
                } else {
                    "yay -R --noconfirm"@
                },
                PackageManager::Apt => "sudo apt-get remove -y"@,
                PackageManager::Dnf => "sudo dnf remove -y"@,
                PackageManager::Zypper => "sudo zypper remove -y"@,
                PackageManager::Flatpak => "flatpak uninstall -y"@,
            },
        ) + packages,
        probed((KindView::InstallPackage { manager, packages })) == (if manager is Aur {
            Some("paru"@)
        } else {
            None
        }),
        probed((KindView::RemovePackage { manager, packages })) == (if manager is Aur {
            Some("paru"@)
        } else {
            None
        }),
{
    law_packages_are_installed_by_their_manager(manager, packages, found);
    law_packages_are_removed_by_their_manager(manager, packages, found);
}

/// A service step gives systemctl the verb and the unit of the step, in the
/// scope of the step; nothing on the system decides on it.
pub proof fn law_service_steps_run_their_verb(
    verb: SystemctlVerb,
    unit: Option<Seq<char>>,
    user_scope: bool,
    apps: Seq<AppView>,
    found: bool,
)
    ensures
        step_action((KindView::Systemctl { verb, unit, user_scope }), apps, found) matches
            StepActionView::Run { command } && argv(command) == words(
            if user_scope {
                "systemctl --user"@
            } else {
                "sudo systemctl"@
            },
        ) + words(
            match verb {
                SystemctlVerb::Start => "start"@,
                SystemctlVerb::Stop => "stop"@,
                SystemctlVerb::Restart => "restart"@,
                SystemctlVerb::Enable => "enable"@,
                SystemctlVerb::Disable => "disable"@,
                SystemctlVerb::EnableNow => "enable --now"@,
                SystemctlVerb::DisableNow => "disable --now"@,
            },
        ) + (match unit {
            Some(u) => seq![u],
            None => Seq::empty(),
        }),
        probed((KindView::Systemctl { verb, unit, user_scope })) is None,
{
    law_systemctl_is_given_the_verb(verb, unit, user_scope);
}

/// Power, utility, configuration and terminal steps each start the command that
/// they stand for; a utility without a command fails, and so does a binary that
/// is not there or is named by a relative path.
pub proof fn law_other_steps_run_their_command(
    action: PowerActionKind,
    a: Seq<char>,
    b: Seq<char>,
    c: Seq<char>,
    d: Seq<char>,
    args: Seq<Seq<char>>,
    apps: Seq<AppView>,
    found: bool,
)
    ensures
        step_action((KindView::PowerAction { action }), apps, found) matches StepActionView::Run {
            command,
        } && argv(command) == words(
            match action {
                PowerActionKind::Reboot => "systemctl reboot"@,
                PowerActionKind::Shutdown => "systemctl poweroff"@,
                PowerActionKind::Suspend => "systemctl suspend"@,
            },
        ),
        utility_name_list().contains(a) ==> (step_action((KindView::Utility { name: a }), apps, found)
            matches StepActionView::Run { command } && utility(a) == Some(command)),
        !utility_name_list().contains(a) ==> (step_action(
            (KindView::Utility { name: a }),
            apps,
            found,
        ) matches StepActionView::Fail { message } && has_text(message, a)),
        step_action((KindView::SetConfig { file: a, group: b, key: c, value: d }), apps, found)
            matches StepActionView::Run { command } && argv(command) == seq![
            if found {
                "kwriteconfig6"@
            } else {
                "kwriteconfig5"@
            },
            "--file"@,
            a,
            "--group"@,
            b,
            "--key"@,
            c,
            d,
        ],
        probed((KindView::SetConfig { file: a, group: b, key: c, value: d })) == Some(
            "kwriteconfig6"@,
        ),
        probed((KindView::RunInTerminal { binary: a, args })) == Some(a),
        found && (!a.contains('/') || a[0] == '/') ==> (step_action(
            (KindView::RunInTerminal { binary: a, args }),
            apps,
            found,
        ) matches StepActionView::Spawn { command } && argv(command) == seq![
            "xdg-terminal-exec"@,
            a,
        ] + args),
        !found || (a.contains('/') && a[0] != '/') ==> (step_action(
            (KindView::RunInTerminal { binary: a, args }),
            apps,
            found,
        ) matches StepActionView::Fail { message } && has_text(message, a)),
        probed((KindView::PowerAction { action })) is None,
        probed((KindView::Utility { name: a })) is None,
{
    law_power_actions_do_what_they_are_called(action);
    law_listed_utilities_have_commands(a);
    law_the_terminal_runs_the_binary(a, args);
    text::law_a_text_holds_its_parts(a, "unknown utility action '"@, a, "'"@);
    text::law_a_text_holds_its_parts(a, "binary '"@, a, "' not found"@);
    let command = config_command(a, b, c, d, found);
    assert(argv(command) == seq![command.program, "--file"@, a, "--group"@, b, "--key"@, c, d]);
}

/// A step on an application opens it or closes it, as the step says: the one
/// with the id of the step, or else the one that the id means as free text. It
/// fails where there is none, and the failure names the application.
pub proof fn law_application_steps_act_on_their_application(
    app_id: Seq<char>,
    apps: Seq<AppView>,
    found: bool,
    i: int,
)
    ensures
        step_action((KindView::LaunchOrFocus { app_id }), apps, found) matches StepActionView::Open {
            app,
        } ==> apps.contains(app),
        step_action((KindView::CloseWindow { app_id }), apps, found) matches StepActionView::Close {
            app,
        } ==> apps.contains(app),
        0 <= i < apps.len() && apps[i].id == app_id ==> (step_action(
            (KindView::LaunchOrFocus { app_id }),
            apps,
            found,
        ) matches StepActionView::Open { app } && app.id == app_id),
        0 <= i < apps.len() && apps[i].id == app_id ==> (step_action(
            (KindView::CloseWindow { app_id }),
            apps,
            found,
        ) matches StepActionView::Close { app } && app.id == app_id),
        (forall|j: int| 0 <= j < apps.len() ==> (#[trigger] apps[j]).id != app_id) ==> match resolution(
            apps,
            app_id,
        ) {
            Some(k) => step_action((KindView::LaunchOrFocus { app_id }), apps, found) == (
            StepActionView::Open { app: apps[k] }) && step_action(
                (KindView::CloseWindow { app_id }),
                apps,
                found,
            ) == (StepActionView::Close { app: apps[k] }),
            None => (step_action((KindView::LaunchOrFocus { app_id }), apps, found) matches
                StepActionView::Fail { message } && has_text(message, app_id)) && (step_action(
                (KindView::CloseWindow { app_id }),
                apps,
                found,
            ) matches StepActionView::Fail { message } && has_text(message, app_id)),
        },
        probed((KindView::LaunchOrFocus { app_id })) is None,
        probed((KindView::CloseWindow { app_id })) is None,
{
    lemma_id_position(apps, app_id, 0);
    law_resolution_is_indexed(apps, app_id);
    text::law_a_text_holds_its_parts(app_id, "app '"@, app_id, "' not found in launcher index"@);
    if let Some(k) = id_position(apps, app_id, 0) {
        assert(apps.contains(apps[k]));
        assert(apps[k].id == app_id);
    } else if let Some(k) = resolution(apps, app_id) {
        assert(apps.contains(apps[k]));
    }
}

proof fn lemma_id_position(apps: Seq<AppView>, id: Seq<char>, i: int)
    requires
        0 <= i,
    ensures
        match id_position(apps, id, i) {
            Some(k) => i <= k < apps.len() && apps[k].id == id,
            None => forall|j: int| i <= j < apps.len() ==> (#[trigger] apps[j]).id != id,
        },
    decreases apps.len() - i,
{
    if i < apps.len() && apps[i].id != id {
        lemma_id_position(apps, id, i + 1);
    }
}

/// A step succeeds exactly if its command ended well, or its application was
/// opened or closed, or its program was started; nothing that could not be done
/// counts as done. What is reported is the line of the step.
pub proof fn law_only_what_was_done_succeeds(step: StepView, event: StepEvent)
    ensures
        step_result(step, event).description == step.description,
        step_result(step, event).success <==> (event is Opened || event is Closed || event is Spawned
            || event matches StepEvent::Exited { success: true, .. }),
        event matches StepEvent::Failed { message } ==> step_result(step, event).detail == message@,
{
}

/// A command that ended well is reported by what it wrote, without the
/// whitespace around it; one that did not, by its exit status and by what it
/// wrote to its error stream.
pub proof fn law_the_end_of_a_command_is_reported(
    status: Seq<char>,
    other: Seq<char>,
    stdout: Seq<u8>,
    stderr: Seq<u8>,
)
    ensures
        exit_detail(true, status, stdout, stderr) == exit_detail(true, other, stdout, stdout),
        exit_detail(true, status, stdout, stderr) == trimmed(output_text(stdout)),
        exit_detail(false, status, stdout, stderr) == exit_detail(false, status, stderr, stderr),
        has_prefix(exit_detail(false, status, stdout, stderr), "exit "@ + status + ": "@),
        ({
            let told = exit_detail(false, status, stdout, stderr);
            let written = exit_detail(true, other, stderr, stdout);
            told.len() == status.len() + 7 + written.len() && told.skip(status.len() as int + 7)
                == written
        }),
{
    reveal_strlit("exit ");
    reveal_strlit(": ");
    let lead = "exit "@ + status + ": "@;
    let told = exit_detail(false, status, stdout, stderr);
    let written = trimmed(output_text(stderr));
    assert(told == lead + written);
    assert(told.take(lead.len() as int) == lead);
    text::law_a_text_stands_where_its_characters_do(told, lead, 0);
    assert(told.skip(lead.len() as int) == written);
}

/// The number of windows that were closed is told.
pub proof fn law_closed_windows_are_counted(count: u32, result: FocusOrLaunchResult)
    ensures
        event_detail((StepEvent::Closed { count })) == "Closed "@ + decimal(count as nat)
            + " window(s)"@,
        event_detail((StepEvent::Opened { result })) == match result {
            FocusOrLaunchResult::Focused => "Focused"@,
            FocusOrLaunchResult::Launched => "Launched"@,
        },
        event_detail(StepEvent::Spawned) == "Launched"@,
{
}

/// The next step is the first without a result, until one failed or none is
/// left; and a result is added at the end, with the failure noted.
pub proof fn law_a_run_takes_the_next_step(
    report: ReportView,
    steps: Seq<StepView>,
    result: StepResultView,
)
    ensures
        report.next(steps) matches Some(i) ==> i == report.results.len() && i < steps.len()
            && !report.stopped_early,
        !report.stopped_early && report.results.len() < steps.len() ==> report.next(steps) is Some,
        report.with(result).results == report.results + seq![result],
        report.with(result).stopped_early <==> report.stopped_early || !result.success,
{
    assert(report.results.push(result) == report.results + seq![result]);
}

} // verus!
