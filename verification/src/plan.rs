//! The closed vocabulary of actions. A plan is a list of steps, every step is
//! one of the `StepKind` variants, and no variant holds shell text: whatever
//! proposes a plan, nothing outside this vocabulary can be expressed in it.
use vstd::prelude::*;
use vstd::utf8::encode_utf8;

use crate::text::{self, chars_of, joined, texts};

verus! {

/// Every kind of action that exists.
#[derive(Debug, PartialEq, Eq)]
pub enum StepKind {
    /// Launch an installed application, or focus its window if one is open.
    LaunchOrFocus { app_id: String },
    /// Install packages through a package manager.
    InstallPackage { manager: PackageManager, packages: Vec<String> },
    /// Remove packages through a package manager.
    RemovePackage { manager: PackageManager, packages: Vec<String> },
    /// One systemctl verb against at most one unit.
    Systemctl { verb: SystemctlVerb, unit: Option<String>, user_scope: bool },
    /// Reboot, shut down or suspend the machine.
    PowerAction { action: PowerActionKind },
    /// Close the windows of a known application.
    CloseWindow { app_id: String },
    /// Run a named binary in a new terminal window. The arguments are passed
    /// as an argument vector; no shell reads them.
    RunInTerminal { binary: String, args: Vec<String> },
    /// A fixed, named utility action such as a volume or brightness toggle.
    Utility { name: String },
    /// Write one value of a configuration file.
    SetConfig { file: String, group: String, key: String, value: String },
}

#[derive(Debug, Clone, Copy, PartialEq, Eq, Structural)]
pub enum PackageManager {
    Pacman,
    Aur,
    Apt,
    Dnf,
    Zypper,
    Flatpak,
}

#[derive(Debug, Clone, Copy, PartialEq, Eq, Structural)]
pub enum SystemctlVerb {
    Start,
    Stop,
    Restart,
    Enable,
    Disable,
    EnableNow,
    DisableNow,
}

#[derive(Debug, Clone, Copy, PartialEq, Eq, Structural)]
pub enum PowerActionKind {
    Reboot,
    Shutdown,
    Suspend,
}

/// One action of a plan, with the line that the user is shown for it.
#[derive(Debug, PartialEq, Eq)]
pub struct Step {
    pub kind: StepKind,
    /// Generated from `kind` by `StepKind::describe` when the plan is finalized.
    pub description: String,
}

#[derive(Debug, PartialEq, Eq)]
pub struct Plan {
    pub id: String,
    /// The reasoning behind the plan; empty for plans that no model made.
    pub thinking: String,
    /// What the assistant says about the plan before running it.
    pub reply: String,
    pub steps: Vec<Step>,
    /// True if some step is system-changing. Such a plan runs only after the
    /// user has approved it.
    pub requires_confirmation: bool,
}

/// The model of a `StepKind`.
pub enum KindView {
    LaunchOrFocus { app_id: Seq<char> },
    InstallPackage { manager: PackageManager, packages: Seq<Seq<char>> },
    RemovePackage { manager: PackageManager, packages: Seq<Seq<char>> },
    Systemctl { verb: SystemctlVerb, unit: Option<Seq<char>>, user_scope: bool },
    PowerAction { action: PowerActionKind },
    CloseWindow { app_id: Seq<char> },
    RunInTerminal { binary: Seq<char>, args: Seq<Seq<char>> },
    Utility { name: Seq<char> },
    SetConfig { file: Seq<char>, group: Seq<char>, key: Seq<char>, value: Seq<char> },
}

/// The model of a `Step`.
pub struct StepView {
    pub kind: KindView,
    pub description: Seq<char>,
}

/// The model of a `Plan`.
pub struct PlanView {
    pub id: Seq<char>,
    pub thinking: Seq<char>,
    pub reply: Seq<char>,
    pub steps: Seq<StepView>,
    pub requires_confirmation: bool,
}

/// The text in an optional string.
pub open spec fn text_of(s: Option<String>) -> Option<Seq<char>> {
    match s {
        Some(t) => Some(t@),
        None => None,
    }
}

impl View for StepKind {
    type V = KindView;

    open spec fn view(&self) -> KindView {
        match *self {
            StepKind::LaunchOrFocus { app_id } => KindView::LaunchOrFocus { app_id: app_id@ },
            StepKind::InstallPackage { manager, packages } => KindView::InstallPackage {
                manager,
                packages: texts(packages@),
            },
            StepKind::RemovePackage { manager, packages } => KindView::RemovePackage {
                manager,
                packages: texts(packages@),
            },
            StepKind::Systemctl { verb, unit, user_scope } => KindView::Systemctl {
                verb,
                unit: text_of(unit),
                user_scope,
            },
            StepKind::PowerAction { action } => KindView::PowerAction { action },
            StepKind::CloseWindow { app_id } => KindView::CloseWindow { app_id: app_id@ },
            StepKind::RunInTerminal { binary, args } => KindView::RunInTerminal {
                binary: binary@,
                args: texts(args@),
            },
            StepKind::Utility { name } => KindView::Utility { name: name@ },
            StepKind::SetConfig { file, group, key, value } => KindView::SetConfig {
                file: file@,
                group: group@,
                key: key@,
                value: value@,
            },
        }
    }
}

impl View for Step {
    type V = StepView;

    open spec fn view(&self) -> StepView {
        StepView { kind: self.kind@, description: self.description@ }
    }
}

/// The models of a list of steps.
pub open spec fn step_views(steps: Seq<Step>) -> Seq<StepView> {
    steps.map_values(|s: Step| s@)
}

impl View for Plan {
    type V = PlanView;

    open spec fn view(&self) -> PlanView {
        PlanView {
            id: self.id@,
            thinking: self.thinking@,
            reply: self.reply@,
            steps: step_views(self.steps@),
            requires_confirmation: self.requires_confirmation,
        }
    }
}

impl Clone for StepKind {
    fn clone(&self) -> (r: StepKind)
        ensures
            r@ == self@,
    {
        match self {
            StepKind::LaunchOrFocus { app_id } => StepKind::LaunchOrFocus {
                app_id: app_id.clone(),
            },
            StepKind::InstallPackage { manager, packages } => StepKind::InstallPackage {
                manager: *manager,
                packages: text::copy_texts(packages),
            },
            StepKind::RemovePackage { manager, packages } => StepKind::RemovePackage {
                manager: *manager,
                packages: text::copy_texts(packages),
            },
            StepKind::Systemctl { verb, unit, user_scope } => StepKind::Systemctl {
                verb: *verb,
                unit: match unit {
                    Some(u) => Some(u.clone()),
                    None => None,
                },
                user_scope: *user_scope,
            },
            StepKind::PowerAction { action } => StepKind::PowerAction { action: *action },
            StepKind::CloseWindow { app_id } => StepKind::CloseWindow { app_id: app_id.clone() },
            StepKind::RunInTerminal { binary, args } => StepKind::RunInTerminal {
                binary: binary.clone(),
                args: text::copy_texts(args),
            },
            StepKind::Utility { name } => StepKind::Utility { name: name.clone() },
            StepKind::SetConfig { file, group, key, value } => StepKind::SetConfig {
                file: file.clone(),
                group: group.clone(),
                key: key.clone(),
                value: value.clone(),
            },
        }
    }
}

impl Clone for Step {
    fn clone(&self) -> (r: Step)
        ensures
            r@ == self@,
    {
        Step { kind: self.kind.clone(), description: self.description.clone() }
    }
}

impl Clone for Plan {
    fn clone(&self) -> (r: Plan)
        ensures
            r@ == self@,
    {
        let mut steps: Vec<Step> = Vec::new();
        for i in 0..self.steps.len()
            invariant
                step_views(steps@) == step_views(self.steps@).take(i as int),
        {
            let ghost before = step_views(steps@);
            let step = self.steps[i].clone();
            steps.push(step);
            assert(step_views(steps@) == before.push(step@));
            assert(step_views(self.steps@).take(i + 1) == before.push(self.steps@[i as int]@));
        }
        assert(step_views(self.steps@).take(self.steps@.len() as int) == step_views(self.steps@));
        Plan {
            id: self.id.clone(),
            thinking: self.thinking.clone(),
            reply: self.reply.clone(),
            steps,
            requires_confirmation: self.requires_confirmation,
        }
    }
}

impl PackageManager {
    /// The name of the manager as plan descriptions show it.
    pub open spec fn label_text(self) -> Seq<char> {
        match self {
            PackageManager::Pacman => "Pacman"@,
            PackageManager::Aur => "Aur"@,
            PackageManager::Apt => "Apt"@,
            PackageManager::Dnf => "Dnf"@,
            PackageManager::Zypper => "Zypper"@,
            PackageManager::Flatpak => "Flatpak"@,
        }
    }

    pub fn label(self) -> (r: &'static str)
        ensures
            r@ == self.label_text(),
    {
        match self {
            PackageManager::Pacman => "Pacman",
            PackageManager::Aur => "Aur",
            PackageManager::Apt => "Apt",
            PackageManager::Dnf => "Dnf",
            PackageManager::Zypper => "Zypper",
            PackageManager::Flatpak => "Flatpak",
        }
    }
}

impl SystemctlVerb {
    /// The name of the verb as plan descriptions show it.
    pub open spec fn label_text(self) -> Seq<char> {
        match self {
            SystemctlVerb::Start => "Start"@,
            SystemctlVerb::Stop => "Stop"@,
            SystemctlVerb::Restart => "Restart"@,
            SystemctlVerb::Enable => "Enable"@,
            SystemctlVerb::Disable => "Disable"@,
            SystemctlVerb::EnableNow => "EnableNow"@,
            SystemctlVerb::DisableNow => "DisableNow"@,
        }
    }

    pub fn label(self) -> (r: &'static str)
        ensures
            r@ == self.label_text(),
    {
        match self {
            SystemctlVerb::Start => "Start",
            SystemctlVerb::Stop => "Stop",
            SystemctlVerb::Restart => "Restart",
            SystemctlVerb::Enable => "Enable",
            SystemctlVerb::Disable => "Disable",
            SystemctlVerb::EnableNow => "EnableNow",
            SystemctlVerb::DisableNow => "DisableNow",
        }
    }
}

impl PowerActionKind {
    /// The name of the action as plan descriptions show it.
    pub open spec fn label_text(self) -> Seq<char> {
        match self {
            PowerActionKind::Reboot => "Reboot"@,
            PowerActionKind::Shutdown => "Shutdown"@,
            PowerActionKind::Suspend => "Suspend"@,
        }
    }

    pub fn label(self) -> (r: &'static str)
        ensures
            r@ == self.label_text(),
    {
        match self {
            PowerActionKind::Reboot => "Reboot",
            PowerActionKind::Shutdown => "Shutdown",
            PowerActionKind::Suspend => "Suspend",
        }
    }
}

impl KindView {
    /// The line that the user is shown for a step: a function of the step
    /// alone, so what is shown is what will run.
    pub open spec fn description(self) -> Seq<char> {
        match self {
            KindView::LaunchOrFocus { app_id } => "Open or focus "@ + app_id,
            KindView::CloseWindow { app_id } => "Close "@ + app_id,
            KindView::RunInTerminal { binary, args } => if args.len() == 0 {
                "Run '"@ + binary + "' in a new terminal"@
            } else {
                "Run '"@ + binary + " "@ + joined(args, " "@) + "' in a new terminal"@
            },
            KindView::InstallPackage { manager, packages } => "Install via "@
                + manager.label_text() + ": "@ + joined(packages, ", "@),
            KindView::RemovePackage { manager, packages } => "Remove via "@
                + manager.label_text() + ": "@ + joined(packages, ", "@),
            KindView::Systemctl { verb, unit, user_scope } => {
                let scope = if user_scope {
                    " (user)"@
                } else {
                    Seq::empty()
                };
                match unit {
                    Some(u) => "systemctl "@ + verb.label_text() + " "@ + u + scope,
                    None => "systemctl "@ + verb.label_text() + scope,
                }
            },
            KindView::PowerAction { action } => action.label_text() + " the machine"@,
            KindView::Utility { name } => "Run utility action: "@ + name,
            KindView::SetConfig { file, group, key, value } => "Set ["@ + file + "] "@ + group
                + "/"@ + key + " = "@ + value,
        }
    }

    /// Everything but launching an application and a utility toggle.
    pub open spec fn system_changing(self) -> bool {
        !(self is LaunchOrFocus || self is Utility)
    }

    /// The step's data is within the allowlists.
    pub open spec fn valid(self) -> bool {
        match self {
            KindView::InstallPackage { packages, .. } => packages.len() > 0 && valid_package_names(
                packages,
            ),
            KindView::RemovePackage { packages, .. } => packages.len() > 0 && valid_package_names(
                packages,
            ),
            KindView::Systemctl { unit, .. } => match unit {
                Some(u) => valid_unit_name(u),
                None => true,
            },
            KindView::RunInTerminal { binary, args } => valid_terminal_token(binary)
                && valid_terminal_tokens(args),
            KindView::SetConfig { file, group, key, value } => valid_config_text(file)
                && valid_config_text(group) && valid_config_text(key) && valid_config_text(value),
            _ => true,
        }
    }
}

/// The number of bytes of a text in UTF-8.
pub open spec fn byte_len(s: Seq<char>) -> nat {
    encode_utf8(s).len()
}

pub open spec fn ascii_alphanumeric(c: char) -> bool {
    'a' <= c <= 'z' || 'A' <= c <= 'Z' || '0' <= c <= '9'
}

pub open spec fn package_char(c: char) -> bool {
    ascii_alphanumeric(c) || c == '.' || c == '_' || c == '+' || c == '-'
}

pub open spec fn unit_char(c: char) -> bool {
    ascii_alphanumeric(c) || c == '.' || c == '_' || c == '-' || c == '@' || c == ':'
}

/// The characters that a terminal token must not hold.
pub open spec fn terminal_metachar(c: char) -> bool {
    c == '\n' || c == '\0' || c == ';' || c == '|' || c == '&' || c == '`' || c == '$' || c == '<'
        || c == '>'
}

/// The characters that a configuration text must not hold: the same.
pub open spec fn config_metachar(c: char) -> bool {
    terminal_metachar(c)
}

pub open spec fn valid_package_name(s: Seq<char>) -> bool {
    0 < s.len() && byte_len(s) < 128 && forall|i: int|
        0 <= i < s.len() ==> package_char(#[trigger] s[i])
}

pub open spec fn valid_unit_name(s: Seq<char>) -> bool {
    0 < s.len() && byte_len(s) < 128 && forall|i: int|
        0 <= i < s.len() ==> unit_char(#[trigger] s[i])
}

pub open spec fn valid_terminal_token(s: Seq<char>) -> bool {
    0 < s.len() && byte_len(s) < 512 && forall|i: int|
        0 <= i < s.len() ==> !terminal_metachar(#[trigger] s[i])
}

pub open spec fn valid_package_names(packages: Seq<Seq<char>>) -> bool {
    forall|i: int| 0 <= i < packages.len() ==> valid_package_name(#[trigger] packages[i])
}

pub open spec fn valid_terminal_tokens(args: Seq<Seq<char>>) -> bool {
    forall|i: int| 0 <= i < args.len() ==> valid_terminal_token(#[trigger] args[i])
}

pub open spec fn valid_config_text(s: Seq<char>) -> bool {
    0 < s.len() && byte_len(s) < 256 && forall|i: int|
        0 <= i < s.len() ==> !config_metachar(#[trigger] s[i])
}

fn is_ascii_alphanumeric(c: char) -> (r: bool)
    ensures
        r == ascii_alphanumeric(c),
{
    ('a' <= c && c <= 'z') || ('A' <= c && c <= 'Z') || ('0' <= c && c <= '9')
}

/// Package name validator: no spaces, no shell metacharacters, no path
/// separators.
pub fn is_valid_package_name(name: &str) -> (r: bool)
    ensures
        r == valid_package_name(name@),
{
    let chars = chars_of(name);
    if chars.len() == 0 || name.as_bytes().len() >= 128 {
        return false;
    }
    for i in 0..chars.len()
        invariant
            chars@ == name@,
            forall|j: int| 0 <= j < i ==> package_char(#[trigger] name@[j]),
    {
        let c = chars[i];
        if !(is_ascii_alphanumeric(c) || c == '.' || c == '_' || c == '+' || c == '-') {
            return false;
        }
    }
    true
}

/// systemd unit name validator.
pub fn is_valid_unit_name(name: &str) -> (r: bool)
    ensures
        r == valid_unit_name(name@),
{
    let chars = chars_of(name);
    if chars.len() == 0 || name.as_bytes().len() >= 128 {
        return false;
    }
    for i in 0..chars.len()
        invariant
            chars@ == name@,
            forall|j: int| 0 <= j < i ==> unit_char(#[trigger] name@[j]),
    {
        let c = chars[i];
        if !(is_ascii_alphanumeric(c) || c == '.' || c == '_' || c == '-' || c == '@' || c == ':') {
            return false;
        }
    }
    true
}

/// Validator for the binary and the arguments of `RunInTerminal`. No shell
/// reads them, so the characters that a shell would give a meaning to are only
/// a sign that something is off; a text that holds one is rejected on sight.
pub fn is_valid_terminal_token(s: &str) -> (r: bool)
    ensures
        r == valid_terminal_token(s@),
{
    let chars = chars_of(s);
    if chars.len() == 0 || s.as_bytes().len() >= 512 {
        return false;
    }
    for i in 0..chars.len()
        invariant
            chars@ == s@,
            forall|j: int| 0 <= j < i ==> !terminal_metachar(#[trigger] s@[j]),
    {
        let c = chars[i];
        if c == '\n' || c == '\0' || c == ';' || c == '|' || c == '&' || c == '`' || c == '$' || c
            == '<' || c == '>' {
            return false;
        }
    }
    true
}

/// Validator for the texts of `SetConfig`.
pub fn is_valid_config_text(s: &str) -> (r: bool)
    ensures
        r == valid_config_text(s@),
{
    let chars = chars_of(s);
    if chars.len() == 0 || s.as_bytes().len() >= 256 {
        return false;
    }
    for i in 0..chars.len()
        invariant
            chars@ == s@,
            forall|j: int| 0 <= j < i ==> !config_metachar(#[trigger] s@[j]),
    {
        let c = chars[i];
        if c == '\n' || c == '\0' || c == ';' || c == '|' || c == '&' || c == '`' || c == '$' || c
            == '<' || c == '>' {
            return false;
        }
    }
    true
}

fn all_package_names(packages: &Vec<String>) -> (r: bool)
    ensures
        r == valid_package_names(texts(packages@)),
{
    for i in 0..packages.len()
        invariant
            forall|j: int|
                0 <= j < i ==> valid_package_name(#[trigger] texts(packages@)[j]),
    {
        assert(texts(packages@)[i as int] == packages@[i as int]@);
        if !is_valid_package_name(packages[i].as_str()) {
            return false;
        }
    }
    true
}

fn all_terminal_tokens(args: &Vec<String>) -> (r: bool)
    ensures
        r == valid_terminal_tokens(texts(args@)),
{
    for i in 0..args.len()
        invariant
            forall|j: int| 0 <= j < i ==> valid_terminal_token(#[trigger] texts(args@)[j]),
    {
        assert(texts(args@)[i as int] == args@[i as int]@);
        if !is_valid_terminal_token(args[i].as_str()) {
            return false;
        }
    }
    true
}

impl StepKind {
    /// The line that the user is shown for this step.
    pub fn describe(&self) -> (out: String)
        ensures
            out@ == self@.description(),
    {
        match self {
            StepKind::LaunchOrFocus { app_id } => {
                let mut out = "Open or focus ".to_string();
                out.append(app_id.as_str());
                out
            },
            StepKind::CloseWindow { app_id } => {
                let mut out = "Close ".to_string();
                out.append(app_id.as_str());
                out
            },
            StepKind::RunInTerminal { binary, args } => {
                let mut out = "Run '".to_string();
                out.append(binary.as_str());
                if args.len() > 0 {
                    out.append(" ");
                    out.append(text::join(args, " ").as_str());
                }
                out.append("' in a new terminal");
                out
            },
            StepKind::InstallPackage { manager, packages } => {
                let mut out = "Install via ".to_string();
                out.append(manager.label());
                out.append(": ");
                out.append(text::join(packages, ", ").as_str());
                out
            },
            StepKind::RemovePackage { manager, packages } => {
                let mut out = "Remove via ".to_string();
                out.append(manager.label());
                out.append(": ");
                out.append(text::join(packages, ", ").as_str());
                out
            },
            StepKind::Systemctl { verb, unit, user_scope } => {
                let mut out = "systemctl ".to_string();
                out.append(verb.label());
                match unit {
                    Some(u) => {
                        out.append(" ");
                        out.append(u.as_str());
                    },
                    None => {},
                }
                if *user_scope {
                    out.append(" (user)");
                }
                assert(out@ == self@.description());
                out
            },
            StepKind::PowerAction { action } => {
                let mut out = action.label().to_string();
                out.append(" the machine");
                out
            },
            StepKind::Utility { name } => {
                let mut out = "Run utility action: ".to_string();
                out.append(name.as_str());
                out
            },
            StepKind::SetConfig { file, group, key, value } => {
                let mut out = "Set [".to_string();
                out.append(file.as_str());
                out.append("] ");
                out.append(group.as_str());
                out.append("/");
                out.append(key.as_str());
                out.append(" = ");
                out.append(value.as_str());
                out
            },
        }
    }

    /// Whether a plan with this step needs the user's approval: every step
    /// does, but for launching an application and a utility toggle.
    pub fn is_system_changing(&self) -> (r: bool)
        ensures
            r == self@.system_changing(),
    {
        match self {
            StepKind::LaunchOrFocus { .. } => false,
            StepKind::Utility { .. } => false,
            _ => true,
        }
    }

    /// Whether the step's data is within the allowlists.
    pub fn is_valid(&self) -> (r: bool)
        ensures
            r == self@.valid(),
    {
        match self {
            StepKind::InstallPackage { packages, .. } => {
                packages.len() > 0 && all_package_names(packages)
            },
            StepKind::RemovePackage { packages, .. } => {
                packages.len() > 0 && all_package_names(packages)
            },
            StepKind::Systemctl { unit, .. } => {
                match unit {
                    Some(u) => is_valid_unit_name(u.as_str()),
                    None => true,
                }
            },
            StepKind::RunInTerminal { binary, args } => {
                is_valid_terminal_token(binary.as_str()) && all_terminal_tokens(args)
            },
            StepKind::SetConfig { file, group, key, value } => {
                is_valid_config_text(file.as_str()) && is_valid_config_text(group.as_str())
                    && is_valid_config_text(key.as_str()) && is_valid_config_text(value.as_str())
            },
            _ => true,
        }
    }
}

impl StepView {
    /// The step with the description that its kind gives it.
    pub open spec fn described(self) -> StepView {
        StepView { kind: self.kind, description: self.kind.description() }
    }
}

/// Some step is system-changing.
pub open spec fn any_system_changing(steps: Seq<StepView>) -> bool {
    exists|i: int| 0 <= i < steps.len() && (#[trigger] steps[i]).kind.system_changing()
}

/// The steps whose data is within the allowlists.
pub open spec fn valid_step() -> spec_fn(StepView) -> bool {
    |s: StepView| s.kind.valid()
}

/// The steps whose data is not within the allowlists.
pub open spec fn invalid_step() -> spec_fn(StepView) -> bool {
    |s: StepView| !s.kind.valid()
}

pub open spec fn described_steps(steps: Seq<StepView>) -> Seq<StepView> {
    steps.map_values(|s: StepView| s.described())
}

/// The lines that the user is shown for some steps.
pub open spec fn step_lines(steps: Seq<StepView>) -> Seq<Seq<char>> {
    steps.map_values(|s: StepView| s.description)
}

/// The descriptions of the steps that validation refuses.
pub open spec fn dropped_descriptions(steps: Seq<StepView>) -> Seq<Seq<char>> {
    step_lines(steps.filter(invalid_step()))
}

impl PlanView {
    /// The plan with its descriptions and its confirmation flag derived from
    /// its steps.
    pub open spec fn finalized(self) -> PlanView {
        PlanView {
            steps: described_steps(self.steps),
            requires_confirmation: any_system_changing(self.steps),
            ..self
        }
    }

    /// The finalized plan of the valid steps.
    pub open spec fn sanitized(self) -> PlanView {
        PlanView { steps: self.steps.filter(valid_step()), ..self }.finalized()
    }
}

impl Plan {
    /// The lines that the user is shown for the steps, in order.
    pub fn step_descriptions(&self) -> (out: Vec<String>)
        ensures
            texts(out@) == step_lines(self@.steps),
    {
        let ghost wanted = step_lines(self@.steps);
        let mut out: Vec<String> = Vec::new();
        for i in 0..self.steps.len()
            invariant
                wanted == step_lines(self@.steps),
                texts(out@) == wanted.take(i as int),
        {
            let ghost before = texts(out@);
            let description = self.steps[i].description.clone();
            assert(wanted[i as int] == description@);
            out.push(description);
            assert(texts(out@) == before.push(description@));
            assert(wanted.take(i + 1) == before.push(wanted[i as int]));
        }
        assert(wanted.take(self@.steps.len() as int) == wanted);
        out
    }

    /// Derives the confirmation flag and the descriptions from the steps,
    /// whatever they were before.
    pub fn finalize(self) -> (r: Plan)
        ensures
            r@ == self@.finalized(),
    {
        let mut steps: Vec<Step> = Vec::new();
        let mut confirm = false;
        let ghost all = self@.steps;
        for i in 0..self.steps.len()
            invariant
                all == step_views(self.steps@),
                step_views(steps@) == described_steps(all).take(i as int),
                confirm == exists|j: int| 0 <= j < i && (#[trigger] all[j]).kind.system_changing(),
        {
            let ghost before = step_views(steps@);
            let kind = self.steps[i].kind.clone();
            assert(all[i as int] == self.steps@[i as int]@);
            if kind.is_system_changing() {
                confirm = true;
            }
            let description = kind.describe();
            let step = Step { kind, description };
            steps.push(step);
            assert(step_views(steps@) == before.push(step@));
            assert(described_steps(all).take(i + 1) == before.push(all[i as int].described()));
        }
        assert(described_steps(all).take(all.len() as int) == described_steps(all));
        Plan { steps, requires_confirmation: confirm, ..self }
    }

    /// Keeps the steps whose data is within the allowlists and finalizes the
    /// plan. Also returns the descriptions of the steps that were dropped.
    pub fn sanitize(self) -> (r: (Plan, Vec<String>))
        ensures
            r.0@ == self@.sanitized(),
            texts(r.1@) == dropped_descriptions(self@.steps),
    {
        let mut kept: Vec<Step> = Vec::new();
        let mut dropped: Vec<String> = Vec::new();
        let ghost all = self@.steps;
        proof {
            reveal(Seq::filter);
            assert(step_views(kept@) == all.take(0).filter(valid_step()));
            assert(texts(dropped@) == dropped_descriptions(all.take(0)));
        }
        for i in 0..self.steps.len()
            invariant
                all == step_views(self.steps@),
                step_views(kept@) == all.take(i as int).filter(valid_step()),
                texts(dropped@) == dropped_descriptions(all.take(i as int)),
        {
            let ghost s = self.steps@[i as int]@;
            let ghost old_kept = step_views(kept@);
            let ghost old_dropped = texts(dropped@);
            let ghost old_invalid = all.take(i as int).filter(invalid_step());
            proof {
                reveal(Seq::filter);
                assert(all[i as int] == s);
                assert(all.take(i + 1).drop_last() == all.take(i as int));
            }
            if self.steps[i].kind.is_valid() {
                let step = self.steps[i].clone();
                kept.push(step);
                assert(step_views(kept@) == old_kept.push(s));
            } else {
                let description = self.steps[i].description.clone();
                dropped.push(description);
                assert(texts(dropped@) == old_dropped.push(s.description));
                assert(all.take(i + 1).filter(invalid_step()) == old_invalid.push(s));
                assert(dropped_descriptions(all.take(i + 1)) == old_dropped.push(s.description));
            }
        }
        assert(all.take(all.len() as int) == all);
        (Plan { steps: kept, ..self }.finalize(), dropped)
    }
}

/// Every step's data is within the allowlists.
pub open spec fn all_valid(steps: Seq<StepView>) -> bool {
    forall|i: int| 0 <= i < steps.len() ==> (#[trigger] steps[i]).kind.valid()
}

proof fn lemma_filter_valid(steps: Seq<StepView>)
    ensures
        all_valid(steps.filter(valid_step())),
        steps.filter(valid_step()).len() + steps.filter(invalid_step()).len() == steps.len(),
        all_valid(steps) ==> steps.filter(valid_step()) == steps && steps.filter(invalid_step())
            == Seq::<StepView>::empty(),
    decreases steps.len(),
{
    reveal(Seq::filter);
    if steps.len() > 0 {
        let init = steps.drop_last();
        lemma_filter_valid(init);
        if all_valid(steps) {
            assert(forall|i: int| 0 <= i < init.len() ==> init[i] == steps[i]);
            assert(steps.last().kind.valid());
            assert(steps == init.push(steps.last()));
        }
    }
}

/// Finalizing a finalized plan changes nothing.
pub proof fn law_finalize_idempotent(p: PlanView)
    ensures
        p.finalized().finalized() == p.finalized(),
{
    let f = p.finalized();
    assert(described_steps(f.steps) == f.steps);
    if any_system_changing(p.steps) {
        let i = choose|i: int|
            0 <= i < p.steps.len() && (#[trigger] p.steps[i]).kind.system_changing();
        assert(f.steps[i].kind.system_changing());
    }
    if any_system_changing(f.steps) {
        let i = choose|i: int|
            0 <= i < f.steps.len() && (#[trigger] f.steps[i]).kind.system_changing();
        assert(p.steps[i].kind.system_changing());
    }
}

/// A finalized plan waits for the user's approval exactly if some step is
/// neither the launch of an application nor a utility action, whatever its
/// confirmation flag said before.
pub proof fn law_only_launch_and_utility_skip_confirmation(p: PlanView)
    ensures
        !p.finalized().requires_confirmation <==> forall|i: int|
            0 <= i < p.finalized().steps.len() ==> ((#[trigger] p.finalized().steps[i]).kind is LaunchOrFocus
                || p.finalized().steps[i].kind is Utility),
{
    let f = p.finalized();
    assert forall|i: int| 0 <= i < f.steps.len() implies #[trigger] f.steps[i].kind
        == p.steps[i].kind by {}
    if any_system_changing(p.steps) {
        let i = choose|i: int|
            0 <= i < p.steps.len() && (#[trigger] p.steps[i]).kind.system_changing();
        assert(f.steps[i].kind.system_changing());
    } else {
        assert forall|i: int| 0 <= i < f.steps.len() implies ((#[trigger] f.steps[i]).kind is LaunchOrFocus
            || f.steps[i].kind is Utility) by {
            assert(!p.steps[i].kind.system_changing());
        }
    }
}

/// What is shown is what will run: every description of a finalized plan is
/// the one that its step's kind gives it.
pub proof fn law_descriptions_match_steps(p: PlanView, i: int)
    requires
        0 <= i < p.finalized().steps.len(),
    ensures
        p.finalized().steps[i].description == p.finalized().steps[i].kind.description(),
{
}

/// Every step of a sanitized plan is within the allowlists, and every step of
/// the plan was either kept or reported as dropped.
pub proof fn law_sanitize_keeps_exactly_the_valid_steps(p: PlanView)
    ensures
        all_valid(p.sanitized().steps),
        p.sanitized().steps.len() + dropped_descriptions(p.steps).len() == p.steps.len(),
        forall|i: int|
            0 <= i < p.steps.len() && (#[trigger] p.steps[i]).kind.valid()
                ==> p.sanitized().steps.contains(p.steps[i].described()),
{
    lemma_filter_valid(p.steps);
    let kept = p.steps.filter(valid_step());
    assert forall|i: int| 0 <= i < p.sanitized().steps.len() implies (
    #[trigger] p.sanitized().steps[i]).kind.valid() by {
        assert(kept[i].kind.valid());
    }
    assert forall|i: int|
        0 <= i < p.steps.len() && (
        #[trigger] p.steps[i]).kind.valid() implies p.sanitized().steps.contains(
        p.steps[i].described(),
    ) by {
        assert(p.steps.contains(p.steps[i]));
        p.steps.lemma_filter_contains(valid_step(), i);
        let k = choose|k: int| 0 <= k < kept.len() && kept[k] == p.steps[i];
        assert(p.sanitized().steps[k] == p.steps[i].described());
    }
}

/// Sanitizing a sanitized plan changes nothing and drops nothing.
pub proof fn law_sanitize_idempotent(p: PlanView)
    ensures
        p.sanitized().sanitized() == p.sanitized(),
        dropped_descriptions(p.sanitized().steps) == Seq::<Seq<char>>::empty(),
{
    law_sanitize_keeps_exactly_the_valid_steps(p);
    lemma_filter_valid(p.sanitized().steps);
    law_finalize_idempotent(PlanView { steps: p.steps.filter(valid_step()), ..p });
    assert(PlanView { steps: p.sanitized().steps.filter(valid_step()), ..p.sanitized() }
        == p.sanitized());
    assert(dropped_descriptions(p.sanitized().steps) == Seq::<Seq<char>>::empty());
}

/// The characters that a shell gives a meaning to.
pub open spec fn shell_metachar(c: char) -> bool {
    c == ';' || c == '|' || c == '&' || c == '`' || c == '$' || c == '<' || c == '>' || c == '('
        || c == ')' || c == '\n' || c == '\0' || c == ' ' || c == '/' || c == '\'' || c == '"'
}

/// A package name or a unit name that passed validation holds no character
/// that a shell gives a meaning to, no space and no path separator; a terminal
/// token or a configuration text that passed holds no pipe, redirect, command
/// separator, substitution or line break.
pub proof fn law_valid_names_hold_no_shell_syntax(name: Seq<char>, i: int)
    requires
        0 <= i < name.len(),
    ensures
        valid_package_name(name) ==> !shell_metachar(name[i]),
        valid_unit_name(name) ==> !shell_metachar(name[i]),
        valid_terminal_token(name) ==> !terminal_metachar(name[i]),
        valid_config_text(name) ==> !terminal_metachar(name[i]),
{
}

/// A package name is valid exactly if it has at least one and at most 127 bytes
/// and is made of ASCII letters of either case, digits, dots, underscores,
/// pluses and hyphens. Of a unit name the same holds, with the at sign and the
/// colon in place of the plus.
pub proof fn law_valid_names_are_made_of_allowed_characters(name: Seq<char>)
    ensures
        valid_package_name(name) <==> 1 <= name.len() && encode_utf8(name).len() <= 127 && forall|
            i: int,
        |
            0 <= i < name.len() ==> ('a' <= #[trigger] name[i] <= 'z' || 'A' <= name[i] <= 'Z'
                || '0' <= name[i] <= '9' || "._+-"@.contains(name[i])),
        valid_unit_name(name) <==> 1 <= name.len() && encode_utf8(name).len() <= 127 && forall|
            i: int,
        |
            0 <= i < name.len() ==> ('a' <= #[trigger] name[i] <= 'z' || 'A' <= name[i] <= 'Z'
                || '0' <= name[i] <= '9' || "._-@:"@.contains(name[i])),
{
    lemma_listed("._+-"@, "._-@:"@);
    assert forall|i: int| 0 <= i < name.len() implies package_char(#[trigger] name[i]) == ('a'
        <= name[i] <= 'z' || 'A' <= name[i] <= 'Z' || '0' <= name[i] <= '9' || "._+-"@.contains(
        name[i],
    )) by {}
    assert forall|i: int| 0 <= i < name.len() implies unit_char(#[trigger] name[i]) == ('a'
        <= name[i] <= 'z' || 'A' <= name[i] <= 'Z' || '0' <= name[i] <= '9' || "._-@:"@.contains(
        name[i],
    )) by {}
}

proof fn lemma_listed(package: Seq<char>, unit: Seq<char>)
    requires
        package == "._+-"@,
        unit == "._-@:"@,
    ensures
        forall|c: char| #[trigger]
            package.contains(c) <==> c == '.' || c == '_' || c == '+' || c == '-',
        forall|c: char| #[trigger]
            unit.contains(c) <==> c == '.' || c == '_' || c == '-' || c == '@' || c == ':',
{
    reveal_strlit("._+-");
    reveal_strlit("._-@:");
    assert(package[0] == '.' && package[1] == '_' && package[2] == '+' && package[3] == '-');
    assert(unit[0] == '.' && unit[1] == '_' && unit[2] == '-' && unit[3] == '@' && unit[4] == ':');
}

/// The nine characters that mark shell syntax.
pub open spec fn marks_shell_syntax(c: char) -> bool {
    "\n\0;|&`$<>"@.contains(c)
}

proof fn lemma_marks(c: char)
    ensures
        marks_shell_syntax(c) <==> c == '\n' || c == '\0' || c == ';' || c == '|' || c == '&' || c
            == '`' || c == '$' || c == '<' || c == '>',
{
    let marks = "\n\0;|&`$<>"@;
    reveal_strlit("\n\0;|&`$<>");
    assert(marks[0] == '\n' && marks[1] == '\0' && marks[2] == ';' && marks[3] == '|' && marks[4]
        == '&' && marks[5] == '`' && marks[6] == '$' && marks[7] == '<' && marks[8] == '>');
}

/// A terminal token is valid exactly if it has at least one and at most 511
/// bytes and holds nothing that marks shell syntax; a configuration text, if it
/// has at most 255. Spaces, slashes and letters of every script are allowed.
pub proof fn law_other_texts_are_refused_only_for_shell_syntax(s: Seq<char>)
    ensures
        valid_terminal_token(s) <==> 1 <= s.len() && encode_utf8(s).len() <= 511 && forall|i: int|
            0 <= i < s.len() ==> !marks_shell_syntax(#[trigger] s[i]),
        valid_config_text(s) <==> 1 <= s.len() && encode_utf8(s).len() <= 255 && forall|i: int|
            0 <= i < s.len() ==> !marks_shell_syntax(#[trigger] s[i]),
{
    assert forall|i: int| 0 <= i < s.len() implies terminal_metachar(#[trigger] s[i])
        == marks_shell_syntax(s[i]) by {
        lemma_marks(s[i]);
    }
    assert forall|i: int| 0 <= i < s.len() implies config_metachar(#[trigger] s[i])
        == marks_shell_syntax(s[i]) by {
        lemma_marks(s[i]);
    }
}

/// The texts of a step that validation reads, and what it demands of each.
/// Steps that hold none of them are always valid.
pub proof fn law_validation_reads_every_text(kind: KindView)
    ensures
        kind matches KindView::InstallPackage { packages, .. } ==> (kind.valid() <==> packages.len()
            > 0 && forall|i: int|
            0 <= i < packages.len() ==> valid_package_name(#[trigger] packages[i])),
        kind matches KindView::RemovePackage { packages, .. } ==> (kind.valid() <==> packages.len()
            > 0 && forall|i: int|
            0 <= i < packages.len() ==> valid_package_name(#[trigger] packages[i])),
        kind matches KindView::Systemctl { unit, .. } ==> (kind.valid() <==> unit is None
            || valid_unit_name(unit->0)),
        kind matches KindView::RunInTerminal { binary, args } ==> (kind.valid() <==> forall|
            t: Seq<char>,
        |
            t == binary || args.contains(t) ==> #[trigger] valid_terminal_token(t)),
        kind matches KindView::SetConfig { file, group, key, value } ==> (kind.valid() <==> forall|
            t: Seq<char>,
        |
            t == file || t == group || t == key || t == value ==> #[trigger] valid_config_text(t)),
        kind is LaunchOrFocus || kind is CloseWindow || kind is Utility || kind is PowerAction
            ==> kind.valid(),
{
    if let KindView::RunInTerminal { binary, args } = kind {
        assert forall|i: int| 0 <= i < args.len() implies args.contains(#[trigger] args[i]) by {}
        if valid_terminal_tokens(args) {
            assert forall|t: Seq<char>| args.contains(t) implies #[trigger] valid_terminal_token(
                t,
            ) by {
                let i = choose|i: int| 0 <= i < args.len() && args[i] == t;
                assert(valid_terminal_token(args[i]));
            }
        }
    }
}

/// Validation takes the steps of a plan one by one: a valid step stays, under
/// the line that its kind gives it, and nothing is reported; any other goes,
/// and the line that it came with is reported. What came before it and what
/// comes after it stays in order. The rest of the plan is left alone.
pub proof fn law_validation_goes_step_by_step(
    p: PlanView,
    before: Seq<StepView>,
    step: StepView,
    after: Seq<StepView>,
)
    requires
        p.steps == before.push(step) + after,
    ensures
        ({
            let kept = p.sanitized();
            let first = PlanView { steps: before, ..p }.sanitized().steps;
            let last = PlanView { steps: after, ..p }.sanitized().steps;
            let told = dropped_descriptions(p.steps);
            &&& kept.id == p.id && kept.thinking == p.thinking && kept.reply == p.reply
            &&& step.kind.valid() ==> kept.steps == first.push(
                StepView { kind: step.kind, description: step.kind.description() },
            ) + last && told == dropped_descriptions(before) + dropped_descriptions(after)
            &&& !step.kind.valid() ==> kept.steps == first + last && told == dropped_descriptions(
                before,
            ).push(step.description) + dropped_descriptions(after)
        }),
{
    let one = seq![step];
    reveal(Seq::filter);
    assert(before.push(step) == before + one);
    assert(one.drop_last() == Seq::<StepView>::empty());
    assert(one.last() == step);
    let none = Seq::<StepView>::empty();
    assert(none.filter(valid_step()) == none && none.filter(invalid_step()) == none);
    assert(none.push(step) == one);
    text::lemma_filter_two(before + one, after, valid_step());
    text::lemma_filter_two(before, one, valid_step());
    text::lemma_filter_two(before + one, after, invalid_step());
    text::lemma_filter_two(before, one, invalid_step());
    let kept = p.sanitized().steps;
    let first = PlanView { steps: before, ..p }.sanitized().steps;
    let last = PlanView { steps: after, ..p }.sanitized().steps;
    let told = dropped_descriptions(p.steps);
    if step.kind.valid() {
        assert(one.filter(valid_step()) == one);
        assert(one.filter(invalid_step()) == none);
        assert(kept == first.push(step.described()) + last);
        assert(told == dropped_descriptions(before) + dropped_descriptions(after));
    } else {
        assert(one.filter(valid_step()) == none);
        assert(one.filter(invalid_step()) == one);
        assert(kept == first + last);
        assert(told == dropped_descriptions(before).push(step.description) + dropped_descriptions(
            after,
        ));
    }
}

/// A plan without steps comes out without steps, and nothing is reported.
pub proof fn law_no_steps_stay_no_steps(p: PlanView)
    requires
        p.steps.len() == 0,
    ensures
        p.sanitized().steps.len() == 0,
        dropped_descriptions(p.steps).len() == 0,
        !p.sanitized().requires_confirmation,
{
    lemma_filter_valid(p.steps);
}

/// Finalizing keeps every step where it stands and what it does.
pub proof fn law_finalizing_keeps_what_is_done(p: PlanView, i: int)
    requires
        0 <= i < p.steps.len(),
    ensures
        p.finalized().steps.len() == p.steps.len(),
        p.finalized().steps[i].kind == p.steps[i].kind,
        p.finalized().id == p.id,
        p.finalized().reply == p.reply,
        p.finalized().thinking == p.thinking,
{
}

/// The line of a power action says which of the three it is.
pub proof fn law_power_actions_are_shown_by_name(action: PowerActionKind)
    ensures
        (KindView::PowerAction { action }).description() == match action {
            PowerActionKind::Reboot => "Reboot the machine"@,
            PowerActionKind::Shutdown => "Shutdown the machine"@,
            PowerActionKind::Suspend => "Suspend the machine"@,
        },
{
    reveal_strlit(" the machine");
    reveal_strlit("Reboot");
    reveal_strlit("Shutdown");
    reveal_strlit("Suspend");
    reveal_strlit("Reboot the machine");
    reveal_strlit("Shutdown the machine");
    reveal_strlit("Suspend the machine");
    assert((KindView::PowerAction { action }).description() == match action {
        PowerActionKind::Reboot => "Reboot the machine"@,
        PowerActionKind::Shutdown => "Shutdown the machine"@,
        PowerActionKind::Suspend => "Suspend the machine"@,
    });
}

/// The line of a package step says whether packages come or go, through which
/// manager, and which packages they are, in order.
pub proof fn law_package_steps_are_shown_by_name(
    manager: PackageManager,
    packages: Seq<Seq<char>>,
)
    ensures
        ({
            let list = joined(packages, ", "@);
            &&& (KindView::InstallPackage { manager, packages }).description() == match manager {
                PackageManager::Pacman => "Install via Pacman: "@,
                PackageManager::Aur => "Install via Aur: "@,
                PackageManager::Apt => "Install via Apt: "@,
                PackageManager::Dnf => "Install via Dnf: "@,
                PackageManager::Zypper => "Install via Zypper: "@,
                PackageManager::Flatpak => "Install via Flatpak: "@,
            } + list
            &&& (KindView::RemovePackage { manager, packages }).description() == match manager {
                PackageManager::Pacman => "Remove via Pacman: "@,
                PackageManager::Aur => "Remove via Aur: "@,
                PackageManager::Apt => "Remove via Apt: "@,
                PackageManager::Dnf => "Remove via Dnf: "@,
                PackageManager::Zypper => "Remove via Zypper: "@,
                PackageManager::Flatpak => "Remove via Flatpak: "@,
            } + list
        }),
{
    lemma_install_leads(manager);
    lemma_remove_leads(manager);
}

proof fn lemma_install_leads(manager: PackageManager)
    ensures
        "Install via "@ + manager.label_text() + ": "@ == match manager {
            PackageManager::Pacman => "Install via Pacman: "@,
            PackageManager::Aur => "Install via Aur: "@,
            PackageManager::Apt => "Install via Apt: "@,
            PackageManager::Dnf => "Install via Dnf: "@,
            PackageManager::Zypper => "Install via Zypper: "@,
            PackageManager::Flatpak => "Install via Flatpak: "@,
        },
{
    reveal_strlit("Install via ");
    reveal_strlit(": ");
    reveal_strlit("Pacman");
    reveal_strlit("Aur");
    reveal_strlit("Apt");
    reveal_strlit("Dnf");
    reveal_strlit("Zypper");
    reveal_strlit("Flatpak");
    reveal_strlit("Install via Pacman: ");
    reveal_strlit("Install via Aur: ");
    reveal_strlit("Install via Apt: ");
    reveal_strlit("Install via Dnf: ");
    reveal_strlit("Install via Zypper: ");
    reveal_strlit("Install via Flatpak: ");
}

proof fn lemma_remove_leads(manager: PackageManager)
    ensures
        "Remove via "@ + manager.label_text() + ": "@ == match manager {
            PackageManager::Pacman => "Remove via Pacman: "@,
            PackageManager::Aur => "Remove via Aur: "@,
            PackageManager::Apt => "Remove via Apt: "@,
            PackageManager::Dnf => "Remove via Dnf: "@,
            PackageManager::Zypper => "Remove via Zypper: "@,
            PackageManager::Flatpak => "Remove via Flatpak: "@,
        },
{
    reveal_strlit("Remove via ");
    reveal_strlit(": ");
    reveal_strlit("Pacman");
    reveal_strlit("Aur");
    reveal_strlit("Apt");
    reveal_strlit("Dnf");
    reveal_strlit("Zypper");
    reveal_strlit("Flatpak");
    reveal_strlit("Remove via Pacman: ");
    reveal_strlit("Remove via Aur: ");
    reveal_strlit("Remove via Apt: ");
    reveal_strlit("Remove via Dnf: ");
    reveal_strlit("Remove via Zypper: ");
    reveal_strlit("Remove via Flatpak: ");
}

/// The line of a service step names the verb, then the unit if there is one,
/// and says "(user)" exactly for the user's own services.
pub proof fn law_service_steps_are_shown_by_name(verb: SystemctlVerb, unit: Seq<char>)
    ensures
        ({
            let lead = match verb {
                SystemctlVerb::Start => "systemctl Start"@,
                SystemctlVerb::Stop => "systemctl Stop"@,
                SystemctlVerb::Restart => "systemctl Restart"@,
                SystemctlVerb::Enable => "systemctl Enable"@,
                SystemctlVerb::Disable => "systemctl Disable"@,
                SystemctlVerb::EnableNow => "systemctl EnableNow"@,
                SystemctlVerb::DisableNow => "systemctl DisableNow"@,
            };
            let shown = |unit: Option<Seq<char>>, user_scope: bool|
                (KindView::Systemctl { verb, unit, user_scope }).description();
            &&& shown(None, false) == lead
            &&& shown(None, true) == lead + " (user)"@
            &&& shown(Some(unit), false) == lead + seq![' '] + unit
            &&& shown(Some(unit), true) == shown(Some(unit), false) + " (user)"@
        }),
{
    reveal_strlit("systemctl ");
    reveal_strlit(" ");
    reveal_strlit("Start");
    reveal_strlit("Stop");
    reveal_strlit("Restart");
    reveal_strlit("Enable");
    reveal_strlit("Disable");
    reveal_strlit("EnableNow");
    reveal_strlit("DisableNow");
    reveal_strlit("systemctl Start");
    reveal_strlit("systemctl Stop");
    reveal_strlit("systemctl Restart");
    reveal_strlit("systemctl Enable");
    reveal_strlit("systemctl Disable");
    reveal_strlit("systemctl EnableNow");
    reveal_strlit("systemctl DisableNow");
    assert(" "@ == seq![' ']);
    assert("systemctl "@ + verb.label_text() == match verb {
        SystemctlVerb::Start => "systemctl Start"@,
        SystemctlVerb::Stop => "systemctl Stop"@,
        SystemctlVerb::Restart => "systemctl Restart"@,
        SystemctlVerb::Enable => "systemctl Enable"@,
        SystemctlVerb::Disable => "systemctl Disable"@,
        SystemctlVerb::EnableNow => "systemctl EnableNow"@,
        SystemctlVerb::DisableNow => "systemctl DisableNow"@,
    });
    let none = (KindView::Systemctl { verb, unit: None, user_scope: false }).description();
    assert(none == "systemctl "@ + verb.label_text());
    let some = (KindView::Systemctl { verb, unit: Some(unit), user_scope: false }).description();
    assert(some == "systemctl "@ + verb.label_text() + " "@ + unit);
    let user = (KindView::Systemctl { verb, unit: Some(unit), user_scope: true }).description();
    assert(user == some + " (user)"@);
}

/// The line of any other step starts with what is done and goes on with every
/// text of the step, in full and in order.
pub proof fn law_other_steps_are_shown_in_full(
    a: Seq<char>,
    b: Seq<char>,
    c: Seq<char>,
    d: Seq<char>,
    args: Seq<Seq<char>>,
)
    ensures
        (KindView::LaunchOrFocus { app_id: a }).description() == "Open or focus "@ + a,
        (KindView::CloseWindow { app_id: a }).description() == "Close "@ + a,
        (KindView::Utility { name: a }).description() == "Run utility action: "@ + a,
        (KindView::RunInTerminal { binary: a, args }).description() == "Run '"@ + joined(
            seq![a] + args,
            " "@,
        ) + "' in a new terminal"@,
        (KindView::SetConfig { file: a, group: b, key: c, value: d }).description() == joined(
            seq![joined(seq!["Set ["@ + a + "]"@, b + "/"@ + c], " "@), d],
            " = "@,
        ),
{
    reveal_strlit(" ");
    text::law_joining_two_lists(seq![a], args, " "@);
    assert(joined(seq![a], " "@) == a);
    if args.len() == 0 {
        assert(seq![a] + args == seq![a]);
    } else {
        assert("Run '"@ + a + " "@ + joined(args, " "@) == "Run '"@ + (a + " "@ + joined(
            args,
            " "@,
        )));
    }
    assert((KindView::RunInTerminal { binary: a, args }).description() == "Run '"@ + joined(
        seq![a] + args,
        " "@,
    ) + "' in a new terminal"@);
    let head = "Set ["@ + a + "]"@;
    let middle = b + "/"@ + c;
    assert(seq![head, middle].drop_last() == seq![head]);
    assert(joined(seq![head], " "@) == head);
    let lead = joined(seq![head, middle], " "@);
    assert(lead == head + " "@ + middle);
    assert(seq![lead, d].drop_last() == seq![lead]);
    assert(joined(seq![lead], " = "@) == lead);
    assert(joined(seq![lead, d], " = "@) == lead + " = "@ + d);
    reveal_strlit("]");
    reveal_strlit("] ");
    assert("] "@ == "]"@ + " "@);
    assert((KindView::SetConfig { file: a, group: b, key: c, value: d }).description() == lead
        + " = "@ + d);
}

/// What is shown tells steps apart: two power actions with one line are one,
/// and so are two verbs for one unit and scope, and two managers for one list
/// of packages; and no removal is shown as an installation is.
pub proof fn law_lines_tell_steps_apart(
    actions: (PowerActionKind, PowerActionKind),
    verbs: (SystemctlVerb, SystemctlVerb),
    managers: (PackageManager, PackageManager),
    unit: Option<Seq<char>>,
    user_scope: bool,
    packages: Seq<Seq<char>>,
)
    ensures
        (KindView::PowerAction { action: actions.0 }).description() == (KindView::PowerAction {
            action: actions.1,
        }).description() ==> actions.0 == actions.1,
        (KindView::Systemctl { verb: verbs.0, unit: None, user_scope }).description()
            == (KindView::Systemctl { verb: verbs.1, unit: None, user_scope }).description()
            ==> verbs.0 == verbs.1,
        (KindView::InstallPackage { manager: managers.0, packages }).description()
            == (KindView::InstallPackage { manager: managers.1, packages }).description()
            ==> managers.0 == managers.1,
        (KindView::RemovePackage { manager: managers.0, packages }).description()
            == (KindView::RemovePackage { manager: managers.1, packages }).description()
            ==> managers.0 == managers.1,
        (KindView::InstallPackage { manager: managers.0, packages }).description()
            != (KindView::RemovePackage { manager: managers.1, packages }).description(),
        (KindView::Systemctl { verb: verbs.0, unit, user_scope: true }).description()
            != (KindView::Systemctl { verb: verbs.0, unit, user_scope: false }).description(),
{
    lemma_power_labels_differ(actions.0, actions.1);
    lemma_verb_labels_differ(verbs.0, verbs.1);
    lemma_manager_labels_differ(managers.0, managers.1);
    reveal_strlit(" (user)");
    reveal_strlit("Install via ");
    reveal_strlit("Remove via ");
    let x = (KindView::InstallPackage { manager: managers.0, packages }).description();
    let y = (KindView::RemovePackage { manager: managers.1, packages }).description();
    assert(x[0] == 'I' && y[0] == 'R');
    lemma_same_middle(actions.0.label_text(), actions.1.label_text(), Seq::empty(), " the machine"@);
    lemma_same_middle(
        managers.0.label_text(),
        managers.1.label_text(),
        "Install via "@,
        ": "@ + joined(packages, ", "@),
    );
    lemma_same_middle(
        managers.0.label_text(),
        managers.1.label_text(),
        "Remove via "@,
        ": "@ + joined(packages, ", "@),
    );
    let scope = if user_scope {
        " (user)"@
    } else {
        Seq::empty()
    };
    lemma_same_middle(verbs.0.label_text(), verbs.1.label_text(), "systemctl "@, scope);
    assert(actions.0.label_text() + " the machine"@ == Seq::empty() + actions.0.label_text()
        + " the machine"@);
    assert(actions.1.label_text() + " the machine"@ == Seq::empty() + actions.1.label_text()
        + " the machine"@);
    assert(x == "Install via "@ + managers.0.label_text() + (": "@ + joined(packages, ", "@)));
    assert((KindView::InstallPackage { manager: managers.1, packages }).description()
        == "Install via "@ + managers.1.label_text() + (": "@ + joined(packages, ", "@)));
    assert(y == "Remove via "@ + managers.1.label_text() + (": "@ + joined(packages, ", "@)));
    assert((KindView::RemovePackage { manager: managers.0, packages }).description() == "Remove via "@
        + managers.0.label_text() + (": "@ + joined(packages, ", "@)));
    let user = (KindView::Systemctl { verb: verbs.0, unit, user_scope: true }).description();
    let system = (KindView::Systemctl { verb: verbs.0, unit, user_scope: false }).description();
    assert(user.len() == system.len() + 7);
}

/// Texts between the same ends are the same where the wholes are.
proof fn lemma_same_middle(a: Seq<char>, b: Seq<char>, lead: Seq<char>, tail: Seq<char>)
    ensures
        lead + a + tail == lead + b + tail ==> a == b,
{
    let x = lead + a + tail;
    let y = lead + b + tail;
    if x == y {
        assert(x.len() == y.len());
        assert forall|i: int| 0 <= i < a.len() implies a[i] == b[i] by {
            assert(x[lead.len() + i] == a[i]);
            assert(y[lead.len() + i] == b[i]);
        }
        assert(a == b);
    }
}

proof fn lemma_power_labels_differ(a: PowerActionKind, b: PowerActionKind)
    ensures
        a.label_text() == b.label_text() ==> a == b,
{
    reveal_strlit("Reboot");
    reveal_strlit("Shutdown");
    reveal_strlit("Suspend");
    let x = a.label_text();
    let y = b.label_text();
    if x == y {
        assert(x[0] == y[0] && x[1] == y[1]);
    }
}

proof fn lemma_verb_labels_differ(a: SystemctlVerb, b: SystemctlVerb)
    ensures
        a.label_text() == b.label_text() ==> a == b,
{
    reveal_strlit("Start");
    reveal_strlit("Stop");
    reveal_strlit("Restart");
    reveal_strlit("Enable");
    reveal_strlit("Disable");
    reveal_strlit("EnableNow");
    reveal_strlit("DisableNow");
    let x = a.label_text();
    let y = b.label_text();
    if x == y {
        assert(x.len() == y.len());
        assert(x[0] == y[0]);
    }
}

proof fn lemma_manager_labels_differ(a: PackageManager, b: PackageManager)
    ensures
        a.label_text() == b.label_text() ==> a == b,
{
    reveal_strlit("Pacman");
    reveal_strlit("Aur");
    reveal_strlit("Apt");
    reveal_strlit("Dnf");
    reveal_strlit("Zypper");
    reveal_strlit("Flatpak");
    let x = a.label_text();
    let y = b.label_text();
    if x == y {
        assert(x.len() == y.len());
        assert(x[0] == y[0] && x[1] == y[1]);
    }
}

} // verus!
