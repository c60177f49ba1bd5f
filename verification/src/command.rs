//! Commands as values: a program and its argument vector. There is no shell
//! anywhere: an argument is handed to the program as it is.
use vstd::prelude::*;

use crate::plan::{text_of, PackageManager, PowerActionKind, SystemctlVerb};
use crate::text::{
    self, law_case_is_all_that_may_differ, same_ascii_case, texts, whitespace, words,
};

verus! {

#[derive(Debug, PartialEq, Eq)]
pub struct CommandLine {
    pub program: String,
    pub args: Vec<String>,
}

/// The model of a `CommandLine`.
pub struct CommandView {
    pub program: Seq<char>,
    pub args: Seq<Seq<char>>,
}

impl View for CommandLine {
    type V = CommandView;

    open spec fn view(&self) -> CommandView {
        CommandView { program: self.program@, args: texts(self.args@) }
    }
}

/// The texts that a list of string slices holds.
pub open spec fn slice_texts(list: Seq<&str>) -> Seq<Seq<char>> {
    list.map_values(|s: &str| s@)
}

/// The command with fixed arguments first and given ones after them.
pub fn command(program: &str, fixed: Vec<&str>, given: &Vec<String>) -> (c: CommandLine)
    ensures
        c@ == (CommandView { program: program@, args: slice_texts(fixed@) + texts(given@) }),
{
    let mut args: Vec<String> = Vec::new();
    for i in 0..fixed.len()
        invariant
            texts(args@) == slice_texts(fixed@).take(i as int),
    {
        let ghost before = texts(args@);
        args.push(fixed[i].to_string());
        assert(texts(args@) == before.push(fixed@[i as int]@));
        assert(slice_texts(fixed@).take(i + 1) == before.push(fixed@[i as int]@));
    }
    assert(slice_texts(fixed@).take(fixed@.len() as int) == slice_texts(fixed@));
    let ghost lead = texts(args@);
    let mut rest = text::copy_texts(given);
    let ghost tail = texts(rest@);
    args.append(&mut rest);
    assert(texts(args@) == lead + tail);
    CommandLine { program: program.to_string(), args }
}

/// The command of a utility action.
pub open spec fn utility(name: Seq<char>) -> Option<CommandView> {
    if name == "volume_up"@ {
        Some(
            CommandView {
                program: "pactl"@,
                args: seq!["set-sink-volume"@, "@DEFAULT_SINK@"@, "+5%"@],
            },
        )
    } else if name == "volume_down"@ {
        Some(
            CommandView {
                program: "pactl"@,
                args: seq!["set-sink-volume"@, "@DEFAULT_SINK@"@, "-5%"@],
            },
        )
    } else if name == "mute"@ {
        Some(
            CommandView {
                program: "pactl"@,
                args: seq!["set-sink-mute"@, "@DEFAULT_SINK@"@, "toggle"@],
            },
        )
    } else if name == "brightness_up"@ {
        Some(CommandView { program: "brightnessctl"@, args: seq!["set"@, "+10%"@] })
    } else if name == "brightness_down"@ {
        Some(CommandView { program: "brightnessctl"@, args: seq!["set"@, "10%-"@] })
    } else if name == "lock_screen"@ {
        Some(CommandView { program: "loginctl"@, args: seq!["lock-session"@] })
    } else if name == "screenshot"@ {
        Some(CommandView { program: "spectacle"@, args: seq!["-b"@, "-n"@] })
    } else {
        None
    }
}

/// The fixed table of utility actions. The argument vectors live in code,
/// since these actions run without confirmation.
pub fn utility_command(name: &str) -> (r: Option<(&'static str, Vec<&'static str>)>)
    ensures
        match r {
            Some((program, args)) => utility(name@) == Some(
                CommandView { program: program@, args: slice_texts(args@) },
            ),
            None => utility(name@) is None,
        },
{
    if text::same(name, "volume_up") {
        let args = vec!["set-sink-volume", "@DEFAULT_SINK@", "+5%"];
        assert(slice_texts(args@) == seq!["set-sink-volume"@, "@DEFAULT_SINK@"@, "+5%"@]);
        Some(("pactl", args))
    } else if text::same(name, "volume_down") {
        let args = vec!["set-sink-volume", "@DEFAULT_SINK@", "-5%"];
        assert(slice_texts(args@) == seq!["set-sink-volume"@, "@DEFAULT_SINK@"@, "-5%"@]);
        Some(("pactl", args))
    } else if text::same(name, "mute") {
        let args = vec!["set-sink-mute", "@DEFAULT_SINK@", "toggle"];
        assert(slice_texts(args@) == seq!["set-sink-mute"@, "@DEFAULT_SINK@"@, "toggle"@]);
        Some(("pactl", args))
    } else if text::same(name, "brightness_up") {
        let args = vec!["set", "+10%"];
        assert(slice_texts(args@) == seq!["set"@, "+10%"@]);
        Some(("brightnessctl", args))
    } else if text::same(name, "brightness_down") {
        let args = vec!["set", "10%-"];
        assert(slice_texts(args@) == seq!["set"@, "10%-"@]);
        Some(("brightnessctl", args))
    } else if text::same(name, "lock_screen") {
        let args = vec!["lock-session"];
        assert(slice_texts(args@) == seq!["lock-session"@]);
        Some(("loginctl", args))
    } else if text::same(name, "screenshot") {
        let args = vec!["-b", "-n"];
        assert(slice_texts(args@) == seq!["-b"@, "-n"@]);
        Some(("spectacle", args))
    } else {
        None
    }
}

/// The names of the utility actions.
pub open spec fn utility_name_list() -> Seq<Seq<char>> {
    seq![
        "volume_up"@,
        "volume_down"@,
        "mute"@,
        "brightness_up"@,
        "brightness_down"@,
        "lock_screen"@,
        "screenshot"@,
    ]
}

/// The names of the utility actions.
pub fn utility_names() -> (names: Vec<String>)
    ensures
        texts(names@) == utility_name_list(),
{
    let names = vec![
        "volume_up".to_string(),
        "volume_down".to_string(),
        "mute".to_string(),
        "brightness_up".to_string(),
        "brightness_down".to_string(),
        "lock_screen".to_string(),
        "screenshot".to_string(),
    ];
    assert(texts(names@) == utility_name_list());
    names
}

/// The names that are listed are exactly those that have a command.
pub proof fn law_listed_utilities_have_commands(name: Seq<char>)
    ensures
        utility_name_list().contains(name) <==> utility(name) is Some,
{
    let list = utility_name_list();
    assert(list[0] == "volume_up"@ && list[1] == "volume_down"@ && list[2] == "mute"@ && list[3]
        == "brightness_up"@ && list[4] == "brightness_down"@ && list[5] == "lock_screen"@ && list[6]
        == "screenshot"@);
    if utility(name) is Some {
        assert(exists|i: int| 0 <= i < 7 && list[i] == name);
    }
}

/// The AUR helper: paru where it is installed, else yay.
pub open spec fn aur_helper(paru_found: bool) -> Seq<char> {
    if paru_found {
        "paru"@
    } else {
        "yay"@
    }
}

/// The command that installs packages.
pub open spec fn install_command(
    manager: PackageManager,
    packages: Seq<Seq<char>>,
    paru_found: bool,
) -> CommandView {
    match manager {
        PackageManager::Pacman => CommandView {
            program: "sudo"@,
            args: seq!["pacman"@, "-S"@, "--needed"@, "--noconfirm"@] + packages,
        },
        PackageManager::Aur => CommandView {
            program: aur_helper(paru_found),
            args: seq!["-S"@, "--needed"@, "--noconfirm"@] + packages,
        },
        PackageManager::Apt => CommandView {
            program: "sudo"@,
            args: seq!["apt-get"@, "install"@, "-y"@] + packages,
        },
        PackageManager::Dnf => CommandView {
            program: "sudo"@,
            args: seq!["dnf"@, "install"@, "-y"@] + packages,
        },
        PackageManager::Zypper => CommandView {
            program: "sudo"@,
            args: seq!["zypper"@, "install"@, "-y"@] + packages,
        },
        PackageManager::Flatpak => CommandView {
            program: "flatpak"@,
            args: seq!["install"@, "-y"@, "flathub"@] + packages,
        },
    }
}

/// The command that removes packages.
pub open spec fn remove_command(
    manager: PackageManager,
    packages: Seq<Seq<char>>,
    paru_found: bool,
) -> CommandView {
    match manager {
        PackageManager::Pacman => CommandView {
            program: "sudo"@,
            args: seq!["pacman"@, "-R"@, "--noconfirm"@] + packages,
        },
        PackageManager::Aur => CommandView {
            program: aur_helper(paru_found),
            args: seq!["-R"@, "--noconfirm"@] + packages,
        },
        PackageManager::Apt => CommandView {
            program: "sudo"@,
            args: seq!["apt-get"@, "remove"@, "-y"@] + packages,
        },
        PackageManager::Dnf => CommandView {
            program: "sudo"@,
            args: seq!["dnf"@, "remove"@, "-y"@] + packages,
        },
        PackageManager::Zypper => CommandView {
            program: "sudo"@,
            args: seq!["zypper"@, "remove"@, "-y"@] + packages,
        },
        PackageManager::Flatpak => CommandView {
            program: "flatpak"@,
            args: seq!["uninstall"@, "-y"@] + packages,
        },
    }
}

/// The command that installs packages. `paru_found` tells whether paru is
/// installed; only the AUR asks for it.
pub fn manager_install_cmd(
    manager: PackageManager,
    packages: &Vec<String>,
    paru_found: bool,
) -> (c: CommandLine)
    ensures
        c@ == install_command(manager, texts(packages@), paru_found),
{
    match manager {
        PackageManager::Pacman => {
            let fixed = vec!["pacman", "-S", "--needed", "--noconfirm"];
            assert(slice_texts(fixed@) == seq!["pacman"@, "-S"@, "--needed"@, "--noconfirm"@]);
            command("sudo", fixed, packages)
        },
        PackageManager::Aur => {
            let fixed = vec!["-S", "--needed", "--noconfirm"];
            assert(slice_texts(fixed@) == seq!["-S"@, "--needed"@, "--noconfirm"@]);
            if paru_found {
                command("paru", fixed, packages)
            } else {
                command("yay", fixed, packages)
            }
        },
        PackageManager::Apt => {
            let fixed = vec!["apt-get", "install", "-y"];
            assert(slice_texts(fixed@) == seq!["apt-get"@, "install"@, "-y"@]);
            command("sudo", fixed, packages)
        },
        PackageManager::Dnf => {
            let fixed = vec!["dnf", "install", "-y"];
            assert(slice_texts(fixed@) == seq!["dnf"@, "install"@, "-y"@]);
            command("sudo", fixed, packages)
        },
        PackageManager::Zypper => {
            let fixed = vec!["zypper", "install", "-y"];
            assert(slice_texts(fixed@) == seq!["zypper"@, "install"@, "-y"@]);
            command("sudo", fixed, packages)
        },
        PackageManager::Flatpak => {
            let fixed = vec!["install", "-y", "flathub"];
            assert(slice_texts(fixed@) == seq!["install"@, "-y"@, "flathub"@]);
            command("flatpak", fixed, packages)
        },
    }
}

/// The command that removes packages. `paru_found` tells whether paru is
/// installed; only the AUR asks for it.
pub fn manager_remove_cmd(
    manager: PackageManager,
    packages: &Vec<String>,
    paru_found: bool,
) -> (c: CommandLine)
    ensures
        c@ == remove_command(manager, texts(packages@), paru_found),
{
    match manager {
        PackageManager::Pacman => {
            let fixed = vec!["pacman", "-R", "--noconfirm"];
            assert(slice_texts(fixed@) == seq!["pacman"@, "-R"@, "--noconfirm"@]);
            command("sudo", fixed, packages)
        },
        PackageManager::Aur => {
            let fixed = vec!["-R", "--noconfirm"];
            assert(slice_texts(fixed@) == seq!["-R"@, "--noconfirm"@]);
            if paru_found {
                command("paru", fixed, packages)
            } else {
                command("yay", fixed, packages)
            }
        },
        PackageManager::Apt => {
            let fixed = vec!["apt-get", "remove", "-y"];
            assert(slice_texts(fixed@) == seq!["apt-get"@, "remove"@, "-y"@]);
            command("sudo", fixed, packages)
        },
        PackageManager::Dnf => {
            let fixed = vec!["dnf", "remove", "-y"];
            assert(slice_texts(fixed@) == seq!["dnf"@, "remove"@, "-y"@]);
            command("sudo", fixed, packages)
        },
        PackageManager::Zypper => {
            let fixed = vec!["zypper", "remove", "-y"];
            assert(slice_texts(fixed@) == seq!["zypper"@, "remove"@, "-y"@]);
            command("sudo", fixed, packages)
        },
        PackageManager::Flatpak => {
            let fixed = vec!["uninstall", "-y"];
            assert(slice_texts(fixed@) == seq!["uninstall"@, "-y"@]);
            command("flatpak", fixed, packages)
        },
    }
}

/// The verb that systemctl is given.
pub open spec fn verb_text(verb: SystemctlVerb) -> Seq<char> {
    match verb {
        SystemctlVerb::Start => "start"@,
        SystemctlVerb::Stop => "stop"@,
        SystemctlVerb::Restart => "restart"@,
        SystemctlVerb::Enable => "enable"@,
        SystemctlVerb::Disable => "disable"@,
        SystemctlVerb::EnableNow => "enable"@,
        SystemctlVerb::DisableNow => "disable"@,
    }
}

/// The systemctl command: the user's own instance as the user, the system's
/// through sudo.
pub open spec fn systemctl_command(
    verb: SystemctlVerb,
    unit: Option<Seq<char>>,
    user_scope: bool,
) -> CommandView {
    let lead = if user_scope {
        seq!["--user"@, verb_text(verb)]
    } else {
        seq!["systemctl"@, verb_text(verb)]
    };
    let now = if verb is EnableNow || verb is DisableNow {
        seq!["--now"@]
    } else {
        Seq::empty()
    };
    let target = match unit {
        Some(u) => seq![u],
        None => Seq::empty(),
    };
    CommandView {
        program: if user_scope {
            "systemctl"@
        } else {
            "sudo"@
        },
        args: lead + now + target,
    }
}

/// The systemctl command of a verb and a unit.
pub fn systemctl_cmd(verb: SystemctlVerb, unit: &Option<String>, user_scope: bool) -> (c:
    CommandLine)
    ensures
        c@ == systemctl_command(verb, text_of(*unit), user_scope),
{
    let mut args: Vec<String> = Vec::new();
    let program: &str = if user_scope {
        "systemctl"
    } else {
        "sudo"
    };
    if user_scope {
        args.push("--user".to_string());
    } else {
        args.push("systemctl".to_string());
    }
    let verb_str: &str = match verb {
        SystemctlVerb::Start => "start",
        SystemctlVerb::Stop => "stop",
        SystemctlVerb::Restart => "restart",
        SystemctlVerb::Enable => "enable",
        SystemctlVerb::Disable => "disable",
        SystemctlVerb::EnableNow => "enable",
        SystemctlVerb::DisableNow => "disable",
    };
    args.push(verb_str.to_string());
    if verb == SystemctlVerb::EnableNow || verb == SystemctlVerb::DisableNow {
        args.push("--now".to_string());
    }
    if let Some(u) = unit {
        args.push(u.clone());
    }
    assert(texts(args@) == systemctl_command(verb, text_of(*unit), user_scope).args);
    CommandLine { program: program.to_string(), args }
}

/// The command of a power action.
pub open spec fn power_command(action: PowerActionKind) -> CommandView {
    CommandView {
        program: "systemctl"@,
        args: match action {
            PowerActionKind::Reboot => seq!["reboot"@],
            PowerActionKind::Shutdown => seq!["poweroff"@],
            PowerActionKind::Suspend => seq!["suspend"@],
        },
    }
}

/// The command of a power action.
pub fn power_cmd(action: PowerActionKind) -> (c: CommandLine)
    ensures
        c@ == power_command(action),
{
    let verb: &str = match action {
        PowerActionKind::Reboot => "reboot",
        PowerActionKind::Shutdown => "poweroff",
        PowerActionKind::Suspend => "suspend",
    };
    let fixed = vec![verb];
    assert(slice_texts(fixed@) == power_command(action).args);
    let c = command("systemctl", fixed, &Vec::new());
    assert(c@.args == power_command(action).args);
    c
}

/// The command that writes one configuration value: kwriteconfig6 where it is
/// installed, else kwriteconfig5.
pub open spec fn config_command(
    file: Seq<char>,
    group: Seq<char>,
    key: Seq<char>,
    value: Seq<char>,
    kwriteconfig6_found: bool,
) -> CommandView {
    CommandView {
        program: if kwriteconfig6_found {
            "kwriteconfig6"@
        } else {
            "kwriteconfig5"@
        },
        args: seq!["--file"@, file, "--group"@, group, "--key"@, key, value],
    }
}

/// The command that writes one configuration value.
pub fn set_config(
    file: &str,
    group: &str,
    key: &str,
    value: &str,
    kwriteconfig6_found: bool,
) -> (c: CommandLine)
    ensures
        c@ == config_command(file@, group@, key@, value@, kwriteconfig6_found),
{
    let program: &str = if kwriteconfig6_found {
        "kwriteconfig6"
    } else {
        "kwriteconfig5"
    };
    let fixed = vec!["--file", file, "--group", group, "--key", key, value];
    assert(slice_texts(fixed@) == seq!["--file"@, file@, "--group"@, group@, "--key"@, key@, value@]);
    let c = command(program, fixed, &Vec::new());
    assert(c@.args == seq!["--file"@, file@, "--group"@, group@, "--key"@, key@, value@]);
    c
}

/// The command that runs a binary in the user's terminal.
pub open spec fn terminal_command(binary: Seq<char>, args: Seq<Seq<char>>) -> CommandView {
    CommandView { program: "xdg-terminal-exec"@, args: seq![binary] + args }
}

/// The command that runs a binary in the user's terminal.
pub fn terminal_cmd(binary: &str, args: &Vec<String>) -> (c: CommandLine)
    ensures
        c@ == terminal_command(binary@, texts(args@)),
{
    let fixed = vec![binary];
    assert(slice_texts(fixed@) == seq![binary@]);
    command("xdg-terminal-exec", fixed, args)
}

/// A command as it would be typed, word by word: the program and its arguments.
pub open spec fn argv(c: CommandView) -> Seq<Seq<char>> {
    seq![c.program] + c.args
}

pub proof fn lemma_one_word(w: Seq<char>)
    requires
        w.len() > 0,
        forall|i: int| 0 <= i < w.len() ==> !whitespace(#[trigger] w[i]),
    ensures
        words(w) == seq![w],
{
    text::law_words_stand_between_whitespace(w, ' ', w, w);
}

pub proof fn lemma_one_more_word(line: Seq<char>, w: Seq<char>)
    requires
        w.len() > 0,
        forall|i: int| 0 <= i < w.len() ==> !whitespace(#[trigger] w[i]),
    ensures
        words(line.push(' ') + w) == words(line).push(w),
{
    text::law_words_stand_between_whitespace(line, ' ', w, w);
    assert(words(line) + seq![w] == words(line).push(w));
}

proof fn lemma_typed_install_pacman()
    ensures
        words("sudo pacman -S --needed --noconfirm"@) == seq!["sudo"@, "pacman"@, "-S"@, "--needed"@, "--noconfirm"@],
{
    reveal_strlit("sudo");
    reveal_strlit("pacman");
    reveal_strlit("-S");
    reveal_strlit("--needed");
    reveal_strlit("--noconfirm");
    reveal_strlit("sudo pacman -S --needed --noconfirm");
    lemma_one_word("sudo"@);
    let l1 = "sudo"@.push(' ') + "pacman"@;
    lemma_one_more_word("sudo"@, "pacman"@);
    let l2 = l1.push(' ') + "-S"@;
    lemma_one_more_word(l1, "-S"@);
    let l3 = l2.push(' ') + "--needed"@;
    lemma_one_more_word(l2, "--needed"@);
    let l4 = l3.push(' ') + "--noconfirm"@;
    lemma_one_more_word(l3, "--noconfirm"@);
    assert("sudo pacman -S --needed --noconfirm"@ == l4);
    assert(words("sudo pacman -S --needed --noconfirm"@) == seq!["sudo"@, "pacman"@, "-S"@, "--needed"@, "--noconfirm"@]);
}

proof fn lemma_typed_install_apt()
    ensures
        words("sudo apt-get install -y"@) == seq!["sudo"@, "apt-get"@, "install"@, "-y"@],
{
    reveal_strlit("sudo");
    reveal_strlit("apt-get");
    reveal_strlit("install");
    reveal_strlit("-y");
    reveal_strlit("sudo apt-get install -y");
    lemma_one_word("sudo"@);
    let l1 = "sudo"@.push(' ') + "apt-get"@;
    lemma_one_more_word("sudo"@, "apt-get"@);
    let l2 = l1.push(' ') + "install"@;
    lemma_one_more_word(l1, "install"@);
    let l3 = l2.push(' ') + "-y"@;
    lemma_one_more_word(l2, "-y"@);
    assert("sudo apt-get install -y"@ == l3);
    assert(words("sudo apt-get install -y"@) == seq!["sudo"@, "apt-get"@, "install"@, "-y"@]);
}

proof fn lemma_typed_install_dnf()
    ensures
        words("sudo dnf install -y"@) == seq!["sudo"@, "dnf"@, "install"@, "-y"@],
{
    reveal_strlit("sudo");
    reveal_strlit("dnf");
    reveal_strlit("install");
    reveal_strlit("-y");
    reveal_strlit("sudo dnf install -y");
    lemma_one_word("sudo"@);
    let l1 = "sudo"@.push(' ') + "dnf"@;
    lemma_one_more_word("sudo"@, "dnf"@);
    let l2 = l1.push(' ') + "install"@;
    lemma_one_more_word(l1, "install"@);
    let l3 = l2.push(' ') + "-y"@;
    lemma_one_more_word(l2, "-y"@);
    assert("sudo dnf install -y"@ == l3);
    assert(words("sudo dnf install -y"@) == seq!["sudo"@, "dnf"@, "install"@, "-y"@]);
}

proof fn lemma_typed_install_zypper()
    ensures
        words("sudo zypper install -y"@) == seq!["sudo"@, "zypper"@, "install"@, "-y"@],
{
    reveal_strlit("sudo");
    reveal_strlit("zypper");
    reveal_strlit("install");
    reveal_strlit("-y");
    reveal_strlit("sudo zypper install -y");
    lemma_one_word("sudo"@);
    let l1 = "sudo"@.push(' ') + "zypper"@;
    lemma_one_more_word("sudo"@, "zypper"@);
    let l2 = l1.push(' ') + "install"@;
    lemma_one_more_word(l1, "install"@);
    let l3 = l2.push(' ') + "-y"@;
    lemma_one_more_word(l2, "-y"@);
    assert("sudo zypper install -y"@ == l3);
    assert(words("sudo zypper install -y"@) == seq!["sudo"@, "zypper"@, "install"@, "-y"@]);
}

proof fn lemma_typed_install_flatpak()
    ensures
        words("flatpak install -y flathub"@) == seq!["flatpak"@, "install"@, "-y"@, "flathub"@],
{
    reveal_strlit("flatpak");
    reveal_strlit("install");
    reveal_strlit("-y");
    reveal_strlit("flathub");
    reveal_strlit("flatpak install -y flathub");
    lemma_one_word("flatpak"@);
    let l1 = "flatpak"@.push(' ') + "install"@;
    lemma_one_more_word("flatpak"@, "install"@);
    let l2 = l1.push(' ') + "-y"@;
    lemma_one_more_word(l1, "-y"@);
    let l3 = l2.push(' ') + "flathub"@;
    lemma_one_more_word(l2, "flathub"@);
    assert("flatpak install -y flathub"@ == l3);
    assert(words("flatpak install -y flathub"@) == seq!["flatpak"@, "install"@, "-y"@, "flathub"@]);
}

proof fn lemma_typed_install_paru()
    ensures
        words("paru -S --needed --noconfirm"@) == seq!["paru"@, "-S"@, "--needed"@, "--noconfirm"@],
{
    reveal_strlit("paru");
    reveal_strlit("-S");
    reveal_strlit("--needed");
    reveal_strlit("--noconfirm");
    reveal_strlit("paru -S --needed --noconfirm");
    lemma_one_word("paru"@);
    let l1 = "paru"@.push(' ') + "-S"@;
    lemma_one_more_word("paru"@, "-S"@);
    let l2 = l1.push(' ') + "--needed"@;
    lemma_one_more_word(l1, "--needed"@);
    let l3 = l2.push(' ') + "--noconfirm"@;
    lemma_one_more_word(l2, "--noconfirm"@);
    assert("paru -S --needed --noconfirm"@ == l3);
    assert(words("paru -S --needed --noconfirm"@) == seq!["paru"@, "-S"@, "--needed"@, "--noconfirm"@]);
}

proof fn lemma_typed_install_yay()
    ensures
        words("yay -S --needed --noconfirm"@) == seq!["yay"@, "-S"@, "--needed"@, "--noconfirm"@],
{
    reveal_strlit("yay");
    reveal_strlit("-S");
    reveal_strlit("--needed");
    reveal_strlit("--noconfirm");
    reveal_strlit("yay -S --needed --noconfirm");
    lemma_one_word("yay"@);
    let l1 = "yay"@.push(' ') + "-S"@;
    lemma_one_more_word("yay"@, "-S"@);
    let l2 = l1.push(' ') + "--needed"@;
    lemma_one_more_word(l1, "--needed"@);
    let l3 = l2.push(' ') + "--noconfirm"@;
    lemma_one_more_word(l2, "--noconfirm"@);
    assert("yay -S --needed --noconfirm"@ == l3);
    assert(words("yay -S --needed --noconfirm"@) == seq!["yay"@, "-S"@, "--needed"@, "--noconfirm"@]);
}

proof fn lemma_typed_remove_pacman()
    ensures
        words("sudo pacman -R --noconfirm"@) == seq!["sudo"@, "pacman"@, "-R"@, "--noconfirm"@],
{
    reveal_strlit("sudo");
    reveal_strlit("pacman");
    reveal_strlit("-R");
    reveal_strlit("--noconfirm");
    reveal_strlit("sudo pacman -R --noconfirm");
    lemma_one_word("sudo"@);
    let l1 = "sudo"@.push(' ') + "pacman"@;
    lemma_one_more_word("sudo"@, "pacman"@);
    let l2 = l1.push(' ') + "-R"@;
    lemma_one_more_word(l1, "-R"@);
    let l3 = l2.push(' ') + "--noconfirm"@;
    lemma_one_more_word(l2, "--noconfirm"@);
    assert("sudo pacman -R --noconfirm"@ == l3);
    assert(words("sudo pacman -R --noconfirm"@) == seq!["sudo"@, "pacman"@, "-R"@, "--noconfirm"@]);
}

proof fn lemma_typed_remove_apt()
    ensures
        words("sudo apt-get remove -y"@) == seq!["sudo"@, "apt-get"@, "remove"@, "-y"@],
{
    reveal_strlit("sudo");
    reveal_strlit("apt-get");
    reveal_strlit("remove");
    reveal_strlit("-y");
    reveal_strlit("sudo apt-get remove -y");
    lemma_one_word("sudo"@);
    let l1 = "sudo"@.push(' ') + "apt-get"@;
    lemma_one_more_word("sudo"@, "apt-get"@);
    let l2 = l1.push(' ') + "remove"@;
    lemma_one_more_word(l1, "remove"@);
    let l3 = l2.push(' ') + "-y"@;
    lemma_one_more_word(l2, "-y"@);
    assert("sudo apt-get remove -y"@ == l3);
    assert(words("sudo apt-get remove -y"@) == seq!["sudo"@, "apt-get"@, "remove"@, "-y"@]);
}

proof fn lemma_typed_remove_dnf()
    ensures
        words("sudo dnf remove -y"@) == seq!["sudo"@, "dnf"@, "remove"@, "-y"@],
{
    reveal_strlit("sudo");
    reveal_strlit("dnf");
    reveal_strlit("remove");
    reveal_strlit("-y");
    reveal_strlit("sudo dnf remove -y");
    lemma_one_word("sudo"@);
    let l1 = "sudo"@.push(' ') + "dnf"@;
    lemma_one_more_word("sudo"@, "dnf"@);
    let l2 = l1.push(' ') + "remove"@;
    lemma_one_more_word(l1, "remove"@);
    let l3 = l2.push(' ') + "-y"@;
    lemma_one_more_word(l2, "-y"@);
    assert("sudo dnf remove -y"@ == l3);
    assert(words("sudo dnf remove -y"@) == seq!["sudo"@, "dnf"@, "remove"@, "-y"@]);
}

proof fn lemma_typed_remove_zypper()
    ensures
        words("sudo zypper remove -y"@) == seq!["sudo"@, "zypper"@, "remove"@, "-y"@],
{
    reveal_strlit("sudo");
    reveal_strlit("zypper");
    reveal_strlit("remove");
    reveal_strlit("-y");
    reveal_strlit("sudo zypper remove -y");
    lemma_one_word("sudo"@);
    let l1 = "sudo"@.push(' ') + "zypper"@;
    lemma_one_more_word("sudo"@, "zypper"@);
    let l2 = l1.push(' ') + "remove"@;
    lemma_one_more_word(l1, "remove"@);
    let l3 = l2.push(' ') + "-y"@;
    lemma_one_more_word(l2, "-y"@);
    assert("sudo zypper remove -y"@ == l3);
    assert(words("sudo zypper remove -y"@) == seq!["sudo"@, "zypper"@, "remove"@, "-y"@]);
}

proof fn lemma_typed_remove_flatpak()
    ensures
        words("flatpak uninstall -y"@) == seq!["flatpak"@, "uninstall"@, "-y"@],
{
    reveal_strlit("flatpak");
    reveal_strlit("uninstall");
    reveal_strlit("-y");
    reveal_strlit("flatpak uninstall -y");
    lemma_one_word("flatpak"@);
    let l1 = "flatpak"@.push(' ') + "uninstall"@;
    lemma_one_more_word("flatpak"@, "uninstall"@);
    let l2 = l1.push(' ') + "-y"@;
    lemma_one_more_word(l1, "-y"@);
    assert("flatpak uninstall -y"@ == l2);
    assert(words("flatpak uninstall -y"@) == seq!["flatpak"@, "uninstall"@, "-y"@]);
}

proof fn lemma_typed_remove_paru()
    ensures
        words("paru -R --noconfirm"@) == seq!["paru"@, "-R"@, "--noconfirm"@],
{
    reveal_strlit("paru");
    reveal_strlit("-R");
    reveal_strlit("--noconfirm");
    reveal_strlit("paru -R --noconfirm");
    lemma_one_word("paru"@);
    let l1 = "paru"@.push(' ') + "-R"@;
    lemma_one_more_word("paru"@, "-R"@);
    let l2 = l1.push(' ') + "--noconfirm"@;
    lemma_one_more_word(l1, "--noconfirm"@);
    assert("paru -R --noconfirm"@ == l2);
    assert(words("paru -R --noconfirm"@) == seq!["paru"@, "-R"@, "--noconfirm"@]);
}

proof fn lemma_typed_remove_yay()
    ensures
        words("yay -R --noconfirm"@) == seq!["yay"@, "-R"@, "--noconfirm"@],
{
    reveal_strlit("yay");
    reveal_strlit("-R");
    reveal_strlit("--noconfirm");
    reveal_strlit("yay -R --noconfirm");
    lemma_one_word("yay"@);
    let l1 = "yay"@.push(' ') + "-R"@;
    lemma_one_more_word("yay"@, "-R"@);
    let l2 = l1.push(' ') + "--noconfirm"@;
    lemma_one_more_word(l1, "--noconfirm"@);
    assert("yay -R --noconfirm"@ == l2);
    assert(words("yay -R --noconfirm"@) == seq!["yay"@, "-R"@, "--noconfirm"@]);
}

/// Packages are installed by the manager that is asked for, without questions,
/// all of them and in order; pacman and the AUR helpers skip what is installed
/// already, and flatpak takes them from flathub.
pub proof fn law_packages_are_installed_by_their_manager(
    manager: PackageManager,
    packages: Seq<Seq<char>>,
    paru_found: bool,
)
    ensures
        argv(install_command(manager, packages, paru_found)) == words(
            match manager {
                PackageManager::Pacman => "sudo pacman -S --needed --noconfirm"@,
                PackageManager::Aur => if paru_found {
                    "paru -S --needed --noconfirm"@
                } else {
                    "yay -S --needed --noconfirm"@
                },
                PackageManager::Apt => "sudo apt-get install -y"@,
                PackageManager::Dnf => "sudo dnf install -y"@,
                PackageManager::Zypper => "sudo zypper install -y"@,
                PackageManager::Flatpak => "flatpak install -y flathub"@,
            },
        ) + packages,
{
    lemma_typed_install_pacman();
    lemma_typed_install_apt();
    lemma_typed_install_dnf();
    lemma_typed_install_zypper();
    lemma_typed_install_flatpak();
    lemma_typed_install_paru();
    lemma_typed_install_yay();
    let c = install_command(manager, packages, paru_found);
    let lead = c.args.take(c.args.len() - packages.len());
    assert(c.args == lead + packages);
    assert(argv(c) == (seq![c.program] + lead) + packages);
}

/// Packages are removed by the manager that is asked for, without questions,
/// all of them and in order.
pub proof fn law_packages_are_removed_by_their_manager(
    manager: PackageManager,
    packages: Seq<Seq<char>>,
    paru_found: bool,
)
    ensures
        argv(remove_command(manager, packages, paru_found)) == words(
            match manager {
                PackageManager::Pacman => "sudo pacman -R --noconfirm"@,
                PackageManager::Aur => if paru_found {
                    "paru -R --noconfirm"@
                } else {
                    "yay -R --noconfirm"@
                },
                PackageManager::Apt => "sudo apt-get remove -y"@,
                PackageManager::Dnf => "sudo dnf remove -y"@,
                PackageManager::Zypper => "sudo zypper remove -y"@,
                PackageManager::Flatpak => "flatpak uninstall -y"@,
            },
        ) + packages,
{
    lemma_typed_remove_pacman();
    lemma_typed_remove_apt();
    lemma_typed_remove_dnf();
    lemma_typed_remove_zypper();
    lemma_typed_remove_flatpak();
    lemma_typed_remove_paru();
    lemma_typed_remove_yay();
    let c = remove_command(manager, packages, paru_found);
    let lead = c.args.take(c.args.len() - packages.len());
    assert(c.args == lead + packages);
    assert(argv(c) == (seq![c.program] + lead) + packages);
}

proof fn lemma_typed_user()
    ensures
        words("systemctl --user"@) == seq!["systemctl"@, "--user"@],
{
    reveal_strlit("systemctl");
    reveal_strlit("--user");
    reveal_strlit("systemctl --user");
    lemma_one_word("systemctl"@);
    let l1 = "systemctl"@.push(' ') + "--user"@;
    lemma_one_more_word("systemctl"@, "--user"@);
    assert("systemctl --user"@ == l1);
    assert(words("systemctl --user"@) == seq!["systemctl"@, "--user"@]);
}

proof fn lemma_typed_system()
    ensures
        words("sudo systemctl"@) == seq!["sudo"@, "systemctl"@],
{
    reveal_strlit("sudo");
    reveal_strlit("systemctl");
    reveal_strlit("sudo systemctl");
    lemma_one_word("sudo"@);
    let l1 = "sudo"@.push(' ') + "systemctl"@;
    lemma_one_more_word("sudo"@, "systemctl"@);
    assert("sudo systemctl"@ == l1);
    assert(words("sudo systemctl"@) == seq!["sudo"@, "systemctl"@]);
}

proof fn lemma_typed_verb_start()
    ensures
        words("start"@) == seq!["start"@],
{
    reveal_strlit("start");
    lemma_one_word("start"@);
    assert(words("start"@) == seq!["start"@]);
}

proof fn lemma_typed_verb_stop()
    ensures
        words("stop"@) == seq!["stop"@],
{
    reveal_strlit("stop");
    lemma_one_word("stop"@);
    assert(words("stop"@) == seq!["stop"@]);
}

proof fn lemma_typed_verb_restart()
    ensures
        words("restart"@) == seq!["restart"@],
{
    reveal_strlit("restart");
    lemma_one_word("restart"@);
    assert(words("restart"@) == seq!["restart"@]);
}

proof fn lemma_typed_verb_enable()
    ensures
        words("enable"@) == seq!["enable"@],
{
    reveal_strlit("enable");
    lemma_one_word("enable"@);
    assert(words("enable"@) == seq!["enable"@]);
}

proof fn lemma_typed_verb_disable()
    ensures
        words("disable"@) == seq!["disable"@],
{
    reveal_strlit("disable");
    lemma_one_word("disable"@);
    assert(words("disable"@) == seq!["disable"@]);
}

proof fn lemma_typed_verb_enable_now()
    ensures
        words("enable --now"@) == seq!["enable"@, "--now"@],
{
    reveal_strlit("enable");
    reveal_strlit("--now");
    reveal_strlit("enable --now");
    lemma_one_word("enable"@);
    let l1 = "enable"@.push(' ') + "--now"@;
    lemma_one_more_word("enable"@, "--now"@);
    assert("enable --now"@ == l1);
    assert(words("enable --now"@) == seq!["enable"@, "--now"@]);
}

proof fn lemma_typed_verb_disable_now()
    ensures
        words("disable --now"@) == seq!["disable"@, "--now"@],
{
    reveal_strlit("disable");
    reveal_strlit("--now");
    reveal_strlit("disable --now");
    lemma_one_word("disable"@);
    let l1 = "disable"@.push(' ') + "--now"@;
    lemma_one_more_word("disable"@, "--now"@);
    assert("disable --now"@ == l1);
    assert(words("disable --now"@) == seq!["disable"@, "--now"@]);
}

/// systemctl is given the verb that is asked for, then the unit if there is
/// one. The user's own services are asked for as the user, the system's
/// through sudo; what is to happen at once is said with "--now".
pub proof fn law_systemctl_is_given_the_verb(
    verb: SystemctlVerb,
    unit: Option<Seq<char>>,
    user_scope: bool,
)
    ensures
        argv(systemctl_command(verb, unit, user_scope)) == words(
            if user_scope {
                "systemctl --user"@
            } else {
                "sudo systemctl"@
            },
        ) + words(
            match verb {
                SystemctlVerb::Start => "start"@,
                SystemctlVerb::Stop => "stop"@,
                SystemctlVerb::Restart => "restart"@,
                SystemctlVerb::Enable => "enable"@,
                SystemctlVerb::Disable => "disable"@,
                SystemctlVerb::EnableNow => "enable --now"@,
                SystemctlVerb::DisableNow => "disable --now"@,
            },
        ) + (match unit {
            Some(u) => seq![u],
            None => Seq::empty(),
        }),
{
    lemma_typed_user();
    lemma_typed_system();
    lemma_typed_verb_start();
    lemma_typed_verb_stop();
    lemma_typed_verb_restart();
    lemma_typed_verb_enable();
    lemma_typed_verb_disable();
    lemma_typed_verb_enable_now();
    lemma_typed_verb_disable_now();
    let c = systemctl_command(verb, unit, user_scope);
    let now = if verb is EnableNow || verb is DisableNow {
        seq!["--now"@]
    } else {
        Seq::empty()
    };
    let lead = seq![c.program, c.args[0]];
    let given = seq![c.args[1]] + now;
    let target = match unit {
        Some(u) => seq![u],
        None => Seq::empty(),
    };
    assert(argv(c) == lead + given + target);
}

proof fn lemma_typed_reboot()
    ensures
        words("systemctl reboot"@) == seq!["systemctl"@, "reboot"@],
{
    reveal_strlit("systemctl");
    reveal_strlit("reboot");
    reveal_strlit("systemctl reboot");
    lemma_one_word("systemctl"@);
    let l1 = "systemctl"@.push(' ') + "reboot"@;
    lemma_one_more_word("systemctl"@, "reboot"@);
    assert("systemctl reboot"@ == l1);
    assert(words("systemctl reboot"@) == seq!["systemctl"@, "reboot"@]);
}

proof fn lemma_typed_shutdown()
    ensures
        words("systemctl poweroff"@) == seq!["systemctl"@, "poweroff"@],
{
    reveal_strlit("systemctl");
    reveal_strlit("poweroff");
    reveal_strlit("systemctl poweroff");
    lemma_one_word("systemctl"@);
    let l1 = "systemctl"@.push(' ') + "poweroff"@;
    lemma_one_more_word("systemctl"@, "poweroff"@);
    assert("systemctl poweroff"@ == l1);
    assert(words("systemctl poweroff"@) == seq!["systemctl"@, "poweroff"@]);
}

proof fn lemma_typed_suspend()
    ensures
        words("systemctl suspend"@) == seq!["systemctl"@, "suspend"@],
{
    reveal_strlit("systemctl");
    reveal_strlit("suspend");
    reveal_strlit("systemctl suspend");
    lemma_one_word("systemctl"@);
    let l1 = "systemctl"@.push(' ') + "suspend"@;
    lemma_one_more_word("systemctl"@, "suspend"@);
    assert("systemctl suspend"@ == l1);
    assert(words("systemctl suspend"@) == seq!["systemctl"@, "suspend"@]);
}

/// A power action is done by systemctl: a reboot reboots, a shutdown turns the
/// machine off, and a suspend suspends it.
pub proof fn law_power_actions_do_what_they_are_called(action: PowerActionKind)
    ensures
        argv(power_command(action)) == words(
            match action {
                PowerActionKind::Reboot => "systemctl reboot"@,
                PowerActionKind::Shutdown => "systemctl poweroff"@,
                PowerActionKind::Suspend => "systemctl suspend"@,
            },
        ),
{
    lemma_typed_reboot();
    lemma_typed_shutdown();
    lemma_typed_suspend();
    assert(argv(power_command(action)) == seq!["systemctl"@] + power_command(action).args);
}

proof fn lemma_typed_volume_up()
    ensures
        words("pactl set-sink-volume @DEFAULT_SINK@ +5%"@) == seq!["pactl"@, "set-sink-volume"@, "@DEFAULT_SINK@"@, "+5%"@],
{
    reveal_strlit("pactl");
    reveal_strlit("set-sink-volume");
    reveal_strlit("@DEFAULT_SINK@");
    reveal_strlit("+5%");
    reveal_strlit("pactl set-sink-volume @DEFAULT_SINK@ +5%");
    lemma_one_word("pactl"@);
    let l1 = "pactl"@.push(' ') + "set-sink-volume"@;
    lemma_one_more_word("pactl"@, "set-sink-volume"@);
    let l2 = l1.push(' ') + "@DEFAULT_SINK@"@;
    lemma_one_more_word(l1, "@DEFAULT_SINK@"@);
    let l3 = l2.push(' ') + "+5%"@;
    lemma_one_more_word(l2, "+5%"@);
    assert("pactl set-sink-volume @DEFAULT_SINK@ +5%"@ == l3);
    assert(words("pactl set-sink-volume @DEFAULT_SINK@ +5%"@) == seq!["pactl"@, "set-sink-volume"@, "@DEFAULT_SINK@"@, "+5%"@]);
}

proof fn lemma_typed_volume_down()
    ensures
        words("pactl set-sink-volume @DEFAULT_SINK@ -5%"@) == seq!["pactl"@, "set-sink-volume"@, "@DEFAULT_SINK@"@, "-5%"@],
{
    reveal_strlit("pactl");
    reveal_strlit("set-sink-volume");
    reveal_strlit("@DEFAULT_SINK@");
    reveal_strlit("-5%");
    reveal_strlit("pactl set-sink-volume @DEFAULT_SINK@ -5%");
    lemma_one_word("pactl"@);
    let l1 = "pactl"@.push(' ') + "set-sink-volume"@;
    lemma_one_more_word("pactl"@, "set-sink-volume"@);
    let l2 = l1.push(' ') + "@DEFAULT_SINK@"@;
    lemma_one_more_word(l1, "@DEFAULT_SINK@"@);
    let l3 = l2.push(' ') + "-5%"@;
    lemma_one_more_word(l2, "-5%"@);
    assert("pactl set-sink-volume @DEFAULT_SINK@ -5%"@ == l3);
    assert(words("pactl set-sink-volume @DEFAULT_SINK@ -5%"@) == seq!["pactl"@, "set-sink-volume"@, "@DEFAULT_SINK@"@, "-5%"@]);
}

proof fn lemma_typed_mute()
    ensures
        words("pactl set-sink-mute @DEFAULT_SINK@ toggle"@) == seq!["pactl"@, "set-sink-mute"@, "@DEFAULT_SINK@"@, "toggle"@],
{
    reveal_strlit("pactl");
    reveal_strlit("set-sink-mute");
    reveal_strlit("@DEFAULT_SINK@");
    reveal_strlit("toggle");
    reveal_strlit("pactl set-sink-mute @DEFAULT_SINK@ toggle");
    lemma_one_word("pactl"@);
    let l1 = "pactl"@.push(' ') + "set-sink-mute"@;
    lemma_one_more_word("pactl"@, "set-sink-mute"@);
    let l2 = l1.push(' ') + "@DEFAULT_SINK@"@;
    lemma_one_more_word(l1, "@DEFAULT_SINK@"@);
    let l3 = l2.push(' ') + "toggle"@;
    lemma_one_more_word(l2, "toggle"@);
    assert("pactl set-sink-mute @DEFAULT_SINK@ toggle"@ == l3);
    assert(words("pactl set-sink-mute @DEFAULT_SINK@ toggle"@) == seq!["pactl"@, "set-sink-mute"@, "@DEFAULT_SINK@"@, "toggle"@]);
}

proof fn lemma_typed_brightness_up()
    ensures
        words("brightnessctl set +10%"@) == seq!["brightnessctl"@, "set"@, "+10%"@],
{
    reveal_strlit("brightnessctl");
    reveal_strlit("set");
    reveal_strlit("+10%");
    reveal_strlit("brightnessctl set +10%");
    lemma_one_word("brightnessctl"@);
    let l1 = "brightnessctl"@.push(' ') + "set"@;
    lemma_one_more_word("brightnessctl"@, "set"@);
    let l2 = l1.push(' ') + "+10%"@;
    lemma_one_more_word(l1, "+10%"@);
    assert("brightnessctl set +10%"@ == l2);
    assert(words("brightnessctl set +10%"@) == seq!["brightnessctl"@, "set"@, "+10%"@]);
}

proof fn lemma_typed_brightness_down()
    ensures
        words("brightnessctl set 10%-"@) == seq!["brightnessctl"@, "set"@, "10%-"@],
{
    reveal_strlit("brightnessctl");
    reveal_strlit("set");
    reveal_strlit("10%-");
    reveal_strlit("brightnessctl set 10%-");
    lemma_one_word("brightnessctl"@);
    let l1 = "brightnessctl"@.push(' ') + "set"@;
    lemma_one_more_word("brightnessctl"@, "set"@);
    let l2 = l1.push(' ') + "10%-"@;
    lemma_one_more_word(l1, "10%-"@);
    assert("brightnessctl set 10%-"@ == l2);
    assert(words("brightnessctl set 10%-"@) == seq!["brightnessctl"@, "set"@, "10%-"@]);
}

proof fn lemma_typed_lock_screen()
    ensures
        words("loginctl lock-session"@) == seq!["loginctl"@, "lock-session"@],
{
    reveal_strlit("loginctl");
    reveal_strlit("lock-session");
    reveal_strlit("loginctl lock-session");
    lemma_one_word("loginctl"@);
    let l1 = "loginctl"@.push(' ') + "lock-session"@;
    lemma_one_more_word("loginctl"@, "lock-session"@);
    assert("loginctl lock-session"@ == l1);
    assert(words("loginctl lock-session"@) == seq!["loginctl"@, "lock-session"@]);
}

proof fn lemma_typed_screenshot()
    ensures
        words("spectacle -b -n"@) == seq!["spectacle"@, "-b"@, "-n"@],
{
    reveal_strlit("spectacle");
    reveal_strlit("-b");
    reveal_strlit("-n");
    reveal_strlit("spectacle -b -n");
    lemma_one_word("spectacle"@);
    let l1 = "spectacle"@.push(' ') + "-b"@;
    lemma_one_more_word("spectacle"@, "-b"@);
    let l2 = l1.push(' ') + "-n"@;
    lemma_one_more_word(l1, "-n"@);
    assert("spectacle -b -n"@ == l2);
    assert(words("spectacle -b -n"@) == seq!["spectacle"@, "-b"@, "-n"@]);
}

proof fn lemma_utilities_differ()
    ensures
        "volume_up"@ != "volume_down"@,
        "volume_up"@ != "mute"@,
        "volume_up"@ != "brightness_up"@,
        "volume_up"@ != "brightness_down"@,
        "volume_up"@ != "lock_screen"@,
        "volume_up"@ != "screenshot"@,
        "volume_down"@ != "mute"@,
        "volume_down"@ != "brightness_up"@,
        "volume_down"@ != "brightness_down"@,
        "volume_down"@ != "lock_screen"@,
        "volume_down"@ != "screenshot"@,
        "mute"@ != "brightness_up"@,
        "mute"@ != "brightness_down"@,
        "mute"@ != "lock_screen"@,
        "mute"@ != "screenshot"@,
        "brightness_up"@ != "brightness_down"@,
        "brightness_up"@ != "lock_screen"@,
        "brightness_up"@ != "screenshot"@,
        "brightness_down"@ != "lock_screen"@,
        "brightness_down"@ != "screenshot"@,
        "lock_screen"@ != "screenshot"@,
{
    reveal_strlit("volume_up");
    reveal_strlit("volume_down");
    reveal_strlit("mute");
    reveal_strlit("brightness_up");
    reveal_strlit("brightness_down");
    reveal_strlit("lock_screen");
    reveal_strlit("screenshot");
    assert("volume_up"@.len() == 9 && "volume_down"@.len() == 11 && "mute"@.len() == 4);
    assert("brightness_up"@.len() == 13 && "brightness_down"@.len() == 15);
    assert("lock_screen"@.len() == 11 && "screenshot"@.len() == 10);
    assert("volume_down"@[0] == 'v' && "lock_screen"@[0] == 'l');
}

/// The utility actions do what they are called: up is louder or brighter, down
/// the reverse by as much, and each of the others its one thing.
pub proof fn law_utilities_do_what_they_are_called(name: Seq<char>)
    ensures
        utility(name) matches Some(c) ==> {
            ||| name == "volume_up"@ && argv(c) == words("pactl set-sink-volume @DEFAULT_SINK@ +5%"@)
            ||| name == "volume_down"@ && argv(c) == words("pactl set-sink-volume @DEFAULT_SINK@ -5%"@)
            ||| name == "mute"@ && argv(c) == words("pactl set-sink-mute @DEFAULT_SINK@ toggle"@)
            ||| name == "brightness_up"@ && argv(c) == words("brightnessctl set +10%"@)
            ||| name == "brightness_down"@ && argv(c) == words("brightnessctl set 10%-"@)
            ||| name == "lock_screen"@ && argv(c) == words("loginctl lock-session"@)
            ||| name == "screenshot"@ && argv(c) == words("spectacle -b -n"@)
        },
        name == "volume_up"@ ==> utility(name) is Some,
        name == "volume_down"@ ==> utility(name) is Some,
        name == "mute"@ ==> utility(name) is Some,
        name == "brightness_up"@ ==> utility(name) is Some,
        name == "brightness_down"@ ==> utility(name) is Some,
        name == "lock_screen"@ ==> utility(name) is Some,
        name == "screenshot"@ ==> utility(name) is Some,
{
    lemma_utilities_differ();
    lemma_typed_volume_up();
    lemma_typed_volume_down();
    lemma_typed_mute();
    lemma_typed_brightness_up();
    lemma_typed_brightness_down();
    lemma_typed_lock_screen();
    lemma_typed_screenshot();
    if let Some(c) = utility(name) {
        if c.args.len() == 1 {
            assert(argv(c) == seq![c.program, c.args[0]]);
        } else if c.args.len() == 2 {
            assert(argv(c) == seq![c.program, c.args[0], c.args[1]]);
        } else {
            assert(argv(c) == seq![c.program, c.args[0], c.args[1], c.args[2]]);
        }
    }
}

/// A setting is written by kwriteconfig6 where it is installed, else by
/// kwriteconfig5; the file, the group and the key each follow their own flag,
/// and the value comes last.
pub proof fn law_settings_are_written_where_they_belong(
    file: Seq<char>,
    group: Seq<char>,
    key: Seq<char>,
    value: Seq<char>,
    found: bool,
)
    ensures
        ({
            let c = config_command(file, group, key, value, found);
            &&& c.program == if found {
                "kwriteconfig6"@
            } else {
                "kwriteconfig5"@
            }
            &&& c.args.len() == 7 && c.args.last() == value
            &&& exists|i: int| 0 <= i < 6 && #[trigger] c.args[i] == "--file"@ && c.args[i + 1] == file
            &&& exists|i: int| 0 <= i < 6 && #[trigger] c.args[i] == "--group"@ && c.args[i + 1] == group
            &&& exists|i: int| 0 <= i < 6 && #[trigger] c.args[i] == "--key"@ && c.args[i + 1] == key
        }),
{
    let c = config_command(file, group, key, value, found);
    assert(c.args[0] == "--file"@ && c.args[1] == file);
    assert(c.args[2] == "--group"@ && c.args[3] == group);
    assert(c.args[4] == "--key"@ && c.args[5] == key);
}

/// The terminal is given the binary and its arguments as they are.
pub proof fn law_the_terminal_runs_the_binary(binary: Seq<char>, args: Seq<Seq<char>>)
    ensures
        argv(terminal_command(binary, args)) == seq!["xdg-terminal-exec"@, binary] + args,
{
    assert(argv(terminal_command(binary, args)) == seq!["xdg-terminal-exec"@, binary] + args);
}

/// The verb that the user is shown is the verb that systemctl is given, up to
/// case; what is to happen at once is shown with "Now".
pub proof fn law_the_verb_that_is_shown_is_given(verb: SystemctlVerb)
    ensures
        same_ascii_case(
            systemctl_command(verb, None, true).args[1] + if verb is EnableNow || verb is DisableNow {
                "now"@
            } else {
                Seq::empty()
            },
            verb.label_text(),
        ),
        systemctl_command(verb, None, true).args.contains("--now"@) <==> verb is EnableNow
            || verb is DisableNow,
{
    let args = systemctl_command(verb, None, true).args;
    let now = if verb is EnableNow || verb is DisableNow {
        "now"@
    } else {
        Seq::empty()
    };
    let given = args[1] + now;
    let shown = verb.label_text();
    reveal_strlit("--user");
    reveal_strlit("--now");
    reveal_strlit("now");
    reveal_strlit("EnableNow");
    reveal_strlit("DisableNow");
    reveal_strlit("start");
    reveal_strlit("Start");
    reveal_strlit("stop");
    reveal_strlit("Stop");
    reveal_strlit("restart");
    reveal_strlit("Restart");
    reveal_strlit("enable");
    reveal_strlit("Enable");
    reveal_strlit("disable");
    reveal_strlit("Disable");
    assert(args[1] == verb_text(verb));
    law_case_is_all_that_may_differ(given, shown);
    assert forall|i: int| 0 <= i < given.len() implies #[trigger] given[i] == shown[i] || ('A'
        <= shown[i] <= 'Z' && given[i] as u32 == shown[i] as u32 + 32) by {}
    assert("--now"@[0] == '-' && "--now"@[2] == 'n' && "--user"@[2] == 'u');
    assert(args[0] == "--user"@);
    if verb is EnableNow || verb is DisableNow {
        assert(args[2] == "--now"@);
    } else {
        assert(args.len() == 2);
        assert(args[1][0] != '-');
    }
}

} // verus!
