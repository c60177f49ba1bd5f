//! The processes behind the assistant: how they are started, when they are
//! restarted, and how long the daemon waits for the model server.
use vstd::prelude::*;

use crate::command::{argv, CommandLine, CommandView};
use crate::desktop_index::str_text;
use crate::paths::{self, path_below};
use crate::text::{
    self, char_lists, chars_of, decimal, has_prefix, lines_of, string_of, texts, u16_value,
    without_leading, without_trailing,
};

verus! {

pub const DEFAULT_PORT: u16 = 1337;

/// How often a process that does not run well is tried again.
pub const MAX_RETRIES: u32 = 5;

/// How long a process must run to count as healthy, in seconds.
pub const HEALTHY_SECS: u64 = 60;

/// How long to wait between two looks at the model server, in milliseconds.
pub const POLL_INTERVAL_MS: u64 = 500;

#[derive(Debug, PartialEq, Eq)]
pub struct BackendConfig {
    pub jan_binary: String,
    pub jan_port: u16,
    pub jan_model: String,
    pub voice_bridge_script: String,
    pub voice_bridge_python: String,
}

/// A setting, or what stands for it where it is not set.
pub open spec fn setting(value: Option<&str>, default: Seq<char>) -> Seq<char> {
    match value {
        Some(v) => v@,
        None => default,
    }
}

fn setting_or(value: Option<&str>, default: &str) -> (out: String)
    ensures
        out@ == setting(value, default@),
{
    match value {
        Some(v) => v.to_string(),
        None => default.to_string(),
    }
}

/// The port that a setting names; the default one where it names none.
pub open spec fn port_setting(value: Option<&str>) -> u16 {
    match value {
        Some(v) => match u16_value(v@) {
            Some(port) => port,
            None => DEFAULT_PORT,
        },
        None => DEFAULT_PORT,
    }
}

impl BackendConfig {
    /// The configuration, from the values of `PROTOGEN_JAN_BINARY`,
    /// `PROTOGEN_JAN_PORT`, `PROTOGEN_JAN_MODEL`, `PROTOGEN_VOICE_BRIDGE` and
    /// `PROTOGEN_VOICE_PYTHON`.
    pub fn from_settings(
        jan_binary: Option<&str>,
        jan_port: Option<&str>,
        jan_model: Option<&str>,
        voice_bridge: Option<&str>,
        voice_python: Option<&str>,
    ) -> (cfg: BackendConfig)
        ensures
            cfg.jan_binary@ == setting(jan_binary, "jan"@),
            cfg.jan_port == port_setting(jan_port),
            cfg.jan_model@ == setting(jan_model, "deepseek-v4"@),
            cfg.voice_bridge_script@ == setting(
                voice_bridge,
                "/usr/share/protogenos/voice_bridge/voice_bridge.py"@,
            ),
            cfg.voice_bridge_python@ == setting(voice_python, "python3"@),
    {
        let port: u16 = match jan_port {
            Some(v) => match text::parse_u16(v) {
                Some(p) => p,
                None => DEFAULT_PORT,
            },
            None => DEFAULT_PORT,
        };
        BackendConfig {
            jan_binary: setting_or(jan_binary, "jan"),
            jan_port: port,
            jan_model: setting_or(jan_model, "deepseek-v4"),
            voice_bridge_script: setting_or(
                voice_bridge,
                "/usr/share/protogenos/voice_bridge/voice_bridge.py",
            ),
            voice_bridge_python: setting_or(voice_python, "python3"),
        }
    }

    /// Where the model server listens.
    pub fn jan_base_url(&self) -> (url: String)
        ensures
            url@ == "http://127.0.0.1:"@ + decimal(self.jan_port as nat),
    {
        let mut url = "http://127.0.0.1:".to_string();
        url.append(text::decimal_text(self.jan_port as u64).as_str());
        url
    }
}

/// The command that starts the model server. The model is a positional
/// argument.
pub open spec fn jan_command(binary: Seq<char>, model: Seq<char>, port: u16) -> CommandView {
    CommandView { program: binary, args: seq!["serve"@, model, "--port"@, decimal(port as nat)] }
}

/// The command that starts the model server.
pub fn start_jan_server(cfg: &BackendConfig) -> (c: CommandLine)
    ensures
        c@ == jan_command(cfg.jan_binary@, cfg.jan_model@, cfg.jan_port),
{
    let port = text::decimal_text(cfg.jan_port as u64);
    let args = vec!["serve".to_string(), cfg.jan_model.clone(), "--port".to_string(), port];
    assert(texts(args@) == jan_command(cfg.jan_binary@, cfg.jan_model@, cfg.jan_port).args);
    CommandLine { program: cfg.jan_binary.clone(), args }
}

/// The command that starts the voice bridge.
pub fn start_voice_bridge(cfg: &BackendConfig) -> (c: CommandLine)
    ensures
        c@ == (CommandView {
            program: cfg.voice_bridge_python@,
            args: seq![cfg.voice_bridge_script@],
        }),
{
    let args = vec![cfg.voice_bridge_script.clone()];
    assert(texts(args@) == seq![cfg.voice_bridge_script@]);
    CommandLine { program: cfg.voice_bridge_python.clone(), args }
}

/// What to do with a process that is not running.
#[derive(Debug, Clone, Copy, PartialEq, Eq, Structural)]
pub enum Supervision {
    /// Wait, then start it again; `retries` counts the attempts since it last
    /// ran well.
    Restart { retries: u32, delay_secs: u64 },
    GiveUp,
}

/// The delay before an attempt, in seconds: it doubles with every attempt.
pub open spec fn backoff(retries: nat) -> nat {
    vstd::arithmetic::power2::pow2(retries)
}

/// A process ran well if it started and ran for a while. One that did not
/// start, or was gone soon after, did not.
pub open spec fn ran_well(ran_secs: Option<u64>) -> bool {
    ran_secs matches Some(secs) && secs >= HEALTHY_SECS
}

/// What to do with a process that ended after so many seconds, or did not
/// start. A process that ran well has all its attempts before it again.
pub open spec fn supervision(retries: u32, ran_secs: Option<u64>) -> Supervision {
    let count = if ran_well(ran_secs) {
        1
    } else {
        retries + 1
    };
    if count > MAX_RETRIES {
        Supervision::GiveUp
    } else {
        Supervision::Restart { retries: count as u32, delay_secs: backoff(count as nat) as u64 }
    }
}

/// What to do with a process that ended after it had run for `ran_secs`
/// seconds, or that did not start. `retries` is the count of the last
/// `Restart`, or 0.
pub fn supervise(retries: u32, ran_secs: Option<u64>) -> (r: Supervision)
    requires
        retries <= MAX_RETRIES,
    ensures
        r == supervision(retries, ran_secs),
{
    let healthy = match ran_secs {
        Some(secs) => secs >= HEALTHY_SECS,
        None => false,
    };
    let count: u32 = if healthy {
        1
    } else {
        retries + 1
    };
    if count > MAX_RETRIES {
        return Supervision::GiveUp;
    }
    proof {
        vstd::arithmetic::power2::lemma2_to64();
    }
    let delay_secs: u64 = if count == 1 {
        2
    } else if count == 2 {
        4
    } else if count == 3 {
        8
    } else if count == 4 {
        16
    } else {
        32
    };
    Supervision::Restart { retries: count, delay_secs }
}

/// What becomes of a process after some attempts since the state `s`, where
/// `runs` tells how each of them went.
pub open spec fn after_runs(s: Supervision, runs: Seq<Option<u64>>) -> Supervision
    decreases runs.len(),
{
    if runs.len() == 0 {
        s
    } else {
        match after_runs(s, runs.drop_last()) {
            Supervision::Restart { retries, .. } => supervision(retries, runs.last()),
            Supervision::GiveUp => Supervision::GiveUp,
        }
    }
}

/// No attempt among these ran well.
pub open spec fn none_ran_well(runs: Seq<Option<u64>>) -> bool {
    forall|i: int| 0 <= i < runs.len() ==> !ran_well(#[trigger] runs[i])
}

/// A process that does not start, or is gone soon after it started, is tried
/// again a bounded number of times, with doubling delays, and then given up,
/// whichever of the two happens each time.
pub proof fn law_restarts_are_bounded(runs: Seq<Option<u64>>)
    requires
        none_ran_well(runs),
    ensures
        ({
            let end = after_runs(Supervision::Restart { retries: 0, delay_secs: 0 }, runs);
            &&& 1 <= runs.len() <= MAX_RETRIES ==> end == (Supervision::Restart {
                retries: runs.len() as u32,
                delay_secs: backoff(runs.len()) as u64,
            })
            &&& runs.len() > MAX_RETRIES ==> end is GiveUp
        }),
    decreases runs.len(),
{
    if runs.len() > 0 {
        let init = runs.drop_last();
        assert forall|i: int| 0 <= i < init.len() implies !ran_well(#[trigger] init[i]) by {
            assert(init[i] == runs[i]);
        }
        law_restarts_are_bounded(init);
        assert(!ran_well(runs[runs.len() - 1]));
    }
}

/// A process that ran well is always started again, after two seconds, with
/// all its attempts before it.
pub proof fn law_a_good_run_restores_the_attempts(retries: u32, secs: u64)
    requires
        retries <= MAX_RETRIES,
        secs >= HEALTHY_SECS,
    ensures
        supervision(retries, Some(secs)) == (Supervision::Restart { retries: 1, delay_secs: 2 }),
{
    vstd::arithmetic::power2::lemma2_to64();
}

/// What to do while the daemon waits for the model server.
#[derive(Debug, Clone, Copy, PartialEq, Eq, Structural)]
pub enum Readiness {
    /// Ask the server whether it is up.
    Ask,
    /// Wait, then look again.
    Wait { millis: u64 },
    Ready,
    GiveUp,
}

/// What to do next while the daemon waits for the model server.
pub open spec fn readiness(answer: Option<bool>, elapsed: u64, timeout: u64) -> Readiness {
    match answer {
        Some(up) => if up {
            Readiness::Ready
        } else {
            Readiness::Wait { millis: POLL_INTERVAL_MS }
        },
        None => if elapsed < timeout {
            Readiness::Ask
        } else {
            Readiness::GiveUp
        },
    }
}

/// What to do next: `answer` tells whether the server, once asked, said that it
/// is up. The times are in milliseconds.
pub fn wait_for_jan_ready(answer: Option<bool>, elapsed: u64, timeout: u64) -> (r: Readiness)
    ensures
        r == match answer {
            Some(true) => Readiness::Ready,
            Some(false) => Readiness::Wait { millis: POLL_INTERVAL_MS },
            None => if elapsed < timeout {
                Readiness::Ask
            } else {
                Readiness::GiveUp
            },
        },
        r == readiness(answer, elapsed, timeout),
{
    match answer {
        Some(up) => if up {
            Readiness::Ready
        } else {
            Readiness::Wait { millis: POLL_INTERVAL_MS }
        },
        None => if elapsed < timeout {
            Readiness::Ask
        } else {
            Readiness::GiveUp
        },
    }
}

/// The value of the first line that starts with `ID=`, without quotes.
pub open spec fn distro_in(lines: Seq<Seq<char>>, i: int) -> Option<Seq<char>>
    decreases lines.len() - i,
{
    if i < 0 || i >= lines.len() {
        None
    } else if has_prefix(lines[i], "ID="@) {
        Some(without_trailing(without_leading(lines[i].skip(3), '"'), '"'))
    } else {
        distro_in(lines, i + 1)
    }
}

/// The distribution that an os-release file names.
pub open spec fn distro_name(content: Option<Seq<char>>) -> Seq<char> {
    match content {
        Some(c) => match distro_in(lines_of(c), 0) {
            Some(name) => name,
            None => "linux"@,
        },
        None => "linux"@,
    }
}

/// The distribution that an os-release file names; "linux" where there is no
/// such file or it names none.
pub fn detect_distro(content: Option<&str>) -> (name: String)
    ensures
        name@ == distro_name(str_text(content)),
{
    match content {
        Some(c) => {
            let lines = text::lines(&chars_of(c));
            let ghost all = lines_of(c@);
            assert(all == char_lists(lines@));
            let prefix = chars_of("ID=");
            proof {
                reveal_strlit("ID=");
            }
            for i in 0..lines.len()
                invariant
                    all == char_lists(lines@),
                    all == lines_of(c@),
                    content == Some(c),
                    prefix@ == "ID="@,
                    prefix@.len() == 3,
                    distro_in(all, 0) == distro_in(all, i as int),
            {
                assert(all[i as int] == lines@[i as int]@);
                if text::is_at(&lines[i], &prefix, 0) {
                    let n = lines[i].len();
                    let value = text::part(&lines[i], 3, n);
                    assert(value@ == lines@[i as int]@.skip(3));
                    return string_of(&text::trim_matches(&value, '"'));
                }
            }
            "linux".to_string()
        },
        None => "linux".to_string(),
    }
}

/// Where the daemon keeps its data: the project's data directory, or one in
/// the current directory where there is none.
pub fn data_dir(project_data_dir: Option<&str>) -> (dir: String)
    ensures
        dir@ == setting(project_data_dir, ".protogenos"@),
{
    setting_or(project_data_dir, ".protogenos")
}

/// Where the memory bank is kept.
pub fn memory_path(data_dir: &str) -> (path: String)
    ensures
        path@ == path_below(data_dir@, "memory.sqlite3"@),
{
    paths::join_path(data_dir, "memory.sqlite3")
}

/// A process that does not run well is tried again after two, four, eight,
/// sixteen and thirty-two seconds, and then given up.
pub proof fn law_delays_double(retries: u32, ran_secs: Option<u64>)
    requires
        ran_secs matches Some(secs) ==> secs < HEALTHY_SECS,
    ensures
        retries == 0 ==> supervision(retries, ran_secs) == (Supervision::Restart {
            retries: 1,
            delay_secs: 2,
        }),
        0 < retries < 5 ==> (supervision(retries, ran_secs) matches Supervision::Restart {
            retries: count,
            delay_secs,
        } && count == retries + 1 && (supervision((retries - 1) as u32, ran_secs) matches
            Supervision::Restart { delay_secs: before, .. } && delay_secs == 2 * before)),
        retries >= 5 ==> supervision(retries, ran_secs) is GiveUp,
{
    vstd::arithmetic::power2::lemma2_to64();
}

/// The port is the number that is set, if it is one; else 1337.
pub proof fn law_the_port_is_the_number_that_is_set(value: &str, n: nat)
    ensures
        n < 65536 && value@ == decimal(n) ==> port_setting(Some(value)) == n,
        n >= 65536 && value@ == decimal(n) ==> port_setting(Some(value)) == 1337,
        u16_value(value@) is None ==> port_setting(Some(value)) == 1337,
        port_setting(None) == 1337,
{
    text::law_numbers_are_read_as_written(n, value@);
}

/// A setting is what is set, even where that is empty; else what stands for it.
pub proof fn law_a_setting_is_what_is_set(value: &str, default: Seq<char>)
    ensures
        setting(Some(value), default) == value@,
        setting(None, default) == default,
{
}

/// The model server is started by its own binary, which is told to serve the
/// model on the port.
pub proof fn law_the_model_server_serves_the_model(
    binary: Seq<char>,
    model: Seq<char>,
    port: u16,
)
    ensures
        argv(jan_command(binary, model, port)) == seq![
            binary,
            "serve"@,
            model,
            "--port"@,
            decimal(port as nat),
        ],
{
    assert(argv(jan_command(binary, model, port)) == seq![
        binary,
        "serve"@,
        model,
        "--port"@,
        decimal(port as nat),
    ]);
}

/// The distribution is what stands behind "ID=" on the first line that starts
/// so, with quotes around it or without; other lines before it and all lines
/// after it play no part. Where there is no such line, it is just "linux".
pub proof fn law_the_distribution_is_named_by_its_id(
    before: Seq<Seq<char>>,
    name: Seq<char>,
    after: Seq<Seq<char>>,
    content: Seq<char>,
)
    requires
        forall|i: int| 0 <= i < before.len() ==> !has_prefix(#[trigger] before[i], "ID="@),
        name.len() > 0 && name[0] != '"' && name.last() != '"',
    ensures
        distro_in(before.push("ID="@ + name) + after, 0) == Some(name),
        distro_in(before.push("ID=\""@ + name + "\""@) + after, 0) == Some(name),
        distro_in(before, 0) is None,
        lines_of(content) == before ==> distro_name(Some(content)) == "linux"@,
        distro_name(None) == "linux"@,
        distro_in(lines_of(content), 0) matches Some(found) ==> distro_name(Some(content)) == found,
{
    reveal_strlit("ID=");
    reveal_strlit("ID=\"");
    reveal_strlit("\"");
    let bare = "ID="@ + name;
    let quoted = "ID=\""@ + name + "\""@;
    assert(bare.subrange(0, 3) == "ID="@ && bare.skip(3) == name);
    assert(quoted.subrange(0, 3) == "ID="@);
    let value = quoted.skip(3);
    assert(value == seq!['"'] + name.push('"'));
    text::law_characters_around_are_taken_off(name, '"');
    text::law_characters_around_are_taken_off(name.push('"'), '"');
    assert(name.push('"')[0] == name[0]);
    lemma_distro_skips(before.push(bare) + after, before.len() as int, 0);
    lemma_distro_skips(before.push(quoted) + after, before.len() as int, 0);
    lemma_distro_skips(before, before.len() as int, 0);
    assert((before.push(bare) + after)[before.len() as int] == bare);
    assert((before.push(quoted) + after)[before.len() as int] == quoted);
}

proof fn lemma_distro_skips(lines: Seq<Seq<char>>, n: int, i: int)
    requires
        0 <= i <= n <= lines.len(),
        forall|j: int| i <= j < n ==> !has_prefix(#[trigger] lines[j], "ID="@),
    ensures
        distro_in(lines, i) == distro_in(lines, n),
    decreases n - i,
{
    if i < n {
        assert(!has_prefix(lines[i], "ID="@));
        lemma_distro_skips(lines, n, i + 1);
    }
}

/// The wait ends well exactly when the server says that it is up, and is given
/// up exactly when the time is over and nothing was just said; until then the
/// server is asked again and again, half a second after each refusal.
pub proof fn law_the_wait_for_the_server_ends(answer: Option<bool>, elapsed: u64, timeout: u64)
    ensures
        readiness(answer, elapsed, timeout) is Ready <==> answer == Some(true),
        readiness(answer, elapsed, timeout) is GiveUp <==> answer is None && timeout <= elapsed,
        readiness(answer, elapsed, timeout) is Ask <==> answer is None && elapsed < timeout,
        answer == Some(false) ==> readiness(answer, elapsed, timeout) == (Readiness::Wait {
            millis: 500,
        }),
{
}

} // verus!
