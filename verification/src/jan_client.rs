//! The client of the local model server: the prompt that asks for a plan, and
//! the reading of what the model answers. Whatever it answers, only steps of
//! the closed vocabulary come out.
use vstd::prelude::*;

use crate::desktop_index::str_text;
use crate::fields::{
    self, field_views, held, law_a_key_is_held_as_often_as_written, object_fields, Field,
    FieldView, Held, HeldView,
};
use crate::fresh::{self, random_uuid};
use crate::json::{self, json_document, lemma_trees, trees, JsonValue, JsonView};
use crate::plan::{
    step_views, KindView, PackageManager, Plan, PlanView, PowerActionKind, Step, StepKind,
    StepView, SystemctlVerb,
};
use crate::text::{
    self, chars_of, has_prefix, has_text, joined, law_case_is_all_that_may_differ, lemma_find_from,
    occurs_at, position, same_ascii_case, string_of, texts, trimmed,
};

verus! {

/// How many turns of the conversation the model is shown.
pub const HISTORY_SHOWN: usize = 6;

/// The shape that the model is asked to answer in.
pub const SCHEMA_NOTE: &'static str = "
Respond with ONLY a single JSON object, no prose outside it, in exactly this shape:
{
  \"thinking\": \"<your reasoning in a sentence or two, shown to the user before the reply>\",
  \"reply\": \"<what you say out loud to the user, in character, explaining the plan briefly>\",
  \"steps\": [
    {\"kind\": \"launch_or_focus\", \"app_id\": \"<desktop file id or binary name>\"},
    {\"kind\": \"close_window\", \"app_id\": \"<desktop file id or binary name>\"},
    {\"kind\": \"run_in_terminal\", \"binary\": \"<binary name>\", \"args\": [\"arg\"]},
    {\"kind\": \"install_package\", \"manager\": \"pacman|aur|apt|dnf|zypper|flatpak\", \"packages\": [\"pkgname\"]},
    {\"kind\": \"remove_package\", \"manager\": \"pacman|aur|apt|dnf|zypper|flatpak\", \"packages\": [\"pkgname\"]},
    {\"kind\": \"systemctl\", \"verb\": \"start|stop|restart|enable|disable|enable_now|disable_now\", \"unit\": \"name.service\", \"user_scope\": false},
    {\"kind\": \"power_action\", \"action\": \"reboot|shutdown|suspend\"},
    {\"kind\": \"utility\", \"name\": \"<one of the known utility names>\"},
    {\"kind\": \"set_config\", \"file\": \"kwinrc\", \"group\": \"GroupName\", \"key\": \"keyname\", \"value\": \"value\"}
  ]
}
Use ONLY these step kinds and ONLY the enum values shown. If a request needs
something outside these kinds, explain what's missing in \"reply\" and return
an empty steps list. Never include shell syntax, pipes, or explanations
inside a field value beyond the literal package/unit/config value itself.
";

/// What stands before the research context in the prompt.
pub const CONTEXT_NOTE: &'static str = "\n\nResearch context gathered from the web for this request (use it for correct package/unit names, but still only emit the allowed step kinds above):\n";

/// One turn of the conversation: who spoke, and what was said.
pub open spec fn turns(history: Seq<(String, String)>) -> Seq<(Seq<char>, Seq<char>)> {
    history.map_values(|t: (String, String)| (t.0@, t.1@))
}

/// The last turns of the conversation, each as "role: text".
pub open spec fn turn_lines(history: Seq<(Seq<char>, Seq<char>)>) -> Seq<Seq<char>> {
    history.map_values(|t: (Seq<char>, Seq<char>)| t.0 + ": "@ + t.1)
}

/// The conversation that the model is shown.
pub open spec fn conversation(history: Seq<(Seq<char>, Seq<char>)>) -> Seq<char> {
    let shown = if history.len() <= HISTORY_SHOWN {
        history
    } else {
        history.skip(history.len() - HISTORY_SHOWN)
    };
    joined(turn_lines(shown), "\n"@)
}

/// A list of names, or what to say where it is empty.
pub open spec fn name_block(names: Seq<Seq<char>>, none: Seq<char>) -> Seq<char> {
    if names.len() == 0 {
        none
    } else {
        joined(names, ", "@)
    }
}

/// The prompt that asks the model for a plan.
pub open spec fn plan_prompt(
    user_request: Seq<char>,
    system_prompt: Seq<char>,
    known_apps: Seq<Seq<char>>,
    known_utilities: Seq<Seq<char>>,
    web_context: Option<Seq<char>>,
    history: Seq<(Seq<char>, Seq<char>)>,
) -> Seq<char> {
    let context = match web_context {
        Some(ctx) => CONTEXT_NOTE@ + ctx + "\n"@,
        None => Seq::empty(),
    };
    let convo = conversation(history);
    let so_far = if convo.len() == 0 {
        Seq::empty()
    } else {
        "\n\nConversation so far:\n"@ + convo + "\n"@
    };
    system_prompt + "\n\nKnown launchable apps: "@ + name_block(
        known_apps,
        "(none indexed yet)"@,
    ) + "\nKnown utility actions: "@ + name_block(known_utilities, "(none defined)"@) + "\n"@
        + SCHEMA_NOTE@ + context + so_far + "\nuser: "@ + user_request + "\nassistant JSON:"@
}

fn names_or(names: &Vec<String>, none: &str) -> (out: String)
    ensures
        out@ == name_block(texts(names@), none@),
{
    if names.len() == 0 {
        none.to_string()
    } else {
        text::join(names, ", ")
    }
}

fn conversation_of(history: &Vec<(String, String)>) -> (out: String)
    ensures
        out@ == conversation(turns(history@)),
{
    let n = history.len();
    let start: usize = if n <= HISTORY_SHOWN {
        0
    } else {
        n - HISTORY_SHOWN
    };
    let ghost shown = turns(history@).skip(start as int);
    let ghost wanted = turn_lines(shown);
    let mut lines: Vec<String> = Vec::new();
    assert(texts(lines@) == wanted.take(0));
    for i in start..n
        invariant
            start <= n == history@.len(),
            shown == turns(history@).skip(start as int),
            wanted == turn_lines(shown),
            texts(lines@) == wanted.take(i - start),
    {
        let ghost before = texts(lines@);
        let mut line = history[i].0.clone();
        line.append(": ");
        line.append(history[i].1.as_str());
        assert(shown[i - start] == turns(history@)[i as int]);
        assert(line@ == wanted[i - start]);
        lines.push(line);
        assert(texts(lines@) == before.push(line@));
        assert(wanted.take(i + 1 - start) == before.push(wanted[i - start]));
    }
    assert(wanted.take(n - start) == wanted);
    assert(turns(history@).skip(0) == turns(history@));
    text::join(&lines, "\n")
}

/// What is posted to the server.
#[derive(Debug, PartialEq, Eq)]
pub struct CompletionRequest {
    pub url: String,
    pub model: String,
    /// The content of the one message, in the role of the user.
    pub prompt: String,
}

/// Where the server is and which model it is asked for.
#[derive(Debug, PartialEq, Eq)]
pub struct JanClient {
    pub base_url: String,
    pub model: String,
}

impl JanClient {
    pub fn new(base_url: &str, model: &str) -> (client: JanClient)
        ensures
            client.base_url@ == base_url@,
            client.model@ == model@,
    {
        JanClient { base_url: base_url.to_string(), model: model.to_string() }
    }

    /// The address that tells whether the server is up.
    pub fn health(&self) -> (url: String)
        ensures
            url@ == self.base_url@ + "/v1/models"@,
    {
        let mut url = self.base_url.clone();
        url.append("/v1/models");
        url
    }

    /// The request that asks the model for a plan.
    pub fn research_plan(
        &self,
        user_request: &str,
        system_prompt: &str,
        known_apps: &Vec<String>,
        known_utilities: &Vec<String>,
        web_context: Option<&str>,
        history: &Vec<(String, String)>,
    ) -> (request: CompletionRequest)
        ensures
            request.url@ == self.base_url@ + "/v1/chat/completions"@,
            request.model@ == self.model@,
            request.prompt@ == plan_prompt(
                user_request@,
                system_prompt@,
                texts(known_apps@),
                texts(known_utilities@),
                str_text(web_context),
                turns(history@),
            ),
    {
        let mut prompt = system_prompt.to_string();
        prompt.append("\n\nKnown launchable apps: ");
        prompt.append(names_or(known_apps, "(none indexed yet)").as_str());
        prompt.append("\nKnown utility actions: ");
        prompt.append(names_or(known_utilities, "(none defined)").as_str());
        prompt.append("\n");
        prompt.append(SCHEMA_NOTE);
        let ghost head = prompt@;
        if let Some(ctx) = web_context {
            prompt.append(CONTEXT_NOTE);
            prompt.append(ctx);
            prompt.append("\n");
            assert(prompt@ == head + (CONTEXT_NOTE@ + ctx@ + "\n"@));
        } else {
            assert(prompt@ == head + Seq::<char>::empty());
        }
        let ghost middle = prompt@;
        let convo = conversation_of(history);
        if chars_of(convo.as_str()).len() > 0 {
            prompt.append("\n\nConversation so far:\n");
            prompt.append(convo.as_str());
            prompt.append("\n");
            assert(prompt@ == middle + ("\n\nConversation so far:\n"@ + convo@ + "\n"@));
        } else {
            assert(prompt@ == middle + Seq::<char>::empty());
        }
        prompt.append("\nuser: ");
        prompt.append(user_request);
        prompt.append("\nassistant JSON:");
        let mut url = self.base_url.clone();
        url.append("/v1/chat/completions");
        CompletionRequest { url, model: self.model.clone(), prompt }
    }
}

/// What the model said, in an answer of the server; nothing where the answer
/// has another shape.
pub open spec fn answer_content(v: JsonView) -> Seq<char> {
    match v.member("choices"@) {
        Some(choices) => match choices.item(0) {
            Some(choice) => match choice.member("message"@) {
                Some(message) => match message.member_text("content"@) {
                    Some(content) => content,
                    None => Seq::empty(),
                },
                None => Seq::empty(),
            },
            None => Seq::empty(),
        },
        None => Seq::empty(),
    }
}

/// What the model said, in an answer of the server.
pub fn completion_content(v: &JsonValue) -> (content: String)
    ensures
        content@ == answer_content(v@),
{
    match v.get("choices") {
        Some(choices) => match choices.at(0) {
            Some(choice) => match choice.get("message") {
                Some(message) => match message.get_str("content") {
                    Some(content) => content.clone(),
                    None => String::new(),
                },
                None => String::new(),
            },
            None => String::new(),
        },
        None => String::new(),
    }
}

/// What the answer of the server comes to: what the model said, or what went
/// wrong.
pub open spec fn completion(success: bool, status: Seq<char>, body: Seq<u8>) -> Result<
    Seq<char>,
    Seq<char>,
> {
    if !success {
        Err("Jan.ai server returned status "@ + status)
    } else {
        match json_document(body) {
            Some(v) => Ok(answer_content(v)),
            None => Err("parsing Jan.ai response"@),
        }
    }
}

/// Reads the answer of the server: what the model said, or what went wrong.
/// `status` is the status of the answer in words.
pub fn read_completion(success: bool, status: &str, body: &Vec<u8>) -> (r: Result<String, String>)
    ensures
        match r {
            Ok(content) => success && (json_document(body@) matches Some(v) && content@
                == answer_content(v)),
            Err(message) => if !success {
                message@ == "Jan.ai server returned status "@ + status@
            } else {
                json_document(body@) is None && message@ == "parsing Jan.ai response"@
            },
        },
        match r {
            Ok(content) => completion(success, status@, body@) == Ok::<Seq<char>, Seq<char>>(
                content@,
            ),
            Err(message) => completion(success, status@, body@) == Err::<Seq<char>, Seq<char>>(
                message@,
            ),
        },
{
    if !success {
        let mut message = "Jan.ai server returned status ".to_string();
        message.append(status);
        return Err(message);
    }
    match json::parse_json(body) {
        Some(v) => Ok(completion_content(&v)),
        None => Err("parsing Jan.ai response".to_string()),
    }
}

/// What to say where the server could not be asked.
pub fn unreachable_message() -> (message: String)
    ensures
        message@ == "calling Jan.ai server"@,
{
    "calling Jan.ai server".to_string()
}

/// How far a block of JSON has been read: how many braces are open, and
/// whether the last character stands in a string, or behind a backslash in one.
pub struct BraceScan {
    pub depth: int,
    pub in_string: bool,
    pub escaped: bool,
}

/// The scan after one more character. Braces in strings do not count.
pub open spec fn brace_step(b: BraceScan, c: char) -> BraceScan {
    if b.in_string {
        if b.escaped {
            BraceScan { escaped: false, ..b }
        } else if c == '\\' {
            BraceScan { escaped: true, ..b }
        } else if c == '"' {
            BraceScan { in_string: false, ..b }
        } else {
            b
        }
    } else if c == '"' {
        BraceScan { in_string: true, ..b }
    } else if c == '{' {
        BraceScan { depth: b.depth + 1, ..b }
    } else if c == '}' {
        BraceScan { depth: b.depth - 1, ..b }
    } else {
        b
    }
}

pub open spec fn brace_scan(s: Seq<char>) -> BraceScan
    decreases s.len(),
{
    if s.len() == 0 {
        BraceScan { depth: 0, in_string: false, escaped: false }
    } else {
        brace_step(brace_scan(s.drop_last()), s.last())
    }
}

/// The length of the block that a text starts with, at least `n` characters of
/// it: up to where every brace that was opened is closed.
pub open spec fn block_length(s: Seq<char>, n: int) -> Option<int>
    decreases s.len() + 1 - n,
{
    if n < 0 || n > s.len() {
        None
    } else if brace_scan(s.take(n)).depth == 0 {
        Some(n)
    } else {
        block_length(s, n + 1)
    }
}

/// The first block in braces of a text: from its first opening brace to the
/// one that closes it. There is none where no brace opens, or the first that
/// does is never closed.
pub open spec fn first_block(s: Seq<char>) -> Option<Seq<char>> {
    match position(s, "{"@) {
        Some(start) => {
            let rest = s.skip(start);
            match block_length(rest, 1) {
                Some(n) => Some(rest.take(n)),
                None => None,
            }
        },
        None => None,
    }
}

/// The length of the block that a text with an opening brace in front starts
/// with.
fn block_end(s: &Vec<char>) -> (r: Option<usize>)
    requires
        s@.len() > 0,
        s@[0] == '{',
    ensures
        match r {
            Some(n) => block_length(s@, 1) == Some(n as int) && n <= s@.len(),
            None => block_length(s@, 1) is None,
        },
{
    let mut depth: usize = 1;
    let mut in_string = false;
    let mut escaped = false;
    let mut n: usize = 1;
    proof {
        assert(s@.take(1).drop_last() == Seq::<char>::empty());
        assert(brace_scan(Seq::<char>::empty()).depth == 0);
        assert(s@.take(1).last() == '{');
    }
    while n < s.len()
        invariant
            1 <= n <= s@.len(),
            1 <= depth <= n,
            brace_scan(s@.take(n as int)) == (BraceScan { depth: depth as int, in_string, escaped }),
            block_length(s@, 1) == block_length(s@, n as int),
        decreases s@.len() - n,
    {
        let c = s[n];
        assert(s@.take(n + 1).drop_last() == s@.take(n as int));
        assert(s@.take(n + 1).last() == c);
        if in_string {
            if escaped {
                escaped = false;
            } else if c == '\\' {
                escaped = true;
            } else if c == '"' {
                in_string = false;
            }
        } else if c == '"' {
            in_string = true;
        } else if c == '{' {
            depth += 1;
        } else if c == '}' {
            depth -= 1;
        }
        n += 1;
        if depth == 0 {
            return Some(n);
        }
    }
    assert(block_length(s@, n + 1) is None);
    None
}

/// The first block in braces of a text: models put prose and code fences
/// around what they were asked for.
pub fn json_block(content: &str) -> (r: Option<String>)
    ensures
        match r {
            Some(block) => first_block(content@) == Some(block@),
            None => first_block(content@) is None,
        },
{
    let s = chars_of(content);
    let size = s.len();
    proof {
        lemma_find_from(s@, "{"@, 0);
        reveal_strlit("{");
    }
    match text::find_at(&s, &chars_of("{"), 0) {
        Some(start) => {
            let rest = text::part(&s, start, size);
            proof {
                assert(rest@ == s@.skip(start as int));
                assert(s@.subrange(start as int, start + 1)[0] == s@[start as int]);
                assert(rest@[0] == '{');
            }
            match block_end(&rest) {
                Some(n) => {
                    let block = text::part(&rest, 0, n);
                    assert(block@ == rest@.take(n as int));
                    Some(string_of(&block))
                },
                None => None,
            }
        },
        None => None,
    }
}

/// What the model was asked for, as it answered; nothing in it is trusted.
#[derive(Debug, PartialEq, Eq)]
pub struct LlmPlanResponse {
    pub thinking: String,
    pub reply: String,
    pub steps: Vec<JsonValue>,
}

/// The model of an `LlmPlanResponse`.
pub struct ResponseView {
    pub thinking: Seq<char>,
    pub reply: Seq<char>,
    pub steps: Seq<JsonView>,
}

impl View for LlmPlanResponse {
    type V = ResponseView;

    open spec fn view(&self) -> ResponseView {
        ResponseView {
            thinking: self.thinking@,
            reply: self.reply@,
            steps: trees(self.steps@),
        }
    }
}

/// What the members of an object say in the shape that the model was asked
/// for: one reply, and one list of steps or none; there is nothing where they
/// have another shape. Reasoning is only shown, so that an answer counts
/// without it, or with some that is not one text. Other members play no part.
pub open spec fn response_in(fields: Seq<FieldView>) -> Option<ResponseView> {
    let thinking = match held(fields, "thinking"@) {
        HeldView::Once(Some(JsonView::Text(t))) => t,
        _ => Seq::empty(),
    };
    let steps = match held(fields, "steps"@) {
        HeldView::Once(Some(JsonView::List(items))) => Some(items),
        HeldView::Nothing => Some(Seq::empty()),
        _ => None,
    };
    match (held(fields, "reply"@), steps) {
        (HeldView::Once(Some(JsonView::Text(reply))), Some(steps)) => Some(
            ResponseView { thinking, reply, steps },
        ),
        _ => None,
    }
}

/// What an answer says in the shape that the model was asked for: what the
/// members of its first block in braces say.
pub open spec fn answered_response(content: Seq<char>) -> Option<ResponseView> {
    match first_block(content) {
        Some(block) => match object_fields(block) {
            Some(members) => response_in(members),
            None => None,
        },
        None => None,
    }
}

/// What the members of an object say in the shape that the model was asked for.
pub fn read_response(members: &Vec<Field>) -> (r: Option<LlmPlanResponse>)
    ensures
        response_view(r) == response_in(field_views(members@)),
{
    let ghost wanted = response_in(field_views(members@));
    let thinking = match fields::find_field(members, "thinking") {
        Held::Once(Some(JsonValue::Text(t))) => t.clone(),
        _ => String::new(),
    };
    let steps = match fields::find_field(members, "steps") {
        Held::Once(Some(JsonValue::List(items))) => json::copy_list(items),
        Held::Nothing => Vec::new(),
        _ => {
            return None;
        },
    };
    match fields::find_field(members, "reply") {
        Held::Once(Some(JsonValue::Text(reply))) => {
            let response = LlmPlanResponse { thinking, reply: reply.clone(), steps };
            assert(response@.steps == wanted->0.steps);
            assert(response@.thinking == wanted->0.thinking);
            Some(response)
        },
        _ => None,
    }
}

/// What an answer says in the shape that the model was asked for. There is
/// nothing where no block in braces stands in it, or the first is no JSON or
/// has another shape.
pub fn extract_json(content: &str) -> (r: Option<LlmPlanResponse>)
    ensures
        response_view(r) == answered_response(content@),
{
    match json_block(content) {
        Some(block) => match fields::parse_fields(block.as_str()) {
            Some(members) => read_response(&members),
            None => None,
        },
        None => None,
    }
}

pub open spec fn manager_named(s: Seq<char>) -> Option<PackageManager> {
    if s == "pacman"@ {
        Some(PackageManager::Pacman)
    } else if s == "aur"@ {
        Some(PackageManager::Aur)
    } else if s == "apt"@ {
        Some(PackageManager::Apt)
    } else if s == "dnf"@ {
        Some(PackageManager::Dnf)
    } else if s == "zypper"@ {
        Some(PackageManager::Zypper)
    } else if s == "flatpak"@ {
        Some(PackageManager::Flatpak)
    } else {
        None
    }
}

pub fn parse_manager(s: &str) -> (r: Option<PackageManager>)
    ensures
        r == manager_named(s@),
{
    if text::same(s, "pacman") {
        Some(PackageManager::Pacman)
    } else if text::same(s, "aur") {
        Some(PackageManager::Aur)
    } else if text::same(s, "apt") {
        Some(PackageManager::Apt)
    } else if text::same(s, "dnf") {
        Some(PackageManager::Dnf)
    } else if text::same(s, "zypper") {
        Some(PackageManager::Zypper)
    } else if text::same(s, "flatpak") {
        Some(PackageManager::Flatpak)
    } else {
        None
    }
}

pub open spec fn verb_named(s: Seq<char>) -> Option<SystemctlVerb> {
    if s == "start"@ {
        Some(SystemctlVerb::Start)
    } else if s == "stop"@ {
        Some(SystemctlVerb::Stop)
    } else if s == "restart"@ {
        Some(SystemctlVerb::Restart)
    } else if s == "enable"@ {
        Some(SystemctlVerb::Enable)
    } else if s == "disable"@ {
        Some(SystemctlVerb::Disable)
    } else if s == "enable_now"@ {
        Some(SystemctlVerb::EnableNow)
    } else if s == "disable_now"@ {
        Some(SystemctlVerb::DisableNow)
    } else {
        None
    }
}

pub fn parse_verb(s: &str) -> (r: Option<SystemctlVerb>)
    ensures
        r == verb_named(s@),
{
    if text::same(s, "start") {
        Some(SystemctlVerb::Start)
    } else if text::same(s, "stop") {
        Some(SystemctlVerb::Stop)
    } else if text::same(s, "restart") {
        Some(SystemctlVerb::Restart)
    } else if text::same(s, "enable") {
        Some(SystemctlVerb::Enable)
    } else if text::same(s, "disable") {
        Some(SystemctlVerb::Disable)
    } else if text::same(s, "enable_now") {
        Some(SystemctlVerb::EnableNow)
    } else if text::same(s, "disable_now") {
        Some(SystemctlVerb::DisableNow)
    } else {
        None
    }
}

pub open spec fn power_named(s: Seq<char>) -> Option<PowerActionKind> {
    if s == "reboot"@ {
        Some(PowerActionKind::Reboot)
    } else if s == "shutdown"@ {
        Some(PowerActionKind::Shutdown)
    } else if s == "suspend"@ {
        Some(PowerActionKind::Suspend)
    } else {
        None
    }
}

pub fn parse_power(s: &str) -> (r: Option<PowerActionKind>)
    ensures
        r == power_named(s@),
{
    if text::same(s, "reboot") {
        Some(PowerActionKind::Reboot)
    } else if text::same(s, "shutdown") {
        Some(PowerActionKind::Shutdown)
    } else if text::same(s, "suspend") {
        Some(PowerActionKind::Suspend)
    } else {
        None
    }
}

/// The texts among some documents, in order.
pub open spec fn texts_among(items: Seq<JsonView>) -> Seq<Seq<char>>
    decreases items.len(),
{
    if items.len() == 0 {
        Seq::empty()
    } else {
        match items.last().as_text() {
            Some(s) => texts_among(items.drop_last()).push(s),
            None => texts_among(items.drop_last()),
        }
    }
}

/// The texts of a list; there is none where the document is no list.
pub open spec fn list_texts(v: JsonView) -> Option<Seq<Seq<char>>> {
    match v {
        JsonView::List(items) => Some(texts_among(items)),
        _ => None,
    }
}

fn texts_of_list(v: &JsonValue) -> (r: Option<Vec<String>>)
    ensures
        match r {
            Some(out) => list_texts(v@) == Some(texts(out@)),
            None => list_texts(v@) is None,
        },
{
    match v {
        JsonValue::List(items) => {
            let ghost all = trees(items@);
            proof {
                lemma_trees(items@);
            }
            let mut out: Vec<String> = Vec::new();
            assert(texts(out@) == texts_among(all.take(0)));
            for i in 0..items.len()
                invariant
                    all.len() == items@.len(),
                    forall|j: int| 0 <= j < items@.len() ==> #[trigger] all[j] == items@[j]@,
                    texts(out@) == texts_among(all.take(i as int)),
            {
                assert(all.take(i + 1).drop_last() == all.take(i as int));
                assert(all[i as int] == items@[i as int]@);
                let ghost before = texts(out@);
                if let Some(s) = items[i].as_str() {
                    out.push(s.clone());
                    assert(texts(out@) == before.push(s@));
                }
            }
            assert(all.take(all.len() as int) == all);
            Some(out)
        },
        _ => None,
    }
}

/// The texts of the list under a key; there are none where it holds no text.
pub open spec fn member_list(v: JsonView, key: Seq<char>) -> Option<Seq<Seq<char>>> {
    match v.member(key) {
        Some(list) => match list_texts(list) {
            Some(out) => if out.len() > 0 {
                Some(out)
            } else {
                None
            },
            None => None,
        },
        None => None,
    }
}

/// Every document of the list is a text.
pub open spec fn all_texts(items: Seq<JsonView>) -> bool {
    forall|i: int| 0 <= i < items.len() ==> (#[trigger] items[i]).as_text() is Some
}

/// The texts of the list under a key; there are none where there is no such
/// list, or something in it is no text.
pub open spec fn member_texts(v: JsonView, key: Seq<char>) -> Option<Seq<Seq<char>>> {
    match v.member(key) {
        Some(JsonView::List(items)) => if all_texts(items) {
            Some(texts_among(items))
        } else {
            None
        },
        _ => None,
    }
}

/// The texts of the list under a key; there are none where it holds no text.
fn parse_string_list(v: &JsonValue, key: &str) -> (r: Option<Vec<String>>)
    ensures
        match r {
            Some(out) => member_list(v@, key@) == Some(texts(out@)),
            None => member_list(v@, key@) is None,
        },
{
    match v.get(key) {
        Some(list) => match texts_of_list(list) {
            Some(out) => {
                assert(texts(out@).len() == out@.len());
                if out.len() > 0 {
                    Some(out)
                } else {
                    None
                }
            },
            None => None,
        },
        None => None,
    }
}

/// The texts of the list under a key; there are none where there is no such
/// list, or something in it is no text.
fn parse_args(v: &JsonValue, key: &str) -> (r: Option<Vec<String>>)
    ensures
        match r {
            Some(out) => member_texts(v@, key@) == Some(texts(out@)),
            None => member_texts(v@, key@) is None,
        },
{
    let list = match v.get(key) {
        Some(list) => list,
        None => {
            return None;
        },
    };
    if let JsonValue::List(items) = list {
        let ghost all = trees(items@);
        proof {
            lemma_trees(items@);
        }
        for i in 0..items.len()
            invariant
                v@.member(key@) == Some(JsonView::List(all)),
                all.len() == items@.len(),
                forall|j: int| 0 <= j < items@.len() ==> #[trigger] all[j] == items@[j]@,
                forall|j: int| 0 <= j < i ==> (#[trigger] all[j]).as_text() is Some,
        {
            assert(all[i as int] == items@[i as int]@);
            if items[i].as_str().is_none() {
                assert(all[i as int].as_text() is None);
                return None;
            }
        }
    }
    texts_of_list(list)
}

/// The step that installs or removes packages, from its manager and packages.
pub open spec fn packages_step(v: JsonView, install: bool) -> Option<KindView> {
    match (v.member_text("manager"@), member_list(v, "packages"@)) {
        (Some(name), Some(packages)) => match manager_named(name) {
            Some(manager) => Some(
                if install {
                    KindView::InstallPackage { manager, packages }
                } else {
                    KindView::RemovePackage { manager, packages }
                },
            ),
            None => None,
        },
        _ => None,
    }
}

/// The step of a service, from its verb, its unit and its scope.
pub open spec fn systemctl_step(v: JsonView) -> Option<KindView> {
    match v.member_text("verb"@) {
        Some(name) => match verb_named(name) {
            Some(verb) => Some(
                KindView::Systemctl {
                    verb,
                    unit: v.member_text("unit"@),
                    user_scope: v.member("user_scope"@) matches Some(flag) && flag.as_flag()
                        == Some(true),
                },
            ),
            None => None,
        },
        None => None,
    }
}

/// The step that writes a setting, from its four texts.
pub open spec fn config_step(v: JsonView) -> Option<KindView> {
    match (
        v.member_text("file"@),
        v.member_text("group"@),
        v.member_text("key"@),
        v.member_text("value"@),
    ) {
        (Some(file), Some(group), Some(key), Some(value)) => Some(
            KindView::SetConfig { file, group, key, value },
        ),
        _ => None,
    }
}

/// The step that a document stands for; there is none where the document does
/// not fit the vocabulary.
pub open spec fn step_of(v: JsonView) -> Option<KindView> {
    match v.member_text("kind"@) {
        Some(kind) => if kind == "launch_or_focus"@ {
            match v.member_text("app_id"@) {
                Some(app_id) => Some(KindView::LaunchOrFocus { app_id }),
                None => None,
            }
        } else if kind == "close_window"@ {
            match v.member_text("app_id"@) {
                Some(app_id) => Some(KindView::CloseWindow { app_id }),
                None => None,
            }
        } else if kind == "run_in_terminal"@ {
            match (v.member_text("binary"@), member_texts(v, "args"@)) {
                (Some(binary), Some(args)) => Some(KindView::RunInTerminal { binary, args }),
                _ => None,
            }
        } else if kind == "install_package"@ {
            packages_step(v, true)
        } else if kind == "remove_package"@ {
            packages_step(v, false)
        } else if kind == "systemctl"@ {
            systemctl_step(v)
        } else if kind == "power_action"@ {
            match v.member_text("action"@) {
                Some(name) => match power_named(name) {
                    Some(action) => Some(KindView::PowerAction { action }),
                    None => None,
                },
                None => None,
            }
        } else if kind == "utility"@ {
            match v.member_text("name"@) {
                Some(name) => Some(KindView::Utility { name }),
                None => None,
            }
        } else if kind == "set_config"@ {
            config_step(v)
        } else {
            None
        },
        None => None,
    }
}

fn parse_packages_step(v: &JsonValue, install: bool) -> (r: Option<StepKind>)
    ensures
        match r {
            Some(kind) => packages_step(v@, install) == Some(kind@),
            None => packages_step(v@, install) is None,
        },
{
    match (v.get_str("manager"), parse_string_list(v, "packages")) {
        (Some(name), Some(packages)) => match parse_manager(name.as_str()) {
            Some(manager) => if install {
                Some(StepKind::InstallPackage { manager, packages })
            } else {
                Some(StepKind::RemovePackage { manager, packages })
            },
            None => None,
        },
        _ => None,
    }
}

fn parse_systemctl_step(v: &JsonValue) -> (r: Option<StepKind>)
    ensures
        match r {
            Some(kind) => systemctl_step(v@) == Some(kind@),
            None => systemctl_step(v@) is None,
        },
{
    match v.get_str("verb") {
        Some(name) => match parse_verb(name.as_str()) {
            Some(verb) => {
                let unit = match v.get_str("unit") {
                    Some(u) => Some(u.clone()),
                    None => None,
                };
                let user_scope = match v.get("user_scope") {
                    Some(flag) => match flag.as_bool() {
                        Some(b) => b,
                        None => false,
                    },
                    None => false,
                };
                Some(StepKind::Systemctl { verb, unit, user_scope })
            },
            None => None,
        },
        None => None,
    }
}

fn parse_config_step(v: &JsonValue) -> (r: Option<StepKind>)
    ensures
        match r {
            Some(kind) => config_step(v@) == Some(kind@),
            None => config_step(v@) is None,
        },
{
    match (v.get_str("file"), v.get_str("group"), v.get_str("key"), v.get_str("value")) {
        (Some(file), Some(group), Some(key), Some(value)) => Some(
            StepKind::SetConfig {
                file: file.clone(),
                group: group.clone(),
                key: key.clone(),
                value: value.clone(),
            },
        ),
        _ => None,
    }
}

/// The step that a document stands for. This is where the vocabulary is
/// enforced: a document that does not fit it gives no step.
pub fn try_parse_step(v: &JsonValue) -> (r: Option<StepKind>)
    ensures
        match r {
            Some(kind) => step_of(v@) == Some(kind@),
            None => step_of(v@) is None,
        },
{
    let kind = match v.get_str("kind") {
        Some(kind) => kind.as_str(),
        None => {
            return None;
        },
    };
    if text::same(kind, "launch_or_focus") {
        match v.get_str("app_id") {
            Some(app_id) => Some(StepKind::LaunchOrFocus { app_id: app_id.clone() }),
            None => None,
        }
    } else if text::same(kind, "close_window") {
        match v.get_str("app_id") {
            Some(app_id) => Some(StepKind::CloseWindow { app_id: app_id.clone() }),
            None => None,
        }
    } else if text::same(kind, "run_in_terminal") {
        match (v.get_str("binary"), parse_args(v, "args")) {
            (Some(binary), Some(args)) => Some(
                StepKind::RunInTerminal { binary: binary.clone(), args },
            ),
            _ => None,
        }
    } else if text::same(kind, "install_package") {
        parse_packages_step(v, true)
    } else if text::same(kind, "remove_package") {
        parse_packages_step(v, false)
    } else if text::same(kind, "systemctl") {
        parse_systemctl_step(v)
    } else if text::same(kind, "power_action") {
        match v.get_str("action") {
            Some(name) => match parse_power(name.as_str()) {
                Some(action) => Some(StepKind::PowerAction { action }),
                None => None,
            },
            None => None,
        }
    } else if text::same(kind, "utility") {
        match v.get_str("name") {
            Some(name) => Some(StepKind::Utility { name: name.clone() }),
            None => None,
        }
    } else if text::same(kind, "set_config") {
        parse_config_step(v)
    } else {
        None
    }
}

/// The steps that some documents stand for, in order; documents that stand for
/// none are left out.
pub open spec fn steps_of(raw: Seq<JsonView>) -> Seq<StepView>
    decreases raw.len(),
{
    if raw.len() == 0 {
        Seq::empty()
    } else {
        let before = steps_of(raw.drop_last());
        match step_of(raw.last()) {
            Some(kind) => before.push(StepView { kind, description: kind.description() }),
            None => before,
        }
    }
}

/// The answer that is taken where the model did not answer in the shape that
/// it was asked for: its words as the reply, and no steps.
pub open spec fn response_or_words(
    content: Seq<char>,
    parsed: Option<ResponseView>,
) -> ResponseView {
    match parsed {
        Some(r) => r,
        None => ResponseView {
            thinking: Seq::empty(),
            reply: trimmed(content),
            steps: Seq::empty(),
        },
    }
}

/// The model of an optional response.
pub open spec fn response_view(parsed: Option<LlmPlanResponse>) -> Option<ResponseView> {
    match parsed {
        Some(r) => Some(r@),
        None => None,
    }
}

/// The plan that the model proposes.
pub open spec fn proposed_plan(response: ResponseView, id: Seq<char>) -> PlanView {
    PlanView {
        id,
        thinking: response.thinking,
        reply: response.reply,
        steps: steps_of(response.steps),
        requires_confirmation: true,
    }.finalized()
}

/// The plan that an answer of the model proposes.
pub open spec fn answer_plan(content: Seq<char>, id: Seq<char>) -> PlanView {
    proposed_plan(response_or_words(content, answered_response(content)), id)
}

/// The plan that the model proposes, under the given id, where `parsed` is what
/// its answer says in the shape that it was asked for.
pub fn plan_with_id(content: &str, parsed: Option<LlmPlanResponse>, id: &str) -> (plan: Plan)
    ensures
        plan@ == proposed_plan(response_or_words(content@, response_view(parsed)), id@),
{
    let ghost wanted = response_or_words(content@, response_view(parsed));
    let response = match parsed {
        Some(r) => r,
        None => LlmPlanResponse {
            thinking: String::new(),
            reply: text::trim(content),
            steps: Vec::new(),
        },
    };
    let ghost raw = trees(response.steps@);
    proof {
        lemma_trees(response.steps@);
        assert(response@.steps == wanted.steps);
        assert(response@.thinking == wanted.thinking);
    }
    let mut steps: Vec<Step> = Vec::new();
    assert(step_views(steps@) == steps_of(raw.take(0)));
    for i in 0..response.steps.len()
        invariant
            raw.len() == response.steps@.len(),
            forall|j: int|
                0 <= j < response.steps@.len() ==> #[trigger] raw[j] == response.steps@[j]@,
            step_views(steps@) == steps_of(raw.take(i as int)),
    {
        assert(raw.take(i + 1).drop_last() == raw.take(i as int));
        assert(raw[i as int] == response.steps@[i as int]@);
        let ghost before = step_views(steps@);
        if let Some(kind) = try_parse_step(&response.steps[i]) {
            let description = kind.describe();
            let step = Step { kind, description };
            steps.push(step);
            assert(step_views(steps@) == before.push(step@));
        }
    }
    assert(raw.take(raw.len() as int) == raw);
    Plan {
        id: id.to_string(),
        thinking: response.thinking,
        reply: response.reply,
        steps,
        requires_confirmation: true,
    }.finalize()
}

/// The plan that an answer of the model proposes, under the given id.
pub fn plan_of_answer(content: &str, id: &str) -> (plan: Plan)
    ensures
        plan@ == answer_plan(content@, id@),
{
    let parsed = extract_json(content);
    plan_with_id(content, parsed, id)
}

/// The plan that an answer of the model proposes, under a new id.
pub fn plan_from_answer(content: &str) -> (plan: Plan)
    ensures
        random_uuid(plan@.id),
        plan@ == answer_plan(content@, plan@.id),
{
    let id = fresh::new_plan_id();
    plan_of_answer(content, id.as_str())
}

/// A plan that the model proposes waits for approval exactly if some step is
/// neither a launch nor a utility action; what the model says of it plays no
/// part, and an answer in another shape gives a plan without steps.
pub proof fn law_model_cannot_waive_confirmation(
    content: Seq<char>,
    parsed: Option<ResponseView>,
    id: Seq<char>,
)
    ensures
        ({
            let plan = proposed_plan(response_or_words(content, parsed), id);
            &&& plan.requires_confirmation <==> exists|i: int|
                0 <= i < plan.steps.len() && !((#[trigger] plan.steps[i]).kind is LaunchOrFocus
                    || plan.steps[i].kind is Utility)
            &&& parsed is None ==> plan.steps.len() == 0 && !plan.requires_confirmation
        }),
{
    let response = response_or_words(content, parsed);
    let raw = PlanView {
        id,
        thinking: response.thinking,
        reply: response.reply,
        steps: steps_of(response.steps),
        requires_confirmation: true,
    };
    crate::plan::law_only_launch_and_utility_skip_confirmation(raw);
}

/// An answer that repeats its reply or its steps is none in the shape that was
/// asked for: it is not taken for one of the two.
pub proof fn law_repeated_members_are_refused(fields: Seq<FieldView>, i: int, j: int)
    requires
        0 <= i < j < fields.len(),
        fields[i].name == fields[j].name,
        fields[i].name == "reply"@ || fields[i].name == "steps"@,
    ensures
        response_in(fields) is None,
{
    law_a_key_is_held_as_often_as_written(fields, fields[i].name);
}

/// Members that were not asked for play no part, whatever their values are.
pub proof fn law_other_members_are_ignored(fields: Seq<FieldView>, i: int)
    requires
        0 <= i < fields.len(),
        fields[i].name != "thinking"@,
        fields[i].name != "reply"@,
        fields[i].name != "steps"@,
    ensures
        response_in(fields.remove(i)) == response_in(fields),
{
    lemma_held_without(fields, i, "thinking"@);
    lemma_held_without(fields, i, "reply"@);
    lemma_held_without(fields, i, "steps"@);
}

proof fn lemma_held_without(fields: Seq<FieldView>, i: int, key: Seq<char>)
    requires
        0 <= i < fields.len(),
        fields[i].name != key,
    ensures
        held(fields.remove(i), key) == held(fields, key),
    decreases fields.len(),
{
    let less = fields.remove(i);
    if i == fields.len() - 1 {
        assert(less == fields.drop_last());
    } else {
        lemma_held_without(fields.drop_last(), i, key);
        assert(less.drop_last() == fields.drop_last().remove(i));
        assert(less.last() == fields.last());
    }
}

/// A document gives at most one step, and one without a known kind gives none.
pub proof fn law_unknown_kinds_give_no_step(v: JsonView)
    requires
        v.member_text("kind"@) matches Some(kind) ==> kind != "launch_or_focus"@ && kind
            != "close_window"@ && kind != "run_in_terminal"@ && kind != "install_package"@ && kind
            != "remove_package"@ && kind != "systemctl"@ && kind != "power_action"@ && kind
            != "utility"@ && kind != "set_config"@,
    ensures
        step_of(v) is None,
        steps_of(seq![v]) == Seq::<StepView>::empty(),
{
    let none = Seq::<JsonView>::empty();
    assert(seq![v].drop_last() == none);
    assert(seq![v].last() == v);
    assert(steps_of(none) == Seq::<StepView>::empty());
}

proof fn lemma_block_length(s: Seq<char>, n: int)
    requires
        0 <= n,
    ensures
        match block_length(s, n) {
            Some(m) => n <= m <= s.len() && brace_scan(s.take(m)).depth == 0 && forall|k: int|
                n <= k < m ==> (#[trigger] brace_scan(s.take(k))).depth != 0,
            None => forall|k: int| n <= k <= s.len() ==> (#[trigger] brace_scan(s.take(k))).depth != 0,
        },
    decreases s.len() + 1 - n,
{
    if n <= s.len() && brace_scan(s.take(n)).depth != 0 {
        lemma_block_length(s, n + 1);
    }
}

/// The first block of a text is a part of it that starts at its first opening
/// brace and ends at the closing brace that leaves none open.
pub proof fn law_block_runs_from_brace_to_brace(s: Seq<char>)
    ensures
        first_block(s) matches Some(block) ==> position(s, "{"@) matches Some(i) && 0 <= i && i
            + block.len() <= s.len() && block == s.subrange(i, (i + block.len()) as int)
            && block.len() >= 2 && block[0] == '{' && block.last() == '}' && brace_scan(block).depth
            == 0 && forall|j: int| 0 <= j < i ==> s[j] != '{',
{
    reveal_strlit("{");
    lemma_find_from(s, "{"@, 0);
    if let Some(i) = position(s, "{"@) {
        let rest = s.skip(i);
        lemma_block_length(rest, 1);
        assert(s.subrange(i, i + 1)[0] == s[i]);
        assert(rest[0] == '{');
        assert forall|j: int| 0 <= j < i implies s[j] != '{' by {
            if s[j] == '{' {
                assert(s.subrange(j, j + 1) == "{"@);
                assert(occurs_at(s, "{"@, j));
            }
        }
        if let Some(n) = block_length(rest, 1) {
            let block = rest.take(n);
            assert(rest.take(1).drop_last() == Seq::<char>::empty());
            assert(brace_scan(Seq::<char>::empty()).depth == 0);
            assert(rest.take(1).last() == '{');
            assert(brace_scan(rest.take(1)).depth == 1);
            assert(n >= 2);
            lemma_depth_positive(rest, n - 1);
            assert(block.drop_last() == rest.take(n - 1));
            assert(block.last() == '}');
            assert(block == s.subrange(i, (i + block.len()) as int));
        }
    }
}

proof fn lemma_depth_positive(s: Seq<char>, n: int)
    requires
        1 <= n <= s.len(),
        brace_scan(s.take(1)).depth == 1,
        forall|k: int| 1 <= k <= n ==> (#[trigger] brace_scan(s.take(k))).depth != 0,
    ensures
        brace_scan(s.take(n)).depth > 0,
    decreases n,
{
    if n > 1 {
        lemma_depth_positive(s, n - 1);
        assert(s.take(n).drop_last() == s.take(n - 1));
        assert(brace_scan(s.take(n)).depth != 0);
    }
}

proof fn lemma_kinds_differ()
    ensures
        "launch_or_focus"@ != "close_window"@,
        "launch_or_focus"@ != "run_in_terminal"@,
        "launch_or_focus"@ != "install_package"@,
        "launch_or_focus"@ != "remove_package"@,
        "launch_or_focus"@ != "systemctl"@,
        "launch_or_focus"@ != "power_action"@,
        "launch_or_focus"@ != "utility"@,
        "launch_or_focus"@ != "set_config"@,
        "close_window"@ != "run_in_terminal"@,
        "close_window"@ != "install_package"@,
        "close_window"@ != "remove_package"@,
        "close_window"@ != "systemctl"@,
        "close_window"@ != "power_action"@,
        "close_window"@ != "utility"@,
        "close_window"@ != "set_config"@,
        "run_in_terminal"@ != "install_package"@,
        "run_in_terminal"@ != "remove_package"@,
        "run_in_terminal"@ != "systemctl"@,
        "run_in_terminal"@ != "power_action"@,
        "run_in_terminal"@ != "utility"@,
        "run_in_terminal"@ != "set_config"@,
        "install_package"@ != "remove_package"@,
        "install_package"@ != "systemctl"@,
        "install_package"@ != "power_action"@,
        "install_package"@ != "utility"@,
        "install_package"@ != "set_config"@,
        "remove_package"@ != "systemctl"@,
        "remove_package"@ != "power_action"@,
        "remove_package"@ != "utility"@,
        "remove_package"@ != "set_config"@,
        "systemctl"@ != "power_action"@,
        "systemctl"@ != "utility"@,
        "systemctl"@ != "set_config"@,
        "power_action"@ != "utility"@,
        "power_action"@ != "set_config"@,
        "utility"@ != "set_config"@,
{
    reveal_strlit("launch_or_focus");
    reveal_strlit("close_window");
    reveal_strlit("run_in_terminal");
    reveal_strlit("install_package");
    reveal_strlit("remove_package");
    reveal_strlit("systemctl");
    reveal_strlit("power_action");
    reveal_strlit("utility");
    reveal_strlit("set_config");
    assert("launch_or_focus"@[0] != "run_in_terminal"@[0]);
    assert("launch_or_focus"@[0] != "install_package"@[0]);
    assert("close_window"@[0] != "power_action"@[0]);
    assert("run_in_terminal"@[0] != "install_package"@[0]);
    assert("launch_or_focus"@.len() == 15);
    assert("close_window"@.len() == 12);
    assert("run_in_terminal"@.len() == 15);
    assert("install_package"@.len() == 15);
    assert("remove_package"@.len() == 14);
    assert("systemctl"@.len() == 9);
    assert("power_action"@.len() == 12);
    assert("utility"@.len() == 7);
    assert("set_config"@.len() == 10);
}

proof fn lemma_managers_differ()
    ensures
        "pacman"@ != "aur"@,
        "pacman"@ != "apt"@,
        "pacman"@ != "dnf"@,
        "pacman"@ != "zypper"@,
        "pacman"@ != "flatpak"@,
        "aur"@ != "apt"@,
        "aur"@ != "dnf"@,
        "aur"@ != "zypper"@,
        "aur"@ != "flatpak"@,
        "apt"@ != "dnf"@,
        "apt"@ != "zypper"@,
        "apt"@ != "flatpak"@,
        "dnf"@ != "zypper"@,
        "dnf"@ != "flatpak"@,
        "zypper"@ != "flatpak"@,
{
    reveal_strlit("pacman");
    reveal_strlit("aur");
    reveal_strlit("apt");
    reveal_strlit("dnf");
    reveal_strlit("zypper");
    reveal_strlit("flatpak");
    assert("pacman"@[0] != "zypper"@[0]);
    assert("aur"@[1] != "apt"@[1]);
    assert("aur"@[0] != "dnf"@[0]);
    assert("apt"@[0] != "dnf"@[0]);
    assert("pacman"@.len() == 6);
    assert("aur"@.len() == 3);
    assert("apt"@.len() == 3);
    assert("dnf"@.len() == 3);
    assert("zypper"@.len() == 6);
    assert("flatpak"@.len() == 7);
}

proof fn lemma_verbs_differ()
    ensures
        "start"@ != "stop"@,
        "start"@ != "restart"@,
        "start"@ != "enable"@,
        "start"@ != "disable"@,
        "start"@ != "enable_now"@,
        "start"@ != "disable_now"@,
        "stop"@ != "restart"@,
        "stop"@ != "enable"@,
        "stop"@ != "disable"@,
        "stop"@ != "enable_now"@,
        "stop"@ != "disable_now"@,
        "restart"@ != "enable"@,
        "restart"@ != "disable"@,
        "restart"@ != "enable_now"@,
        "restart"@ != "disable_now"@,
        "enable"@ != "disable"@,
        "enable"@ != "enable_now"@,
        "enable"@ != "disable_now"@,
        "disable"@ != "enable_now"@,
        "disable"@ != "disable_now"@,
        "enable_now"@ != "disable_now"@,
{
    reveal_strlit("start");
    reveal_strlit("stop");
    reveal_strlit("restart");
    reveal_strlit("enable");
    reveal_strlit("disable");
    reveal_strlit("enable_now");
    reveal_strlit("disable_now");
    assert("restart"@[0] != "disable"@[0]);
    assert("start"@.len() == 5);
    assert("stop"@.len() == 4);
    assert("restart"@.len() == 7);
    assert("enable"@.len() == 6);
    assert("disable"@.len() == 7);
    assert("enable_now"@.len() == 10);
    assert("disable_now"@.len() == 11);
}

proof fn lemma_powers_differ()
    ensures
        "reboot"@ != "shutdown"@,
        "reboot"@ != "suspend"@,
        "shutdown"@ != "suspend"@,
{
    reveal_strlit("reboot");
    reveal_strlit("shutdown");
    reveal_strlit("suspend");
    assert("reboot"@.len() == 6);
    assert("shutdown"@.len() == 8);
    assert("suspend"@.len() == 7);
}

/// The document is an object with this text under the key.
pub open spec fn says(v: JsonView, key: Seq<char>, t: Seq<char>) -> bool {
    v.member(key) == Some(JsonView::Text(t))
}

/// A manager, a verb and a power action each have one word, and no other word
/// stands for them.
pub proof fn law_words_stand_for_what_they_name(
    w: Seq<char>,
    manager: PackageManager,
    verb: SystemctlVerb,
    action: PowerActionKind,
)
    ensures
        manager_named(w) == Some(manager) <==> w == match manager {
            PackageManager::Pacman => "pacman"@,
            PackageManager::Aur => "aur"@,
            PackageManager::Apt => "apt"@,
            PackageManager::Dnf => "dnf"@,
            PackageManager::Zypper => "zypper"@,
            PackageManager::Flatpak => "flatpak"@,
        },
        verb_named(w) == Some(verb) <==> w == match verb {
            SystemctlVerb::Start => "start"@,
            SystemctlVerb::Stop => "stop"@,
            SystemctlVerb::Restart => "restart"@,
            SystemctlVerb::Enable => "enable"@,
            SystemctlVerb::Disable => "disable"@,
            SystemctlVerb::EnableNow => "enable_now"@,
            SystemctlVerb::DisableNow => "disable_now"@,
        },
        power_named(w) == Some(action) <==> w == match action {
            PowerActionKind::Reboot => "reboot"@,
            PowerActionKind::Shutdown => "shutdown"@,
            PowerActionKind::Suspend => "suspend"@,
        },
{
    lemma_managers_differ();
    lemma_verbs_differ();
    lemma_powers_differ();
}

/// The word that the model uses is the name that the user is shown, up to case
/// and, for what is to happen at once, an underscore.
pub proof fn law_words_are_shown_as_they_were_asked_for(w: Seq<char>)
    ensures
        manager_named(w) matches Some(manager) ==> same_ascii_case(w, manager.label_text()),
        power_named(w) matches Some(action) ==> same_ascii_case(w, action.label_text()),
        verb_named(w) matches Some(verb) ==> if verb is EnableNow || verb is DisableNow {
            same_ascii_case(w.take(w.len() - 4) + w.skip(w.len() - 3), verb.label_text())
        } else {
            same_ascii_case(w, verb.label_text())
        },
{
    lemma_shown_managers(w);
    lemma_shown_powers(w);
    lemma_shown_verbs(w);
}

proof fn lemma_shown_managers(w: Seq<char>)
    ensures
        manager_named(w) matches Some(named) ==> same_ascii_case(w, named.label_text()),
{
    reveal_strlit("pacman");
    reveal_strlit("Pacman");
    reveal_strlit("aur");
    reveal_strlit("Aur");
    reveal_strlit("apt");
    reveal_strlit("Apt");
    reveal_strlit("dnf");
    reveal_strlit("Dnf");
    reveal_strlit("zypper");
    reveal_strlit("Zypper");
    reveal_strlit("flatpak");
    reveal_strlit("Flatpak");
    if let Some(named) = manager_named(w) {
        let shown = named.label_text();
        law_case_is_all_that_may_differ(w, shown);
    }
}

proof fn lemma_shown_powers(w: Seq<char>)
    ensures
        power_named(w) matches Some(named) ==> same_ascii_case(w, named.label_text()),
{
    reveal_strlit("reboot");
    reveal_strlit("Reboot");
    reveal_strlit("shutdown");
    reveal_strlit("Shutdown");
    reveal_strlit("suspend");
    reveal_strlit("Suspend");
    if let Some(named) = power_named(w) {
        let shown = named.label_text();
        law_case_is_all_that_may_differ(w, shown);
    }
}

proof fn lemma_shown_verbs(w: Seq<char>)
    ensures
        verb_named(w) matches Some(verb) ==> if verb is EnableNow || verb is DisableNow {
            same_ascii_case(w.take(w.len() - 4) + w.skip(w.len() - 3), verb.label_text())
        } else {
            same_ascii_case(w, verb.label_text())
        },
{
    reveal_strlit("start");
    reveal_strlit("Start");
    reveal_strlit("stop");
    reveal_strlit("Stop");
    reveal_strlit("restart");
    reveal_strlit("Restart");
    reveal_strlit("enable");
    reveal_strlit("Enable");
    reveal_strlit("disable");
    reveal_strlit("Disable");
    reveal_strlit("enable_now");
    reveal_strlit("EnableNow");
    reveal_strlit("disable_now");
    reveal_strlit("DisableNow");
    if let Some(named) = verb_named(w) {
        let shown = named.label_text();
        let joint = if named is EnableNow || named is DisableNow {
            w.take(w.len() - 4) + w.skip(w.len() - 3)
        } else {
            w
        };
        law_case_is_all_that_may_differ(joint, shown);
        assert forall|i: int| 0 <= i < joint.len() implies #[trigger] joint[i] == shown[i] || ('A'
            <= shown[i] <= 'Z' && joint[i] as u32 == shown[i] as u32 + 32) by {}
    }
}

/// A document that asks for a launch gives the launch of the application that
/// it names, and nothing without a name.
pub proof fn law_launch_documents(v: JsonView, app_id: Seq<char>)
    requires
        says(v, "kind"@, "launch_or_focus"@),
    ensures
        step_of(v) matches Some(kind) ==> kind is LaunchOrFocus,
        step_of(v) == Some((KindView::LaunchOrFocus { app_id })) <==> says(v, "app_id"@, app_id),
{
    lemma_kinds_differ();
}

/// A document that asks for closing gives the closing of the application that
/// it names, and nothing without a name.
pub proof fn law_close_documents(v: JsonView, app_id: Seq<char>)
    requires
        says(v, "kind"@, "close_window"@),
    ensures
        step_of(v) matches Some(kind) ==> kind is CloseWindow,
        step_of(v) == Some((KindView::CloseWindow { app_id })) <==> says(v, "app_id"@, app_id),
{
    lemma_kinds_differ();
}

/// A document that asks for a utility action gives the action that it names.
pub proof fn law_utility_documents(v: JsonView, name: Seq<char>)
    requires
        says(v, "kind"@, "utility"@),
    ensures
        step_of(v) matches Some(kind) ==> kind is Utility,
        step_of(v) == Some((KindView::Utility { name })) <==> says(v, "name"@, name),
{
    lemma_kinds_differ();
}

/// A document that asks for a setting gives it with its four texts, each under
/// its own key, and nothing where one is missing.
pub proof fn law_config_documents(
    v: JsonView,
    file: Seq<char>,
    group: Seq<char>,
    key: Seq<char>,
    value: Seq<char>,
)
    requires
        says(v, "kind"@, "set_config"@),
    ensures
        step_of(v) matches Some(kind) ==> kind is SetConfig,
        step_of(v) == Some((KindView::SetConfig { file, group, key, value })) <==> says(v, "file"@, file) && says(v, "group"@, group)
            && says(v, "key"@, key) && says(v, "value"@, value),
{
    lemma_kinds_differ();
}

/// A document that asks for a terminal gives the binary that it names and the
/// texts of its list of arguments, in order, and nothing where something in the
/// list is no text.
pub proof fn law_terminal_documents(v: JsonView, binary: Seq<char>, args: Seq<Seq<char>>)
    requires
        says(v, "kind"@, "run_in_terminal"@),
    ensures
        step_of(v) matches Some(kind) ==> kind is RunInTerminal,
        step_of(v) == Some((KindView::RunInTerminal { binary, args })) <==> says(v, "binary"@, binary) && v.member(
            "args"@,
        ) == Some(JsonView::List(args.map_values(|t: Seq<char>| JsonView::Text(t)))),
{
    lemma_kinds_differ();
    let list = args.map_values(|t: Seq<char>| JsonView::Text(t));
    lemma_list_of_texts(args);
    if v.member("args"@) == Some(JsonView::List(list)) {
        assert(all_texts(list));
    }
    if let Some(JsonView::List(items)) = v.member("args"@) {
        if all_texts(items) {
            lemma_texts_of_all(items);
            if texts_among(items) == args {
                assert(items == list);
            }
        }
    }
}

/// A document that asks for an installation gives it through the manager that it names,
/// with the texts of its list of packages, in order; and nothing where the
/// manager is unknown or the list holds no text.
pub proof fn law_install_documents(v: JsonView, manager: PackageManager, packages: Seq<Seq<char>>)
    requires
        says(v, "kind"@, "install_package"@),
    ensures
        step_of(v) matches Some(kind) ==> kind is InstallPackage,
        step_of(v) == Some((KindView::InstallPackage { manager, packages })) <==> packages.len() > 0
            && (exists|w: Seq<char>| says(v, "manager"@, w) && #[trigger] manager_named(w) == Some(manager)) && (
        v.member("packages"@) matches Some(JsonView::List(items)) && texts_among(items) == packages),
{
    lemma_kinds_differ();
    if let Some(w) = v.member_text("manager"@) {
        assert(says(v, "manager"@, w));
        assert(manager_named(w) == manager_named(w));
    }
}

/// A document that asks for a removal gives it through the manager that it names,
/// with the texts of its list of packages, in order; and nothing where the
/// manager is unknown or the list holds no text.
pub proof fn law_removal_documents(v: JsonView, manager: PackageManager, packages: Seq<Seq<char>>)
    requires
        says(v, "kind"@, "remove_package"@),
    ensures
        step_of(v) matches Some(kind) ==> kind is RemovePackage,
        step_of(v) == Some((KindView::RemovePackage { manager, packages })) <==> packages.len() > 0
            && (exists|w: Seq<char>| says(v, "manager"@, w) && #[trigger] manager_named(w) == Some(manager)) && (
        v.member("packages"@) matches Some(JsonView::List(items)) && texts_among(items) == packages),
{
    lemma_kinds_differ();
    if let Some(w) = v.member_text("manager"@) {
        assert(says(v, "manager"@, w));
        assert(manager_named(w) == manager_named(w));
    }
}

/// A document that asks for a service gives the verb that it names; the unit
/// that it names, if it names one; and the user's scope exactly where it says
/// so with a boolean. There is nothing where the verb is unknown.
pub proof fn law_service_documents(
    v: JsonView,
    verb: SystemctlVerb,
    unit: Option<Seq<char>>,
    user_scope: bool,
)
    requires
        says(v, "kind"@, "systemctl"@),
    ensures
        step_of(v) matches Some(kind) ==> kind is Systemctl,
        step_of(v) == Some((KindView::Systemctl { verb, unit, user_scope })) <==> (exists|
            w: Seq<char>,
        |
            says(v, "verb"@, w) && #[trigger] verb_named(w) == Some(verb)) && (match unit {
            Some(u) => says(v, "unit"@, u),
            None => forall|u: Seq<char>| !#[trigger] says(v, "unit"@, u),
        }) && (match v.member("user_scope"@) {
            Some(JsonView::Bool(b)) => user_scope == b,
            _ => !user_scope,
        }),
{
    lemma_kinds_differ();
    if let Some(w) = v.member_text("verb"@) {
        assert(says(v, "verb"@, w));
        assert(verb_named(w) == verb_named(w));
    }
    if let Some(u) = v.member_text("unit"@) {
        assert(says(v, "unit"@, u));
    }
}

/// A document that asks for a power action gives the one that it names.
pub proof fn law_power_documents(v: JsonView, action: PowerActionKind)
    requires
        says(v, "kind"@, "power_action"@),
    ensures
        step_of(v) matches Some(kind) ==> kind is PowerAction,
        step_of(v) == Some((KindView::PowerAction { action })) <==> exists|w: Seq<char>| says(v, "action"@, w) && #[trigger] power_named(w) == Some(action),
{
    lemma_kinds_differ();
    if let Some(w) = v.member_text("action"@) {
        assert(says(v, "action"@, w));
        assert(power_named(w) == power_named(w));
    }
}

proof fn lemma_list_of_texts(list: Seq<Seq<char>>)
    ensures
        texts_among(list.map_values(|t: Seq<char>| JsonView::Text(t))) == list,
    decreases list.len(),
{
    let items = list.map_values(|t: Seq<char>| JsonView::Text(t));
    if list.len() > 0 {
        lemma_list_of_texts(list.drop_last());
        assert(items.drop_last() == list.drop_last().map_values(|t: Seq<char>| JsonView::Text(t)));
        assert(list.drop_last().push(list.last()) == list);
    } else {
        assert(list == Seq::<Seq<char>>::empty());
    }
}

proof fn lemma_texts_of_all(items: Seq<JsonView>)
    requires
        all_texts(items),
    ensures
        texts_among(items).len() == items.len(),
        forall|i: int| 0 <= i < items.len() ==> #[trigger] items[i] == JsonView::Text(
            texts_among(items)[i],
        ),
    decreases items.len(),
{
    if items.len() > 0 {
        let init = items.drop_last();
        assert forall|i: int| 0 <= i < init.len() implies (#[trigger] init[i]).as_text() is Some by {
            assert(init[i] == items[i]);
        }
        lemma_texts_of_all(init);
        assert(items[items.len() - 1].as_text() is Some);
        assert forall|i: int| 0 <= i < items.len() implies #[trigger] items[i] == JsonView::Text(
            texts_among(items)[i],
        ) by {
            if i < init.len() {
                assert(init[i] == items[i]);
            }
        }
    }
}

/// The texts of a list are read one by one, in order: a text counts, and
/// anything else is passed over.
pub proof fn law_texts_are_read_in_order(a: Seq<JsonView>, b: Seq<JsonView>, v: JsonView)
    ensures
        texts_among(a + b) == texts_among(a) + texts_among(b),
        texts_among(seq![v]) == match v {
            JsonView::Text(t) => seq![t],
            _ => Seq::empty(),
        },
        texts_among(Seq::empty()) == Seq::<Seq<char>>::empty(),
    decreases b.len(),
{
    assert(seq![v].drop_last() == Seq::<JsonView>::empty());
    assert(seq![v].last() == v);
    assert(texts_among(Seq::<JsonView>::empty()) == Seq::<Seq<char>>::empty());
    assert(texts_among(seq![v]) == match v {
        JsonView::Text(t) => seq![t],
        _ => Seq::empty(),
    });
    if b.len() == 0 {
        assert(a + b == a);
        assert(texts_among(a) + texts_among(b) == texts_among(a));
    } else {
        law_texts_are_read_in_order(a, b.drop_last(), v);
        assert((a + b).drop_last() == a + b.drop_last());
        assert((a + b).last() == b.last());
        assert(texts_among(a + b) == texts_among(a) + texts_among(b));
    }
}

/// The steps of an answer are read one by one, in order: a document that gives
/// a step adds that step, under the line that its kind gives it, and any other
/// adds nothing and spoils nothing.
pub proof fn law_steps_are_read_one_by_one(a: Seq<JsonView>, b: Seq<JsonView>, v: JsonView)
    ensures
        steps_of(a + b) == steps_of(a) + steps_of(b),
        steps_of(seq![v]) == match step_of(v) {
            Some(kind) => seq![(StepView { kind, description: kind.description() })],
            None => Seq::empty(),
        },
    decreases b.len(),
{
    assert(seq![v].drop_last() == Seq::<JsonView>::empty());
    assert(seq![v].last() == v);
    assert(steps_of(Seq::<JsonView>::empty()) == Seq::<StepView>::empty());
    assert(steps_of(seq![v]) == match step_of(v) {
        Some(kind) => seq![StepView { kind, description: kind.description() }],
        None => Seq::empty(),
    });
    if b.len() == 0 {
        assert(a + b == a);
        assert(steps_of(a) + steps_of(b) == steps_of(a));
    } else {
        law_steps_are_read_one_by_one(a, b.drop_last(), v);
        assert((a + b).drop_last() == a + b.drop_last());
        assert((a + b).last() == b.last());
        assert(steps_of(a + b) == steps_of(a) + steps_of(b));
    }
}

/// An answer is in the shape that was asked for exactly if it has one reply,
/// which is a text, and no steps or one list of them. It is then taken as it
/// is; reasoning counts where it is one text.
pub proof fn law_an_answer_is_taken_as_it_is(fields: Seq<FieldView>, reply: Seq<char>)
    ensures
        response_in(fields) is Some <==> (exists|t: Seq<char>|
            held(fields, "reply"@) == #[trigger] once_text(t)) && (held(fields, "steps"@) is Nothing
            || exists|items: Seq<JsonView>| held(fields, "steps"@) == #[trigger] once_list(items)),
        response_in(fields) matches Some(r) ==> held(fields, "reply"@) == once_text(r.reply) && (
        held(fields, "steps"@) == once_list(r.steps) || held(fields, "steps"@) is Nothing
            && r.steps.len() == 0) && (held(fields, "thinking"@) == once_text(r.thinking)
            || r.thinking.len() == 0 && forall|t: Seq<char>|
            held(fields, "thinking"@) != #[trigger] once_text(t)),
{
    if let HeldView::Once(Some(JsonView::Text(t))) = held(fields, "reply"@) {
        assert(held(fields, "reply"@) == once_text(t));
    }
    if let HeldView::Once(Some(JsonView::List(items))) = held(fields, "steps"@) {
        assert(held(fields, "steps"@) == once_list(items));
    }
    if let HeldView::Once(Some(JsonView::Text(t))) = held(fields, "thinking"@) {
        assert(held(fields, "thinking"@) == once_text(t));
    }
}

/// A key that is held once, by a text.
pub open spec fn once_text(t: Seq<char>) -> HeldView {
    HeldView::Once(Some(JsonView::Text(t)))
}

/// A key that is held once, by a list.
pub open spec fn once_list(items: Seq<JsonView>) -> HeldView {
    HeldView::Once(Some(JsonView::List(items)))
}

/// Where an answer is not in the shape that was asked for, the model's words,
/// without the whitespace around them, are the reply, and there are no steps.
/// Where it is, its own reply and steps are.
pub proof fn law_words_are_the_reply_of_last_resort(content: Seq<char>, id: Seq<char>)
    ensures
        answer_plan(content, id).id == id,
        answered_response(content) is None ==> answer_plan(content, id).reply == trimmed(content)
            && answer_plan(content, id).steps.len() == 0 && answer_plan(
            content,
            id,
        ).thinking.len() == 0,
        answered_response(content) matches Some(r) ==> answer_plan(content, id).reply == r.reply
            && answer_plan(content, id).thinking == r.thinking && answer_plan(content, id).steps
            == steps_of(r.steps),
{
    if let Some(r) = answered_response(content) {
        lemma_described(r.steps);
        assert(answer_plan(content, id).steps == steps_of(r.steps));
    }
}

proof fn lemma_described(raw: Seq<JsonView>)
    ensures
        forall|i: int|
            0 <= i < steps_of(raw).len() ==> (#[trigger] steps_of(raw)[i]).description == steps_of(
                raw,
            )[i].kind.description(),
    decreases raw.len(),
{
    if raw.len() > 0 {
        lemma_described(raw.drop_last());
    }
}

/// What the model said is the content of the message of the first choice;
/// where there is no such text, it said nothing.
pub proof fn law_the_first_choice_is_what_the_model_said(v: JsonView, t: Seq<char>)
    ensures
        (v.member("choices"@) matches Some(JsonView::List(choices)) && choices.len() > 0 && (
        choices[0].member("message"@) matches Some(message) && says(message, "content"@, t)))
            ==> answer_content(v) == t,
        answer_content(v).len() > 0 ==> (v.member("choices"@) matches Some(
            JsonView::List(choices),
        ) && choices.len() > 0 && (choices[0].member("message"@) matches Some(message) && says(
            message,
            "content"@,
            answer_content(v),
        ))),
{
}

proof fn lemma_scan_plain(s: Seq<char>, t: Seq<char>)
    requires
        !brace_scan(s).in_string,
        forall|i: int|
            0 <= i < t.len() ==> #[trigger] t[i] != '{' && t[i] != '}' && t[i] != '"',
    ensures
        brace_scan(s + t) == brace_scan(s),
    decreases t.len(),
{
    if t.len() > 0 {
        let init = t.drop_last();
        assert forall|i: int| 0 <= i < init.len() implies #[trigger] init[i] != '{' && init[i] != '}'
            && init[i] != '"' by {
            assert(init[i] == t[i]);
        }
        lemma_scan_plain(s, init);
        assert((s + t).drop_last() == s + init);
        assert((s + t).last() == t[t.len() - 1]);
    } else {
        assert(s + t == s);
    }
}

proof fn lemma_scan_quoted(s: Seq<char>, t: Seq<char>)
    requires
        brace_scan(s).in_string,
        !brace_scan(s).escaped,
        forall|i: int| 0 <= i < t.len() ==> #[trigger] t[i] != '"' && t[i] != '\\',
    ensures
        brace_scan(s + t) == brace_scan(s),
    decreases t.len(),
{
    if t.len() > 0 {
        let init = t.drop_last();
        assert forall|i: int| 0 <= i < init.len() implies #[trigger] init[i] != '"' && init[i]
            != '\\' by {
            assert(init[i] == t[i]);
        }
        lemma_scan_quoted(s, init);
        assert((s + t).drop_last() == s + init);
        assert((s + t).last() == t[t.len() - 1]);
    } else {
        assert(s + t == s);
    }
}

proof fn lemma_scan_one(s: Seq<char>, c: char)
    ensures
        brace_scan(s.push(c)) == brace_step(brace_scan(s), c),
{
    assert(s.push(c).drop_last() == s);
}

/// How a text goes on from a prefix that leaves braces open: as long as the
/// parts leave some open, the block has not ended.
spec fn stays_open(s: Seq<char>, from: int) -> bool {
    forall|k: int| from <= k <= s.len() ==> (#[trigger] brace_scan(s.take(k))).depth > 0
}

proof fn lemma_open_plain(s: Seq<char>, t: Seq<char>)
    requires
        s.len() > 0,
        stays_open(s, 1),
        !brace_scan(s).in_string,
        forall|i: int|
            0 <= i < t.len() ==> #[trigger] t[i] != '{' && t[i] != '}' && t[i] != '"',
    ensures
        stays_open(s + t, 1),
        brace_scan(s + t) == brace_scan(s),
{
    lemma_scan_plain(s, t);
    assert(s.take(s.len() as int) == s);
    assert forall|k: int| 1 <= k <= (s + t).len() implies (#[trigger] brace_scan(
        (s + t).take(k),
    )).depth > 0 by {
        if k <= s.len() {
            assert((s + t).take(k) == s.take(k));
        } else {
            let part = t.take(k - s.len());
            assert((s + t).take(k) == s + part);
            assert forall|i: int| 0 <= i < part.len() implies #[trigger] part[i] != '{' && part[i]
                != '}' && part[i] != '"' by {
                assert(part[i] == t[i]);
            }
            lemma_scan_plain(s, part);
            assert(brace_scan(s.take(s.len() as int)).depth > 0);
        }
    }
}

proof fn lemma_open_quoted(s: Seq<char>, t: Seq<char>)
    requires
        s.len() > 0,
        stays_open(s, 1),
        brace_scan(s).in_string,
        !brace_scan(s).escaped,
        forall|i: int| 0 <= i < t.len() ==> #[trigger] t[i] != '"' && t[i] != '\\',
    ensures
        stays_open(s + t, 1),
        brace_scan(s + t) == brace_scan(s),
{
    lemma_scan_quoted(s, t);
    assert(s.take(s.len() as int) == s);
    assert forall|k: int| 1 <= k <= (s + t).len() implies (#[trigger] brace_scan(
        (s + t).take(k),
    )).depth > 0 by {
        if k <= s.len() {
            assert((s + t).take(k) == s.take(k));
        } else {
            let part = t.take(k - s.len());
            assert((s + t).take(k) == s + part);
            assert forall|i: int| 0 <= i < part.len() implies #[trigger] part[i] != '"' && part[i]
                != '\\' by {
                assert(part[i] == t[i]);
            }
            lemma_scan_quoted(s, part);
            assert(brace_scan(s.take(s.len() as int)).depth > 0);
        }
    }
}

proof fn lemma_open_one(s: Seq<char>, c: char)
    requires
        stays_open(s, 1),
        brace_step(brace_scan(s), c).depth > 0,
    ensures
        stays_open(s.push(c), 1),
        brace_scan(s.push(c)) == brace_step(brace_scan(s), c),
{
    lemma_scan_one(s, c);
    assert forall|k: int| 1 <= k <= s.push(c).len() implies (#[trigger] brace_scan(
        s.push(c).take(k),
    )).depth > 0 by {
        if k <= s.len() {
            assert(s.push(c).take(k) == s.take(k));
        } else {
            assert(s.push(c).take(k) == s.push(c));
        }
    }
}

proof fn lemma_block_found(prose: Seq<char>, body: Seq<char>, rest: Seq<char>)
    requires
        forall|i: int| 0 <= i < prose.len() ==> #[trigger] prose[i] != '{',
        body.len() > 0,
        body[0] == '{',
        stays_open(body, 1),
        brace_scan(body) == (BraceScan { depth: 1, in_string: false, escaped: false }),
    ensures
        first_block(prose + body.push('}') + rest) == Some(body.push('}')),
{
    let whole = prose + body.push('}') + rest;
    let start = prose.len() as int;
    reveal_strlit("{");
    lemma_find_from(whole, "{"@, 0);
    assert(whole.subrange(start, start + 1) == "{"@) by {
        assert(whole[start] == body.push('}')[0]);
    }
    assert(occurs_at(whole, "{"@, start));
    assert forall|j: int| 0 <= j < start implies !occurs_at(whole, "{"@, j) by {
        if occurs_at(whole, "{"@, j) {
            assert(whole.subrange(j, j + 1)[0] == whole[j]);
            assert(whole[j] == prose[j]);
        }
    }
    assert(position(whole, "{"@) == Some(start));
    let tail = whole.skip(start);
    let n = body.len() as int + 1;
    assert(tail == body.push('}') + rest);
    lemma_scan_one(body, '}');
    assert(tail.take(n) == body.push('}'));
    assert forall|k: int| 1 <= k < n implies (#[trigger] brace_scan(tail.take(k))).depth != 0 by {
        assert(tail.take(k) == body.take(k));
    }
    lemma_block_length(tail, 1);
    let m = block_length(tail, 1);
    if m is None {
        assert(brace_scan(tail.take(n)).depth != 0);
    } else if m->0 < n {
        assert(brace_scan(tail.take(m->0)).depth != 0);
    } else if m->0 > n {
        assert(brace_scan(tail.take(n)).depth != 0);
    }
}

/// The text holds no brace and no quote.
pub open spec fn is_plain(t: Seq<char>) -> bool {
    !t.contains('{') && !t.contains('}') && !t.contains('"')
}

proof fn lemma_plain(t: Seq<char>)
    requires
        is_plain(t),
    ensures
        forall|i: int|
            0 <= i < t.len() ==> #[trigger] t[i] != '{' && t[i] != '}' && t[i] != '"',
{
    assert forall|i: int| 0 <= i < t.len() implies #[trigger] t[i] != '{' && t[i] != '}' && t[i]
        != '"' by {
        assert(t.contains(t[i]));
    }
}

/// The first block of an answer is found whatever stands before and behind it:
/// it ends at the brace that closes it, braces nested in it do not end it, and
/// what stands in its strings does not count, nor does a quote behind a
/// backslash end a string.
pub proof fn law_the_first_block_is_found(
    prose: Seq<char>,
    a: Seq<char>,
    x: Seq<char>,
    y: Seq<char>,
    b: Seq<char>,
    c: Seq<char>,
    d: Seq<char>,
    rest: Seq<char>,
)
    requires
        !prose.contains('{'),
        is_plain(a) && is_plain(b) && is_plain(c) && is_plain(d),
        !x.contains('"') && !x.contains('\\') && !y.contains('"') && !y.contains('\\'),
    ensures
        ({
            let text = x + seq!['\\', '"'] + y;
            let block = seq!['{'] + a + seq!['"'] + text + seq!['"'] + b + seq!['{'] + c + seq!['}']
                + d + seq!['}'];
            first_block(prose + block + rest) == Some(block)
        }),
        ({
            let block = seq!['{'] + a + seq!['}'];
            first_block(prose + block + rest) == Some(block)
        }),
        first_block(prose) is None,
        first_block(prose + seq!['{'] + a) is None,
{
    assert forall|i: int| 0 <= i < prose.len() implies #[trigger] prose[i] != '{' by {
        assert(prose.contains(prose[i]));
    }
    lemma_plain(a);
    lemma_plain(b);
    lemma_plain(c);
    lemma_plain(d);
    assert forall|i: int| 0 <= i < x.len() implies #[trigger] x[i] != '"' && x[i] != '\\' by {
        assert(x.contains(x[i]));
    }
    assert forall|i: int| 0 <= i < y.len() implies #[trigger] y[i] != '"' && y[i] != '\\' by {
        assert(y.contains(y[i]));
    }
    let nothing = Seq::<char>::empty();
    let s0 = nothing.push('{');
    assert(brace_scan(nothing) == (BraceScan { depth: 0, in_string: false, escaped: false }));
    lemma_scan_one(nothing, '{');
    assert forall|k: int| 1 <= k <= s0.len() implies (#[trigger] brace_scan(s0.take(k))).depth
        > 0 by {
        assert(s0.take(k) == s0);
    }
    lemma_open_plain(s0, a);
    let s1 = s0 + a;
    lemma_block_found(prose, s1, rest);
    assert(s1.push('}') == seq!['{'] + a + seq!['}']);
    lemma_open_one(s1, '"');
    let s2 = s1.push('"');
    lemma_open_quoted(s2, x);
    let s3 = s2 + x;
    lemma_open_one(s3, '\\');
    let s4 = s3.push('\\');
    lemma_open_one(s4, '"');
    let s5 = s4.push('"');
    lemma_open_quoted(s5, y);
    let s6 = s5 + y;
    lemma_open_one(s6, '"');
    let s7 = s6.push('"');
    lemma_open_plain(s7, b);
    let s8 = s7 + b;
    lemma_open_one(s8, '{');
    let s9 = s8.push('{');
    lemma_open_plain(s9, c);
    let s10 = s9 + c;
    lemma_open_one(s10, '}');
    let s11 = s10.push('}');
    lemma_open_plain(s11, d);
    let s12 = s11 + d;
    lemma_block_found(prose, s12, rest);
    let text = x + seq!['\\', '"'] + y;
    let block = seq!['{'] + a + seq!['"'] + text + seq!['"'] + b + seq!['{'] + c + seq!['}'] + d
        + seq!['}'];
    assert(s5 == seq!['{'] + a + seq!['"'] + (x + seq!['\\', '"']));
    assert(s7 == seq!['{'] + a + seq!['"'] + text + seq!['"']);
    assert(s9 == s7 + b + seq!['{']);
    assert(s12 == s9 + c + seq!['}'] + d);
    assert(s12.push('}') == block);
    reveal_strlit("{");
    lemma_find_from(prose, "{"@, 0);
    if let Some(k) = position(prose, "{"@) {
        assert(prose.subrange(k, k + 1)[0] == prose[k]);
    }
    let open = prose + seq!['{'] + a;
    lemma_find_from(open, "{"@, 0);
    let start = prose.len() as int;
    assert(open.subrange(start, start + 1) == "{"@);
    assert(occurs_at(open, "{"@, start));
    assert forall|j: int| 0 <= j < start implies !occurs_at(open, "{"@, j) by {
        if occurs_at(open, "{"@, j) {
            assert(open.subrange(j, j + 1)[0] == open[j]);
            assert(open[j] == prose[j]);
        }
    }
    assert(position(open, "{"@) == Some(start));
    assert(open.skip(start) == s1);
    lemma_block_length(s1, 1);
    if let Some(m) = block_length(s1, 1) {
        assert(brace_scan(s1.take(m)).depth > 0);
    }
}

/// What the model is asked begins with what it is told of itself, names the
/// applications and the utility actions, shows the shape to answer in and what
/// the research found, and ends with the request.
pub proof fn law_the_prompt_holds_what_the_model_needs(
    user_request: Seq<char>,
    system_prompt: Seq<char>,
    known_apps: Seq<Seq<char>>,
    known_utilities: Seq<Seq<char>>,
    web_context: Option<Seq<char>>,
    history: Seq<(Seq<char>, Seq<char>)>,
)
    ensures
        ({
            let p = plan_prompt(
                user_request,
                system_prompt,
                known_apps,
                known_utilities,
                web_context,
                history,
            );
            let end = "\nuser: "@ + user_request + "\nassistant JSON:"@;
            &&& has_prefix(p, system_prompt)
            &&& p.len() >= end.len() && p.skip(p.len() - end.len()) == end
            &&& has_text(p, SCHEMA_NOTE@)
            &&& known_apps.len() > 0 ==> has_text(
                p,
                "\n\nKnown launchable apps: "@ + joined(known_apps, ", "@) + "\n"@,
            )
            &&& known_apps.len() == 0 ==> has_text(
                p,
                "\n\nKnown launchable apps: "@ + "(none indexed yet)"@,
            )
            &&& known_utilities.len() > 0 ==> has_text(
                p,
                "Known utility actions: "@ + joined(known_utilities, ", "@) + "\n"@,
            )
            &&& web_context matches Some(found) ==> has_text(p, CONTEXT_NOTE@ + found + "\n"@)
            &&& conversation(history).len() > 0 ==> has_text(
                p,
                "\n\nConversation so far:\n"@ + conversation(history) + "\n"@,
            )
        }),
{
    let p = plan_prompt(
        user_request,
        system_prompt,
        known_apps,
        known_utilities,
        web_context,
        history,
    );
    let end = "\nuser: "@ + user_request + "\nassistant JSON:"@;
    let apps = name_block(known_apps, "(none indexed yet)"@);
    let tools = name_block(known_utilities, "(none defined)"@);
    let nothing = Seq::<char>::empty();
    let context = match web_context {
        Some(ctx) => CONTEXT_NOTE@ + ctx + "\n"@,
        None => nothing,
    };
    let convo = conversation(history);
    let so_far = if convo.len() == 0 {
        nothing
    } else {
        "\n\nConversation so far:\n"@ + convo + "\n"@
    };
    let label = "\n\nKnown launchable apps: "@;
    let second = "Known utility actions: "@;
    assert("\nKnown utility actions: "@ == "\n"@ + second) by {
        reveal_strlit("\n");
        reveal_strlit("\nKnown utility actions: ");
        reveal_strlit("Known utility actions: ");
    }
    let lead = system_prompt + label + apps + ("\n"@ + second) + tools + "\n"@ + SCHEMA_NOTE@
        + context + so_far;
    assert(p == lead + "\nuser: "@ + user_request + "\nassistant JSON:"@);
    assert(p == lead + end);
    lemma_ten_parts(
        system_prompt,
        label,
        apps,
        "\n"@,
        second,
        tools,
        SCHEMA_NOTE@,
        context,
        so_far,
        end,
    );
}

proof fn lemma_ten_parts(
    first: Seq<char>,
    label: Seq<char>,
    apps: Seq<char>,
    nl: Seq<char>,
    second: Seq<char>,
    tools: Seq<char>,
    note: Seq<char>,
    context: Seq<char>,
    so_far: Seq<char>,
    end: Seq<char>,
)
    ensures
        ({
            let p = first + label + apps + (nl + second) + tools + nl + note + context + so_far
                + end;
            &&& has_prefix(p, first)
            &&& p.len() >= end.len() && p.skip(p.len() - end.len()) == end
            &&& has_text(p, label + apps + nl)
            &&& has_text(p, label + apps)
            &&& has_text(p, second + tools + nl)
            &&& has_text(p, note)
            &&& has_text(p, context)
            &&& has_text(p, so_far)
        }),
{
    let p = first + label + apps + (nl + second) + tools + nl + note + context + so_far + end;
    let back3 = context + so_far + end;
    let back4 = note + back3;
    let back5 = second + tools + nl + back4;
    assert(p.take(first.len() as int) == first);
    text::law_a_text_stands_where_its_characters_do(p, first, 0);
    assert(p.skip(p.len() - end.len()) == end);
    let l1 = first + (label + apps + nl);
    assert(p == l1 + back5);
    text::law_a_text_holds_its_parts(p, first, label + apps + nl, back5);
    assert(p == first + (label + apps) + (nl + back5));
    text::law_a_text_holds_its_parts(p, first, label + apps, nl + back5);
    assert(l1 + back5 == l1 + (second + tools + nl) + back4);
    text::law_a_text_holds_its_parts(p, l1, second + tools + nl, back4);
    let l2 = l1 + (second + tools + nl);
    assert(p == l2 + note + back3);
    text::law_a_text_holds_its_parts(p, l2, note, back3);
    let l3 = l2 + note;
    assert(p == l3 + context + (so_far + end));
    text::law_a_text_holds_its_parts(p, l3, context, so_far + end);
    assert(p == (l3 + context) + so_far + end);
    text::law_a_text_holds_its_parts(p, l3 + context, so_far, end);
}

/// The model is shown the last six turns and none before them, each as who
/// spoke and what was said, on lines of their own.
pub proof fn law_the_last_six_turns_are_shown(
    earlier: Seq<(Seq<char>, Seq<char>)>,
    last: Seq<(Seq<char>, Seq<char>)>,
    role: Seq<char>,
    said: Seq<char>,
)
    ensures
        last.len() == 6 ==> conversation(earlier + last) == conversation(last),
        1 <= last.len() <= 5 ==> conversation(last.push((role, said))) == conversation(last)
            + "\n"@ + role + ": "@ + said,
        conversation(seq![(role, said)]) == role + ": "@ + said,
        conversation(Seq::empty()) == Seq::<char>::empty(),
{
    if last.len() == 6 {
        let whole = earlier + last;
        if earlier.len() > 0 {
            assert(whole.skip(whole.len() - 6) == last);
        } else {
            assert(whole == last);
        }
    }
    let more = last.push((role, said));
    assert(turn_lines(more) == turn_lines(last).push(role + ": "@ + said));
    assert(turn_lines(more).drop_last() == turn_lines(last));
    if 1 <= last.len() <= 5 {
        assert(conversation(more) == conversation(last) + "\n"@ + (role + ": "@ + said));
        assert(conversation(last) + "\n"@ + (role + ": "@ + said) == conversation(last) + "\n"@
            + role + ": "@ + said);
    }
    assert(turn_lines(seq![(role, said)]) == seq![role + ": "@ + said]);
    assert(turn_lines(Seq::<(Seq<char>, Seq<char>)>::empty()) == Seq::<Seq<char>>::empty());
}

/// The shape that the model is shown names every kind of step there is, with
/// the words for managers, verbs and power actions, and asks for a reply, its
/// reasoning and a list of steps.
pub proof fn law_the_shape_names_every_kind_of_step()
    ensures
        has_text(SCHEMA_NOTE@, "{\"kind\": \"launch_or_focus\", \"app_id\": "@),
        has_text(SCHEMA_NOTE@, "{\"kind\": \"close_window\", \"app_id\": "@),
        has_text(SCHEMA_NOTE@, "{\"kind\": \"run_in_terminal\", \"binary\": "@),
        has_text(SCHEMA_NOTE@, "{\"kind\": \"install_package\", \"manager\": \"pacman|aur|apt|dnf|zypper|flatpak\", \"packages\": "@),
        has_text(SCHEMA_NOTE@, "{\"kind\": \"remove_package\", \"manager\": \"pacman|aur|apt|dnf|zypper|flatpak\", \"packages\": "@),
        has_text(SCHEMA_NOTE@, "{\"kind\": \"systemctl\", \"verb\": \"start|stop|restart|enable|disable|enable_now|disable_now\", \"unit\": "@),
        has_text(SCHEMA_NOTE@, "{\"kind\": \"power_action\", \"action\": \"reboot|shutdown|suspend\"}"@),
        has_text(SCHEMA_NOTE@, "{\"kind\": \"utility\", \"name\": "@),
        has_text(SCHEMA_NOTE@, "{\"kind\": \"set_config\", \"file\": "@),
        has_text(SCHEMA_NOTE@, "\"reply\": "@),
        has_text(SCHEMA_NOTE@, "\"thinking\": "@),
        has_text(SCHEMA_NOTE@, "\"steps\": ["@),
{
    let note = SCHEMA_NOTE@;
    reveal_strlit("
Respond with ONLY a single JSON object, no prose outside it, in exactly this shape:
{
  \"thinking\": \"<your reasoning in a sentence or two, shown to the user before the reply>\",
  \"reply\": \"<what you say out loud to the user, in character, explaining the plan briefly>\",
  \"steps\": [
    {\"kind\": \"launch_or_focus\", \"app_id\": \"<desktop file id or binary name>\"},
    {\"kind\": \"close_window\", \"app_id\": \"<desktop file id or binary name>\"},
    {\"kind\": \"run_in_terminal\", \"binary\": \"<binary name>\", \"args\": [\"arg\"]},
    {\"kind\": \"install_package\", \"manager\": \"pacman|aur|apt|dnf|zypper|flatpak\", \"packages\": [\"pkgname\"]},
    {\"kind\": \"remove_package\", \"manager\": \"pacman|aur|apt|dnf|zypper|flatpak\", \"packages\": [\"pkgname\"]},
    {\"kind\": \"systemctl\", \"verb\": \"start|stop|restart|enable|disable|enable_now|disable_now\", \"unit\": \"name.service\", \"user_scope\": false},
    {\"kind\": \"power_action\", \"action\": \"reboot|shutdown|suspend\"},
    {\"kind\": \"utility\", \"name\": \"<one of the known utility names>\"},
    {\"kind\": \"set_config\", \"file\": \"kwinrc\", \"group\": \"GroupName\", \"key\": \"keyname\", \"value\": \"value\"}
  ]
}
Use ONLY these step kinds and ONLY the enum values shown. If a request needs
something outside these kinds, explain what's missing in \"reply\" and return
an empty steps list. Never include shell syntax, pipes, or explanations
inside a field value beyond the literal package/unit/config value itself.
");
    assert(has_text(note, "{\"kind\": \"launch_or_focus\", \"app_id\": "@)) by {
        reveal_strlit("{\"kind\": \"launch_or_focus\", \"app_id\": ");
        assert(note.subrange(288, 326) == "{\"kind\": \"launch_or_focus\", \"app_id\": "@);
        assert(occurs_at(note, "{\"kind\": \"launch_or_focus\", \"app_id\": "@, 288));
    }
    assert(has_text(note, "{\"kind\": \"close_window\", \"app_id\": "@)) by {
        reveal_strlit("{\"kind\": \"close_window\", \"app_id\": ");
        assert(note.subrange(367, 402) == "{\"kind\": \"close_window\", \"app_id\": "@);
        assert(occurs_at(note, "{\"kind\": \"close_window\", \"app_id\": "@, 367));
    }
    assert(has_text(note, "{\"kind\": \"run_in_terminal\", \"binary\": "@)) by {
        reveal_strlit("{\"kind\": \"run_in_terminal\", \"binary\": ");
        assert(note.subrange(443, 481) == "{\"kind\": \"run_in_terminal\", \"binary\": "@);
        assert(occurs_at(note, "{\"kind\": \"run_in_terminal\", \"binary\": "@, 443));
    }
    assert(has_text(note, "{\"kind\": \"install_package\", \"manager\": \"pacman|aur|apt|dnf|zypper|flatpak\", \"packages\": "@)) by {
        reveal_strlit("{\"kind\": \"install_package\", \"manager\": \"pacman|aur|apt|dnf|zypper|flatpak\", \"packages\": ");
        assert(note.subrange(520, 608) == "{\"kind\": \"install_package\", \"manager\": \"pacman|aur|apt|dnf|zypper|flatpak\", \"packages\": "@);
        assert(occurs_at(note, "{\"kind\": \"install_package\", \"manager\": \"pacman|aur|apt|dnf|zypper|flatpak\", \"packages\": "@, 520));
    }
    assert(has_text(note, "{\"kind\": \"remove_package\", \"manager\": \"pacman|aur|apt|dnf|zypper|flatpak\", \"packages\": "@)) by {
        reveal_strlit("{\"kind\": \"remove_package\", \"manager\": \"pacman|aur|apt|dnf|zypper|flatpak\", \"packages\": ");
        assert(note.subrange(626, 713) == "{\"kind\": \"remove_package\", \"manager\": \"pacman|aur|apt|dnf|zypper|flatpak\", \"packages\": "@);
        assert(occurs_at(note, "{\"kind\": \"remove_package\", \"manager\": \"pacman|aur|apt|dnf|zypper|flatpak\", \"packages\": "@, 626));
    }
    assert(has_text(note, "{\"kind\": \"systemctl\", \"verb\": \"start|stop|restart|enable|disable|enable_now|disable_now\", \"unit\": "@)) by {
        reveal_strlit("{\"kind\": \"systemctl\", \"verb\": \"start|stop|restart|enable|disable|enable_now|disable_now\", \"unit\": ");
        assert(note.subrange(731, 829) == "{\"kind\": \"systemctl\", \"verb\": \"start|stop|restart|enable|disable|enable_now|disable_now\", \"unit\": "@);
        assert(occurs_at(note, "{\"kind\": \"systemctl\", \"verb\": \"start|stop|restart|enable|disable|enable_now|disable_now\", \"unit\": "@, 731));
    }
    assert(has_text(note, "{\"kind\": \"power_action\", \"action\": \"reboot|shutdown|suspend\"}"@)) by {
        reveal_strlit("{\"kind\": \"power_action\", \"action\": \"reboot|shutdown|suspend\"}");
        assert(note.subrange(871, 932) == "{\"kind\": \"power_action\", \"action\": \"reboot|shutdown|suspend\"}"@);
        assert(occurs_at(note, "{\"kind\": \"power_action\", \"action\": \"reboot|shutdown|suspend\"}"@, 871));
    }
    assert(has_text(note, "{\"kind\": \"utility\", \"name\": "@)) by {
        reveal_strlit("{\"kind\": \"utility\", \"name\": ");
        assert(note.subrange(938, 966) == "{\"kind\": \"utility\", \"name\": "@);
        assert(occurs_at(note, "{\"kind\": \"utility\", \"name\": "@, 938));
    }
    assert(has_text(note, "{\"kind\": \"set_config\", \"file\": "@)) by {
        reveal_strlit("{\"kind\": \"set_config\", \"file\": ");
        assert(note.subrange(1007, 1038) == "{\"kind\": \"set_config\", \"file\": "@);
        assert(occurs_at(note, "{\"kind\": \"set_config\", \"file\": "@, 1007));
    }
    assert(has_text(note, "\"reply\": "@)) by {
        reveal_strlit("\"reply\": ");
        assert(note.subrange(180, 189) == "\"reply\": "@);
        assert(occurs_at(note, "\"reply\": "@, 180));
    }
    assert(has_text(note, "\"thinking\": "@)) by {
        reveal_strlit("\"thinking\": ");
        assert(note.subrange(89, 101) == "\"thinking\": "@);
        assert(occurs_at(note, "\"thinking\": "@, 89));
    }
    assert(has_text(note, "\"steps\": ["@)) by {
        reveal_strlit("\"steps\": [");
        assert(note.subrange(273, 283) == "\"steps\": ["@);
        assert(occurs_at(note, "\"steps\": ["@, 273));
    }
}

/// An answer that was refused is told with its status, whatever it holds; one
/// that is no JSON is told to be none; and any other gives what the model said.
pub proof fn law_an_answer_of_the_server_is_read_or_told(
    status: Seq<char>,
    body: Seq<u8>,
    other: Seq<u8>,
)
    ensures
        completion(false, status, body) == completion(false, status, other),
        completion(false, status, body) == Err::<Seq<char>, Seq<char>>(
            "Jan.ai server returned status "@ + status,
        ),
        completion(true, status, body) is Ok <==> json_document(body) is Some,
        json_document(body) matches Some(v) ==> completion(true, status, body) == Ok::<
            Seq<char>,
            Seq<char>,
        >(answer_content(v)),
{
}

} // verus!
