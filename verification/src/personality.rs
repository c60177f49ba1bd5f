//! What the assistant is called and how it sounds. What it is able to do comes
//! from the vocabulary of steps, not from here.
use vstd::prelude::*;

use crate::desktop_index::str_text;
use crate::paths::{self, path_below};
use crate::text::{self, has_prefix, has_text};

verus! {

#[derive(Debug, PartialEq, Eq)]
pub struct Profile {
    pub name: String,
    pub tone: String,
}

pub const DEFAULT_NAME: &'static str = "Protogen";

pub const DEFAULT_TONE: &'static str = "terse, dry-witted, a little sci-fi HUD-flavored. Short sentences. No excessive enthusiasm, no filler apologies. Talks like a system daemon that happens to have opinions.";

pub const PROMPT_ROLE: &'static str = ", a local system assistant running on the user's own machine, backed by a DeepSeek model served locally through Jan.ai.\n\nPersonality: ";

pub const PROMPT_RULES: &'static str = "\n\nHard rule, non-negotiable: you may ONLY propose steps using the step kinds you are given in the schema below. You have no ability to run arbitrary shell commands, and you should never claim otherwise. If nothing in the allowed step kinds can accomplish the request, say so plainly in your reply and return an empty steps list rather than guessing or improvising.\n\nWhen the user asks for something:\n1. If it maps to launching/focusing a known app or a known utility action, prefer that over installing anything.\n2. If it requires installing packages, changing services, editing config, or a power action, include those steps -- the user will be shown the plan and asked to confirm before anything runs, so it's fine to propose it.\n3. If it's just conversation, reply normally with an empty steps list.\n4. Never claim to have already done something -- your reply describes what you're ABOUT to do, the system executes it after confirmation.\n5. Never propose a set_config step touching theme, color scheme, icon theme, wallpaper, or desktop appearance settings unless the user's request explicitly asks to change how the system looks. Installing/launching an app or toggling a service is not an invitation to also restyle anything.";

impl Default for Profile {
    fn default() -> (p: Profile)
        ensures
            p.name@ == DEFAULT_NAME@,
            p.tone@ == DEFAULT_TONE@,
    {
        Profile { name: DEFAULT_NAME.to_string(), tone: DEFAULT_TONE.to_string() }
    }
}

/// What the model is told about itself and its limits.
pub open spec fn prompt_text(name: Seq<char>, tone: Seq<char>) -> Seq<char> {
    "You are "@ + name + PROMPT_ROLE@ + tone + PROMPT_RULES@
}

impl Profile {
    /// What the model is told about itself and its limits.
    pub fn system_prompt(&self) -> (out: String)
        ensures
            out@ == prompt_text(self.name@, self.tone@),
    {
        let mut out = "You are ".to_string();
        out.append(self.name.as_str());
        out.append(PROMPT_ROLE);
        out.append(self.tone.as_str());
        out.append(PROMPT_RULES);
        out
    }
}

/// Where the profile is kept: in the configuration directory, or in the current
/// one where there is none.
pub open spec fn profile_file(config_dir: Option<Seq<char>>) -> Seq<char> {
    match config_dir {
        Some(dir) => path_below(dir, "profile.json"@),
        None => "profile.json"@,
    }
}

/// Where the profile is kept.
pub fn profile_path(config_dir: Option<&str>) -> (path: String)
    ensures
        path@ == profile_file(str_text(config_dir)),
{
    match config_dir {
        Some(dir) => paths::join_path(dir, "profile.json"),
        None => "profile.json".to_string(),
    }
}

/// The profile in use: the one that was read, or the default one where there
/// is none or it cannot be read.
pub fn load_profile(read: Option<Profile>) -> (p: Profile)
    ensures
        match read {
            Some(profile) => p == profile,
            None => p.name@ == DEFAULT_NAME@ && p.tone@ == DEFAULT_TONE@,
        },
{
    match read {
        Some(profile) => profile,
        None => Profile::default(),
    }
}

/// The model is told its name first, then its tone, and last the rules, which
/// no name and no tone can change.
pub proof fn law_the_rules_come_last(name: Seq<char>, tone: Seq<char>, other: Seq<char>)
    ensures
        has_prefix(prompt_text(name, tone), "You are "@ + name + ", a local system assistant"@),
        has_text(prompt_text(name, tone), "Personality: "@ + tone + "\n\nHard rule"@),
        prompt_text(name, tone).skip(prompt_text(name, tone).len() - PROMPT_RULES@.len())
            == PROMPT_RULES@,
        prompt_text(name, tone).len() - name.len() - tone.len() == prompt_text(other, tone).len()
            - other.len() - tone.len(),
{
    let p = prompt_text(name, tone);
    let role = PROMPT_ROLE@;
    let rules = PROMPT_RULES@;
    lemma_role();
    lemma_rules();
    let begin = ", a local system assistant"@;
    let end = "Personality: "@;
    let lead = "You are "@ + name + begin;
    assert(p.take(lead.len() as int) == lead) by {
        assert(role.take(begin.len() as int) == begin);
        assert(p == "You are "@ + name + role + (tone + rules));
    }
    text::law_a_text_stands_where_its_characters_do(p, lead, 0);
    let front = "You are "@ + name + role.take(role.len() - end.len());
    let start = "\n\nHard rule"@;
    let back = rules.skip(start.len() as int);
    assert(role == role.take(role.len() - end.len()) + end);
    assert(rules == start + back);
    assert(p == front + (end + tone + start) + back);
    text::law_a_text_holds_its_parts(p, front, end + tone + start, back);
    assert(p.skip(p.len() - rules.len()) == rules);
}

proof fn lemma_role()
    ensures
        ", a local system assistant"@.len() <= PROMPT_ROLE@.len(),
        PROMPT_ROLE@.take(", a local system assistant"@.len() as int)
            == ", a local system assistant"@,
        "Personality: "@.len() <= PROMPT_ROLE@.len(),
        PROMPT_ROLE@.skip(PROMPT_ROLE@.len() - "Personality: "@.len()) == "Personality: "@,
{
    reveal_strlit(", a local system assistant running on the user's own machine, backed by a DeepSeek model served locally through Jan.ai.\n\nPersonality: ");
    reveal_strlit(", a local system assistant");
    reveal_strlit("Personality: ");
}

proof fn lemma_rules()
    ensures
        "\n\nHard rule"@.len() <= PROMPT_RULES@.len(),
        PROMPT_RULES@.take("\n\nHard rule"@.len() as int) == "\n\nHard rule"@,
{
    reveal_strlit("\n\nHard rule, non-negotiable: you may ONLY propose steps using the step kinds you are given in the schema below. You have no ability to run arbitrary shell commands, and you should never claim otherwise. If nothing in the allowed step kinds can accomplish the request, say so plainly in your reply and return an empty steps list rather than guessing or improvising.\n\nWhen the user asks for something:\n1. If it maps to launching/focusing a known app or a known utility action, prefer that over installing anything.\n2. If it requires installing packages, changing services, editing config, or a power action, include those steps -- the user will be shown the plan and asked to confirm before anything runs, so it's fine to propose it.\n3. If it's just conversation, reply normally with an empty steps list.\n4. Never claim to have already done something -- your reply describes what you're ABOUT to do, the system executes it after confirmation.\n5. Never propose a set_config step touching theme, color scheme, icon theme, wallpaper, or desktop appearance settings unless the user's request explicitly asks to change how the system looks. Installing/launching an app or toggling a service is not an invitation to also restyle anything.");
    reveal_strlit("\n\nHard rule");
}

/// The profile is kept below the configuration directory, or right here where
/// there is none.
pub proof fn law_the_profile_is_kept_below_its_directory(dir: Seq<char>)
    ensures
        profile_file(Some(dir.push('/'))) == dir + "/profile.json"@,
        profile_file(None) == "profile.json"@,
{
    reveal_strlit("/profile.json");
    reveal_strlit("profile.json");
    paths::law_a_path_below_a_directory(dir, "profile.json"@);
    assert(dir + seq!['/'] + "profile.json"@ == dir + "/profile.json"@);
}

} // verus!
