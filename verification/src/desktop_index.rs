//! The index of launchable applications, built from the .desktop files of the
//! XDG application directories, and the resolution of free text to one of
//! them.
use vstd::prelude::*;

use crate::command::slice_texts;
use crate::paths::{self, file_stem, path_below};
use crate::text::{
    self, char_lists, chars_of, has_prefix, has_text, joined, lines_of, lowercase,
    same_ascii_case, split_char, string_of, texts, trimmed, without_prefixes,
};

verus! {

/// One launchable application.
#[derive(Debug, PartialEq, Eq)]
pub struct AppEntry {
    /// Desktop file id, such as "org.mozilla.firefox": the `app_id` of the
    /// steps that launch or close the application.
    pub id: String,
    pub name: String,
    /// The command as an argument vector, with the field codes stripped.
    pub command: Vec<String>,
    pub wm_class_guess: String,
    pub desktop_file: String,
    pub no_display: bool,
}

/// The model of an `AppEntry`.
pub struct AppView {
    pub id: Seq<char>,
    pub name: Seq<char>,
    pub command: Seq<Seq<char>>,
    pub wm_class_guess: Seq<char>,
    pub desktop_file: Seq<char>,
    pub no_display: bool,
}

impl View for AppEntry {
    type V = AppView;

    open spec fn view(&self) -> AppView {
        AppView {
            id: self.id@,
            name: self.name@,
            command: texts(self.command@),
            wm_class_guess: self.wm_class_guess@,
            desktop_file: self.desktop_file@,
            no_display: self.no_display,
        }
    }
}

/// The models of a list of applications.
pub open spec fn app_views(apps: Seq<AppEntry>) -> Seq<AppView> {
    apps.map_values(|a: AppEntry| a@)
}

impl Clone for AppEntry {
    fn clone(&self) -> (r: AppEntry)
        ensures
            r@ == self@,
    {
        AppEntry {
            id: self.id.clone(),
            name: self.name.clone(),
            command: text::copy_texts(&self.command),
            wm_class_guess: self.wm_class_guess.clone(),
            desktop_file: self.desktop_file.clone(),
            no_display: self.no_display,
        }
    }
}

/// The directories that `XDG_DATA_DIRS` stands for when it is not set.
pub open spec fn data_dirs_text(xdg_data_dirs: Option<Seq<char>>) -> Seq<char> {
    match xdg_data_dirs {
        Some(dirs) => dirs,
        None => "/usr/local/share:/usr/share"@,
    }
}

/// The directories that are searched for .desktop files, in order.
pub open spec fn application_dirs(
    home: Option<Seq<char>>,
    xdg_data_dirs: Option<Seq<char>>,
) -> Seq<Seq<char>> {
    let shared = split_char(data_dirs_text(xdg_data_dirs), ':').map_values(
        |d: Seq<char>| path_below(d, "applications"@),
    ).push("/var/lib/flatpak/exports/share/applications"@);
    match home {
        Some(h) => seq![path_below(h, ".local/share/applications"@)] + shared + seq![
            path_below(h, ".local/share/flatpak/exports/share/applications"@),
        ],
        None => shared,
    }
}

/// The text in an optional string slice.
pub open spec fn str_text(s: Option<&str>) -> Option<Seq<char>> {
    match s {
        Some(t) => Some(t@),
        None => None,
    }
}

/// The directories that are searched for .desktop files, from the values of
/// `HOME` and `XDG_DATA_DIRS`.
pub fn xdg_application_dirs(home: Option<&str>, xdg_data_dirs: Option<&str>) -> (dirs: Vec<String>)
    ensures
        texts(dirs@) == application_dirs(str_text(home), str_text(xdg_data_dirs)),
{
    let mut dirs: Vec<String> = Vec::new();
    if let Some(h) = home {
        dirs.push(paths::join_path(h, ".local/share/applications"));
    }
    let ghost start = texts(dirs@);
    let data_dirs: &str = match xdg_data_dirs {
        Some(d) => d,
        None => "/usr/local/share:/usr/share",
    };
    let pieces = text::split_on(&chars_of(data_dirs), ':');
    let ghost all = split_char(data_dirs@, ':');
    let ghost wanted = all.map_values(|d: Seq<char>| path_below(d, "applications"@));
    assert(all == char_lists(pieces@));
    assert(texts(dirs@) == start + wanted.take(0));
    for i in 0..pieces.len()
        invariant
            all == char_lists(pieces@),
            wanted == all.map_values(|d: Seq<char>| path_below(d, "applications"@)),
            texts(dirs@) == start + wanted.take(i as int),
    {
        let ghost before = texts(dirs@);
        let dir = string_of(&pieces[i]);
        assert(all[i as int] == dir@);
        let path = paths::join_path(dir.as_str(), "applications");
        dirs.push(path);
        assert(texts(dirs@) == before.push(path@));
        assert(wanted.take(i + 1) == wanted.take(i as int).push(path@));
    }
    assert(wanted.take(all.len() as int) == wanted);
    let ghost before = texts(dirs@);
    dirs.push("/var/lib/flatpak/exports/share/applications".to_string());
    assert(texts(dirs@) == before.push("/var/lib/flatpak/exports/share/applications"@));
    if let Some(h) = home {
        let ghost before = texts(dirs@);
        let last = paths::join_path(h, ".local/share/flatpak/exports/share/applications");
        dirs.push(last);
        assert(texts(dirs@) == before.push(last@));
    }
    assert(texts(dirs@) == application_dirs(str_text(home), str_text(xdg_data_dirs)));
    dirs
}

/// How far an Exec line has been read.
pub struct ExecScan {
    pub tokens: Seq<Seq<char>>,
    pub current: Seq<char>,
    pub in_quotes: bool,
}

/// The tokens of an Exec line up to here: a double quote opens or closes a
/// quotation, a space outside of one ends a token, and every other character,
/// whatever a shell would make of it, belongs to the token.
pub open spec fn exec_scan(line: Seq<char>) -> ExecScan
    decreases line.len(),
{
    if line.len() == 0 {
        ExecScan { tokens: Seq::empty(), current: Seq::empty(), in_quotes: false }
    } else {
        let before = exec_scan(line.drop_last());
        let c = line.last();
        if c == '"' {
            ExecScan { in_quotes: !before.in_quotes, ..before }
        } else if c == ' ' && !before.in_quotes {
            if before.current.len() == 0 {
                before
            } else {
                ExecScan {
                    tokens: before.tokens.push(before.current),
                    current: Seq::empty(),
                    ..before
                }
            }
        } else {
            ExecScan { current: before.current.push(c), ..before }
        }
    }
}

/// The letters of the field codes.
pub open spec fn field_letter(c: char) -> bool {
    c == 'f' || c == 'F' || c == 'u' || c == 'U' || c == 'd' || c == 'D' || c == 'n' || c == 'N'
        || c == 'i' || c == 'c' || c == 'k' || c == 'v' || c == 'm'
}

/// A token without its field codes, read from left to right: a percent sign
/// and the letter of a field code behind it are left out wherever they stand.
pub open spec fn without_codes(t: Seq<char>) -> Seq<char>
    decreases t.len(),
{
    if t.len() == 0 {
        t
    } else if t.len() > 1 && t[0] == '%' && field_letter(t[1]) {
        without_codes(t.skip(2))
    } else {
        seq![t[0]] + without_codes(t.skip(1))
    }
}

/// The texts that are not empty.
pub open spec fn not_empty() -> spec_fn(Seq<char>) -> bool {
    |t: Seq<char>| t.len() > 0
}

/// The tokens of an Exec line as they stand in it.
pub open spec fn raw_tokens(line: Seq<char>) -> Seq<Seq<char>> {
    let end = exec_scan(line);
    if end.current.len() == 0 {
        end.tokens
    } else {
        end.tokens.push(end.current)
    }
}

pub open spec fn all_without_codes(tokens: Seq<Seq<char>>) -> Seq<Seq<char>> {
    tokens.map_values(|t: Seq<char>| without_codes(t))
}

/// The tokens of an Exec line, without its field codes; a token that was
/// nothing else is gone.
pub open spec fn exec_tokens(line: Seq<char>) -> Seq<Seq<char>> {
    all_without_codes(raw_tokens(line)).filter(not_empty())
}

fn is_field_letter(c: char) -> (r: bool)
    ensures
        r == field_letter(c),
{
    c == 'f' || c == 'F' || c == 'u' || c == 'U' || c == 'd' || c == 'D' || c == 'n' || c == 'N'
        || c == 'i' || c == 'c' || c == 'k' || c == 'v' || c == 'm'
}

/// A token without its field codes.
fn strip_codes(t: &Vec<char>) -> (out: Vec<char>)
    ensures
        out@ == without_codes(t@),
{
    let n = t.len();
    let mut out: Vec<char> = Vec::new();
    let mut i: usize = 0;
    assert(t@.skip(0) == t@);
    while i < n
        invariant
            i <= n == t@.len(),
            out@ + without_codes(t@.skip(i as int)) == without_codes(t@),
        decreases n - i,
    {
        let ghost rest = t@.skip(i as int);
        let ghost before = out@;
        if n - i > 1 && t[i] == '%' && is_field_letter(t[i + 1]) {
            assert(rest.skip(2) == t@.skip(i + 2));
            i += 2;
        } else {
            assert(rest.skip(1) == t@.skip(i + 1));
            out.push(t[i]);
            assert(out@ + without_codes(t@.skip(i + 1)) == before + (seq![rest[0]]
                + without_codes(t@.skip(i + 1))));
            i += 1;
        }
    }
    out
}

/// The argument vector of an Exec line. This is parsing, not shell evaluation:
/// only the double quote and the space have a meaning.
pub fn parse_exec_line(line: &str) -> (out: Vec<String>)
    ensures
        texts(out@) == exec_tokens(line@),
{
    let chars = chars_of(line);
    let mut tokens: Vec<Vec<char>> = Vec::new();
    let mut current: Vec<char> = Vec::new();
    let mut in_quotes = false;
    assert(char_lists(tokens@) == exec_scan(chars@.take(0)).tokens);
    for i in 0..chars.len()
        invariant
            char_lists(tokens@) == exec_scan(chars@.take(i as int)).tokens,
            current@ == exec_scan(chars@.take(i as int)).current,
            in_quotes == exec_scan(chars@.take(i as int)).in_quotes,
    {
        let c = chars[i];
        let ghost before = char_lists(tokens@);
        assert(chars@.take(i + 1).drop_last() == chars@.take(i as int));
        if c == '"' {
            in_quotes = !in_quotes;
        } else if c == ' ' && !in_quotes {
            if current.len() > 0 {
                let ghost last = current@;
                tokens.push(current);
                assert(char_lists(tokens@) == before.push(last));
                current = Vec::new();
            }
        } else {
            current.push(c);
        }
    }
    assert(chars@.take(chars@.len() as int) == line@);
    let ghost before = char_lists(tokens@);
    if current.len() > 0 {
        let ghost last = current@;
        tokens.push(current);
        assert(char_lists(tokens@) == before.push(last));
    }
    let ghost all = all_without_codes(char_lists(tokens@));
    let mut out: Vec<String> = Vec::new();
    proof {
        reveal(Seq::filter);
        assert(char_lists(tokens@) == raw_tokens(line@));
        assert(texts(out@) == all.take(0).filter(not_empty()));
    }
    for i in 0..tokens.len()
        invariant
            all == all_without_codes(char_lists(tokens@)),
            texts(out@) == all.take(i as int).filter(not_empty()),
    {
        let ghost before = texts(out@);
        let token = strip_codes(&tokens[i]);
        proof {
            reveal(Seq::filter);
            assert(char_lists(tokens@)[i as int] == tokens@[i as int]@);
            assert(all[i as int] == token@);
            assert(all.take(i + 1).drop_last() == all.take(i as int));
        }
        if token.len() > 0 {
            let t = string_of(&token);
            out.push(t);
            assert(texts(out@) == before.push(t@));
        }
    }
    assert(all.take(all.len() as int) == all);
    out
}

/// What has been read of a .desktop file.
pub struct DesktopScan {
    pub in_main_group: bool,
    pub name: Option<Seq<char>>,
    pub exec_line: Option<Seq<char>>,
    pub no_display: bool,
    pub terminal: bool,
    /// An entry of another type than an application.
    pub rejected: bool,
}

/// What a line adds to what has been read of a .desktop file.
pub open spec fn desktop_line(scan: DesktopScan, raw: Seq<char>) -> DesktopScan {
    let line = trimmed(raw);
    if scan.rejected {
        scan
    } else if line.len() > 0 && line[0] == '[' {
        DesktopScan { in_main_group: line == "[Desktop Entry]"@, ..scan }
    } else if !scan.in_main_group {
        scan
    } else if has_prefix(line, "Name="@) {
        DesktopScan {
            name: if scan.name is None {
                Some(line.skip(5))
            } else {
                scan.name
            },
            ..scan
        }
    } else if has_prefix(line, "Exec="@) {
        DesktopScan { exec_line: Some(line.skip(5)), ..scan }
    } else if has_prefix(line, "NoDisplay="@) {
        DesktopScan { no_display: same_ascii_case(line.skip(10), "true"@), ..scan }
    } else if has_prefix(line, "Terminal="@) {
        DesktopScan { terminal: same_ascii_case(line.skip(9), "true"@), ..scan }
    } else if has_prefix(line, "Type="@) && !has_text(line, "Application"@) {
        DesktopScan { rejected: true, ..scan }
    } else {
        scan
    }
}

/// What has been read of a .desktop file after some lines.
pub open spec fn desktop_scan(lines: Seq<Seq<char>>) -> DesktopScan
    decreases lines.len(),
{
    if lines.len() == 0 {
        DesktopScan {
            in_main_group: false,
            name: None,
            exec_line: None,
            no_display: false,
            terminal: false,
            rejected: false,
        }
    } else {
        desktop_line(desktop_scan(lines.drop_last()), lines.last())
    }
}

/// The application that a .desktop file describes. There is none if the file
/// is of another type, has no name, or has no command that is more than field
/// codes. An application for the terminal is run by the user's terminal.
pub open spec fn desktop_app(path: Seq<char>, content: Seq<char>) -> Option<AppView> {
    let scan = desktop_scan(lines_of(content));
    if scan.rejected {
        None
    } else {
        match (scan.name, scan.exec_line) {
            (Some(name), Some(line)) => {
                let tokens = exec_tokens(line);
                let command = if scan.terminal {
                    seq!["xdg-terminal-exec"@] + tokens
                } else {
                    tokens
                };
                if tokens.len() == 0 {
                    None
                } else {
                    Some(
                        AppView {
                            id: match file_stem(path) {
                                Some(stem) => stem,
                                None => name,
                            },
                            name,
                            command,
                            wm_class_guess: split_char(command[0], '/').last(),
                            desktop_file: path,
                            no_display: scan.no_display,
                        },
                    )
                }
            },
            _ => None,
        }
    }
}

/// The text after `prefix`, if the line starts with it.
fn value_after(line: &Vec<char>, prefix: &str) -> (r: Option<Vec<char>>)
    ensures
        match r {
            Some(v) => has_prefix(line@, prefix@) && v@ == line@.skip(prefix@.len() as int),
            None => !has_prefix(line@, prefix@),
        },
{
    let p = chars_of(prefix);
    if text::is_at(line, &p, 0) {
        let n = line.len();
        let v = text::part(line, p.len(), n);
        assert(v@ == line@.skip(prefix@.len() as int));
        Some(v)
    } else {
        None
    }
}

/// The part of a path after its last separator.
fn last_segment(path: &str) -> (out: String)
    ensures
        out@ == split_char(path@, '/').last(),
{
    let pieces = text::split_on(&chars_of(path), '/');
    proof {
        text::lemma_split_nonempty(path@, text::equals_char('/'));
        assert(char_lists(pieces@).len() == pieces@.len());
        assert(char_lists(pieces@).last() == pieces@.last()@);
    }
    string_of(&pieces[pieces.len() - 1])
}

/// The application that a .desktop file describes.
pub fn parse_desktop_file(path: &str, content: &str) -> (r: Option<AppEntry>)
    ensures
        match r {
            Some(app) => desktop_app(path@, content@) == Some(app@),
            None => desktop_app(path@, content@) is None,
        },
{
    let lines = text::lines(&chars_of(content));
    let ghost all = lines_of(content@);
    let mut in_main_group = false;
    let mut name: Option<Vec<char>> = None;
    let mut exec_raw: Option<Vec<char>> = None;
    let mut no_display = false;
    let mut terminal = false;
    let mut rejected = false;
    let word_true = chars_of("true");
    let application = chars_of("Application");
    proof {
        reveal_strlit("Name=");
        reveal_strlit("Exec=");
        reveal_strlit("NoDisplay=");
        reveal_strlit("Terminal=");
        assert(all == char_lists(lines@));
    }
    for i in 0..lines.len()
        invariant
            all == char_lists(lines@),
            word_true@ == "true"@,
            application@ == "Application"@,
            "Name="@.len() == 5,
            "Exec="@.len() == 5,
            "NoDisplay="@.len() == 10,
            "Terminal="@.len() == 9,
            desktop_scan(all.take(i as int)) == (DesktopScan {
                in_main_group,
                name: match name {
                    Some(v) => Some(v@),
                    None => None,
                },
                exec_line: match exec_raw {
                    Some(v) => Some(v@),
                    None => None,
                },
                no_display,
                terminal,
                rejected,
            }),
    {
        assert(all[i as int] == lines@[i as int]@);
        assert(all.take(i + 1).drop_last() == all.take(i as int));
        let line = text::trim_chars(&lines[i]);
        if rejected {
        } else if line.len() > 0 && line[0] == '[' {
            in_main_group = text::same(string_of(&line).as_str(), "[Desktop Entry]");
        } else if !in_main_group {
        } else if let Some(v) = value_after(&line, "Name=") {
            if name.is_none() {
                name = Some(v);
            }
        } else if let Some(v) = value_after(&line, "Exec=") {
            exec_raw = Some(v);
        } else if let Some(v) = value_after(&line, "NoDisplay=") {
            no_display = text::eq_ignore_ascii_case(&v, &word_true);
        } else if let Some(v) = value_after(&line, "Terminal=") {
            terminal = text::eq_ignore_ascii_case(&v, &word_true);
        } else if value_after(&line, "Type=").is_some() && !text::contains(&line, &application) {
            rejected = true;
        }
    }
    assert(all.take(all.len() as int) == all);
    if rejected {
        return None;
    }
    let name = match name {
        Some(n) => string_of(&n),
        None => {
            return None;
        },
    };
    let line = match exec_raw {
        Some(e) => string_of(&e),
        None => {
            return None;
        },
    };
    let tokens = parse_exec_line(line.as_str());
    assert(texts(tokens@).len() == tokens@.len());
    if tokens.len() == 0 {
        return None;
    }
    let mut command: Vec<String> = Vec::new();
    if terminal {
        command.push("xdg-terminal-exec".to_string());
        let ghost lead = texts(command@);
        assert(lead == seq!["xdg-terminal-exec"@]);
        let mut copy = text::copy_texts(&tokens);
        let ghost tail = texts(copy@);
        command.append(&mut copy);
        assert(texts(command@) == lead + tail);
    } else {
        command = tokens;
    }
    assert(texts(command@)[0] == command@[0]@);
    let id = match paths::stem_of(path) {
        Some(stem) => stem,
        None => name.clone(),
    };
    let wm_class_guess = last_segment(command[0].as_str());
    Some(
        AppEntry {
            id,
            name,
            command,
            wm_class_guess,
            desktop_file: path.to_string(),
            no_display,
        },
    )
}

/// A file found below the application directories.
pub struct DesktopFile {
    pub path: String,
    pub content: String,
}

/// The applications that the index holds, in the order in which their files
/// were found.
pub struct AppIndex {
    pub by_id: Vec<AppEntry>,
}

/// Some application has this id.
pub open spec fn has_id(apps: Seq<AppView>, id: Seq<char>) -> bool {
    exists|i: int| 0 <= i < apps.len() && (#[trigger] apps[i]).id == id
}

/// The applications after one more file: the first file with an id keeps it.
pub open spec fn indexed(apps: Seq<AppView>, path: Seq<char>, content: Seq<char>) -> Seq<AppView> {
    match (paths::extension(path), desktop_app(path, content)) {
        (Some(ext), Some(app)) => if ext == "desktop"@ && !has_id(apps, app.id) {
            apps.push(app)
        } else {
            apps
        },
        _ => apps,
    }
}

/// The applications of some files, in order.
pub open spec fn scanned(files: Seq<DesktopFile>) -> Seq<AppView>
    decreases files.len(),
{
    if files.len() == 0 {
        Seq::empty()
    } else {
        indexed(scanned(files.drop_last()), files.last().path@, files.last().content@)
    }
}

/// No id occurs twice.
pub open spec fn distinct_ids(apps: Seq<AppView>) -> bool {
    forall|i: int, j: int|
        0 <= i < j < apps.len() ==> (#[trigger] apps[i]).id != (#[trigger] apps[j]).id
}

/// The position of the first application, at or after `i`, with this id.
pub open spec fn id_position(apps: Seq<AppView>, id: Seq<char>, i: int) -> Option<int>
    decreases apps.len() - i,
{
    if i < 0 || i >= apps.len() {
        None
    } else if apps[i].id == id {
        Some(i)
    } else {
        id_position(apps, id, i + 1)
    }
}

/// The similarity of two texts by `strsim::jaro_winkler`, as the bits of the
/// number that it returns. The number is neither negative nor a NaN, so bits
/// are ordered as the numbers are.
pub uninterp spec fn similarity(a: Seq<char>, b: Seq<char>) -> u64;

/// Calls `strsim::jaro_winkler` and hands out the bits of its result, which
/// depends on the two texts alone.
#[verifier::external_body]
fn jaro_winkler(a: &str, b: &str) -> (bits: u64)
    ensures
        bits == similarity(a@, b@),
{
    strsim::jaro_winkler(a, b).to_bits()
}

/// The bits of the number three quarters: a similarity must be above it.
pub const SIMILAR_ENOUGH: u64 = 0x3FE8_0000_0000_0000;

/// What the resolution of a query reads of an application: its id and its name
/// in lower case, whether it is displayed, and how similar its name is to the
/// query.
pub struct Candidate {
    pub id: String,
    pub name: String,
    pub no_display: bool,
    pub score: u64,
}

/// The model of a `Candidate`.
pub struct CandidateView {
    pub id: Seq<char>,
    pub name: Seq<char>,
    pub no_display: bool,
    pub score: u64,
}

impl View for Candidate {
    type V = CandidateView;

    open spec fn view(&self) -> CandidateView {
        CandidateView {
            id: self.id@,
            name: self.name@,
            no_display: self.no_display,
            score: self.score,
        }
    }
}

pub open spec fn candidate_views(list: Seq<Candidate>) -> Seq<CandidateView> {
    list.map_values(|c: Candidate| c@)
}

/// The position of the first candidate, at or after `i`, that `pred` holds of.
pub open spec fn first_from(
    list: Seq<CandidateView>,
    pred: spec_fn(CandidateView) -> bool,
    i: int,
) -> Option<int>
    decreases list.len() - i,
{
    if i < 0 || i >= list.len() {
        None
    } else if pred(list[i]) {
        Some(i)
    } else {
        first_from(list, pred, i + 1)
    }
}

pub open spec fn id_matches(q: Seq<char>) -> spec_fn(CandidateView) -> bool {
    |c: CandidateView| c.id == q
}

pub open spec fn name_matches(q: Seq<char>) -> spec_fn(CandidateView) -> bool {
    |c: CandidateView| c.name == q
}

pub open spec fn name_overlaps(q: Seq<char>) -> spec_fn(CandidateView) -> bool {
    |c: CandidateView| has_text(c.name, q) || has_text(q, c.name)
}

/// Among the first `n` candidates that are displayed, the most similar one;
/// the last of several.
pub open spec fn most_similar(list: Seq<CandidateView>, n: int) -> Option<int>
    decreases n,
{
    if n <= 0 || n > list.len() {
        None
    } else {
        let best = most_similar(list, n - 1);
        if list[n - 1].no_display {
            best
        } else {
            match best {
                Some(b) => if list[n - 1].score >= list[b].score {
                    Some(n - 1)
                } else {
                    best
                },
                None => Some(n - 1),
            }
        }
    }
}

/// The query without the article that it may start with.
pub open spec fn without_article(q: Seq<char>) -> Seq<char> {
    if has_prefix(q, "the "@) {
        q.skip(4)
    } else if has_prefix(q, "my "@) {
        q.skip(3)
    } else if has_prefix(q, "a "@) {
        q.skip(2)
    } else {
        q
    }
}

/// The names of the applications that a generic word stands for, those that
/// are looked for first in front.
pub open spec fn generic_names(word: Seq<char>) -> Seq<Seq<char>> {
    if word == "browser"@ || word == "web browser"@ || word == "internet browser"@ {
        seq![
            "firefox"@,
            "chromium"@,
            "chrome"@,
            "brave"@,
            "vivaldi"@,
            "librewolf"@,
            "waterfox"@,
            "falkon"@,
            "konqueror"@,
            "epiphany"@,
            "qutebrowser"@,
            "midori"@,
            "microsoft-edge"@,
            "microsoft edge"@,
            "palemoon"@,
            "pale moon"@,
            "opera"@,
            "browser"@,
        ]
    } else if word == "terminal"@ || word == "console"@ {
        seq!["konsole"@, "alacritty"@, "kitty"@, "wezterm"@, "xterm"@, "terminal"@]
    } else if word == "file manager"@ || word == "files"@ {
        seq!["dolphin"@, "nautilus"@, "thunar"@, "nemo"@, "pcmanfm"@, "caja"@]
    } else if word == "text editor"@ || word == "editor"@ {
        seq!["kate"@, "kwrite"@, "gedit"@, "text-editor"@, "mousepad"@, "pluma"@]
    } else if word == "mail client"@ || word == "email client"@ || word == "mail"@ || word
        == "email"@ {
        seq!["thunderbird"@, "kmail"@, "evolution"@, "geary"@]
    } else {
        Seq::empty()
    }
}

/// The displayed candidates that are known by a name.
pub open spec fn known_as(name: Seq<char>) -> spec_fn(CandidateView) -> bool {
    |c: CandidateView| !c.no_display && (has_text(c.id, name) || has_text(c.name, name))
}

/// The first candidate that is known by one of the names, the names from `k`
/// on being tried in order.
pub open spec fn known_from(list: Seq<CandidateView>, names: Seq<Seq<char>>, k: int) -> Option<int>
    decreases names.len() - k,
{
    if k < 0 || k >= names.len() {
        None
    } else if first_from(list, known_as(names[k]), 0) is Some {
        first_from(list, known_as(names[k]), 0)
    } else {
        known_from(list, names, k + 1)
    }
}

/// The most similar displayed candidate, if it is similar enough.
pub open spec fn similar_enough(list: Seq<CandidateView>) -> Option<int> {
    match most_similar(list, list.len() as int) {
        Some(b) => if list[b].score > SIMILAR_ENOUGH {
            Some(b)
        } else {
            None
        },
        None => None,
    }
}

/// The candidate that a query means: the one with that id, else the one with
/// that name, else one whose name holds the query or stands in it, else the
/// most similar displayed one, if it is similar enough, else one of the kind
/// that a generic word such as "the browser" names.
pub open spec fn picked(list: Seq<CandidateView>, q: Seq<char>) -> Option<int> {
    if first_from(list, id_matches(q), 0) is Some {
        first_from(list, id_matches(q), 0)
    } else if first_from(list, name_matches(q), 0) is Some {
        first_from(list, name_matches(q), 0)
    } else if first_from(list, name_overlaps(q), 0) is Some {
        first_from(list, name_overlaps(q), 0)
    } else if similar_enough(list) is Some {
        similar_enough(list)
    } else {
        known_from(list, generic_names(without_article(q)), 0)
    }
}

fn position_by_id(list: &Vec<Candidate>, q: &str) -> (r: Option<usize>)
    ensures
        match r {
            Some(k) => first_from(candidate_views(list@), id_matches(q@), 0) == Some(k as int) && k
                < list@.len(),
            None => first_from(candidate_views(list@), id_matches(q@), 0) is None,
        },
{
    let ghost all = candidate_views(list@);
    let ghost pred = id_matches(q@);
    let mut i: usize = 0;
    while i < list.len()
        invariant
            i <= list@.len(),
            all == candidate_views(list@),
            pred == id_matches(q@),
            first_from(all, pred, 0) == first_from(all, pred, i as int),
        decreases list@.len() - i,
    {
        assert(all[i as int] == list@[i as int]@);
        if text::same(list[i].id.as_str(), q) {
            return Some(i);
        }
        i += 1;
    }
    None
}

fn position_by_name(list: &Vec<Candidate>, q: &str) -> (r: Option<usize>)
    ensures
        match r {
            Some(k) => first_from(candidate_views(list@), name_matches(q@), 0) == Some(k as int) && k
                < list@.len(),
            None => first_from(candidate_views(list@), name_matches(q@), 0) is None,
        },
{
    let ghost all = candidate_views(list@);
    let ghost pred = name_matches(q@);
    let mut i: usize = 0;
    while i < list.len()
        invariant
            i <= list@.len(),
            all == candidate_views(list@),
            pred == name_matches(q@),
            first_from(all, pred, 0) == first_from(all, pred, i as int),
        decreases list@.len() - i,
    {
        assert(all[i as int] == list@[i as int]@);
        if text::same(list[i].name.as_str(), q) {
            return Some(i);
        }
        i += 1;
    }
    None
}

fn position_by_overlap(list: &Vec<Candidate>, q: &str) -> (r: Option<usize>)
    ensures
        match r {
            Some(k) => first_from(candidate_views(list@), name_overlaps(q@), 0) == Some(k as int)
                && k < list@.len(),
            None => first_from(candidate_views(list@), name_overlaps(q@), 0) is None,
        },
{
    let ghost all = candidate_views(list@);
    let ghost pred = name_overlaps(q@);
    let chars = chars_of(q);
    let mut i: usize = 0;
    while i < list.len()
        invariant
            i <= list@.len(),
            all == candidate_views(list@),
            pred == name_overlaps(q@),
            chars@ == q@,
            first_from(all, pred, 0) == first_from(all, pred, i as int),
        decreases list@.len() - i,
    {
        assert(all[i as int] == list@[i as int]@);
        let name = chars_of(list[i].name.as_str());
        if text::contains(&name, &chars) || text::contains(&chars, &name) {
            return Some(i);
        }
        i += 1;
    }
    None
}

fn position_by_score(list: &Vec<Candidate>) -> (r: Option<usize>)
    ensures
        match r {
            Some(b) => b < list@.len() && most_similar(candidate_views(list@), list@.len() as int)
                == Some(b as int),
            None => most_similar(candidate_views(list@), list@.len() as int) is None,
        },
{
    let ghost all = candidate_views(list@);
    let mut best: Option<usize> = None;
    for n in 0..list.len()
        invariant
            all == candidate_views(list@),
            match best {
                Some(b) => most_similar(all, n as int) == Some(b as int) && b < n,
                None => most_similar(all, n as int) is None,
            },
    {
        assert(all[n as int] == list@[n as int]@);
        if !list[n].no_display {
            match best {
                Some(b) => {
                    assert(all[b as int] == list@[b as int]@);
                    if list[n].score >= list[b].score {
                        best = Some(n);
                    }
                },
                None => {
                    best = Some(n);
                },
            }
        }
    }
    best
}

fn position_by_known_name(list: &Vec<Candidate>, known: &str) -> (r: Option<usize>)
    ensures
        match r {
            Some(k) => first_from(candidate_views(list@), known_as(known@), 0) == Some(k as int)
                && k < list@.len(),
            None => first_from(candidate_views(list@), known_as(known@), 0) is None,
        },
{
    let ghost all = candidate_views(list@);
    let ghost pred = known_as(known@);
    let chars = chars_of(known);
    let mut i: usize = 0;
    while i < list.len()
        invariant
            i <= list@.len(),
            all == candidate_views(list@),
            pred == known_as(known@),
            chars@ == known@,
            first_from(all, pred, 0) == first_from(all, pred, i as int),
        decreases list@.len() - i,
    {
        assert(all[i as int] == list@[i as int]@);
        let id = chars_of(list[i].id.as_str());
        let name = chars_of(list[i].name.as_str());
        if !list[i].no_display && (text::contains(&id, &chars) || text::contains(&name, &chars)) {
            return Some(i);
        }
        i += 1;
    }
    None
}

/// The query without the article that it may start with.
fn strip_article(q: &str) -> (out: String)
    ensures
        out@ == without_article(q@),
{
    proof {
        reveal_strlit("the ");
        reveal_strlit("my ");
        reveal_strlit("a ");
    }
    let chars = chars_of(q);
    let n = chars.len();
    let start: usize = if text::starts_with(q, "the ") {
        4
    } else if text::starts_with(q, "my ") {
        3
    } else if text::starts_with(q, "a ") {
        2
    } else {
        0
    };
    let rest = text::part(&chars, start, n);
    assert(rest@ == q@.skip(start as int));
    assert(q@.skip(0) == q@);
    string_of(&rest)
}

/// The names of the applications that a generic word stands for.
fn generic_list(word: &str) -> (names: Vec<&'static str>)
    ensures
        slice_texts(names@) == generic_names(word@),
{
    let names = if text::same(word, "browser") || text::same(word, "web browser") || text::same(
        word,
        "internet browser",
    ) {
        vec![
            "firefox",
            "chromium",
            "chrome",
            "brave",
            "vivaldi",
            "librewolf",
            "waterfox",
            "falkon",
            "konqueror",
            "epiphany",
            "qutebrowser",
            "midori",
            "microsoft-edge",
            "microsoft edge",
            "palemoon",
            "pale moon",
            "opera",
            "browser",
        ]
    } else if text::same(word, "terminal") || text::same(word, "console") {
        vec!["konsole", "alacritty", "kitty", "wezterm", "xterm", "terminal"]
    } else if text::same(word, "file manager") || text::same(word, "files") {
        vec!["dolphin", "nautilus", "thunar", "nemo", "pcmanfm", "caja"]
    } else if text::same(word, "text editor") || text::same(word, "editor") {
        vec!["kate", "kwrite", "gedit", "text-editor", "mousepad", "pluma"]
    } else if text::same(word, "mail client") || text::same(word, "email client") || text::same(
        word,
        "mail",
    ) || text::same(word, "email") {
        vec!["thunderbird", "kmail", "evolution", "geary"]
    } else {
        Vec::new()
    };
    assert(slice_texts(names@) == generic_names(word@));
    names
}

fn position_by_kind(list: &Vec<Candidate>, q: &str) -> (r: Option<usize>)
    ensures
        match r {
            Some(k) => known_from(
                candidate_views(list@),
                generic_names(without_article(q@)),
                0,
            ) == Some(k as int) && k < list@.len(),
            None => known_from(
                candidate_views(list@),
                generic_names(without_article(q@)),
                0,
            ) is None,
        },
{
    let word = strip_article(q);
    let names = generic_list(word.as_str());
    let ghost all = candidate_views(list@);
    let ghost wanted = slice_texts(names@);
    for k in 0..names.len()
        invariant
            all == candidate_views(list@),
            wanted == slice_texts(names@),
            wanted == generic_names(without_article(q@)),
            known_from(all, wanted, 0) == known_from(all, wanted, k as int),
    {
        assert(wanted[k as int] == names@[k as int]@);
        if let Some(i) = position_by_known_name(list, names[k]) {
            return Some(i);
        }
    }
    None
}

/// The position of the candidate that a query means.
pub fn pick_candidate(list: &Vec<Candidate>, q: &str) -> (r: Option<usize>)
    ensures
        match r {
            Some(k) => picked(candidate_views(list@), q@) == Some(k as int) && k < list@.len(),
            None => picked(candidate_views(list@), q@) is None,
        },
{
    assert(candidate_views(list@).len() == list@.len());
    if let Some(k) = position_by_id(list, q) {
        return Some(k);
    }
    if let Some(k) = position_by_name(list, q) {
        return Some(k);
    }
    if let Some(k) = position_by_overlap(list, q) {
        return Some(k);
    }
    if let Some(b) = position_by_score(list) {
        assert(candidate_views(list@)[b as int] == list@[b as int]@);
        if list[b].score > SIMILAR_ENOUGH {
            return Some(b);
        }
    }
    position_by_kind(list, q)
}

/// A lower-case query without the verb that it may start with.
pub open spec fn without_verb(lower: Seq<char>) -> Seq<char> {
    trimmed(
        without_prefixes(
            without_prefixes(without_prefixes(lower, "open "@), "launch "@),
            "start "@,
        ),
    )
}

/// A lower-case query without the verb that it may start with.
pub fn strip_verb(lower: &str) -> (q: String)
    ensures
        q@ == without_verb(lower@),
{
    let rest = text::trim_start_matches(&chars_of(lower), &chars_of("open "));
    let rest = text::trim_start_matches(&rest, &chars_of("launch "));
    let rest = text::trim_start_matches(&rest, &chars_of("start "));
    string_of(&text::trim_chars(&rest))
}

/// What the resolution of the query `q` reads of an application.
pub open spec fn candidate_of(app: AppView, q: Seq<char>) -> CandidateView {
    CandidateView {
        id: lowercase(app.id),
        name: lowercase(app.name),
        no_display: app.no_display,
        score: similarity(lowercase(app.name), q),
    }
}

pub open spec fn candidates_of(apps: Seq<AppView>, q: Seq<char>) -> Seq<CandidateView> {
    apps.map_values(|a: AppView| candidate_of(a, q))
}

/// The application that a free text means.
pub open spec fn resolution(apps: Seq<AppView>, query: Seq<char>) -> Option<int> {
    let q = without_verb(lowercase(query));
    picked(candidates_of(apps, q), q)
}

impl AppIndex {
    /// The applications in the index.
    pub open spec fn apps(&self) -> Seq<AppView> {
        app_views(self.by_id@)
    }

    /// No two applications have the same id.
    pub open spec fn wf(&self) -> bool {
        distinct_ids(self.apps())
    }

    /// The index of the given files, in the order in which they were found.
    pub fn scan(files: &Vec<DesktopFile>) -> (index: AppIndex)
        ensures
            index.apps() == scanned(files@),
            index.wf(),
    {
        let mut index = AppIndex { by_id: Vec::new() };
        assert(index.apps() == scanned(files@.take(0)));
        for i in 0..files.len()
            invariant
                index.apps() == scanned(files@.take(i as int)),
                index.wf(),
        {
            assert(files@.take(i + 1).drop_last() == files@.take(i as int));
            let path = files[i].path.as_str();
            let wanted = match paths::extension_of(path) {
                Some(ext) => text::same(ext.as_str(), "desktop"),
                None => false,
            };
            let parsed = parse_desktop_file(path, files[i].content.as_str());
            if let Some(app) = parsed {
                if wanted && index.get_position(app.id.as_str()).is_none() {
                    let ghost before = index.apps();
                    index.by_id.push(app);
                    assert(index.apps() == before.push(app@));
                }
            }
        }
        assert(files@.take(files@.len() as int) == files@);
        index
    }

    /// The names of all applications.
    pub fn all_names(&self) -> (names: Vec<String>)
        ensures
            texts(names@) == self.apps().map_values(|a: AppView| a.name),
    {
        let mut names: Vec<String> = Vec::new();
        let ghost wanted = self.apps().map_values(|a: AppView| a.name);
        for i in 0..self.by_id.len()
            invariant
                wanted == self.apps().map_values(|a: AppView| a.name),
                texts(names@) == wanted.take(i as int),
        {
            let ghost before = texts(names@);
            let name = self.by_id[i].name.clone();
            names.push(name);
            assert(texts(names@) == before.push(name@));
            assert(wanted.take(i + 1) == before.push(wanted[i as int]));
        }
        assert(wanted.take(self.apps().len() as int) == wanted);
        names
    }

    fn get_position(&self, id: &str) -> (r: Option<usize>)
        ensures
            match r {
                Some(k) => id_position(self.apps(), id@, 0) == Some(k as int) && k
                    < self.by_id@.len() && self.apps()[k as int].id == id@ && has_id(
                    self.apps(),
                    id@,
                ),
                None => id_position(self.apps(), id@, 0) is None && !has_id(self.apps(), id@),
            },
    {
        let mut i: usize = 0;
        while i < self.by_id.len()
            invariant
                i <= self.by_id@.len(),
                id_position(self.apps(), id@, 0) == id_position(self.apps(), id@, i as int),
                forall|j: int| 0 <= j < i ==> (#[trigger] self.apps()[j]).id != id@,
            decreases self.by_id@.len() - i,
        {
            assert(self.apps()[i as int] == self.by_id@[i as int]@);
            if text::same(self.by_id[i].id.as_str(), id) {
                return Some(i);
            }
            i += 1;
        }
        None
    }

    /// The application with exactly this id.
    pub fn get(&self, id: &str) -> (r: Option<&AppEntry>)
        ensures
            match r {
                Some(app) => id_position(self.apps(), id@, 0) matches Some(k) && app@
                    == self.apps()[k],
                None => id_position(self.apps(), id@, 0) is None && !has_id(self.apps(), id@),
            },
    {
        match self.get_position(id) {
            Some(k) => Some(&self.by_id[k]),
            None => None,
        }
    }

    /// The application that a free text means.
    pub fn resolve(&self, query: &str) -> (r: Option<&AppEntry>)
        ensures
            match r {
                Some(app) => resolution(self.apps(), query@) matches Some(k) && app@
                    == self.apps()[k],
                None => resolution(self.apps(), query@) is None,
            },
    {
        let q = strip_verb(query.to_lowercase().as_str());
        let ghost wanted = candidates_of(self.apps(), q@);
        let mut list: Vec<Candidate> = Vec::new();
        for i in 0..self.by_id.len()
            invariant
                wanted == candidates_of(self.apps(), q@),
                candidate_views(list@) == wanted.take(i as int),
        {
            let app = &self.by_id[i];
            let ghost before = candidate_views(list@);
            let name = app.name.to_lowercase();
            let score: u64 = jaro_winkler(name.as_str(), q.as_str());
            let candidate = Candidate {
                id: app.id.to_lowercase(),
                name,
                no_display: app.no_display,
                score,
            };
            assert(candidate@ == candidate_of(app@, q@));
            list.push(candidate);
            assert(candidate_views(list@) == before.push(candidate@));
            assert(wanted.take(i + 1) == before.push(wanted[i as int]));
        }
        assert(wanted.take(self.apps().len() as int) == wanted);
        match pick_candidate(&list, q.as_str()) {
            Some(k) => {
                assert(candidate_views(list@).len() == list@.len());
                Some(&self.by_id[k])
            },
            None => None,
        }
    }
}

proof fn lemma_first_from(list: Seq<CandidateView>, pred: spec_fn(CandidateView) -> bool, i: int)
    requires
        0 <= i,
    ensures
        match first_from(list, pred, i) {
            Some(k) => i <= k < list.len() && pred(list[k]) && forall|j: int|
                i <= j < k ==> !pred(#[trigger] list[j]),
            None => forall|j: int| i <= j < list.len() ==> !pred(#[trigger] list[j]),
        },
    decreases list.len() - i,
{
    if i < list.len() && !pred(list[i]) {
        lemma_first_from(list, pred, i + 1);
    }
}

proof fn lemma_most_similar(list: Seq<CandidateView>, n: int)
    requires
        0 <= n <= list.len(),
    ensures
        match most_similar(list, n) {
            Some(b) => 0 <= b < n && !list[b].no_display && forall|j: int|
                0 <= j < n && !(#[trigger] list[j]).no_display ==> list[j].score <= list[b].score,
            None => forall|j: int| 0 <= j < n ==> (#[trigger] list[j]).no_display,
        },
    decreases n,
{
    if n > 0 {
        lemma_most_similar(list, n - 1);
    }
}

/// A query resolves to an application of the index, or to none.
pub proof fn law_resolution_is_indexed(apps: Seq<AppView>, query: Seq<char>)
    ensures
        resolution(apps, query) matches Some(k) ==> 0 <= k < apps.len(),
{
    let q = without_verb(lowercase(query));
    let list = candidates_of(apps, q);
    lemma_first_from(list, id_matches(q), 0);
    lemma_first_from(list, name_matches(q), 0);
    lemma_first_from(list, name_overlaps(q), 0);
    lemma_most_similar(list, list.len() as int);
    lemma_known_from(list, generic_names(without_article(q)), 0);
}

/// An application whose id is the query, up to case, is found, and nothing
/// else is taken for it; the same holds of names where no id fits.
pub proof fn law_exact_match_wins(list: Seq<CandidateView>, q: Seq<char>, i: int)
    requires
        0 <= i < list.len(),
    ensures
        list[i].id == q ==> (picked(list, q) matches Some(k) && list[k].id == q),
        list[i].name == q ==> (picked(list, q) matches Some(k) && (list[k].id == q || list[k].name
            == q)),
{
    lemma_first_from(list, id_matches(q), 0);
    lemma_first_from(list, name_matches(q), 0);
    assert(id_matches(q)(list[i]) == (list[i].id == q));
    assert(name_matches(q)(list[i]) == (list[i].name == q));
}

/// An application is picked for a reason: its id or its name fits the query;
/// or it is displayed, is similar enough, and no displayed application is more
/// similar; or it is displayed and known by a name that the generic word of the
/// query stands for.
pub proof fn law_a_pick_has_a_reason(list: Seq<CandidateView>, q: Seq<char>)
    ensures
        picked(list, q) matches Some(k) ==> 0 <= k < list.len() && (list[k].id == q || list[k].name
            == q || has_text(list[k].name, q) || has_text(q, list[k].name) || (
        !list[k].no_display && list[k].score > SIMILAR_ENOUGH && forall|j: int|
            0 <= j < list.len() && !(#[trigger] list[j]).no_display ==> list[j].score
                <= list[k].score) || exists|n: int|
            0 <= n < generic_names(without_article(q)).len() && known_as(
                #[trigger] generic_names(without_article(q))[n],
            )(list[k])),
{
    lemma_first_from(list, id_matches(q), 0);
    lemma_first_from(list, name_matches(q), 0);
    lemma_first_from(list, name_overlaps(q), 0);
    lemma_most_similar(list, list.len() as int);
    lemma_known_from(list, generic_names(without_article(q)), 0);
}

/// A generic word finds an application of its kind: where a displayed one is
/// installed that is known by one of the word's names, the query is never
/// without an answer.
pub proof fn law_generic_words_find_what_is_installed(
    list: Seq<CandidateView>,
    q: Seq<char>,
    i: int,
    n: int,
)
    requires
        0 <= i < list.len(),
        0 <= n < generic_names(without_article(q)).len(),
        known_as(generic_names(without_article(q))[n])(list[i]),
    ensures
        picked(list, q) is Some,
{
    lemma_known_from(list, generic_names(without_article(q)), 0);
}

proof fn lemma_known_from(list: Seq<CandidateView>, names: Seq<Seq<char>>, k: int)
    requires
        0 <= k,
    ensures
        match known_from(list, names, k) {
            Some(i) => 0 <= i < list.len() && exists|n: int|
                k <= n < names.len() && known_as(#[trigger] names[n])(list[i]),
            None => forall|n: int, i: int|
                k <= n < names.len() && 0 <= i < list.len() ==> !known_as(#[trigger] names[n])(
                    #[trigger] list[i],
                ),
        },
    decreases names.len() - k,
{
    if k < names.len() {
        lemma_first_from(list, known_as(names[k]), 0);
        if first_from(list, known_as(names[k]), 0) is None {
            lemma_known_from(list, names, k + 1);
        }
    }
}

proof fn lemma_exec_scan(line: Seq<char>)
    ensures
        forall|i: int, k: int|
            0 <= i < exec_scan(line).tokens.len() && 0 <= k < exec_scan(line).tokens[i].len()
                ==> #[trigger] exec_scan(line).tokens[i][k] != '"' && line.contains(
                exec_scan(line).tokens[i][k],
            ),
        forall|i: int|
            0 <= i < exec_scan(line).tokens.len() ==> (#[trigger] exec_scan(line).tokens[i]).len()
                > 0,
        forall|k: int|
            0 <= k < exec_scan(line).current.len() ==> #[trigger] exec_scan(line).current[k] != '"'
                && line.contains(exec_scan(line).current[k]),
    decreases line.len(),
{
    if line.len() > 0 {
        let init = line.drop_last();
        lemma_exec_scan(init);
        assert forall|c: char| init.contains(c) implies line.contains(c) by {
            let j = choose|j: int| 0 <= j < init.len() && init[j] == c;
            assert(line[j] == c);
        }
        assert(line[line.len() - 1] == line.last());
        assert(line.contains(line.last()));
        let before = exec_scan(init);
        let after = exec_scan(line);
        assert forall|i: int, k: int|
            0 <= i < after.tokens.len() && 0 <= k < after.tokens[i].len() implies
            #[trigger] after.tokens[i][k] != '"' && line.contains(after.tokens[i][k]) by {
            if i < before.tokens.len() {
                assert(after.tokens[i] == before.tokens[i]);
                assert(before.tokens[i][k] != '"');
            } else {
                assert(after.tokens[i] == before.current);
                assert(before.current[k] != '"');
            }
        }
        assert forall|k: int| 0 <= k < after.current.len() implies #[trigger] after.current[k] != '"'
            && line.contains(after.current[k]) by {
            if k < before.current.len() && after.current.len() >= before.current.len() {
                assert(after.current[k] == before.current[k]);
            }
        }
    }
}

proof fn lemma_without_codes(t: Seq<char>)
    ensures
        forall|k: int|
            0 <= k < without_codes(t).len() ==> t.contains(#[trigger] without_codes(t)[k]),
        !t.contains('%') ==> without_codes(t) == t,
    decreases t.len(),
{
    if t.len() > 0 {
        let step: int = if t.len() > 1 && t[0] == '%' && field_letter(t[1]) {
            2
        } else {
            1
        };
        let rest = t.skip(step);
        lemma_without_codes(rest);
        assert forall|c: char| rest.contains(c) implies t.contains(c) by {
            let j = choose|j: int| 0 <= j < rest.len() && rest[j] == c;
            assert(t[j + step] == c);
        }
        assert(t.contains(t[0]));
        let out = without_codes(t);
        assert forall|k: int| 0 <= k < out.len() implies t.contains(#[trigger] out[k]) by {
            if step == 2 {
                assert(out[k] == without_codes(rest)[k]);
            } else if k > 0 {
                assert(out[k] == without_codes(rest)[k - 1]);
            }
        }
        if !t.contains('%') {
            assert(seq![t[0]] + rest == t);
        }
    }
}

/// Every argument that an Exec line gives is non-empty and holds only
/// characters of the line; the quotes are gone.
pub proof fn law_exec_arguments_come_from_the_line(line: Seq<char>, i: int)
    requires
        0 <= i < exec_tokens(line).len(),
    ensures
        exec_tokens(line)[i].len() > 0,
        forall|k: int|
            0 <= k < exec_tokens(line)[i].len() ==> #[trigger] exec_tokens(line)[i][k] != '"'
                && line.contains(exec_tokens(line)[i][k]),
{
    lemma_exec_scan(line);
    let end = exec_scan(line);
    let raw = raw_tokens(line);
    let all = all_without_codes(raw);
    let token = exec_tokens(line)[i];
    text::lemma_filter_keeps(all, not_empty());
    assert(not_empty()(token));
    let j = choose|j: int| 0 <= j < all.len() && all[j] == token;
    assert(token == without_codes(raw[j]));
    lemma_without_codes(raw[j]);
    assert forall|k: int| 0 <= k < token.len() implies #[trigger] token[k] != '"' && line.contains(
        token[k],
    ) by {
        assert(raw[j].contains(without_codes(raw[j])[k]));
        let m = choose|m: int| 0 <= m < raw[j].len() && raw[j][m] == token[k];
        if j < end.tokens.len() {
            assert(end.tokens[j][m] != '"');
        } else {
            assert(end.current[m] != '"');
        }
    }
}

/// Field codes are all that is left out: a token without a percent sign stays
/// as it is.
pub proof fn law_only_field_codes_are_stripped(token: Seq<char>)
    requires
        !token.contains('%'),
    ensures
        without_codes(token) == token,
{
    lemma_without_codes(token);
}

/// An id that a file brought into the index stays with that file's entry,
/// whatever files come later.
pub proof fn law_first_file_keeps_its_id(apps: Seq<AppView>, path: Seq<char>, content: Seq<char>)
    requires
        distinct_ids(apps),
    ensures
        distinct_ids(indexed(apps, path, content)),
        indexed(apps, path, content).len() >= apps.len(),
        forall|i: int| 0 <= i < apps.len() ==> #[trigger] indexed(apps, path, content)[i] == apps[i],
{
}

/// A text holds another somewhere.
pub open spec fn stands_in(part: Seq<char>, whole: Seq<char>) -> bool {
    exists|i: int|
        0 <= i <= whole.len() - part.len() && #[trigger] whole.subrange(i, i + part.len()) == part
}

proof fn lemma_stands_in(part: Seq<char>, whole: Seq<char>)
    ensures
        stands_in(part, whole) <==> has_text(whole, part),
{
    if has_text(whole, part) {
        let i = choose|i: int| text::occurs_at(whole, part, i);
        assert(whole.subrange(i, i + part.len()) == part);
    }
    if stands_in(part, whole) {
        let i = choose|i: int|
            0 <= i <= whole.len() - part.len() && #[trigger] whole.subrange(i, i + part.len())
                == part;
        assert(text::occurs_at(whole, part, i));
    }
}

/// A part of a name is enough: where the name of some application holds the
/// query anywhere, or stands anywhere in it, the query is never without an
/// answer; and unless an id or a name is the query itself, the application that
/// is picked is such a one.
pub proof fn law_a_part_of_a_name_is_enough(list: Seq<CandidateView>, q: Seq<char>, i: int)
    requires
        0 <= i < list.len(),
        stands_in(q, list[i].name) || stands_in(list[i].name, q),
    ensures
        picked(list, q) matches Some(k) && 0 <= k < list.len() && (list[k].id == q || list[k].name
            == q || ((forall|j: int|
            0 <= j < list.len() ==> (#[trigger] list[j]).id != q && list[j].name != q) && (stands_in(
            q,
            list[k].name,
        ) || stands_in(list[k].name, q)))),
{
    lemma_first_from(list, id_matches(q), 0);
    lemma_first_from(list, name_matches(q), 0);
    lemma_first_from(list, name_overlaps(q), 0);
    lemma_stands_in(q, list[i].name);
    lemma_stands_in(list[i].name, q);
    assert(name_overlaps(q)(list[i]));
    let k = picked(list, q)->0;
    lemma_stands_in(q, list[k].name);
    lemma_stands_in(list[k].name, q);
    assert forall|j: int| 0 <= j < list.len() && first_from(list, id_matches(q), 0) is None
        && first_from(list, name_matches(q), 0) is None implies (#[trigger] list[j]).id != q
        && list[j].name != q by {
        assert(!id_matches(q)(list[j]));
        assert(!name_matches(q)(list[j]));
    }
}

/// The same of the index and of what the user writes: an application is found
/// by any part of its name, with or without a verb before it, in any case that
/// lower-casing evens out.
pub proof fn law_applications_are_found_by_a_part_of_their_name(
    apps: Seq<AppView>,
    query: Seq<char>,
    i: int,
)
    requires
        0 <= i < apps.len(),
        stands_in(without_verb(lowercase(query)), lowercase(apps[i].name)) || stands_in(
            lowercase(apps[i].name),
            without_verb(lowercase(query)),
        ),
    ensures
        ({
            let q = without_verb(lowercase(query));
            resolution(apps, query) matches Some(k) && 0 <= k < apps.len() && (lowercase(apps[k].id)
                == q || lowercase(apps[k].name) == q || stands_in(q, lowercase(apps[k].name))
                || stands_in(lowercase(apps[k].name), q))
        }),
{
    let q = without_verb(lowercase(query));
    let list = candidates_of(apps, q);
    assert(list[i] == candidate_of(apps[i], q));
    law_a_part_of_a_name_is_enough(list, q, i);
    let k = picked(list, q)->0;
    assert(list[k] == candidate_of(apps[k], q));
}

/// The application with the id or the name that the user writes is found, in
/// any case that lower-casing evens out; an id comes before a name.
pub proof fn law_applications_are_found_by_id_and_name(
    apps: Seq<AppView>,
    query: Seq<char>,
    i: int,
)
    requires
        0 <= i < apps.len(),
    ensures
        ({
            let q = without_verb(lowercase(query));
            &&& lowercase(apps[i].id) == q ==> (resolution(apps, query) matches Some(k) && 0 <= k
                < apps.len() && lowercase(apps[k].id) == q)
            &&& lowercase(apps[i].name) == q ==> (resolution(apps, query) matches Some(k) && 0 <= k
                < apps.len() && (lowercase(apps[k].id) == q || lowercase(apps[k].name) == q && (
            forall|j: int| 0 <= j < apps.len() ==> lowercase((#[trigger] apps[j]).id) != q)))
        }),
{
    let q = without_verb(lowercase(query));
    let list = candidates_of(apps, q);
    assert(list[i] == candidate_of(apps[i], q));
    law_exact_match_wins(list, q, i);
    lemma_first_from(list, id_matches(q), 0);
    lemma_first_from(list, name_matches(q), 0);
    if picked(list, q) is Some {
        law_resolution_is_indexed(apps, query);
        let k = picked(list, q)->0;
        assert(list[k] == candidate_of(apps[k], q));
        if list[k].id != q && lowercase(apps[i].name) == q {
            assert forall|j: int| 0 <= j < apps.len() implies lowercase((#[trigger] apps[j]).id)
                != q by {
                assert(list[j] == candidate_of(apps[j], q));
                assert(!id_matches(q)(list[j]));
            }
        }
    }
}

/// Where no id and no name fits, the most similar of the displayed applications
/// is picked, if its similarity is above three quarters; what is hidden is
/// never picked for its similarity.
pub proof fn law_the_most_similar_is_picked(list: Seq<CandidateView>, q: Seq<char>, i: int)
    requires
        forall|j: int|
            0 <= j < list.len() ==> (#[trigger] list[j]).id != q && list[j].name != q && !stands_in(
                q,
                list[j].name,
            ) && !stands_in(list[j].name, q),
        0 <= i < list.len(),
        !list[i].no_display,
        list[i].score > 0x3FE8_0000_0000_0000,
    ensures
        picked(list, q) matches Some(k) && 0 <= k < list.len() && !list[k].no_display
            && list[k].score > 0x3FE8_0000_0000_0000 && forall|j: int|
            0 <= j < list.len() && !(#[trigger] list[j]).no_display ==> list[j].score
                <= list[k].score,
{
    lemma_no_fit(list, q);
    lemma_most_similar(list, list.len() as int);
}

proof fn lemma_no_fit(list: Seq<CandidateView>, q: Seq<char>)
    requires
        forall|j: int|
            0 <= j < list.len() ==> (#[trigger] list[j]).id != q && list[j].name != q && !stands_in(
                q,
                list[j].name,
            ) && !stands_in(list[j].name, q),
    ensures
        first_from(list, id_matches(q), 0) is None,
        first_from(list, name_matches(q), 0) is None,
        first_from(list, name_overlaps(q), 0) is None,
{
    lemma_first_from(list, id_matches(q), 0);
    lemma_first_from(list, name_matches(q), 0);
    lemma_first_from(list, name_overlaps(q), 0);
    if let Some(k) = first_from(list, name_overlaps(q), 0) {
        lemma_stands_in(q, list[k].name);
        lemma_stands_in(list[k].name, q);
        assert(list[k].id != q);
    }
    if let Some(k) = first_from(list, id_matches(q), 0) {
        assert(list[k].id != q);
    }
    if let Some(k) = first_from(list, name_matches(q), 0) {
        assert(list[k].name != q);
    }
}

/// Nothing is picked without a fit: where no id and no name fits, nothing is
/// similar enough and the query is no generic word, there is no answer.
pub proof fn law_what_fits_nothing_is_not_found(list: Seq<CandidateView>, q: Seq<char>)
    requires
        forall|j: int|
            0 <= j < list.len() ==> (#[trigger] list[j]).id != q && list[j].name != q && !stands_in(
                q,
                list[j].name,
            ) && !stands_in(list[j].name, q) && (list[j].no_display || list[j].score
                <= 0x3FE8_0000_0000_0000),
        generic_names(without_article(q)).len() == 0,
    ensures
        picked(list, q) is None,
{
    lemma_no_fit(list, q);
    lemma_most_similar(list, list.len() as int);
}

/// A generic word is told with an article or without.
pub proof fn law_articles_play_no_part(word: Seq<char>)
    requires
        !has_prefix(word, "the "@) && !has_prefix(word, "my "@) && !has_prefix(word, "a "@),
    ensures
        without_article(word) == word,
        without_article("the "@ + word) == word,
        without_article("my "@ + word) == word,
        without_article("a "@ + word) == word,
{
    reveal_strlit("the ");
    reveal_strlit("my ");
    reveal_strlit("a ");
    let x = "the "@ + word;
    let y = "my "@ + word;
    let z = "a "@ + word;
    assert(x.subrange(0, 4) == "the "@ && x.skip(4) == word);
    assert(y.subrange(0, 3) == "my "@ && y.skip(3) == word);
    assert(z.subrange(0, 2) == "a "@ && z.skip(2) == word);
    if has_prefix(y, "the "@) {
        assert(y.subrange(0, 4)[0] == y[0]);
    }
    if has_prefix(z, "the "@) {
        assert(z.subrange(0, 4)[0] == z[0]);
    }
    if has_prefix(z, "my "@) {
        assert(z.subrange(0, 3)[0] == z[0]);
    }
}

/// A verb before a name plays no part, however it is written down: what is
/// left is the name without the whitespace around it.
pub proof fn law_verbs_play_no_part(name: Seq<char>)
    requires
        !has_prefix(name, "open "@) && !has_prefix(name, "launch "@) && !has_prefix(
            name,
            "start "@,
        ),
    ensures
        without_verb(name) == trimmed(name),
        without_verb("open "@ + name) == trimmed(name),
        without_verb("launch "@ + name) == trimmed(name),
        without_verb("start "@ + name) == trimmed(name),
{
    reveal_strlit("open ");
    reveal_strlit("launch ");
    reveal_strlit("start ");
    let open = "open "@;
    let launch = "launch "@;
    let start = "start "@;
    text::law_repetitions_in_front_are_taken_off(name, open);
    text::law_repetitions_in_front_are_taken_off(name, launch);
    text::law_repetitions_in_front_are_taken_off(name, start);
    text::law_repetitions_in_front_are_taken_off(launch + name, open);
    text::law_repetitions_in_front_are_taken_off(start + name, open);
    text::law_repetitions_in_front_are_taken_off(start + name, launch);
    if has_prefix(launch + name, open) {
        assert((launch + name).subrange(0, 5)[0] == (launch + name)[0]);
    }
    if has_prefix(start + name, open) {
        assert((start + name).subrange(0, 5)[0] == (start + name)[0]);
    }
    if has_prefix(start + name, launch) {
        assert((start + name).subrange(0, 7)[0] == (start + name)[0]);
    }
}

proof fn lemma_generic_words_differ()
    ensures
        "browser"@ != "terminal"@,
        "browser"@ != "console"@,
        "web browser"@ != "terminal"@,
        "web browser"@ != "console"@,
        "internet browser"@ != "terminal"@,
        "internet browser"@ != "console"@,
        "browser"@ != "file manager"@,
        "browser"@ != "files"@,
        "web browser"@ != "file manager"@,
        "web browser"@ != "files"@,
        "internet browser"@ != "file manager"@,
        "internet browser"@ != "files"@,
        "browser"@ != "text editor"@,
        "browser"@ != "editor"@,
        "web browser"@ != "text editor"@,
        "web browser"@ != "editor"@,
        "internet browser"@ != "text editor"@,
        "internet browser"@ != "editor"@,
        "browser"@ != "mail client"@,
        "browser"@ != "email client"@,
        "browser"@ != "mail"@,
        "browser"@ != "email"@,
        "web browser"@ != "mail client"@,
        "web browser"@ != "email client"@,
        "web browser"@ != "mail"@,
        "web browser"@ != "email"@,
        "internet browser"@ != "mail client"@,
        "internet browser"@ != "email client"@,
        "internet browser"@ != "mail"@,
        "internet browser"@ != "email"@,
        "terminal"@ != "file manager"@,
        "terminal"@ != "files"@,
        "console"@ != "file manager"@,
        "console"@ != "files"@,
        "terminal"@ != "text editor"@,
        "terminal"@ != "editor"@,
        "console"@ != "text editor"@,
        "console"@ != "editor"@,
        "terminal"@ != "mail client"@,
        "terminal"@ != "email client"@,
        "terminal"@ != "mail"@,
        "terminal"@ != "email"@,
        "console"@ != "mail client"@,
        "console"@ != "email client"@,
        "console"@ != "mail"@,
        "console"@ != "email"@,
        "file manager"@ != "text editor"@,
        "file manager"@ != "editor"@,
        "files"@ != "text editor"@,
        "files"@ != "editor"@,
        "file manager"@ != "mail client"@,
        "file manager"@ != "email client"@,
        "file manager"@ != "mail"@,
        "file manager"@ != "email"@,
        "files"@ != "mail client"@,
        "files"@ != "email client"@,
        "files"@ != "mail"@,
        "files"@ != "email"@,
        "text editor"@ != "mail client"@,
        "text editor"@ != "email client"@,
        "text editor"@ != "mail"@,
        "text editor"@ != "email"@,
        "editor"@ != "mail client"@,
        "editor"@ != "email client"@,
        "editor"@ != "mail"@,
        "editor"@ != "email"@,
{
    reveal_strlit("browser");
    reveal_strlit("web browser");
    reveal_strlit("internet browser");
    reveal_strlit("terminal");
    reveal_strlit("console");
    reveal_strlit("file manager");
    reveal_strlit("files");
    reveal_strlit("text editor");
    reveal_strlit("editor");
    reveal_strlit("mail client");
    reveal_strlit("email client");
    reveal_strlit("mail");
    reveal_strlit("email");
    assert("browser"@.len() == 7);
    assert("web browser"@.len() == 11);
    assert("internet browser"@.len() == 16);
    assert("terminal"@.len() == 8);
    assert("console"@.len() == 7);
    assert("file manager"@.len() == 12);
    assert("files"@.len() == 5);
    assert("text editor"@.len() == 11);
    assert("editor"@.len() == 6);
    assert("mail client"@.len() == 11);
    assert("email client"@.len() == 12);
    assert("mail"@.len() == 4);
    assert("email"@.len() == 5);
    assert("browser"@[0] != "console"@[0]);
    assert("web browser"@[0] != "text editor"@[0]);
    assert("web browser"@[0] != "mail client"@[0]);
    assert("file manager"@[0] != "email client"@[0]);
    assert("files"@[0] != "email"@[0]);
    assert("text editor"@[0] != "mail client"@[0]);
}

/// The kind of application that a generic word asks for.
pub enum AppKind {
    Browser,
    Terminal,
    FileManager,
    TextEditor,
    MailClient,
}

/// The word asks for applications of this kind.
pub open spec fn asks_for(word: Seq<char>, kind: AppKind) -> bool {
    match kind {
        AppKind::Browser => word == "browser"@ || word == "web browser"@ || word == "internet browser"@,
        AppKind::Terminal => word == "terminal"@ || word == "console"@,
        AppKind::FileManager => word == "file manager"@ || word == "files"@,
        AppKind::TextEditor => word == "text editor"@ || word == "editor"@,
        AppKind::MailClient => word == "mail client"@ || word == "email client"@ || word == "mail"@ || word == "email"@,
    }
}

/// An application that goes by this name is of this kind.
pub open spec fn is_known_for(name: Seq<char>, kind: AppKind) -> bool {
    match kind {
        AppKind::Browser => name == "firefox"@ || name == "chromium"@ || name == "chrome"@ || name == "brave"@ || name == "vivaldi"@ || name == "librewolf"@ || name == "falkon"@ || name == "konqueror"@ || name == "epiphany"@ || name == "opera"@,
        AppKind::Terminal => name == "konsole"@ || name == "alacritty"@ || name == "kitty"@ || name == "xterm"@ || name == "terminal"@,
        AppKind::FileManager => name == "dolphin"@ || name == "nautilus"@ || name == "thunar"@ || name == "nemo"@,
        AppKind::TextEditor => name == "kate"@ || name == "kwrite"@ || name == "gedit"@,
        AppKind::MailClient => name == "thunderbird"@ || name == "kmail"@ || name == "evolution"@,
    }
}

/// A generic word finds what is installed: where some displayed application of
/// the kind that the word asks for is installed under a name that its kind is
/// known for, the word is never without an answer.
pub proof fn law_a_kind_of_application_is_found(
    list: Seq<CandidateView>,
    q: Seq<char>,
    kind: AppKind,
    name: Seq<char>,
    i: int,
)
    requires
        asks_for(without_article(q), kind),
        is_known_for(name, kind),
        0 <= i < list.len(),
        !list[i].no_display,
        stands_in(name, list[i].id) || stands_in(name, list[i].name),
    ensures
        picked(list, q) is Some,
{
    lemma_generic_words_differ();
    let names = generic_names(without_article(q));
    lemma_stands_in(name, list[i].id);
    lemma_stands_in(name, list[i].name);
    lemma_known_names(without_article(q), kind, name);
    let n = choose|n: int| 0 <= n < names.len() && names[n] == name;
    assert(known_as(names[n])(list[i]));
    law_generic_words_find_what_is_installed(list, q, i, n);
}

proof fn lemma_known_names(word: Seq<char>, kind: AppKind, name: Seq<char>)
    requires
        asks_for(word, kind),
        is_known_for(name, kind),
    ensures
        generic_names(word).contains(name),
{
    lemma_generic_words_differ();
    let names = generic_names(word);
    match kind {
        AppKind::Browser => {
            assert(names[0] == "firefox"@);
            assert(names[1] == "chromium"@);
            assert(names[2] == "chrome"@);
            assert(names[3] == "brave"@);
            assert(names[4] == "vivaldi"@);
            assert(names[5] == "librewolf"@);
            assert(names[7] == "falkon"@);
            assert(names[8] == "konqueror"@);
            assert(names[9] == "epiphany"@);
            assert(names[16] == "opera"@);
        },
        AppKind::Terminal => {
            assert(names[0] == "konsole"@);
            assert(names[1] == "alacritty"@);
            assert(names[2] == "kitty"@);
            assert(names[4] == "xterm"@);
            assert(names[5] == "terminal"@);
        },
        AppKind::FileManager => {
            assert(names[0] == "dolphin"@);
            assert(names[1] == "nautilus"@);
            assert(names[2] == "thunar"@);
            assert(names[3] == "nemo"@);
        },
        AppKind::TextEditor => {
            assert(names[0] == "kate"@);
            assert(names[1] == "kwrite"@);
            assert(names[2] == "gedit"@);
        },
        AppKind::MailClient => {
            assert(names[0] == "thunderbird"@);
            assert(names[1] == "kmail"@);
            assert(names[2] == "evolution"@);
        },
    }
}

/// The letters behind a percent sign that make a field code.
pub open spec fn makes_a_code(c: char) -> bool {
    "fFuUdDnNickvm"@.contains(c)
}

proof fn lemma_code_letters(c: char)
    ensures
        makes_a_code(c) <==> field_letter(c),
{
    let all = "fFuUdDnNickvm"@;
    reveal_strlit("fFuUdDnNickvm");
    assert(all[0] == 'f' && all[1] == 'F' && all[2] == 'u' && all[3] == 'U' && all[4] == 'd'
        && all[5] == 'D' && all[6] == 'n' && all[7] == 'N' && all[8] == 'i' && all[9] == 'c'
        && all[10] == 'k' && all[11] == 'v' && all[12] == 'm');
}

/// Field codes are left out wherever they stand: what stands before one and
/// what stands after it is read for itself, and a percent sign before any other
/// character stays, as does every other character.
pub proof fn law_field_codes_are_left_out(before: Seq<char>, c: char, after: Seq<char>)
    ensures
        makes_a_code(c) && !before.contains('%') ==> without_codes(before + seq!['%', c] + after)
            == before + without_codes(after),
        !makes_a_code(c) && c != '%' && !before.contains('%') ==> without_codes(
            before + seq!['%', c] + after,
        ) == before + seq!['%', c] + without_codes(after),
        !before.contains('%') ==> without_codes(before) == before && without_codes(before.push('%'))
            == before.push('%'),
    decreases before.len(),
{
    lemma_code_letters(c);
    let pair = seq!['%', c];
    let s = before + pair + after;
    lemma_without_codes(before);
    if before.len() == 0 {
        assert(s == pair + after);
        assert(s.skip(2) == after);
        assert(s[0] == '%' && s[1] == c);
        assert(before + without_codes(after) == without_codes(after));
        if !makes_a_code(c) && c != '%' {
            let t = s.skip(1);
            assert(t[0] == c && t.skip(1) == after);
            assert(without_codes(t) == seq![c] + without_codes(after));
            assert(without_codes(s) == seq!['%'] + without_codes(t));
            assert(seq!['%'] + (seq![c] + without_codes(after)) == before + pair + without_codes(
                after,
            ));
        }
        let one = before.push('%');
        assert(one.skip(1) == Seq::<char>::empty());
        assert(without_codes(Seq::<char>::empty()) == Seq::<char>::empty());
        assert(without_codes(one) == one);
    } else if !before.contains('%') {
        let rest = before.skip(1);
        assert(before.contains(before[0]));
        if rest.contains('%') {
            let j = choose|j: int| 0 <= j < rest.len() && rest[j] == '%';
            assert(before[j + 1] == '%');
        }
        law_field_codes_are_left_out(rest, c, after);
        assert(s[0] == before[0]);
        assert(s.skip(1) == rest + pair + after);
        assert(seq![before[0]] + rest == before);
        assert(seq![before[0]] + (rest + without_codes(after)) == before + without_codes(after));
        assert(seq![before[0]] + (rest + pair + without_codes(after)) == before + pair
            + without_codes(after));
        let one = before.push('%');
        assert(one.skip(1) == rest.push('%'));
        assert(seq![before[0]] + rest.push('%') == one);
    }
}

proof fn lemma_scan_characters(lead: Seq<char>, t: Seq<char>)
    requires
        forall|i: int|
            0 <= i < t.len() ==> #[trigger] t[i] != '"' && (t[i] != ' ' || exec_scan(
                lead,
            ).in_quotes),
    ensures
        exec_scan(lead + t) == (ExecScan {
            current: exec_scan(lead).current + t,
            ..exec_scan(lead)
        }),
    decreases t.len(),
{
    if t.len() == 0 {
        assert(lead + t == lead);
        assert(exec_scan(lead).current + t == exec_scan(lead).current);
    } else {
        let init = t.drop_last();
        assert forall|i: int| 0 <= i < init.len() implies #[trigger] init[i] != '"' && (init[i]
            != ' ' || exec_scan(lead).in_quotes) by {
            assert(init[i] == t[i]);
        }
        lemma_scan_characters(lead, init);
        assert((lead + t).drop_last() == lead + init);
        assert((lead + t).last() == t[t.len() - 1]);
        assert((exec_scan(lead).current + init).push(t.last()) == exec_scan(lead).current + t);
    }
}

/// The tokens of an Exec line stand between spaces, and a quotation belongs to
/// its token, with the spaces in it and without its quotes. Behind tokens that
/// are complete, one more stands as it is written, whatever it holds.
pub proof fn law_tokens_stand_between_spaces(line: Seq<char>, plain: Seq<char>, quoted: Seq<char>)
    requires
        !exec_scan(line).in_quotes,
        exec_scan(line).current.len() == 0,
        !plain.contains('"') && !plain.contains(' '),
        !quoted.contains('"'),
        plain.len() > 0,
    ensures
        raw_tokens(line + plain) == raw_tokens(line).push(plain),
        raw_tokens(line + plain + seq![' ']) == raw_tokens(line).push(plain),
        raw_tokens(line + plain + seq!['"'] + quoted + seq!['"']) == raw_tokens(line).push(
            plain + quoted,
        ),
        quoted.len() > 0 ==> raw_tokens(line + seq!['"'] + quoted + seq!['"']) == raw_tokens(
            line,
        ).push(quoted),
        raw_tokens(line + seq![' ']) == raw_tokens(line),
        ({
            let complete = line + plain + seq![' '];
            !exec_scan(complete).in_quotes && exec_scan(complete).current.len() == 0
        }),
{
    let scan = exec_scan(line);
    let nothing = Seq::<char>::empty();
    assert(scan.current == nothing);
    assert forall|i: int| 0 <= i < plain.len() implies #[trigger] plain[i] != '"' && (plain[i]
        != ' ' || scan.in_quotes) by {
        assert(plain.contains(plain[i]));
    }
    lemma_scan_characters(line, plain);
    let s1 = line + plain;
    assert(nothing + plain == plain);
    assert((s1 + seq![' ']).drop_last() == s1);
    assert((s1 + seq![' ']).last() == ' ');
    let s2 = s1 + seq!['"'];
    assert(s2.drop_last() == s1 && s2.last() == '"');
    assert forall|i: int| 0 <= i < quoted.len() implies #[trigger] quoted[i] != '"' && (quoted[i]
        != ' ' || exec_scan(s2).in_quotes) by {
        assert(quoted.contains(quoted[i]));
    }
    lemma_scan_characters(s2, quoted);
    let s3 = s2 + quoted;
    let s4 = s3 + seq!['"'];
    assert(s4.drop_last() == s3 && s4.last() == '"');
    assert(s4 == line + plain + seq!['"'] + quoted + seq!['"']);
    let r2 = line + seq!['"'];
    assert(r2.drop_last() == line && r2.last() == '"');
    assert forall|i: int| 0 <= i < quoted.len() implies #[trigger] quoted[i] != '"' && (quoted[i]
        != ' ' || exec_scan(r2).in_quotes) by {
        assert(quoted.contains(quoted[i]));
    }
    lemma_scan_characters(r2, quoted);
    let r3 = r2 + quoted;
    let r4 = r3 + seq!['"'];
    assert(r4.drop_last() == r3 && r4.last() == '"');
    assert(nothing + quoted == quoted);
    assert((line + seq![' ']).drop_last() == line);
    assert((line + seq![' ']).last() == ' ');
}

/// An empty line has no tokens, and is a place where tokens may begin.
pub proof fn law_an_empty_line_has_no_tokens()
    ensures
        raw_tokens(Seq::empty()) == Seq::<Seq<char>>::empty(),
        exec_tokens(Seq::empty()) == Seq::<Seq<char>>::empty(),
        !exec_scan(Seq::empty()).in_quotes,
        exec_scan(Seq::empty()).current.len() == 0,
{
    reveal(Seq::filter);
    let none = Seq::<Seq<char>>::empty();
    assert(raw_tokens(Seq::empty()) == none);
    assert(all_without_codes(none) == none);
    assert(none.filter(not_empty()) == none);
}

/// Every token of an Exec line becomes an argument, in order, but for one that
/// is nothing but field codes.
pub proof fn law_tokens_become_arguments(line: Seq<char>, more: Seq<char>, token: Seq<char>)
    requires
        raw_tokens(more) == raw_tokens(line).push(token),
    ensures
        exec_tokens(more) == if without_codes(token).len() > 0 {
            exec_tokens(line).push(without_codes(token))
        } else {
            exec_tokens(line)
        },
{
    reveal(Seq::filter);
    let all = all_without_codes(raw_tokens(more));
    assert(all.drop_last() == all_without_codes(raw_tokens(line)));
    assert(all.last() == without_codes(token));
}

/// An application is known by the name of its file, stands for that file, and
/// its windows are looked for under the name of its program.
pub proof fn law_an_application_is_known_by_its_file(path: Seq<char>, content: Seq<char>)
    requires
        desktop_app(path, content) is Some,
    ensures
        ({
            let app = desktop_app(path, content)->0;
            let guess = app.wm_class_guess;
            let program = app.command[0];
            &&& app.desktop_file == path
            &&& file_stem(path) matches Some(stem) ==> app.id == stem
            &&& file_stem(path) is None ==> app.id == app.name
            &&& app.command.len() > 0
            &&& !guess.contains('/')
            &&& guess.len() <= program.len() && program.skip(program.len() - guess.len()) == guess
            &&& guess.len() < program.len() ==> program[program.len() - guess.len() - 1] == '/'
        }),
{
    let app = desktop_app(path, content)->0;
    let program = app.command[0];
    lemma_last_piece(program);
}

proof fn lemma_last_piece(s: Seq<char>)
    ensures
        ({
            let last = split_char(s, '/').last();
            &&& !last.contains('/')
            &&& last.len() <= s.len() && s.skip(s.len() - last.len()) == last
            &&& last.len() < s.len() ==> s[s.len() - last.len() - 1] == '/'
        }),
    decreases s.len(),
{
    text::law_pieces_between_a_character(s, '/');
    let all = split_char(s, '/');
    let last = all[all.len() - 1];
    assert(!last.contains('/'));
    if s.len() > 0 {
        let init = s.drop_last();
        lemma_last_piece(init);
        text::lemma_split_nonempty(init, text::equals_char('/'));
        let before = split_char(init, '/').last();
        if s.last() == '/' {
            assert(last == Seq::<char>::empty());
            assert(s.skip(s.len() as int) == last);
        } else {
            assert(last == before.push(s.last()));
            assert(s.skip(s.len() - last.len()) == last);
            if last.len() < s.len() {
                assert(init[init.len() - before.len() - 1] == s[s.len() - last.len() - 1]);
            }
        }
    } else {
        assert(s.skip(0) == s);
    }
}

/// A file brings its application into the index exactly if it is a .desktop
/// file, describes an application, and its id is not there yet; what is there
/// stays, and nothing else comes.
pub proof fn law_files_bring_their_applications(
    apps: Seq<AppView>,
    path: Seq<char>,
    content: Seq<char>,
)
    ensures
        ({
            let after = indexed(apps, path, content);
            let comes = paths::extension(path) == Some("desktop"@) && (desktop_app(path, content)
                matches Some(app) && forall|i: int|
                0 <= i < apps.len() ==> (#[trigger] apps[i]).id != app.id);
            &&& comes ==> after == apps.push(desktop_app(path, content)->0)
            &&& !comes ==> after == apps
        }),
{
    if let Some(app) = desktop_app(path, content) {
        if has_id(apps, app.id) {
            let i = choose|i: int| 0 <= i < apps.len() && (#[trigger] apps[i]).id == app.id;
            assert(apps[i].id == app.id);
        }
    }
}

/// Files are taken in order, one after the other, into an index that starts
/// empty.
pub proof fn law_files_are_taken_in_order(files: Seq<DesktopFile>, file: DesktopFile)
    ensures
        scanned(Seq::empty()) == Seq::<AppView>::empty(),
        scanned(files.push(file)) == indexed(scanned(files), file.path@, file.content@),
{
    assert(files.push(file).drop_last() == files);
}

/// Applications are looked for in the user's own directory first, then below
/// every data directory in order, then in those of flatpak. Without a setting
/// the data directories are /usr/local/share and /usr/share.
pub proof fn law_applications_are_looked_for_in_order(dirs: Seq<Seq<char>>, home: Seq<char>)
    requires
        dirs.len() > 0,
        forall|i: int| 0 <= i < dirs.len() ==> !(#[trigger] dirs[i]).contains(':'),
    ensures
        ({
            let set = Some(joined(dirs, ":"@));
            let shared = application_dirs(None, set);
            &&& shared.len() == dirs.len() + 1
            &&& forall|i: int|
                0 <= i < dirs.len() ==> #[trigger] shared[i] == path_below(dirs[i], "applications"@)
            &&& shared.last() == "/var/lib/flatpak/exports/share/applications"@
            &&& application_dirs(Some(home), set) == seq![
                path_below(home, ".local/share/applications"@),
            ] + shared + seq![path_below(home, ".local/share/flatpak/exports/share/applications"@)]
            &&& application_dirs(None, None) == application_dirs(
                None,
                Some("/usr/local/share:/usr/share"@),
            )
            &&& application_dirs(Some(home), None) == application_dirs(
                Some(home),
                Some("/usr/local/share:/usr/share"@),
            )
        }),
{
    reveal_strlit(":");
    assert(":"@ == seq![':']);
    lemma_split_of_joined(dirs, ':');
}

proof fn lemma_split_of_joined(parts: Seq<Seq<char>>, c: char)
    requires
        parts.len() > 0,
        forall|i: int| 0 <= i < parts.len() ==> !(#[trigger] parts[i]).contains(c),
    ensures
        split_char(joined(parts, seq![c]), c) == parts,
    decreases parts.len(),
{
    let sep = text::equals_char(c);
    let last = parts.last();
    assert(!parts[parts.len() - 1].contains(c));
    assert forall|i: int| 0 <= i < last.len() implies !sep(#[trigger] last[i]) by {
        assert(last.contains(last[i]));
    }
    text::lemma_split_one(last, sep);
    if parts.len() == 1 {
        assert(joined(parts, seq![c]) == last);
        assert(parts == seq![last]);
    } else {
        let init = parts.drop_last();
        assert forall|i: int| 0 <= i < init.len() implies !(#[trigger] init[i]).contains(c) by {
            assert(init[i] == parts[i]);
        }
        lemma_split_of_joined(init, c);
        let lead = joined(init, seq![c]);
        assert(joined(parts, seq![c]) == lead.push(c) + last);
        text::lemma_split_two(lead, c, last, sep);
        assert(init + seq![last] == parts);
    }
}

/// Where no id and no name fits what the user writes, the displayed application
/// whose name is most similar to it is found, if the similarity is above three
/// quarters.
pub proof fn law_the_most_similar_application_is_found(
    apps: Seq<AppView>,
    query: Seq<char>,
    i: int,
)
    requires
        ({
            let q = without_verb(lowercase(query));
            &&& forall|j: int|
                0 <= j < apps.len() ==> lowercase((#[trigger] apps[j]).id) != q && lowercase(
                    apps[j].name,
                ) != q && !stands_in(q, lowercase(apps[j].name)) && !stands_in(
                    lowercase(apps[j].name),
                    q,
                )
            &&& 0 <= i < apps.len() && !apps[i].no_display
            &&& similarity(lowercase(apps[i].name), q) > 0x3FE8_0000_0000_0000
        }),
    ensures
        ({
            let q = without_verb(lowercase(query));
            resolution(apps, query) matches Some(k) && 0 <= k < apps.len() && !apps[k].no_display
                && similarity(lowercase(apps[k].name), q) > 0x3FE8_0000_0000_0000 && forall|j: int|
                0 <= j < apps.len() && !(#[trigger] apps[j]).no_display ==> similarity(
                    lowercase(apps[j].name),
                    q,
                ) <= similarity(lowercase(apps[k].name), q)
        }),
{
    let q = without_verb(lowercase(query));
    let list = candidates_of(apps, q);
    assert forall|j: int| 0 <= j < list.len() implies (#[trigger] list[j]).id != q && list[j].name
        != q && !stands_in(q, list[j].name) && !stands_in(list[j].name, q) by {
        assert(lowercase(apps[j].id) != q);
    }
    assert(list[i] == candidate_of(apps[i], q));
    law_the_most_similar_is_picked(list, q, i);
    let k = picked(list, q)->0;
    assert(list[k] == candidate_of(apps[k], q));
    assert forall|j: int| 0 <= j < apps.len() && !(#[trigger] apps[j]).no_display implies similarity(
        lowercase(apps[j].name),
        q,
    ) <= similarity(lowercase(apps[k].name), q) by {
        assert(list[j] == candidate_of(apps[j], q));
    }
}

} // verus!
