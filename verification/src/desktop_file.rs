//! What a .desktop file says, told line by line: which of its lines count, and
//! which of them the application is made of.
use vstd::prelude::*;

use crate::desktop_index::{desktop_app, desktop_scan, exec_tokens};
use crate::text::{has_prefix, has_text, lines_of, same_ascii_case, trimmed};

verus! {

/// The line names a group.
pub open spec fn is_header(raw: Seq<char>) -> bool {
    trimmed(raw).len() > 0 && trimmed(raw)[0] == '['
}

/// Line `h` opens the main group, and no line after it, up to line `n`, opens
/// another group.
pub open spec fn opens_main_group(lines: Seq<Seq<char>>, h: int, n: int) -> bool {
    &&& 0 <= h < n
    &&& is_header(lines[h])
    &&& trimmed(lines[h]) == "[Desktop Entry]"@
    &&& forall|k: int| h < k < n ==> !is_header(#[trigger] lines[k])
}

/// What follows the first `n` lines stands in the main group.
pub open spec fn in_main_group(lines: Seq<Seq<char>>, n: int) -> bool {
    exists|h: int| opens_main_group(lines, h, n)
}

/// Line `i` stands in the main group and starts with this key.
pub open spec fn is_entry(lines: Seq<Seq<char>>, i: int, key: Seq<char>) -> bool {
    &&& 0 <= i < lines.len()
    &&& !is_header(lines[i])
    &&& in_main_group(lines, i)
    &&& has_prefix(trimmed(lines[i]), key)
}

/// Line `i` is the first in the main group with this key.
pub open spec fn is_first_entry(lines: Seq<Seq<char>>, i: int, key: Seq<char>) -> bool {
    is_entry(lines, i, key) && forall|j: int| 0 <= j < i ==> !#[trigger] is_entry(lines, j, key)
}

/// Line `i` is the last in the main group with this key.
pub open spec fn is_last_entry(lines: Seq<Seq<char>>, i: int, key: Seq<char>) -> bool {
    is_entry(lines, i, key) && forall|j: int| i < j ==> !#[trigger] is_entry(lines, j, key)
}

/// No line of the main group has this key.
pub open spec fn has_no_entry(lines: Seq<Seq<char>>, key: Seq<char>) -> bool {
    forall|i: int| !#[trigger] is_entry(lines, i, key)
}

/// What stands behind the key on line `i`.
pub open spec fn entry_value(lines: Seq<Seq<char>>, i: int, key: Seq<char>) -> Seq<char> {
    trimmed(lines[i]).skip(key.len() as int)
}

/// Line `i` says that the file describes something else than an application.
pub open spec fn is_other_type(lines: Seq<Seq<char>>, i: int) -> bool {
    is_entry(lines, i, "Type="@) && !has_text(trimmed(lines[i]), "Application"@)
}

/// The last line with this key in the main group says "true".
pub open spec fn is_set(lines: Seq<Seq<char>>, key: Seq<char>) -> bool {
    exists|i: int| #[trigger]
        is_last_entry(lines, i, key) && same_ascii_case(entry_value(lines, i, key), "true"@)
}

proof fn lemma_keys_differ(line: Seq<char>)
    ensures
        "Name="@.len() == 5,
        "Exec="@.len() == 5,
        "NoDisplay="@.len() == 10,
        "Terminal="@.len() == 9,
        has_prefix(line, "Name="@) ==> line[0] == 'N' && line[1] == 'a',
        has_prefix(line, "Exec="@) ==> line[0] == 'E',
        has_prefix(line, "NoDisplay="@) ==> line[0] == 'N' && line[1] == 'o',
        has_prefix(line, "Terminal="@) ==> line[0] == 'T' && line[1] == 'e',
        has_prefix(line, "Type="@) ==> line[0] == 'T' && line[1] == 'y',
{
    reveal_strlit("Name=");
    reveal_strlit("Exec=");
    reveal_strlit("NoDisplay=");
    reveal_strlit("Terminal=");
    reveal_strlit("Type=");
    assert forall|key: Seq<char>| #[trigger] has_prefix(line, key) && key.len() >= 2 implies line[0]
        == key[0] && line[1] == key[1] by {
        let head = line.subrange(0, key.len() as int);
        assert(head[0] == line[0] && head[1] == line[1]);
    }
}

proof fn lemma_group_of_fewer(lines: Seq<Seq<char>>, n: int)
    requires
        0 <= n < lines.len(),
    ensures
        in_main_group(lines, n) == in_main_group(lines.drop_last(), n),
{
    let less = lines.drop_last();
    assert forall|h: int| opens_main_group(lines, h, n) == opens_main_group(less, h, n) by {
        assert forall|k: int| 0 <= k < n implies less[k] == lines[k] by {}
        if opens_main_group(lines, h, n) {
            assert forall|k: int| h < k < n implies !is_header(#[trigger] less[k]) by {
                assert(!is_header(lines[k]));
            }
        }
        if opens_main_group(less, h, n) {
            assert forall|k: int| h < k < n implies !is_header(#[trigger] lines[k]) by {
                assert(!is_header(less[k]));
            }
        }
    }
    if in_main_group(lines, n) {
        let h = choose|h: int| opens_main_group(lines, h, n);
        assert(opens_main_group(less, h, n));
    }
    if in_main_group(less, n) {
        let h = choose|h: int| opens_main_group(less, h, n);
        assert(opens_main_group(lines, h, n));
    }
}

proof fn lemma_group_after(lines: Seq<Seq<char>>)
    requires
        lines.len() > 0,
    ensures
        in_main_group(lines, lines.len() as int) == if is_header(lines.last()) {
            trimmed(lines.last()) == "[Desktop Entry]"@
        } else {
            in_main_group(lines, lines.len() - 1)
        },
{
    let n = lines.len() as int;
    if in_main_group(lines, n) {
        let h = choose|h: int| opens_main_group(lines, h, n);
        if h < n - 1 {
            assert(!is_header(lines[n - 1]));
            assert(opens_main_group(lines, h, n - 1));
        }
    }
    if is_header(lines.last()) {
        if trimmed(lines.last()) == "[Desktop Entry]"@ {
            assert(opens_main_group(lines, n - 1, n));
        }
    } else if in_main_group(lines, n - 1) {
        let m = n - 1;
        let h = choose|h: int| opens_main_group(lines, h, m);
        assert(opens_main_group(lines, h, n));
    }
}

proof fn lemma_entries_of_fewer(lines: Seq<Seq<char>>, key: Seq<char>)
    requires
        lines.len() > 0,
    ensures
        forall|i: int|
            i < lines.len() - 1 ==> #[trigger] is_entry(lines, i, key) == is_entry(
                lines.drop_last(),
                i,
                key,
            ),
{
    assert forall|i: int| i < lines.len() - 1 implies #[trigger] is_entry(lines, i, key)
        == is_entry(lines.drop_last(), i, key) by {
        if 0 <= i {
            lemma_group_of_fewer(lines, i);
        }
    }
}

proof fn lemma_first_entry(lines: Seq<Seq<char>>, key: Seq<char>)
    requires
        lines.len() > 0,
    ensures
        forall|i: int|
            is_first_entry(lines.drop_last(), i, key) ==> #[trigger] is_first_entry(lines, i, key),
        has_no_entry(lines.drop_last(), key) && is_entry(lines, lines.len() - 1, key)
            ==> is_first_entry(lines, lines.len() - 1, key),
        has_no_entry(lines.drop_last(), key) && !is_entry(lines, lines.len() - 1, key)
            ==> has_no_entry(lines, key),
{
    let less = lines.drop_last();
    lemma_entries_of_fewer(lines, key);
    assert forall|i: int| is_first_entry(less, i, key) implies #[trigger] is_first_entry(
        lines,
        i,
        key,
    ) by {
        assert(is_entry(less, i, key));
        assert(is_entry(lines, i, key));
        assert forall|j: int| 0 <= j < i implies !#[trigger] is_entry(lines, j, key) by {
            assert(!is_entry(less, j, key));
        }
    }
    if has_no_entry(less, key) {
        assert forall|j: int| j != lines.len() - 1 implies !#[trigger] is_entry(lines, j, key) by {
            assert(!is_entry(less, j, key));
        }
    }
}

proof fn lemma_last_entry(lines: Seq<Seq<char>>, key: Seq<char>)
    requires
        lines.len() > 0,
    ensures
        is_entry(lines, lines.len() - 1, key) ==> is_last_entry(lines, lines.len() - 1, key),
        is_entry(lines, lines.len() - 1, key) ==> is_set(lines, key) == same_ascii_case(
            entry_value(lines, lines.len() - 1, key),
            "true"@,
        ),
        !is_entry(lines, lines.len() - 1, key) ==> {
            &&& forall|i: int|
                #[trigger] is_last_entry(lines.drop_last(), i, key) ==> is_last_entry(lines, i, key)
            &&& is_set(lines, key) == is_set(lines.drop_last(), key)
        },
{
    let less = lines.drop_last();
    let n = lines.len() - 1;
    lemma_entries_of_fewer(lines, key);
    if is_entry(lines, n, key) {
        assert(is_last_entry(lines, n, key));
        assert forall|i: int| #[trigger] is_last_entry(lines, i, key) implies i == n by {}
    } else {
        assert forall|i: int| #[trigger] is_last_entry(less, i, key) implies is_last_entry(
            lines,
            i,
            key,
        ) by {
            assert(is_entry(less, i, key));
            assert(is_entry(lines, i, key));
            assert forall|j: int| i < j implies !#[trigger] is_entry(lines, j, key) by {
                assert(!is_entry(less, j, key));
            }
        }
        assert forall|i: int| #[trigger] is_last_entry(lines, i, key) implies is_last_entry(
            less,
            i,
            key,
        ) by {
            assert(is_entry(lines, i, key));
            assert(is_entry(less, i, key));
            assert forall|j: int| i < j implies !#[trigger] is_entry(less, j, key) by {
                assert(!is_entry(lines, j, key));
            }
        }
        if is_set(lines, key) {
            let i = choose|i: int| #[trigger]
                is_last_entry(lines, i, key) && same_ascii_case(entry_value(lines, i, key), "true"@);
            assert(is_last_entry(less, i, key));
            assert(less[i] == lines[i]);
        }
        if is_set(less, key) {
            let i = choose|i: int| #[trigger]
                is_last_entry(less, i, key) && same_ascii_case(entry_value(less, i, key), "true"@);
            assert(is_last_entry(lines, i, key));
            assert(less[i] == lines[i]);
        }
    }
}

/// What is read of the lines, told by the lines themselves.
proof fn lemma_desktop_scan(lines: Seq<Seq<char>>)
    ensures
        desktop_scan(lines).rejected <==> exists|i: int| is_other_type(lines, i),
        !desktop_scan(lines).rejected ==> {
            let scan = desktop_scan(lines);
            &&& scan.in_main_group == in_main_group(lines, lines.len() as int)
            &&& match scan.name {
                Some(name) => exists|i: int| #[trigger]
                    is_first_entry(lines, i, "Name="@) && name == entry_value(lines, i, "Name="@),
                None => has_no_entry(lines, "Name="@),
            }
            &&& match scan.exec_line {
                Some(line) => exists|i: int| #[trigger]
                    is_last_entry(lines, i, "Exec="@) && line == entry_value(lines, i, "Exec="@),
                None => has_no_entry(lines, "Exec="@),
            }
            &&& scan.no_display == is_set(lines, "NoDisplay="@)
            &&& scan.terminal == is_set(lines, "Terminal="@)
        },
    decreases lines.len(),
{
    if lines.len() > 0 {
        let less = lines.drop_last();
        let n = lines.len() - 1;
        lemma_desktop_scan(less);
        lemma_keys_differ(trimmed(lines.last()));
        lemma_group_of_fewer(lines, n);
        lemma_group_after(lines);
        lemma_entries_of_fewer(lines, "Type="@);
        lemma_first_entry(lines, "Name="@);
        lemma_first_entry(lines, "Exec="@);
        lemma_last_entry(lines, "Exec="@);
        lemma_last_entry(lines, "NoDisplay="@);
        lemma_last_entry(lines, "Terminal="@);
        let before = desktop_scan(less);
        let scan = desktop_scan(lines);
        if before.rejected {
            let i = choose|i: int| is_other_type(less, i);
            assert(is_entry(less, i, "Type="@));
            assert(is_other_type(lines, i));
        } else {
            assert forall|i: int| is_other_type(lines, i) implies i == n by {
                assert(is_entry(lines, i, "Type="@));
                if i < n {
                    assert(is_other_type(less, i));
                }
            }
            assert(scan.rejected == is_other_type(lines, n));
            if !scan.rejected {
                if let Some(name) = before.name {
                    let i = choose|i: int| #[trigger]
                        is_first_entry(less, i, "Name="@) && name == entry_value(less, i, "Name="@);
                    assert(is_first_entry(lines, i, "Name="@));
                    assert(less[i] == lines[i]);
                }
                if let Some(line) = before.exec_line {
                    let i = choose|i: int| #[trigger]
                        is_last_entry(less, i, "Exec="@) && line == entry_value(less, i, "Exec="@);
                    assert(less[i] == lines[i]);
                }
            }
        }
    } else {
        assert forall|key: Seq<char>| #[trigger] is_set(lines, key) implies false by {
            let i = choose|i: int| #[trigger]
                is_last_entry(lines, i, key) && same_ascii_case(entry_value(lines, i, key), "true"@);
            assert(is_entry(lines, i, key));
        }
    }
}

/// What a .desktop file describes, by its lines in the main group. It describes
/// no application exactly if a line gives it another type, no line gives a
/// name, none a command, or the last command is nothing but field codes. Else
/// the application has the name of the first line that gives one and the
/// command of the last, which the user's terminal runs if the file asks for it.
pub proof fn law_desktop_file_is_read_by_its_lines(path: Seq<char>, content: Seq<char>)
    ensures
        ({
            let lines = lines_of(content);
            &&& desktop_app(path, content) is None <==> {
                ||| exists|i: int| is_other_type(lines, i)
                ||| has_no_entry(lines, "Name="@)
                ||| has_no_entry(lines, "Exec="@)
                ||| exists|i: int| #[trigger]
                    is_last_entry(lines, i, "Exec="@) && exec_tokens(
                        entry_value(lines, i, "Exec="@),
                    ).len() == 0
            }
            &&& desktop_app(path, content) matches Some(app) ==> {
                &&& exists|i: int| #[trigger]
                    is_first_entry(lines, i, "Name="@) && app.name == entry_value(
                        lines,
                        i,
                        "Name="@,
                    )
                &&& exists|i: int| #[trigger]
                    is_last_entry(lines, i, "Exec="@) && app.command == if is_set(
                        lines,
                        "Terminal="@,
                    ) {
                        seq!["xdg-terminal-exec"@] + exec_tokens(entry_value(lines, i, "Exec="@))
                    } else {
                        exec_tokens(entry_value(lines, i, "Exec="@))
                    }
                &&& app.no_display == is_set(lines, "NoDisplay="@)
            }
        }),
{
    let lines = lines_of(content);
    let scan = desktop_scan(lines);
    lemma_desktop_scan(lines);
    if !scan.rejected {
        if let Some(name) = scan.name {
            let i = choose|i: int| #[trigger]
                is_first_entry(lines, i, "Name="@) && name == entry_value(lines, i, "Name="@);
            assert(is_entry(lines, i, "Name="@));
        }
        if let Some(line) = scan.exec_line {
            let i = choose|i: int| #[trigger]
                is_last_entry(lines, i, "Exec="@) && line == entry_value(lines, i, "Exec="@);
            assert(is_entry(lines, i, "Exec="@));
            assert forall|j: int| #[trigger] is_last_entry(lines, j, "Exec="@) implies j == i by {
                assert(is_entry(lines, j, "Exec="@));
            }
        }
    }
}

} // verus!
