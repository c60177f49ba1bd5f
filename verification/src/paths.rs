//! File paths as texts: joining, and the parts of a file name.
use vstd::prelude::*;

use crate::text::{self, char_lists, chars_of, last_position, split_char};

verus! {

/// A relative path below a directory.
pub open spec fn path_below(dir: Seq<char>, rel: Seq<char>) -> Seq<char> {
    if dir.len() == 0 || dir.last() == '/' {
        dir + rel
    } else {
        dir + "/"@ + rel
    }
}

/// A relative path below a directory.
pub fn join_path(dir: &str, rel: &str) -> (out: String)
    ensures
        out@ == path_below(dir@, rel@),
{
    let chars = chars_of(dir);
    let mut out = dir.to_string();
    if chars.len() > 0 && chars[chars.len() - 1] != '/' {
        out.append("/");
    }
    out.append(rel);
    out
}

/// A segment of a path that names something.
pub open spec fn names_something() -> spec_fn(Seq<char>) -> bool {
    |s: Seq<char>| s.len() > 0 && s != seq!['.']
}

/// The last component of a path, if it is a name.
pub open spec fn file_name(path: Seq<char>) -> Option<Seq<char>> {
    let names = split_char(path, '/').filter(names_something());
    if names.len() == 0 || names.last() == seq!['.', '.'] {
        None
    } else {
        Some(names.last())
    }
}

/// The part of a file name before its last dot, and the part after it. A name
/// without a dot, or whose only dot comes first, has no second part.
pub open spec fn split_extension(name: Seq<char>) -> (Seq<char>, Option<Seq<char>>) {
    match last_position(name, '.') {
        Some(k) => if k == 0 {
            (name, None)
        } else {
            (name.take(k), Some(name.skip(k + 1)))
        },
        None => (name, None),
    }
}

/// The last component of a path without its extension.
pub open spec fn file_stem(path: Seq<char>) -> Option<Seq<char>> {
    match file_name(path) {
        Some(name) => Some(split_extension(name).0),
        None => None,
    }
}

/// The extension of the last component of a path.
pub open spec fn extension(path: Seq<char>) -> Option<Seq<char>> {
    match file_name(path) {
        Some(name) => split_extension(name).1,
        None => None,
    }
}

fn name_chars(path: &str) -> (r: Option<Vec<char>>)
    ensures
        match r {
            Some(name) => file_name(path@) == Some(name@),
            None => file_name(path@) is None,
        },
{
    let chars = chars_of(path);
    let pieces = text::split_on(&chars, '/');
    let ghost all = split_char(path@, '/');
    let mut last: Option<Vec<char>> = None;
    proof {
        reveal(Seq::filter);
        assert(all == char_lists(pieces@));
        assert(all.take(0).filter(names_something()).len() == 0);
    }
    for i in 0..pieces.len()
        invariant
            all == char_lists(pieces@),
            match last {
                Some(name) => all.take(i as int).filter(names_something()).len() > 0
                    && all.take(i as int).filter(names_something()).last() == name@,
                None => all.take(i as int).filter(names_something()).len() == 0,
            },
    {
        let piece = &pieces[i];
        proof {
            reveal(Seq::filter);
            assert(all[i as int] == piece@);
            assert(all.take(i + 1).drop_last() == all.take(i as int));
        }
        if piece.len() == 1 && piece[0] == '.' {
            assert(piece@ == seq!['.']);
        } else if piece.len() > 0 {
            assert(piece@.len() != 1 || piece@[0] != '.');
            let copy = text::part(piece, 0, piece.len());
            assert(copy@ == piece@);
            last = Some(copy);
        }
    }
    assert(all.take(all.len() as int) == all);
    match last {
        Some(name) => {
            if name.len() == 2 && name[0] == '.' && name[1] == '.' {
                assert(name@ == seq!['.', '.']);
                None
            } else {
                assert(name@ != seq!['.', '.']);
                Some(name)
            }
        },
        None => None,
    }
}

/// The last component of a path without its extension.
pub fn stem_of(path: &str) -> (r: Option<String>)
    ensures
        match r {
            Some(stem) => file_stem(path@) == Some(stem@),
            None => file_stem(path@) is None,
        },
{
    match name_chars(path) {
        Some(name) => {
            proof {
                text::lemma_last_position(name@, '.');
            }
            match text::rfind(&name, '.') {
                Some(k) => {
                    if k == 0 {
                        Some(text::string_of(&name))
                    } else {
                        let stem = text::part(&name, 0, k);
                        assert(stem@ == name@.take(k as int));
                        Some(text::string_of(&stem))
                    }
                },
                None => Some(text::string_of(&name)),
            }
        },
        None => None,
    }
}

/// The extension of the last component of a path.
pub fn extension_of(path: &str) -> (r: Option<String>)
    ensures
        match r {
            Some(ext) => extension(path@) == Some(ext@),
            None => extension(path@) is None,
        },
{
    match name_chars(path) {
        Some(name) => {
            proof {
                text::lemma_last_position(name@, '.');
            }
            match text::rfind(&name, '.') {
                Some(k) => {
                    if k == 0 {
                        None
                    } else {
                        let n = name.len();
                        let ext = text::part(&name, k + 1, n);
                        assert(ext@ == name@.skip(k + 1));
                        Some(text::string_of(&ext))
                    }
                },
                None => None,
            }
        },
        None => None,
    }
}

/// A path below a directory starts with the directory and ends with what is
/// below it, with one separator between: the directory's own, or one that is
/// put there. Below nothing, it is what it is.
pub proof fn law_a_path_below_a_directory(dir: Seq<char>, rel: Seq<char>)
    ensures
        path_below(Seq::empty(), rel) == rel,
        path_below(dir.push('/'), rel) == dir + seq!['/'] + rel,
        dir.len() > 0 && dir.last() != '/' ==> path_below(dir, rel) == path_below(
            dir.push('/'),
            rel,
        ),
{
    reveal_strlit("/");
    assert("/"@ == seq!['/']);
    assert(Seq::<char>::empty() + rel == rel);
    assert(dir.push('/') + rel == dir + seq!['/'] + rel);
}

/// A text that can be a file name: not empty, without a separator, and neither
/// the directory itself nor the one above.
pub open spec fn is_file_name(name: Seq<char>) -> bool {
    name.len() > 0 && !name.contains('/') && name != seq!['.'] && name != seq!['.', '.']
}

/// The last component of a path is its file name, whatever stands before it;
/// separators and single dots behind it play no part. The directory above has
/// no name.
pub proof fn law_the_last_component_is_the_file_name(dir: Seq<char>, name: Seq<char>)
    requires
        is_file_name(name),
    ensures
        file_name(dir.push('/') + name) == Some(name),
        file_name(name) == Some(name),
        file_name(dir.push('/')) == file_name(dir),
        file_name(dir + seq!['/', '.']) == file_name(dir),
        file_name(dir + seq!['/', '.', '.']) is None,
{
    let sep = text::equals_char('/');
    let keep = names_something();
    let nothing = Seq::<char>::empty();
    let dot = seq!['.'];
    let dots = seq!['.', '.'];
    assert forall|i: int| 0 <= i < name.len() implies !sep(#[trigger] name[i]) by {
        assert(name.contains(name[i]));
    }
    text::lemma_split_one(name, sep);
    text::lemma_split_one(dot, sep);
    text::lemma_split_one(dots, sep);
    text::lemma_split_one(nothing, sep);
    text::lemma_split_two(dir, '/', name, sep);
    text::lemma_split_two(dir, '/', nothing, sep);
    text::lemma_split_two(dir, '/', dot, sep);
    text::lemma_split_two(dir, '/', dots, sep);
    assert(dir.push('/') + nothing == dir.push('/'));
    assert(dir.push('/') + dot == dir + seq!['/', '.']);
    assert(dir.push('/') + dots == dir + seq!['/', '.', '.']);
    let before = split_char(dir, '/');
    text::lemma_filter_two(before, seq![name], keep);
    text::lemma_filter_two(before, seq![nothing], keep);
    text::lemma_filter_two(before, seq![dot], keep);
    text::lemma_filter_two(before, seq![dots], keep);
    lemma_filter_single(name);
    lemma_filter_single(nothing);
    lemma_filter_single(dot);
    lemma_filter_single(dots);
    assert(dots.len() != dot.len());
    let kept = before.filter(keep);
    assert(kept + Seq::<Seq<char>>::empty() == kept);
    assert((kept + seq![name]).last() == name);
    assert((kept + seq![dots]).last() == dots);
}

proof fn lemma_filter_single(piece: Seq<char>)
    ensures
        seq![piece].filter(names_something()) == if piece.len() > 0 && piece != seq!['.'] {
            seq![piece]
        } else {
            Seq::empty()
        },
{
    reveal(Seq::filter);
    assert(seq![piece].drop_last() == Seq::<Seq<char>>::empty());
    assert(seq![piece].last() == piece);
    assert(Seq::<Seq<char>>::empty().filter(names_something()) == Seq::<Seq<char>>::empty());
}

/// A file name is its stem, a dot and its extension; the extension holds no dot
/// and the stem is not empty. A name without a dot behind its first character
/// is all stem.
pub proof fn law_a_name_is_a_stem_and_an_extension(stem: Seq<char>, ext: Seq<char>)
    requires
        stem.len() > 0,
        !ext.contains('.'),
    ensures
        split_extension(stem.push('.') + ext) == (stem, Some(ext)),
        split_extension(ext) == (ext, None::<Seq<char>>),
        split_extension(seq!['.'] + ext) == (seq!['.'] + ext, None::<Seq<char>>),
{
    let name = stem.push('.') + ext;
    text::lemma_last_position(name, '.');
    assert(name[stem.len() as int] == '.');
    assert forall|j: int| stem.len() < j < name.len() implies name[j] != '.' by {
        assert(name[j] == ext[j - stem.len() - 1]);
        assert(ext.contains(ext[j - stem.len() - 1]));
    }
    assert(name.take(stem.len() as int) == stem);
    assert(name.skip(stem.len() as int + 1) == ext);
    text::lemma_last_position(ext, '.');
    if let Some(k) = last_position(ext, '.') {
        assert(ext.contains(ext[k]));
    }
    let hidden = seq!['.'] + ext;
    text::lemma_last_position(hidden, '.');
    assert(hidden[0] == '.');
    assert forall|j: int| 0 < j < hidden.len() implies hidden[j] != '.' by {
        assert(hidden[j] == ext[j - 1]);
        assert(ext.contains(ext[j - 1]));
    }
}

/// The stem and the extension of a path are those of its file name.
pub proof fn law_a_path_has_the_stem_of_its_name(path: Seq<char>)
    ensures
        file_name(path) is None ==> file_stem(path) is None && extension(path) is None,
        file_name(path) matches Some(name) ==> file_stem(path) == Some(split_extension(name).0)
            && extension(path) == split_extension(name).1,
{
}

} // verus!
