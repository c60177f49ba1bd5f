//! Text as sequences of characters: the mathematical model that every other
//! module's contracts are stated over, and the executable functions on it.
use vstd::prelude::*;
use vstd::utf8::{decode_utf8, valid_utf8};

verus! {

/// What `str::to_lowercase` makes of a text that is not all ASCII.
pub uninterp spec fn unicode_lowercase(s: Seq<char>) -> Seq<char>;

/// The lower-case form of an ASCII character; every other character is kept.
pub open spec fn ascii_lower(c: char) -> char {
    if 'A' <= c <= 'Z' {
        ((c as u32) + 32) as char
    } else {
        c
    }
}

pub open spec fn is_ascii_text(s: Seq<char>) -> bool {
    forall|i: int| 0 <= i < s.len() ==> #[trigger] s[i] <= '\u{7f}'
}

/// The lower-case form of a text.
pub open spec fn lowercase(s: Seq<char>) -> Seq<char> {
    if is_ascii_text(s) {
        s.map_values(|c: char| ascii_lower(c))
    } else {
        unicode_lowercase(s)
    }
}

/// `str::to_lowercase` gives a text that depends on its argument alone. On an
/// ASCII text it maps `A`..`Z` to `a`..`z` and keeps the other characters; what
/// Unicode's tables make of any other text is named, not written out. Whether
/// such a result is its own lower-case form is left open: the documentation
/// does not say.
pub assume_specification[ str::to_lowercase ](s: &str) -> (lower: String)
    ensures
        is_ascii_text(s@) ==> lower@ == s@.map_values(|c: char| ascii_lower(c)),
        !is_ascii_text(s@) ==> lower@ == unicode_lowercase(s@),
;

/// `String::push` appends one character.
pub assume_specification[ String::push ](s: &mut String, c: char)
    ensures
        final(s)@ == old(s)@.push(c),
;

/// The characters of a text, in order.
pub fn chars_of(s: &str) -> (out: Vec<char>)
    ensures
        out@ == s@,
{
    let mut out: Vec<char> = Vec::new();
    for c in it: s.chars()
        invariant
            it.seq() == s@,
            out@ == s@.take(it.index() as int),
    {
        out.push(c);
    }
    assert(s@.take(s@.len() as int) == s@);
    out
}

/// The text made of the given characters.
pub fn string_of(chars: &Vec<char>) -> (out: String)
    ensures
        out@ == chars@,
{
    let mut out = String::new();
    for i in 0..chars.len()
        invariant
            out@ == chars@.take(i as int),
    {
        out.push(chars[i]);
        assert(chars@.take(i + 1) == chars@.take(i as int).push(chars@[i as int]));
    }
    assert(chars@.take(chars@.len() as int) == chars@);
    out
}

/// The texts that a list of strings holds.
pub open spec fn texts(list: Seq<String>) -> Seq<Seq<char>> {
    list.map_values(|s: String| s@)
}

/// Whether two texts hold the same characters.
pub fn same(a: &str, b: &str) -> (r: bool)
    ensures
        r == (a@ == b@),
{
    a.to_string() == b.to_string()
}

/// A copy of a list of strings.
pub fn copy_texts(list: &Vec<String>) -> (out: Vec<String>)
    ensures
        texts(out@) == texts(list@),
{
    let mut out: Vec<String> = Vec::new();
    for i in 0..list.len()
        invariant
            texts(out@) == texts(list@).take(i as int),
    {
        let ghost before = texts(out@);
        out.push(list[i].clone());
        assert(texts(out@) == before.push(list@[i as int]@));
        assert(texts(list@).take(i + 1) == before.push(list@[i as int]@));
    }
    assert(texts(list@).take(list@.len() as int) == texts(list@));
    out
}

/// The characters `i..j` of a list of characters.
pub fn part(s: &Vec<char>, i: usize, j: usize) -> (out: Vec<char>)
    requires
        i <= j <= s@.len(),
    ensures
        out@ == s@.subrange(i as int, j as int),
{
    let mut out: Vec<char> = Vec::new();
    let mut k: usize = i;
    while k < j
        invariant
            i <= k <= j <= s@.len(),
            out@ == s@.subrange(i as int, k as int),
        decreases j - k,
    {
        out.push(s[k]);
        k += 1;
        assert(s@.subrange(i as int, k as int) == s@.subrange(i as int, k - 1).push(s@[k - 1]));
    }
    out
}

/// The characters with Unicode's White_Space property.
pub open spec fn whitespace(c: char) -> bool {
    ||| '\u{9}' <= c <= '\u{d}'
    ||| c == ' '
    ||| c == '\u{85}'
    ||| c == '\u{a0}'
    ||| c == '\u{1680}'
    ||| '\u{2000}' <= c <= '\u{200a}'
    ||| c == '\u{2028}'
    ||| c == '\u{2029}'
    ||| c == '\u{202f}'
    ||| c == '\u{205f}'
    ||| c == '\u{3000}'
}

pub fn is_whitespace(c: char) -> (r: bool)
    ensures
        r == whitespace(c),
{
    ('\u{9}' <= c && c <= '\u{d}') || c == ' ' || c == '\u{85}' || c == '\u{a0}' || c == '\u{1680}' || (
    '\u{2000}' <= c && c <= '\u{200a}') || c == '\u{2028}' || c == '\u{2029}' || c == '\u{202f}' || c
        == '\u{205f}' || c == '\u{3000}'
}

/// The text without the whitespace that it starts with.
pub open spec fn trimmed_start(s: Seq<char>) -> Seq<char>
    decreases s.len(),
{
    if s.len() > 0 && whitespace(s[0]) {
        trimmed_start(s.drop_first())
    } else {
        s
    }
}

/// The text without the whitespace that it ends with.
pub open spec fn trimmed_end(s: Seq<char>) -> Seq<char>
    decreases s.len(),
{
    if s.len() > 0 && whitespace(s.last()) {
        trimmed_end(s.drop_last())
    } else {
        s
    }
}

/// The text without the whitespace around it.
pub open spec fn trimmed(s: Seq<char>) -> Seq<char> {
    trimmed_end(trimmed_start(s))
}

/// A text without the whitespace around it.
pub fn trim_chars(s: &Vec<char>) -> (out: Vec<char>)
    ensures
        out@ == trimmed(s@),
{
    let mut i: usize = 0;
    assert(s@.skip(0) == s@);
    while i < s.len() && is_whitespace(s[i])
        invariant
            i <= s@.len(),
            trimmed_start(s@) == trimmed_start(s@.skip(i as int)),
        decreases s@.len() - i,
    {
        assert(s@.skip(i as int).drop_first() == s@.skip(i + 1));
        i += 1;
    }
    let mut j: usize = s.len();
    assert(s@.subrange(i as int, j as int) == s@.skip(i as int));
    while i < j && is_whitespace(s[j - 1])
        invariant
            i <= j <= s@.len(),
            trimmed(s@) == trimmed_end(s@.subrange(i as int, j as int)),
        decreases j,
    {
        assert(s@.subrange(i as int, j as int).drop_last() == s@.subrange(i as int, j - 1));
        j -= 1;
    }
    part(s, i, j)
}

/// A text without the whitespace around it.
pub fn trim(s: &str) -> (out: String)
    ensures
        out@ == trimmed(s@),
{
    string_of(&trim_chars(&chars_of(s)))
}

/// The text without the characters `c` that it starts with.
pub open spec fn without_leading(s: Seq<char>, c: char) -> Seq<char>
    decreases s.len(),
{
    if s.len() > 0 && s[0] == c {
        without_leading(s.drop_first(), c)
    } else {
        s
    }
}

/// The text without the characters `c` that it ends with.
pub open spec fn without_trailing(s: Seq<char>, c: char) -> Seq<char>
    decreases s.len(),
{
    if s.len() > 0 && s.last() == c {
        without_trailing(s.drop_last(), c)
    } else {
        s
    }
}

/// A text without the characters `c` around it.
pub fn trim_matches(s: &Vec<char>, c: char) -> (out: Vec<char>)
    ensures
        out@ == without_trailing(without_leading(s@, c), c),
{
    let mut i: usize = 0;
    assert(s@.skip(0) == s@);
    while i < s.len() && s[i] == c
        invariant
            i <= s@.len(),
            without_leading(s@, c) == without_leading(s@.skip(i as int), c),
        decreases s@.len() - i,
    {
        assert(s@.skip(i as int).drop_first() == s@.skip(i + 1));
        i += 1;
    }
    let mut j: usize = s.len();
    assert(s@.subrange(i as int, j as int) == s@.skip(i as int));
    while i < j && s[j - 1] == c
        invariant
            i <= j <= s@.len(),
            without_trailing(without_leading(s@, c), c) == without_trailing(
                s@.subrange(i as int, j as int),
                c,
            ),
        decreases j,
    {
        assert(s@.subrange(i as int, j as int).drop_last() == s@.subrange(i as int, j - 1));
        j -= 1;
    }
    part(s, i, j)
}

/// The pieces between the characters that `sep` holds of, empty ones included.
pub open spec fn split_where(s: Seq<char>, sep: spec_fn(char) -> bool) -> Seq<Seq<char>>
    decreases s.len(),
{
    if s.len() == 0 {
        seq![Seq::<char>::empty()]
    } else {
        let before = split_where(s.drop_last(), sep);
        if sep(s.last()) {
            before.push(Seq::<char>::empty())
        } else {
            before.drop_last().push(before.last().push(s.last()))
        }
    }
}

pub proof fn lemma_split_nonempty(s: Seq<char>, sep: spec_fn(char) -> bool)
    ensures
        split_where(s, sep).len() > 0,
    decreases s.len(),
{
    if s.len() > 0 {
        lemma_split_nonempty(s.drop_last(), sep);
    }
}

/// The characters equal to `c`.
pub open spec fn equals_char(c: char) -> spec_fn(char) -> bool {
    |x: char| x == c
}

/// The pieces between the occurrences of the character `c`.
pub open spec fn split_char(s: Seq<char>, c: char) -> Seq<Seq<char>> {
    split_where(s, equals_char(c))
}

/// The texts that a list of character lists holds.
pub open spec fn char_lists(list: Seq<Vec<char>>) -> Seq<Seq<char>> {
    list.map_values(|v: Vec<char>| v@)
}

/// The pieces of a text between the occurrences of `c`.
pub fn split_on(s: &Vec<char>, c: char) -> (out: Vec<Vec<char>>)
    ensures
        char_lists(out@) == split_char(s@, c),
{
    let ghost sep = equals_char(c);
    let mut done: Vec<Vec<char>> = Vec::new();
    let mut current: Vec<char> = Vec::new();
    assert(char_lists(done@).push(current@) == split_where(s@.take(0), sep));
    for i in 0..s.len()
        invariant
            sep == equals_char(c),
            char_lists(done@).push(current@) == split_where(s@.take(i as int), sep),
    {
        let x = s[i];
        assert(s@.take(i + 1).drop_last() == s@.take(i as int));
        let ghost before = char_lists(done@).push(current@);
        assert(before.drop_last() == char_lists(done@));
        if x == c {
            done.push(current);
            current = Vec::new();
            assert(char_lists(done@) == before);
        } else {
            current.push(x);
        }
        assert(char_lists(done@).push(current@) == split_where(s@.take(i + 1), sep));
    }
    assert(s@.take(s@.len() as int) == s@);
    let ghost pieces = char_lists(done@).push(current@);
    done.push(current);
    assert(char_lists(done@) == pieces);
    done
}

/// The characters with the White_Space property, as a predicate.
pub open spec fn is_space() -> spec_fn(char) -> bool {
    |c: char| whitespace(c)
}

/// The words of a text: the maximal runs without whitespace.
pub open spec fn words(s: Seq<char>) -> Seq<Seq<char>> {
    split_where(s, is_space()).filter(|w: Seq<char>| w.len() > 0)
}

/// The words of a text.
pub fn split_whitespace(s: &Vec<char>) -> (out: Vec<Vec<char>>)
    ensures
        char_lists(out@) == words(s@),
{
    let ghost sep = is_space();
    let ghost keep = |w: Seq<char>| w.len() > 0;
    let ghost mut pieces: Seq<Seq<char>> = Seq::empty();
    let mut done: Vec<Vec<char>> = Vec::new();
    let mut current: Vec<char> = Vec::new();
    reveal(Seq::filter);
    assert(pieces.push(current@) == split_where(s@.take(0), sep));
    assert(char_lists(done@) == pieces.filter(keep));
    for i in 0..s.len()
        invariant
            sep == is_space(),
            keep == |w: Seq<char>| w.len() > 0,
            pieces.push(current@) == split_where(s@.take(i as int), sep),
            char_lists(done@) == pieces.filter(keep),
    {
        let x = s[i];
        assert(s@.take(i + 1).drop_last() == s@.take(i as int));
        assert(pieces.push(current@).drop_last() == pieces);
        reveal(Seq::filter);
        if is_whitespace(x) {
            let ghost old_done = char_lists(done@);
            proof {
                pieces = pieces.push(current@);
            }
            if current.len() > 0 {
                let ghost last = current@;
                done.push(current);
                assert(char_lists(done@) == old_done.push(last));
            }
            current = Vec::new();
        } else {
            current.push(x);
        }
        assert(pieces.push(current@) == split_where(s@.take(i + 1), sep));
    }
    assert(s@.take(s@.len() as int) == s@);
    reveal(Seq::filter);
    assert(pieces.push(current@).drop_last() == pieces);
    let ghost old_done = char_lists(done@);
    if current.len() > 0 {
        let ghost last = current@;
        done.push(current);
        assert(char_lists(done@) == old_done.push(last));
    }
    done
}

/// What a filter keeps stands in the sequence and satisfies the predicate.
pub proof fn lemma_filter_keeps<A>(s: Seq<A>, pred: spec_fn(A) -> bool)
    ensures
        forall|i: int|
            0 <= i < s.filter(pred).len() ==> pred(#[trigger] s.filter(pred)[i]) && s.contains(
                s.filter(pred)[i],
            ),
    decreases s.len(),
{
    reveal(Seq::filter);
    if s.len() > 0 {
        let init = s.drop_last();
        lemma_filter_keeps(init, pred);
        assert(s[s.len() - 1] == s.last());
        assert forall|i: int| 0 <= i < s.filter(pred).len() implies pred(
            #[trigger] s.filter(pred)[i],
        ) && s.contains(s.filter(pred)[i]) by {
            if i < init.filter(pred).len() {
                let a = init.filter(pred)[i];
                assert(s.filter(pred)[i] == a);
                let j = choose|j: int| 0 <= j < init.len() && init[j] == a;
                assert(s[j] == a);
            }
        }
    }
}

/// The line before a line feed, without the carriage return that may end it.
pub open spec fn without_cr(line: Seq<char>) -> Seq<char> {
    if line.len() > 0 && line.last() == '\r' {
        line.drop_last()
    } else {
        line
    }
}

/// The lines of a text: each ends at a line feed, which may follow a carriage
/// return; a text after the last line feed is a line too.
pub open spec fn lines_of(s: Seq<char>) -> Seq<Seq<char>> {
    let pieces = split_char(s, '\n');
    let ended = pieces.drop_last().map_values(|p: Seq<char>| without_cr(p));
    if pieces.last().len() == 0 {
        ended
    } else {
        ended.push(pieces.last())
    }
}

/// The lines of a text.
pub fn lines(s: &Vec<char>) -> (out: Vec<Vec<char>>)
    ensures
        char_lists(out@) == lines_of(s@),
{
    let pieces = split_on(s, '\n');
    let ghost all = split_char(s@, '\n');
    let ghost ended = all.drop_last().map_values(|p: Seq<char>| without_cr(p));
    proof {
        lemma_split_nonempty(s@, equals_char('\n'));
        assert(all == char_lists(pieces@));
    }
    let mut out: Vec<Vec<char>> = Vec::new();
    let n = pieces.len();
    assert(char_lists(out@) == ended.take(0));
    for i in 0..n - 1
        invariant
            n == pieces@.len() == all.len(),
            n > 0,
            all == char_lists(pieces@),
            ended == all.drop_last().map_values(|p: Seq<char>| without_cr(p)),
            char_lists(out@) == ended.take(i as int),
    {
        let p = &pieces[i];
        assert(p@ == all[i as int]);
        let ghost before = char_lists(out@);
        if p.len() > 0 && p[p.len() - 1] == '\r' {
            let q = part(p, 0, p.len() - 1);
            assert(q@ == without_cr(p@));
            out.push(q);
            assert(char_lists(out@) == before.push(q@));
        } else {
            let q = part(p, 0, p.len());
            assert(q@ == without_cr(p@));
            out.push(q);
            assert(char_lists(out@) == before.push(q@));
        }
        assert(ended.take(i + 1) == ended.take(i as int).push(ended[i as int]));
    }
    assert(ended.take(n - 1) == ended);
    let last = &pieces[n - 1];
    assert(last@ == all.last());
    if last.len() > 0 {
        let ghost before = char_lists(out@);
        let q = part(last, 0, last.len());
        assert(q@ == last@);
        out.push(q);
        assert(char_lists(out@) == before.push(q@));
    }
    out
}

/// The texts one after the other, with `sep` between them.
pub open spec fn joined(parts: Seq<Seq<char>>, sep: Seq<char>) -> Seq<char>
    decreases parts.len(),
{
    if parts.len() == 0 {
        Seq::empty()
    } else if parts.len() == 1 {
        parts[0]
    } else {
        joined(parts.drop_last(), sep) + sep + parts.last()
    }
}

/// The strings one after the other, with `sep` between them.
pub fn join(parts: &Vec<String>, sep: &str) -> (out: String)
    ensures
        out@ == joined(texts(parts@), sep@),
{
    let mut out = String::new();
    let ghost all = texts(parts@);
    for i in 0..parts.len()
        invariant
            all == texts(parts@),
            out@ == joined(all.take(i as int), sep@),
    {
        assert(all.take(i + 1).drop_last() == all.take(i as int));
        if i > 0 {
            out.append(sep);
        }
        out.append(parts[i].as_str());
        assert(out@ == joined(all.take(i + 1), sep@));
    }
    assert(all.take(all.len() as int) == all);
    out
}

/// No character of the text is whitespace.
pub open spec fn no_whitespace(s: Seq<char>) -> bool {
    forall|i: int| 0 <= i < s.len() ==> !whitespace(#[trigger] s[i])
}

proof fn lemma_split_pieces(s: Seq<char>)
    ensures
        split_where(s, is_space()).len() > 0,
        forall|i: int|
            0 <= i < split_where(s, is_space()).len() ==> no_whitespace(
                #[trigger] split_where(s, is_space())[i],
            ),
        forall|i: int, j: int|
            0 <= i < split_where(s, is_space()).len() && 0 <= j < split_where(
                s,
                is_space(),
            )[i].len() ==> s.contains(#[trigger] split_where(s, is_space())[i][j]),
    decreases s.len(),
{
    if s.len() > 0 {
        let init = s.drop_last();
        lemma_split_pieces(init);
        let before = split_where(init, is_space());
        let all = split_where(s, is_space());
        assert(s[s.len() - 1] == s.last());
        assert forall|i: int| 0 <= i < all.len() implies no_whitespace(#[trigger] all[i]) by {
            if i < before.len() {
                assert(no_whitespace(before[i]));
            }
        }
        assert forall|i: int, j: int|
            0 <= i < all.len() && 0 <= j < all[i].len() implies s.contains(
            #[trigger] all[i][j],
        ) by {
            if i < before.len() && j < before[i].len() {
                assert(all[i][j] == before[i][j]);
                let k = choose|k: int| 0 <= k < init.len() && init[k] == before[i][j];
                assert(s[k] == before[i][j]);
            }
        }
    }
}

/// A word is not empty, holds no whitespace and is made of characters of the
/// text.
pub proof fn lemma_words(s: Seq<char>)
    ensures
        forall|i: int|
            0 <= i < words(s).len() ==> (#[trigger] words(s)[i]).len() > 0 && no_whitespace(
                words(s)[i],
            ),
        forall|i: int, j: int|
            0 <= i < words(s).len() && 0 <= j < words(s)[i].len() ==> s.contains(
                #[trigger] words(s)[i][j],
            ),
{
    let pieces = split_where(s, is_space());
    lemma_split_pieces(s);
    lemma_filter_keeps(pieces, |w: Seq<char>| w.len() > 0);
    assert(words(s) == pieces.filter(|w: Seq<char>| w.len() > 0));
    assert forall|i: int| 0 <= i < words(s).len() implies (#[trigger] words(s)[i]).len() > 0
        && no_whitespace(words(s)[i]) by {
        assert(pieces.contains(words(s)[i]));
    }
    assert forall|i: int, j: int|
        0 <= i < words(s).len() && 0 <= j < words(s)[i].len() implies s.contains(
        #[trigger] words(s)[i][j],
    ) by {
        assert(pieces.contains(words(s)[i]));
        let k = choose|k: int| 0 <= k < pieces.len() && pieces[k] == words(s)[i];
        assert(pieces[k][j] == words(s)[i][j]);
    }
}

proof fn lemma_split_extend(s: Seq<char>, w: Seq<char>)
    requires
        no_whitespace(w),
    ensures
        split_where(s + w, is_space()) == split_where(s, is_space()).drop_last().push(
            split_where(s, is_space()).last() + w,
        ),
    decreases w.len(),
{
    lemma_split_pieces(s);
    let base = split_where(s, is_space());
    if w.len() == 0 {
        assert(s + w == s);
        assert(base.last() + w == base.last());
        assert(base.drop_last().push(base.last()) == base);
    } else {
        let v = w.drop_last();
        assert forall|i: int| 0 <= i < v.len() implies !whitespace(#[trigger] v[i]) by {
            assert(v[i] == w[i]);
        }
        lemma_split_extend(s, v);
        assert((s + w).drop_last() == s + v);
        assert((s + w).last() == w[w.len() - 1]);
        let before = split_where(s + v, is_space());
        assert(before.drop_last() == base.drop_last());
        assert(before.last().push(w.last()) == base.last() + w);
    }
}

proof fn lemma_split_joined(parts: Seq<Seq<char>>)
    requires
        parts.len() > 0,
        forall|i: int| 0 <= i < parts.len() ==> no_whitespace(#[trigger] parts[i]),
    ensures
        split_where(joined(parts, " "@), is_space()) == parts,
    decreases parts.len(),
{
    reveal_strlit(" ");
    if parts.len() == 1 {
        let nothing = Seq::<char>::empty();
        lemma_split_extend(nothing, parts[0]);
        assert(nothing + parts[0] == parts[0]);
        assert(split_where(parts[0], is_space()) == parts);
    } else {
        let init = parts.drop_last();
        assert forall|i: int| 0 <= i < init.len() implies no_whitespace(#[trigger] init[i]) by {
            assert(init[i] == parts[i]);
        }
        lemma_split_joined(init);
        let lead = joined(init, " "@) + " "@;
        assert(lead.drop_last() == joined(init, " "@));
        assert(lead.last() == ' ');
        let nothing = Seq::<char>::empty();
        assert(split_where(lead, is_space()) == init.push(nothing));
        assert(no_whitespace(parts[parts.len() - 1]));
        lemma_split_extend(lead, parts.last());
        assert(init.push(nothing).drop_last() == init);
        assert(nothing + parts.last() == parts.last());
        assert(init.push(parts.last()) == parts);
    }
}

/// Words joined by single spaces have the same words.
pub proof fn lemma_words_joined(parts: Seq<Seq<char>>)
    requires
        forall|i: int|
            0 <= i < parts.len() ==> (#[trigger] parts[i]).len() > 0 && no_whitespace(parts[i]),
    ensures
        words(joined(parts, " "@)) == parts,
{
    let keep = |w: Seq<char>| w.len() > 0;
    reveal(Seq::filter);
    if parts.len() == 0 {
        let pieces = split_where(Seq::<char>::empty(), is_space());
        let none = Seq::<Seq<char>>::empty();
        assert(pieces.drop_last() == none && !keep(pieces.last()));
        assert(none.filter(keep) == none);
        assert(pieces.filter(keep) == Seq::<Seq<char>>::empty());
    } else {
        lemma_split_joined(parts);
        lemma_filter_all(parts, keep);
    }
}

proof fn lemma_filter_all<A>(s: Seq<A>, pred: spec_fn(A) -> bool)
    requires
        forall|i: int| 0 <= i < s.len() ==> pred(#[trigger] s[i]),
    ensures
        s.filter(pred) == s,
    decreases s.len(),
{
    reveal(Seq::filter);
    if s.len() > 0 {
        let init = s.drop_last();
        assert forall|i: int| 0 <= i < init.len() implies pred(#[trigger] init[i]) by {
            assert(init[i] == s[i]);
        }
        lemma_filter_all(init, pred);
        assert(pred(s[s.len() - 1]));
        assert(init.push(s.last()) == s);
    }
}

/// Joining texts adds no characters but those of the separator.
pub proof fn lemma_joined_chars(parts: Seq<Seq<char>>, sep: Seq<char>, i: int)
    requires
        0 <= i < joined(parts, sep).len(),
    ensures
        sep.contains(joined(parts, sep)[i]) || exists|j: int, k: int|
            0 <= j < parts.len() && 0 <= k < parts[j].len() && #[trigger] parts[j][k] == joined(
                parts,
                sep,
            )[i],
    decreases parts.len(),
{
    if parts.len() == 1 {
        assert(parts[0][i] == joined(parts, sep)[i]);
    } else if parts.len() > 1 {
        let lead = joined(parts.drop_last(), sep);
        if i < lead.len() {
            lemma_joined_chars(parts.drop_last(), sep, i);
            if !sep.contains(lead[i]) {
                let (j, k) = choose|j: int, k: int|
                    0 <= j < parts.drop_last().len() && 0 <= k < parts.drop_last()[j].len()
                        && #[trigger] parts.drop_last()[j][k] == lead[i];
                assert(parts[j][k] == lead[i]);
            }
        } else if i < lead.len() + sep.len() {
            assert(joined(parts, sep)[i] == sep[i - lead.len()]);
        } else {
            assert(parts[parts.len() - 1][i - lead.len() - sep.len()] == joined(parts, sep)[i]);
        }
    }
}

/// `pat` stands in `s` at position `i`.
pub open spec fn occurs_at(s: Seq<char>, pat: Seq<char>, i: int) -> bool {
    0 <= i && i + pat.len() <= s.len() && s.subrange(i, i + pat.len()) == pat
}

/// `pat` stands somewhere in `s`.
pub open spec fn has_text(s: Seq<char>, pat: Seq<char>) -> bool {
    exists|i: int| occurs_at(s, pat, i)
}

/// `s` starts with `pat`.
pub open spec fn has_prefix(s: Seq<char>, pat: Seq<char>) -> bool {
    occurs_at(s, pat, 0)
}

/// The first position, at or after `i`, at which `pat` stands in `s`.
pub open spec fn find_from(s: Seq<char>, pat: Seq<char>, i: int) -> Option<int>
    decreases s.len() + 1 - i,
{
    if i < 0 || i + pat.len() > s.len() {
        None
    } else if occurs_at(s, pat, i) {
        Some(i)
    } else {
        find_from(s, pat, i + 1)
    }
}

/// The first position at which `pat` stands in `s`.
pub open spec fn position(s: Seq<char>, pat: Seq<char>) -> Option<int> {
    find_from(s, pat, 0)
}

pub proof fn lemma_find_from(s: Seq<char>, pat: Seq<char>, i: int)
    requires
        0 <= i,
    ensures
        find_from(s, pat, i) matches Some(k) ==> i <= k && occurs_at(s, pat, k) && (forall|j: int|
            i <= j < k ==> !occurs_at(s, pat, j)),
        find_from(s, pat, i) is None ==> forall|j: int| i <= j ==> !occurs_at(s, pat, j),
    decreases s.len() + 1 - i,
{
    if i + pat.len() <= s.len() && !occurs_at(s, pat, i) {
        lemma_find_from(s, pat, i + 1);
    }
}

/// Whether `pat` stands in `s` at position `i`.
pub fn is_at(s: &Vec<char>, pat: &Vec<char>, i: usize) -> (r: bool)
    ensures
        r == occurs_at(s@, pat@, i as int),
{
    if i > s.len() || pat.len() > s.len() - i {
        return false;
    }
    for k in 0..pat.len()
        invariant
            i + pat.len() <= s.len(),
            forall|j: int| 0 <= j < k ==> s@[i + j] == pat@[j],
    {
        if s[i + k] != pat[k] {
            assert(s@.subrange(i as int, i + pat@.len())[k as int] != pat@[k as int]);
            return false;
        }
    }
    assert(s@.subrange(i as int, i + pat@.len()) == pat@);
    true
}

/// Where `pat` first stands in `s`, at or after `from`.
pub fn find_at(s: &Vec<char>, pat: &Vec<char>, from: usize) -> (r: Option<usize>)
    ensures
        match r {
            Some(k) => find_from(s@, pat@, from as int) == Some(k as int),
            None => find_from(s@, pat@, from as int) is None,
        },
{
    let mut i: usize = from;
    while i <= s.len() && pat.len() <= s.len() - i
        invariant
            from <= i,
            i <= s@.len() + 1 || i == from,
            find_from(s@, pat@, from as int) == find_from(s@, pat@, i as int),
        decreases s@.len() + 1 - i,
    {
        if is_at(s, pat, i) {
            return Some(i);
        }
        if i == s.len() {
            assert(find_from(s@, pat@, i + 1) is None);
            return None;
        }
        i += 1;
    }
    None
}

/// Whether `pat` stands somewhere in `s`.
pub fn contains(s: &Vec<char>, pat: &Vec<char>) -> (r: bool)
    ensures
        r == has_text(s@, pat@),
{
    proof {
        lemma_find_from(s@, pat@, 0);
    }
    find_at(s, pat, 0).is_some()
}

/// The pieces of a text between the occurrences of `pat`, from left to right.
pub open spec fn split_text(s: Seq<char>, pat: Seq<char>) -> Seq<Seq<char>>
    decreases s.len(),
    when pat.len() > 0
    via split_text_decreases
{
    match position(s, pat) {
        Some(k) => seq![s.take(k)] + split_text(s.skip(k + pat.len()), pat),
        None => seq![s],
    }
}

#[via_fn]
proof fn split_text_decreases(s: Seq<char>, pat: Seq<char>) {
    lemma_find_from(s, pat, 0);
}

/// The pieces of a text between the occurrences of `pat`.
pub fn split_str(s: &Vec<char>, pat: &Vec<char>) -> (out: Vec<Vec<char>>)
    requires
        pat@.len() > 0,
    ensures
        char_lists(out@) == split_text(s@, pat@),
{
    let mut out: Vec<Vec<char>> = Vec::new();
    let mut start: usize = 0;
    assert(s@.skip(0) == s@);
    assert(char_lists(out@) + split_text(s@.skip(0), pat@) == split_text(s@, pat@));
    loop
        invariant
            pat@.len() > 0,
            start <= s@.len(),
            char_lists(out@) + split_text(s@.skip(start as int), pat@) == split_text(s@, pat@),
        decreases s@.len() - start,
    {
        let n = s.len();
        let rest = part(s, start, n);
        assert(rest@ == s@.skip(start as int));
        let ghost before = char_lists(out@);
        proof {
            lemma_find_from(rest@, pat@, 0);
        }
        match find_at(&rest, pat, 0) {
            Some(k) => {
                let piece = part(&rest, 0, k);
                assert(piece@ == rest@.take(k as int));
                out.push(piece);
                assert(char_lists(out@) == before.push(piece@));
                assert(rest@.skip(k + pat@.len()) == s@.skip(start + k + pat@.len()));
                assert(before.push(piece@) + split_text(rest@.skip(k + pat@.len()), pat@) == before
                    + (seq![piece@] + split_text(rest@.skip(k + pat@.len()), pat@)));
                start = start + k + pat.len();
            },
            None => {
                let ghost last = rest@;
                out.push(rest);
                assert(char_lists(out@) == before.push(last));
                assert(before.push(last) == before + seq![last]);
                return out;
            },
        }
    }
}

/// Whether the text `s` starts with `pat`.
pub fn starts_with(s: &str, pat: &str) -> (r: bool)
    ensures
        r == has_prefix(s@, pat@),
{
    is_at(&chars_of(s), &chars_of(pat), 0)
}

/// The text after every leading repetition of `pat`.
pub open spec fn without_prefixes(s: Seq<char>, pat: Seq<char>) -> Seq<char>
    decreases s.len(),
{
    if pat.len() > 0 && has_prefix(s, pat) {
        without_prefixes(s.skip(pat.len() as int), pat)
    } else {
        s
    }
}

/// The text after every leading repetition of `pat`.
pub fn trim_start_matches(s: &Vec<char>, pat: &Vec<char>) -> (out: Vec<char>)
    ensures
        out@ == without_prefixes(s@, pat@),
{
    let mut rest = part(s, 0, s.len());
    assert(rest@ == s@);
    while pat.len() > 0 && is_at(&rest, pat, 0)
        invariant
            without_prefixes(rest@, pat@) == without_prefixes(s@, pat@),
        decreases rest@.len(),
    {
        let n = rest.len();
        let next = part(&rest, pat.len(), n);
        assert(next@ == rest@.skip(pat@.len() as int));
        rest = next;
    }
    rest
}

/// Whether two texts are the same up to the case of ASCII letters.
pub open spec fn same_ascii_case(a: Seq<char>, b: Seq<char>) -> bool {
    a.map_values(|c: char| ascii_lower(c)) == b.map_values(|c: char| ascii_lower(c))
}

/// Whether a text is `word`, up to the case of ASCII letters.
pub fn eq_ignore_ascii_case(a: &Vec<char>, word: &Vec<char>) -> (r: bool)
    ensures
        r == same_ascii_case(a@, word@),
{
    let ghost la = a@.map_values(|c: char| ascii_lower(c));
    let ghost lw = word@.map_values(|c: char| ascii_lower(c));
    if a.len() != word.len() {
        assert(la.len() != lw.len());
        return false;
    }
    for i in 0..a.len()
        invariant
            a@.len() == word@.len(),
            la == a@.map_values(|c: char| ascii_lower(c)),
            lw == word@.map_values(|c: char| ascii_lower(c)),
            forall|j: int| 0 <= j < i ==> la[j] == lw[j],
    {
        if to_ascii_lower(a[i]) != to_ascii_lower(word[i]) {
            assert(la[i as int] != lw[i as int]);
            return false;
        }
    }
    assert(la == lw);
    true
}

/// The lower-case form of an ASCII character.
pub fn to_ascii_lower(c: char) -> (r: char)
    ensures
        r == ascii_lower(c),
{
    if 'A' <= c && c <= 'Z' {
        ((c as u8) + 32) as char
    } else {
        c
    }
}

/// The character for a decimal digit.
pub open spec fn digit_char(d: nat) -> char {
    (48 + d) as char
}

/// A number in decimal.
pub open spec fn decimal(n: nat) -> Seq<char>
    decreases n,
{
    if n < 10 {
        seq![digit_char(n)]
    } else {
        decimal(n / 10).push(digit_char(n % 10))
    }
}

/// A number in decimal.
pub fn decimal_text(n: u64) -> (out: String)
    ensures
        out@ == decimal(n as nat),
    decreases n,
{
    let d = (48 + (n % 10) as u8) as char;
    if n < 10 {
        let mut out = String::new();
        out.push(d);
        assert(out@ == seq![d]);
        out
    } else {
        let mut out = decimal_text(n / 10);
        out.push(d);
        out
    }
}

pub open spec fn is_digit(c: char) -> bool {
    '0' <= c <= '9'
}

/// The number that decimal digits write.
pub open spec fn digits_value(s: Seq<char>) -> nat
    decreases s.len(),
{
    if s.len() == 0 {
        0
    } else {
        digits_value(s.drop_last()) * 10 + (s.last() as nat - 48) as nat
    }
}

/// The digits of a number, without the plus sign that may stand before them.
pub open spec fn unsigned_digits(s: Seq<char>) -> Seq<char> {
    if s.len() > 0 && s[0] == '+' {
        s.skip(1)
    } else {
        s
    }
}

/// The number below 65536 that a text writes in decimal, if it does.
pub open spec fn u16_value(s: Seq<char>) -> Option<u16> {
    let d = unsigned_digits(s);
    if d.len() > 0 && (forall|i: int| 0 <= i < d.len() ==> is_digit(#[trigger] d[i]))
        && digits_value(d) <= 65535 {
        Some(digits_value(d) as u16)
    } else {
        None
    }
}

proof fn lemma_digits_grow(s: Seq<char>, n: int)
    requires
        0 <= n <= s.len(),
    ensures
        digits_value(s.take(n)) <= digits_value(s),
    decreases s.len() - n,
{
    if n < s.len() {
        lemma_digits_grow(s, n + 1);
        assert(s.take(n + 1).drop_last() == s.take(n));
    } else {
        assert(s.take(n) == s);
    }
}

/// The number below 65536 that a text writes in decimal, if it does.
pub fn parse_u16(s: &str) -> (r: Option<u16>)
    ensures
        r == u16_value(s@),
{
    let chars = chars_of(s);
    let n = chars.len();
    let start: usize = if n > 0 && chars[0] == '+' {
        1
    } else {
        0
    };
    let d = part(&chars, start, n);
    assert(s@.skip(0) == s@);
    assert(d@ == unsigned_digits(s@));
    if d.len() == 0 {
        return None;
    }
    let mut value: u32 = 0;
    for i in 0..d.len()
        invariant
            d@ == unsigned_digits(s@),
            value == digits_value(d@.take(i as int)),
            value <= 65535,
            forall|j: int| 0 <= j < i ==> is_digit(#[trigger] d@[j]),
    {
        let c = d[i];
        assert(d@.take(i + 1).drop_last() == d@.take(i as int));
        if c < '0' || c > '9' {
            assert(!is_digit(d@[i as int]));
            return None;
        }
        value = value * 10 + (c as u32 - 48);
        if value > 65535 {
            proof {
                lemma_digits_grow(d@, i + 1);
            }
            return None;
        }
    }
    assert(d@.take(d@.len() as int) == d@);
    Some(value as u16)
}

/// The last position of the character `c`.
pub open spec fn last_position(s: Seq<char>, c: char) -> Option<int>
    decreases s.len(),
{
    if s.len() == 0 {
        None
    } else if s.last() == c {
        Some(s.len() - 1)
    } else {
        last_position(s.drop_last(), c)
    }
}

pub proof fn lemma_last_position(s: Seq<char>, c: char)
    ensures
        match last_position(s, c) {
            Some(k) => 0 <= k < s.len() && s[k] == c && forall|j: int| k < j < s.len() ==> s[j] != c,
            None => forall|j: int| 0 <= j < s.len() ==> s[j] != c,
        },
    decreases s.len(),
{
    if s.len() > 0 && s.last() != c {
        lemma_last_position(s.drop_last(), c);
        assert(forall|j: int| 0 <= j < s.len() - 1 ==> s.drop_last()[j] == s[j]);
    }
}

/// The last position of the character `c`.
pub fn rfind(s: &Vec<char>, c: char) -> (r: Option<usize>)
    ensures
        match r {
            Some(k) => last_position(s@, c) == Some(k as int),
            None => last_position(s@, c) is None,
        },
{
    let mut n: usize = s.len();
    assert(s@.take(n as int) == s@);
    while n > 0
        invariant
            n <= s@.len(),
            last_position(s@, c) == last_position(s@.take(n as int), c),
        decreases n,
    {
        if s[n - 1] == c {
            return Some(n - 1);
        }
        assert(s@.take(n as int).drop_last() == s@.take(n - 1));
        n -= 1;
    }
    None
}

/// What `String::from_utf8_lossy` makes of bytes that are not valid UTF-8.
pub uninterp spec fn repaired_utf8(bytes: Seq<u8>) -> Seq<char>;

/// The text that the output of a process stands for.
pub open spec fn output_text(bytes: Seq<u8>) -> Seq<char> {
    if valid_utf8(bytes) {
        decode_utf8(bytes)
    } else {
        repaired_utf8(bytes)
    }
}

/// Calls `String::from_utf8_lossy`: valid UTF-8 is decoded; in other bytes the
/// invalid parts are replaced, in a way that depends on the bytes alone.
#[verifier::external_body]
fn from_utf8_lossy(bytes: &[u8]) -> (out: String)
    ensures
        valid_utf8(bytes@) ==> out@ == decode_utf8(bytes@),
        !valid_utf8(bytes@) ==> out@ == repaired_utf8(bytes@),
{
    String::from_utf8_lossy(bytes).into_owned()
}

/// The text that the output of a process stands for.
pub fn decode_output(bytes: &Vec<u8>) -> (out: String)
    ensures
        out@ == output_text(bytes@),
{
    from_utf8_lossy(bytes.as_slice())
}

/// Two lists are joined as one by joining each and putting the separator
/// between; where one is empty, the other alone is joined.
pub proof fn law_joining_two_lists(a: Seq<Seq<char>>, b: Seq<Seq<char>>, sep: Seq<char>)
    ensures
        a.len() == 0 ==> joined(a + b, sep) == joined(b, sep),
        b.len() == 0 ==> joined(a + b, sep) == joined(a, sep),
        a.len() > 0 && b.len() > 0 ==> joined(a + b, sep) == joined(a, sep) + sep + joined(b, sep),
    decreases b.len(),
{
    if a.len() == 0 {
        assert(a + b == b);
    } else if b.len() == 0 {
        assert(a + b == a);
    } else {
        let init = b.drop_last();
        law_joining_two_lists(a, init, sep);
        assert((a + b).drop_last() == a + init);
        assert((a + b).last() == b.last());
        if init.len() == 0 {
            assert(joined(b, sep) == b[0]);
        } else {
            assert(joined(b, sep) == joined(init, sep) + sep + b.last());
            assert(joined(a + b, sep) == joined(a, sep) + sep + joined(b, sep));
        }
    }
}

/// A list of one text is joined to that text, and none to nothing.
pub proof fn law_joining_one_or_none(s: Seq<char>, sep: Seq<char>)
    ensures
        joined(seq![s], sep) == s,
        joined(Seq::empty(), sep) == Seq::<char>::empty(),
{
}

/// A text stands at a position exactly if each of its characters does.
pub proof fn law_a_text_stands_where_its_characters_do(s: Seq<char>, pat: Seq<char>, i: int)
    ensures
        occurs_at(s, pat, i) <==> 0 <= i && i + pat.len() <= s.len() && forall|k: int|
            0 <= k < pat.len() ==> #[trigger] pat[k] == s[i + k],
        has_prefix(s, pat) <==> pat.len() <= s.len() && s.take(pat.len() as int) == pat,
{
    if occurs_at(s, pat, i) {
        assert forall|k: int| 0 <= k < pat.len() implies #[trigger] pat[k] == s[i + k] by {
            assert(s.subrange(i, i + pat.len())[k] == s[i + k]);
        }
    } else if 0 <= i && i + pat.len() <= s.len() && (forall|k: int|
        0 <= k < pat.len() ==> #[trigger] pat[k] == s[i + k]) {
        assert(s.subrange(i, i + pat.len()) == pat);
    }
}

/// A text holds another exactly if something may stand before it and after it
/// so that the whole comes out.
pub proof fn law_a_text_holds_its_parts(
    s: Seq<char>,
    before: Seq<char>,
    pat: Seq<char>,
    after: Seq<char>,
)
    ensures
        has_text(before + pat + after, pat),
        has_text(s, pat) ==> exists|i: int|
            0 <= i <= s.len() - pat.len() && s == #[trigger] s.take(i) + pat + s.skip(
                i + pat.len(),
            ),
{
    let whole = before + pat + after;
    assert(whole.subrange(before.len() as int, (before.len() + pat.len()) as int) == pat);
    assert(occurs_at(whole, pat, before.len() as int));
    if has_text(s, pat) {
        let i = choose|i: int| occurs_at(s, pat, i);
        assert(s == s.take(i) + s.subrange(i, i + pat.len()) + s.skip(i + pat.len()));
    }
}

/// What a filter keeps of two lists is what it keeps of each.
pub proof fn lemma_filter_two<A>(a: Seq<A>, b: Seq<A>, pred: spec_fn(A) -> bool)
    ensures
        (a + b).filter(pred) == a.filter(pred) + b.filter(pred),
    decreases b.len(),
{
    reveal(Seq::filter);
    if b.len() == 0 {
        assert(a + b == a);
        assert(a.filter(pred) + b.filter(pred) == a.filter(pred));
    } else {
        lemma_filter_two(a, b.drop_last(), pred);
        assert((a + b).drop_last() == a + b.drop_last());
        assert((a + b).last() == b.last());
        assert((a + b).filter(pred) == a.filter(pred) + b.filter(pred));
    }
}

/// Splitting goes piece by piece: what stands on either side of a separator is
/// split for itself.
pub proof fn lemma_split_two(a: Seq<char>, x: char, b: Seq<char>, sep: spec_fn(char) -> bool)
    requires
        sep(x),
    ensures
        split_where(a.push(x) + b, sep) == split_where(a, sep) + split_where(b, sep),
    decreases b.len(),
{
    let whole = a.push(x) + b;
    lemma_split_nonempty(a, sep);
    lemma_split_nonempty(b, sep);
    if b.len() == 0 {
        assert(whole.drop_last() == a);
        assert(whole.last() == x);
        assert(split_where(whole, sep) == split_where(a, sep) + split_where(b, sep));
    } else {
        let init = b.drop_last();
        lemma_split_two(a, x, init, sep);
        lemma_split_nonempty(init, sep);
        assert(whole.drop_last() == a.push(x) + init);
        assert(whole.last() == b.last());
        let both = split_where(a, sep) + split_where(init, sep);
        assert(both.drop_last() == split_where(a, sep) + split_where(init, sep).drop_last());
        assert(both.last() == split_where(init, sep).last());
        assert(split_where(whole, sep) == split_where(a, sep) + split_where(b, sep));
    }
}

pub proof fn lemma_split_one(s: Seq<char>, sep: spec_fn(char) -> bool)
    requires
        forall|i: int| 0 <= i < s.len() ==> !sep(#[trigger] s[i]),
    ensures
        split_where(s, sep) == seq![s],
    decreases s.len(),
{
    if s.len() > 0 {
        let init = s.drop_last();
        assert forall|i: int| 0 <= i < init.len() implies !sep(#[trigger] init[i]) by {
            assert(init[i] == s[i]);
        }
        lemma_split_one(init, sep);
        assert(!sep(s[s.len() - 1]));
        assert(init.push(s.last()) == s);
        assert(seq![init].drop_last().push(init.push(s.last())) == seq![s]);
    } else {
        assert(s == Seq::<char>::empty());
    }
}

/// Words are told apart by whitespace, whatever it is and however much of it
/// there is: those on either side of it are the words of the whole. A text
/// without whitespace is one word, and an empty one none.
pub proof fn law_words_stand_between_whitespace(a: Seq<char>, x: char, b: Seq<char>, w: Seq<char>)
    requires
        whitespace(x),
        forall|i: int| 0 <= i < w.len() ==> !whitespace(#[trigger] w[i]),
    ensures
        words(a.push(x) + b) == words(a) + words(b),
        w.len() > 0 ==> words(w) == seq![w],
        w.len() == 0 ==> words(w) == Seq::<Seq<char>>::empty(),
{
    let keep = |w: Seq<char>| w.len() > 0;
    lemma_split_two(a, x, b, is_space());
    lemma_filter_two(split_where(a, is_space()), split_where(b, is_space()), keep);
    lemma_split_one(w, is_space());
    reveal(Seq::filter);
    assert(seq![w].drop_last() == Seq::<Seq<char>>::empty());
    assert(Seq::<Seq<char>>::empty().filter(keep) == Seq::<Seq<char>>::empty());
    assert(seq![w].last() == w);
    if w.len() > 0 {
        assert(words(w) == seq![w]);
    }
}

/// The pieces between the occurrences of a character do not hold it, and with
/// it between them they make up the text.
pub proof fn law_pieces_between_a_character(s: Seq<char>, c: char)
    ensures
        split_char(s, c).len() > 0,
        joined(split_char(s, c), seq![c]) == s,
        forall|i: int|
            0 <= i < split_char(s, c).len() ==> !(#[trigger] split_char(s, c)[i]).contains(c),
    decreases s.len(),
{
    let sep = equals_char(c);
    let all = split_char(s, c);
    if s.len() == 0 {
        assert(all[0] == Seq::<char>::empty());
        assert(s == Seq::<char>::empty());
    } else {
        law_pieces_between_a_character(s.drop_last(), c);
        let before = split_char(s.drop_last(), c);
        assert(s == s.drop_last().push(s.last()));
        if s.last() == c {
            assert(all.drop_last() == before);
            assert(joined(all, seq![c]) == joined(before, seq![c]) + seq![c]);
        } else {
            assert(all.drop_last() == before.drop_last());
            assert(joined(all, seq![c]) == joined(before, seq![c]).push(s.last()));
        }
        assert forall|i: int| 0 <= i < all.len() implies !(#[trigger] all[i]).contains(c) by {
            if i < before.len() {
                assert(!before[i].contains(c));
            }
            if all[i].contains(c) {
                let k = choose|k: int| 0 <= k < all[i].len() && all[i][k] == c;
                if i < before.len() && k < before[i].len() {
                    assert(before[i][k] == c);
                    assert(before[i].contains(c));
                }
            }
        }
    }
}

/// Lines end at line feeds: what stands up to a line feed gives its lines, and
/// what comes after gives its own. A line loses the one carriage return before
/// its line feed; the last needs no line feed and then loses nothing.
pub proof fn law_lines_end_at_line_feeds(a: Seq<char>, b: Seq<char>, line: Seq<char>)
    requires
        !line.contains('\n'),
    ensures
        lines_of(a.push('\n') + b) == lines_of(a.push('\n')) + lines_of(b),
        line.len() > 0 ==> lines_of(line) == seq![line],
        line.len() == 0 ==> lines_of(line) == Seq::<Seq<char>>::empty(),
        lines_of(line.push('\r').push('\n')) == seq![line],
        (line.len() == 0 || line.last() != '\r') ==> lines_of(line.push('\n')) == seq![line],
{
    let sep = equals_char('\n');
    let nothing = Seq::<char>::empty();
    let cut = |p: Seq<char>| without_cr(p);
    lemma_split_nonempty(a, sep);
    lemma_split_nonempty(b, sep);
    lemma_split_two(a, '\n', b, sep);
    lemma_split_two(a, '\n', nothing, sep);
    assert(a.push('\n') + nothing == a.push('\n'));
    let pa = split_char(a, '\n');
    let pb = split_char(b, '\n');
    assert((pa + pb).drop_last() == pa + pb.drop_last());
    assert((pa + pb).last() == pb.last());
    assert((pa + pb.drop_last()).map_values(cut) == pa.map_values(cut)
        + pb.drop_last().map_values(cut));
    let pn = split_char(nothing, '\n');
    assert((pa + pn).drop_last() == pa);
    assert(lines_of(a.push('\n')) == pa.map_values(cut));
    assert(lines_of(a.push('\n') + b) == lines_of(a.push('\n')) + lines_of(b));
    assert forall|i: int| 0 <= i < line.len() implies !sep(#[trigger] line[i]) by {
        assert(line.contains(line[i]));
    }
    lemma_split_one(line, sep);
    lemma_split_two(line, '\n', nothing, sep);
    assert(line.push('\n') + nothing == line.push('\n'));
    let returned = line.push('\r');
    assert forall|i: int| 0 <= i < returned.len() implies !sep(#[trigger] returned[i]) by {
        if i < line.len() {
            assert(!sep(line[i]));
        }
    }
    lemma_split_one(returned, sep);
    lemma_split_two(returned, '\n', nothing, sep);
    assert(returned.push('\n') + nothing == returned.push('\n'));
    assert(seq![line].drop_last() == Seq::<Seq<char>>::empty());
    assert(Seq::<Seq<char>>::empty().map_values(cut) == Seq::<Seq<char>>::empty());
    assert((seq![line] + pn).drop_last() == seq![line]);
    assert((seq![returned] + pn).drop_last() == seq![returned]);
    assert(returned.drop_last() == line);
    if line.len() > 0 {
        assert(lines_of(line) == seq![line]);
    }
    assert(lines_of(returned.push('\n')) == seq![line]);
    if line.len() == 0 || line.last() != '\r' {
        assert(lines_of(line.push('\n')) == seq![line]);
    }
}

/// A trimmed text is a part of the text. What is left out on either side is
/// whitespace, and what is left neither starts nor ends with any.
pub proof fn law_trimming_takes_the_whitespace_around(s: Seq<char>)
    ensures
        exists|i: int, j: int|
            0 <= i <= j <= s.len() && trimmed(s) == #[trigger] s.subrange(i, j) && (forall|k: int|
                0 <= k < i || j <= k < s.len() ==> whitespace(#[trigger] s[k])),
        trimmed(s).len() > 0 ==> !whitespace(trimmed(s)[0]) && !whitespace(trimmed(s).last()),
{
    lemma_trim_start(s);
    let t = trimmed_start(s);
    lemma_trim_end(t);
    let i = s.len() - t.len();
    let j = i + trimmed(s).len();
    assert(trimmed(s) == s.subrange(i, j));
    assert forall|k: int| 0 <= k < i || j <= k < s.len() implies whitespace(#[trigger] s[k]) by {
        if j <= k {
            assert(t[k - i] == s[k]);
        }
    }
    if trimmed(s).len() > 0 {
        assert(trimmed(s)[0] == t[0]);
    }
}

proof fn lemma_trim_start(s: Seq<char>)
    ensures
        ({
            let n = s.len() - trimmed_start(s).len();
            &&& 0 <= n && trimmed_start(s) == s.skip(n)
            &&& forall|k: int| 0 <= k < n ==> whitespace(#[trigger] s[k])
            &&& n < s.len() ==> !whitespace(s[n])
        }),
    decreases s.len(),
{
    if s.len() > 0 && whitespace(s[0]) {
        let rest = s.drop_first();
        lemma_trim_start(rest);
        let n = s.len() - trimmed_start(s).len();
        assert(rest.skip(n - 1) == s.skip(n));
        assert forall|k: int| 0 <= k < n implies whitespace(#[trigger] s[k]) by {
            if k > 0 {
                assert(rest[k - 1] == s[k]);
            }
        }
    } else {
        assert(s.skip(0) == s);
    }
}

proof fn lemma_trim_end(s: Seq<char>)
    ensures
        ({
            let n = trimmed_end(s).len() as int;
            &&& n <= s.len() && trimmed_end(s) == s.take(n)
            &&& forall|k: int| n <= k < s.len() ==> whitespace(#[trigger] s[k])
            &&& n > 0 ==> !whitespace(s[n - 1])
        }),
    decreases s.len(),
{
    if s.len() > 0 && whitespace(s.last()) {
        let rest = s.drop_last();
        lemma_trim_end(rest);
        let n = trimmed_end(s).len() as int;
        assert(rest.take(n) == s.take(n));
        assert forall|k: int| n <= k < s.len() implies whitespace(#[trigger] s[k]) by {
            if k < s.len() - 1 {
                assert(rest[k] == s[k]);
            }
        }
    } else {
        assert(s.take(s.len() as int) == s);
    }
}

/// A text that neither starts nor ends with whitespace is its trimmed form,
/// and whitespace around it changes nothing.
pub proof fn law_whitespace_around_plays_no_part(lead: Seq<char>, s: Seq<char>, tail: Seq<char>)
    requires
        forall|i: int| 0 <= i < lead.len() ==> whitespace(#[trigger] lead[i]),
        forall|i: int| 0 <= i < tail.len() ==> whitespace(#[trigger] tail[i]),
        s.len() > 0 ==> !whitespace(s[0]) && !whitespace(s.last()),
    ensures
        trimmed(s) == s,
        trimmed(lead + s + tail) == s,
{
    lemma_trim_lead(lead, s + tail);
    assert(lead + s + tail == lead + (s + tail));
    if s.len() > 0 {
        assert((s + tail)[0] == s[0]);
        lemma_trim_tail(s, tail);
    } else {
        assert(s + tail == tail);
        lemma_trim_lead(tail, Seq::empty());
        assert(tail + Seq::empty() == tail);
        assert(s == Seq::<char>::empty());
    }
}

proof fn lemma_trim_lead(lead: Seq<char>, s: Seq<char>)
    requires
        forall|i: int| 0 <= i < lead.len() ==> whitespace(#[trigger] lead[i]),
    ensures
        trimmed_start(lead + s) == trimmed_start(s),
    decreases lead.len(),
{
    if lead.len() > 0 {
        assert((lead + s).drop_first() == lead.drop_first() + s);
        assert((lead + s)[0] == lead[0]);
        assert forall|i: int| 0 <= i < lead.drop_first().len() implies whitespace(
            #[trigger] lead.drop_first()[i],
        ) by {
            assert(lead.drop_first()[i] == lead[i + 1]);
        }
        lemma_trim_lead(lead.drop_first(), s);
    } else {
        assert(lead + s == s);
    }
}

proof fn lemma_trim_tail(s: Seq<char>, tail: Seq<char>)
    requires
        forall|i: int| 0 <= i < tail.len() ==> whitespace(#[trigger] tail[i]),
        s.len() > 0,
        !whitespace(s.last()),
    ensures
        trimmed_end(s + tail) == s,
    decreases tail.len(),
{
    if tail.len() > 0 {
        assert((s + tail).drop_last() == s + tail.drop_last());
        assert((s + tail).last() == tail[tail.len() - 1]);
        assert forall|i: int| 0 <= i < tail.drop_last().len() implies whitespace(
            #[trigger] tail.drop_last()[i],
        ) by {
            assert(tail.drop_last()[i] == tail[i]);
        }
        lemma_trim_tail(s, tail.drop_last());
    } else {
        assert(s + tail == s);
    }
}

/// Leading repetitions of a text are taken off one by one, until it stands in
/// front no more; nothing else is.
pub proof fn law_repetitions_in_front_are_taken_off(s: Seq<char>, pat: Seq<char>)
    requires
        pat.len() > 0,
    ensures
        without_prefixes(pat + s, pat) == without_prefixes(s, pat),
        !has_prefix(s, pat) ==> without_prefixes(s, pat) == s,
        !has_prefix(without_prefixes(s, pat), pat),
    decreases s.len(),
{
    assert((pat + s).subrange(0, pat.len() as int) == pat);
    assert((pat + s).skip(pat.len() as int) == s);
    if has_prefix(s, pat) {
        law_repetitions_in_front_are_taken_off(s.skip(pat.len() as int), pat);
    }
}

/// The characters around a text are taken off, all of them and no others.
pub proof fn law_characters_around_are_taken_off(s: Seq<char>, c: char)
    ensures
        without_leading(seq![c] + s, c) == without_leading(s, c),
        s.len() == 0 || s[0] != c ==> without_leading(s, c) == s,
        without_trailing(s.push(c), c) == without_trailing(s, c),
        s.len() == 0 || s.last() != c ==> without_trailing(s, c) == s,
{
    assert((seq![c] + s).drop_first() == s);
    assert((seq![c] + s)[0] == c);
    assert(s.push(c).drop_last() == s);
}

/// With the text between them, the pieces make up the whole, and no piece
/// holds it.
pub proof fn law_pieces_between_a_text(s: Seq<char>, pat: Seq<char>)
    requires
        pat.len() > 0,
    ensures
        split_text(s, pat).len() > 0,
        joined(split_text(s, pat), pat) == s,
        forall|i: int|
            0 <= i < split_text(s, pat).len() ==> !has_text(#[trigger] split_text(s, pat)[i], pat),
    decreases s.len(),
{
    lemma_find_from(s, pat, 0);
    let all = split_text(s, pat);
    match position(s, pat) {
        Some(k) => {
            let rest = s.skip(k + pat.len());
            let first = s.take(k);
            law_pieces_between_a_text(rest, pat);
            law_joining_two_lists(seq![first], split_text(rest, pat), pat);
            law_joining_one_or_none(first, pat);
            assert(s == first + s.subrange(k, k + pat.len()) + rest);
            assert forall|i: int| 0 <= i < all.len() implies !has_text(#[trigger] all[i], pat) by {
                if i > 0 {
                    assert(all[i] == split_text(rest, pat)[i - 1]);
                } else if has_text(first, pat) {
                    let j = choose|j: int| occurs_at(first, pat, j);
                    assert(first.subrange(j, j + pat.len()) == s.subrange(j, j + pat.len()));
                    assert(occurs_at(s, pat, j));
                }
            }
        },
        None => {
            law_joining_one_or_none(s, pat);
        },
    }
}

/// A lower-case letter stands for an upper-case one, and every other character
/// for itself.
pub proof fn law_lower_case_letters(c: char)
    ensures
        'A' <= c <= 'Z' ==> ascii_lower(c) as u32 == c as u32 - 'A' as u32 + 'a' as u32,
        !('A' <= c <= 'Z') ==> ascii_lower(c) == c,
        ascii_lower(ascii_lower(c)) == ascii_lower(c),
{
}

/// Two texts are the same up to case exactly if they are as long and differ in
/// no character but for the case of a letter.
pub proof fn law_case_is_all_that_may_differ(a: Seq<char>, b: Seq<char>)
    ensures
        same_ascii_case(a, b) <==> a.len() == b.len() && forall|i: int|
            0 <= i < a.len() ==> #[trigger] a[i] == b[i] || ('A' <= a[i] <= 'Z' && b[i] as u32
                == a[i] as u32 + 32) || ('A' <= b[i] <= 'Z' && a[i] as u32 == b[i] as u32 + 32),
{
    let la = a.map_values(|c: char| ascii_lower(c));
    let lb = b.map_values(|c: char| ascii_lower(c));
    if same_ascii_case(a, b) {
        assert(la.len() == lb.len());
        assert forall|i: int| 0 <= i < a.len() implies #[trigger] a[i] == b[i] || ('A' <= a[i]
            <= 'Z' && b[i] as u32 == a[i] as u32 + 32) || ('A' <= b[i] <= 'Z' && a[i] as u32
            == b[i] as u32 + 32) by {
            assert(la[i] == lb[i]);
        }
    } else if a.len() == b.len() && (forall|i: int|
        0 <= i < a.len() ==> #[trigger] a[i] == b[i] || ('A' <= a[i] <= 'Z' && b[i] as u32 == a[i] as u32
            + 32) || ('A' <= b[i] <= 'Z' && a[i] as u32 == b[i] as u32 + 32)) {
        assert forall|i: int| 0 <= i < a.len() implies la[i] == lb[i] by {
            assert(a[i] == b[i] || ('A' <= a[i] <= 'Z' && b[i] as u32 == a[i] as u32 + 32) || ('A'
                <= b[i] <= 'Z' && a[i] as u32 == b[i] as u32 + 32));
        }
        assert(la == lb);
    }
}

/// A number is written in decimal so that its digits give it back; there is no
/// zero in front of other digits.
pub proof fn law_decimal_digits_give_the_number_back(n: nat)
    ensures
        decimal(n).len() > 0,
        forall|i: int| 0 <= i < decimal(n).len() ==> '0' <= #[trigger] decimal(n)[i] <= '9',
        digits_value(decimal(n)) == n,
        n > 0 ==> decimal(n)[0] != '0',
    decreases n,
{
    if n < 10 {
        let one = seq![digit_char(n)];
        assert(one.drop_last() == Seq::<char>::empty());
        assert(one.last() == digit_char(n));
        assert(digits_value(Seq::<char>::empty()) == 0);
    } else {
        law_decimal_digits_give_the_number_back(n / 10);
        let all = decimal(n);
        assert(all.drop_last() == decimal(n / 10));
        assert(all.last() == digit_char(n % 10));
    }
}

/// A number written in decimal is read as that number, with a plus before it or
/// not, if it fits in sixteen bits, and refused if it does not. A text with
/// anything but digits behind the sign, or with none, is refused.
pub proof fn law_numbers_are_read_as_written(n: nat, s: Seq<char>)
    ensures
        n < 65536 ==> u16_value(decimal(n)) == Some(n as u16) && u16_value(seq!['+'] + decimal(n))
            == Some(n as u16),
        n >= 65536 ==> u16_value(decimal(n)) is None,
        s.len() == 0 || s == seq!['+'] ==> u16_value(s) is None,
        (exists|i: int|
            0 <= i < s.len() && !('0' <= #[trigger] s[i] <= '9') && (i > 0 || s[i] != '+'))
            ==> u16_value(s) is None,
{
    law_decimal_digits_give_the_number_back(n);
    assert(!('0' <= '+' <= '9'));
    assert(decimal(n)[0] != '+');
    assert((seq!['+'] + decimal(n)).skip(1) == decimal(n));
    assert((seq!['+'] + decimal(n))[0] == '+');
    assert(forall|i: int| 0 <= i < decimal(n).len() ==> is_digit(#[trigger] decimal(n)[i]));
    if exists|i: int| 0 <= i < s.len() && !('0' <= #[trigger] s[i] <= '9') && (i > 0 || s[i] != '+') {
        let i = choose|i: int|
            0 <= i < s.len() && !('0' <= #[trigger] s[i] <= '9') && (i > 0 || s[i] != '+');
        let d = unsigned_digits(s);
        if s[0] == '+' {
            assert(d[i - 1] == s[i]);
            assert(!is_digit(d[i - 1]));
        } else {
            assert(!is_digit(d[i]));
        }
    }
}

} // verus!
