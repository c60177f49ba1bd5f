//! The members of a JSON object, one by one as they are written. A JSON value
//! keeps one member for each key and must be able to hold all of them; here a
//! key that is repeated shows, and a value that nobody reads may be any JSON.
use vstd::prelude::*;

use crate::json::{self, json_syntax, text_document, JsonValue, JsonView};
use crate::text::{self, char_lists, chars_of, joined, string_of};

verus! {

/// How far a text has been read: how many brackets and braces are open, and
/// whether the next character stands in a string, or behind a backslash in one.
pub struct Nesting {
    pub depth: nat,
    pub in_string: bool,
    pub escaped: bool,
}

impl Nesting {
    /// The next character stands outside brackets, braces and strings.
    pub open spec fn outside(self) -> bool {
        self.depth == 0 && !self.in_string
    }

    /// The nesting after one more character.
    pub open spec fn step(self, c: char) -> Nesting {
        if self.in_string {
            Nesting {
                depth: self.depth,
                in_string: self.escaped || c != '"',
                escaped: !self.escaped && c == '\\',
            }
        } else if c == '"' {
            Nesting { in_string: true, ..self }
        } else if c == '{' || c == '[' {
            Nesting { depth: self.depth + 1, ..self }
        } else if (c == '}' || c == ']') && self.depth > 0 {
            Nesting { depth: (self.depth - 1) as nat, ..self }
        } else {
            self
        }
    }
}

/// The nesting at the end of a text.
pub open spec fn nesting(s: Seq<char>) -> Nesting
    decreases s.len(),
{
    if s.len() == 0 {
        Nesting { depth: 0, in_string: false, escaped: false }
    } else {
        nesting(s.drop_last()).step(s.last())
    }
}

/// The pieces of a text between the characters `c` that stand outside its
/// brackets, braces and strings.
pub open spec fn outer_pieces(s: Seq<char>, c: char) -> Seq<Seq<char>>
    decreases s.len(),
{
    if s.len() == 0 {
        seq![Seq::<char>::empty()]
    } else {
        let before = outer_pieces(s.drop_last(), c);
        if s.last() == c && nesting(s.drop_last()).outside() {
            before.push(Seq::<char>::empty())
        } else {
            before.drop_last().push(before.last().push(s.last()))
        }
    }
}

/// The pieces of a text between the characters `c` that stand outside its
/// brackets, braces and strings.
pub fn split_outside(s: &Vec<char>, c: char) -> (out: Vec<Vec<char>>)
    ensures
        char_lists(out@) == outer_pieces(s@, c),
{
    let mut done: Vec<Vec<char>> = Vec::new();
    let mut current: Vec<char> = Vec::new();
    let mut depth: usize = 0;
    let mut in_string = false;
    let mut escaped = false;
    assert(char_lists(done@).push(current@) == outer_pieces(s@.take(0), c));
    for i in 0..s.len()
        invariant
            depth <= i,
            nesting(s@.take(i as int)) == (Nesting { depth: depth as nat, in_string, escaped }),
            char_lists(done@).push(current@) == outer_pieces(s@.take(i as int), c),
    {
        let x = s[i];
        assert(s@.take(i + 1).drop_last() == s@.take(i as int));
        let ghost before = char_lists(done@).push(current@);
        assert(before.drop_last() == char_lists(done@));
        if x == c && depth == 0 && !in_string {
            done.push(current);
            current = Vec::new();
            assert(char_lists(done@) == before);
        } else {
            current.push(x);
        }
        assert(char_lists(done@).push(current@) == outer_pieces(s@.take(i + 1), c));
        if in_string {
            in_string = escaped || x != '"';
            escaped = !escaped && x == '\\';
        } else if x == '"' {
            in_string = true;
        } else if x == '{' || x == '[' {
            depth += 1;
        } else if (x == '}' || x == ']') && depth > 0 {
            depth -= 1;
        }
    }
    assert(s@.take(s@.len() as int) == s@);
    let ghost pieces = char_lists(done@).push(current@);
    done.push(current);
    assert(char_lists(done@) == pieces);
    done
}

/// A member of an object: its key, and what its value reads as, if anything.
#[derive(Debug, PartialEq, Eq)]
pub struct Field {
    pub name: String,
    pub value: Option<JsonValue>,
}

/// The model of a `Field`.
pub struct FieldView {
    pub name: Seq<char>,
    pub value: Option<JsonView>,
}

impl View for Field {
    type V = FieldView;

    open spec fn view(&self) -> FieldView {
        FieldView {
            name: self.name@,
            value: match self.value {
                Some(v) => Some(v@),
                None => None,
            },
        }
    }
}

/// The models of a list of members.
pub open spec fn field_views(fields: Seq<Field>) -> Seq<FieldView> {
    fields.map_values(|f: Field| f@)
}

/// What a value reads as, one level deep in a document.
pub open spec fn inner_document(s: Seq<char>) -> Option<JsonView> {
    match text_document("["@ + s + "]"@) {
        Some(list) => if list matches JsonView::List(items) && items.len() == 1 {
            list.item(0)
        } else {
            None
        },
        None => None,
    }
}

/// What a value reads as, one level deep in a document.
fn parse_inner(s: &Vec<char>) -> (r: Option<JsonValue>)
    ensures
        match r {
            Some(v) => inner_document(s@) == Some(v@),
            None => inner_document(s@) is None,
        },
{
    let mut list = "[".to_string();
    list.append(string_of(s).as_str());
    list.append("]");
    match json::parse_text(list.as_str()) {
        Some(JsonValue::List(items)) => {
            proof {
                json::lemma_trees(items@);
            }
            if items.len() == 1 {
                Some(items[0].clone())
            } else {
                None
            }
        },
        _ => None,
    }
}

/// The members that pieces of an object hold: a key and a value around a
/// colon. A piece without a colon holds none. There is nothing where a key is
/// no text.
pub open spec fn piece_fields(pieces: Seq<Seq<char>>) -> Option<Seq<FieldView>>
    decreases pieces.len(),
{
    if pieces.len() == 0 {
        Some(Seq::empty())
    } else {
        let halves = outer_pieces(pieces.last(), ':');
        match piece_fields(pieces.drop_last()) {
            Some(before) => if halves.len() == 2 {
                match text_document(halves[0]) {
                    Some(JsonView::Text(name)) => Some(
                        before.push(FieldView { name, value: inner_document(halves[1]) }),
                    ),
                    _ => None,
                }
            } else {
                Some(before)
            },
            None => None,
        }
    }
}

/// The members of the object that a text is, as they are written. There is
/// nothing where the text is no JSON object or a key cannot be read.
pub open spec fn object_fields(s: Seq<char>) -> Option<Seq<FieldView>> {
    if s.len() >= 2 && s[0] == '{' && s.last() == '}' && json_syntax(s) {
        piece_fields(outer_pieces(s.subrange(1, s.len() - 1), ','))
    } else {
        None
    }
}

/// The members of the object that a text is.
pub fn parse_fields(s: &str) -> (r: Option<Vec<Field>>)
    ensures
        match r {
            Some(fields) => object_fields(s@) == Some(field_views(fields@)),
            None => object_fields(s@) is None,
        },
{
    let chars = chars_of(s);
    let n = chars.len();
    if n < 2 || chars[0] != '{' || chars[n - 1] != '}' || !json::is_json(s) {
        return None;
    }
    let pieces = split_outside(&text::part(&chars, 1, n - 1), ',');
    let ghost all = char_lists(pieces@);
    let mut fields: Vec<Field> = Vec::new();
    assert(field_views(fields@) == Seq::<FieldView>::empty());
    for i in 0..pieces.len()
        invariant
            all == char_lists(pieces@),
            object_fields(s@) == piece_fields(all),
            piece_fields(all.take(i as int)) == Some(field_views(fields@)),
    {
        assert(all.take(i + 1).drop_last() == all.take(i as int));
        assert(all[i as int] == pieces@[i as int]@);
        let halves = split_outside(&pieces[i], ':');
        let ghost parts = char_lists(halves@);
        assert(parts == outer_pieces(all[i as int], ':'));
        assert(parts.len() == halves@.len());
        if halves.len() == 2 {
            assert(parts[0] == halves@[0]@ && parts[1] == halves@[1]@);
            match json::parse_text(string_of(&halves[0]).as_str()) {
                Some(JsonValue::Text(name)) => {
                    let ghost before = field_views(fields@);
                    let field = Field { name, value: parse_inner(&halves[1]) };
                    fields.push(field);
                    assert(field_views(fields@) == before.push(field@));
                },
                _ => {
                    proof {
                        assert(piece_fields(all.take(i + 1)) is None);
                        lemma_unreadable_key(all, i + 1);
                    }
                    return None;
                },
            }
        }
    }
    assert(all.take(all.len() as int) == all);
    Some(fields)
}

proof fn lemma_unreadable_key(pieces: Seq<Seq<char>>, n: int)
    requires
        0 <= n <= pieces.len(),
        piece_fields(pieces.take(n)) is None,
    ensures
        piece_fields(pieces) is None,
    decreases pieces.len(),
{
    if n < pieces.len() {
        assert(pieces.drop_last().take(n) == pieces.take(n));
        lemma_unreadable_key(pieces.drop_last(), n);
    } else {
        assert(pieces.take(n) == pieces);
    }
}

/// What members say under a key.
pub enum HeldView {
    /// No member has the key.
    Nothing,
    /// One member has it, with this value.
    Once(Option<JsonView>),
    /// More than one has it.
    Repeated,
}

/// What members say under a key.
pub open spec fn held(fields: Seq<FieldView>, key: Seq<char>) -> HeldView
    decreases fields.len(),
{
    if fields.len() == 0 {
        HeldView::Nothing
    } else {
        let before = held(fields.drop_last(), key);
        if fields.last().name != key {
            before
        } else if before is Nothing {
            HeldView::Once(fields.last().value)
        } else {
            HeldView::Repeated
        }
    }
}

/// What members say under a key.
pub enum Held<'a> {
    Nothing,
    Once(&'a Option<JsonValue>),
    Repeated,
}

impl<'a> View for Held<'a> {
    type V = HeldView;

    open spec fn view(&self) -> HeldView {
        match *self {
            Held::Nothing => HeldView::Nothing,
            Held::Once(value) => HeldView::Once(
                match *value {
                    Some(v) => Some(v@),
                    None => None,
                },
            ),
            Held::Repeated => HeldView::Repeated,
        }
    }
}

/// What members say under a key.
pub fn find_field<'a>(fields: &'a Vec<Field>, key: &str) -> (r: Held<'a>)
    ensures
        r@ == held(field_views(fields@), key@),
{
    let ghost all = field_views(fields@);
    let mut r: Held<'a> = Held::Nothing;
    for i in 0..fields.len()
        invariant
            all == field_views(fields@),
            r@ == held(all.take(i as int), key@),
    {
        assert(all.take(i + 1).drop_last() == all.take(i as int));
        assert(all[i as int] == fields@[i as int]@);
        if text::same(fields[i].name.as_str(), key) {
            r = match r {
                Held::Nothing => Held::Once(&fields[i].value),
                _ => Held::Repeated,
            };
        }
    }
    assert(all.take(all.len() as int) == all);
    r
}

/// Nothing is lost where a text is split: its pieces, with the separator
/// between them, make it up.
pub proof fn law_pieces_make_up_the_text(s: Seq<char>, c: char)
    ensures
        outer_pieces(s, c).len() > 0,
        joined(outer_pieces(s, c), seq![c]) == s,
    decreases s.len(),
{
    if s.len() > 0 {
        let before = outer_pieces(s.drop_last(), c);
        let all = outer_pieces(s, c);
        law_pieces_make_up_the_text(s.drop_last(), c);
        if s.last() == c && nesting(s.drop_last()).outside() {
            assert(all.drop_last() == before);
            assert(joined(all, seq![c]) == joined(before, seq![c]) + seq![c]);
        } else {
            assert(all.drop_last() == before.drop_last());
            assert(joined(all, seq![c]) == joined(before, seq![c]).push(s.last()));
        }
        assert(s == s.drop_last().push(s.last()));
    }
}

/// A key is held once exactly if one member, and no other, has it; the value is
/// that member's.
pub proof fn law_a_key_is_held_as_often_as_written(fields: Seq<FieldView>, key: Seq<char>)
    ensures
        held(fields, key) is Nothing <==> (forall|i: int|
            0 <= i < fields.len() ==> (#[trigger] fields[i]).name != key),
        held(fields, key) is Repeated <==> (exists|i: int, j: int|
            0 <= i < j < fields.len() && (#[trigger] fields[i]).name == key && (
            #[trigger] fields[j]).name == key),
        held(fields, key) matches HeldView::Once(value) ==> exists|i: int|
            0 <= i < fields.len() && (#[trigger] fields[i]).name == key && fields[i].value == value,
    decreases fields.len(),
{
    if fields.len() > 0 {
        let n = fields.len() - 1;
        let less = fields.drop_last();
        law_a_key_is_held_as_often_as_written(less, key);
        assert forall|i: int| 0 <= i < n implies #[trigger] less[i] == fields[i] by {}
        if fields.last().name == key {
            assert(fields[n].name == key);
            if !(held(less, key) is Nothing) {
                let i = choose|i: int| 0 <= i < n && (#[trigger] less[i]).name == key;
                assert(fields[i].name == key);
            }
        } else {
            if held(less, key) is Nothing {
                assert forall|i: int| 0 <= i < fields.len() implies (#[trigger] fields[i]).name
                    != key by {
                    if i < n {
                        assert(less[i].name != key);
                    }
                }
            }
        }
        assert forall|i: int, j: int|
            0 <= i < j < fields.len() && (#[trigger] fields[i]).name == key && (
            #[trigger] fields[j]).name == key implies held(fields, key) is Repeated by {
            assert(less[i].name == key);
            if j < n {
                assert(less[j].name == key);
            }
        }
        if held(less, key) is Repeated {
            let (i, j) = choose|i: int, j: int|
                0 <= i < j < n && (#[trigger] less[i]).name == key && (#[trigger] less[j]).name
                    == key;
            assert(fields[i].name == key && fields[j].name == key);
        }
        if held(less, key) is Once {
            let i = choose|i: int| 0 <= i < n && (#[trigger] less[i]).name == key;
            assert(fields[i].name == key);
        }
    }
}

/// Everything that was opened is closed again.
pub open spec fn is_closed(s: Seq<char>) -> bool {
    nesting(s) == nesting(Seq::empty())
}

proof fn lemma_nesting_after(a: Seq<char>, b: Seq<char>)
    requires
        is_closed(a),
    ensures
        nesting(a + b) == nesting(b),
    decreases b.len(),
{
    if b.len() == 0 {
        assert(a + b == a);
        assert(b == Seq::<char>::empty());
    } else {
        lemma_nesting_after(a, b.drop_last());
        assert((a + b).drop_last() == a + b.drop_last());
        assert((a + b).last() == b.last());
    }
}

/// A comma or a colon behind what is closed sets two parts off, and each is
/// split for itself.
pub proof fn law_separators_outside_set_parts_off(a: Seq<char>, c: char, b: Seq<char>)
    requires
        is_closed(a),
        c == ',' || c == ':',
    ensures
        outer_pieces(a.push(c) + b, c) == outer_pieces(a, c) + outer_pieces(b, c),
    decreases b.len(),
{
    let whole = a.push(c) + b;
    let lead = a.push(c);
    assert(lead.drop_last() == a && lead.last() == c);
    assert(is_closed(lead));
    law_pieces_make_up_the_text(a, c);
    if b.len() == 0 {
        assert(whole == lead);
        assert(outer_pieces(whole, c) == outer_pieces(a, c) + outer_pieces(b, c));
    } else {
        let init = b.drop_last();
        law_separators_outside_set_parts_off(a, c, init);
        law_pieces_make_up_the_text(init, c);
        lemma_nesting_after(lead, init);
        assert(whole.drop_last() == lead + init);
        assert(whole.last() == b.last());
        let both = outer_pieces(a, c) + outer_pieces(init, c);
        assert(both.drop_last() == outer_pieces(a, c) + outer_pieces(init, c).drop_last());
        assert(both.last() == outer_pieces(init, c).last());
        assert(outer_pieces(whole, c) == outer_pieces(a, c) + outer_pieces(b, c));
    }
}

/// The text holds no quote, no bracket and no brace.
pub open spec fn is_flat(s: Seq<char>) -> bool {
    forall|i: int|
        0 <= i < s.len() ==> #[trigger] s[i] != '"' && s[i] != '[' && s[i] != ']' && s[i] != '{'
            && s[i] != '}'
}

proof fn lemma_flat(lead: Seq<char>, t: Seq<char>)
    requires
        is_flat(t),
        !nesting(lead).in_string,
    ensures
        nesting(lead + t) == nesting(lead),
    decreases t.len(),
{
    if t.len() == 0 {
        assert(lead + t == lead);
    } else {
        let init = t.drop_last();
        assert forall|i: int| 0 <= i < init.len() implies #[trigger] init[i] != '"' && init[i] != '['
            && init[i] != ']' && init[i] != '{' && init[i] != '}' by {
            assert(init[i] == t[i]);
        }
        lemma_flat(lead, init);
        assert((lead + t).drop_last() == lead + init);
        assert((lead + t).last() == t[t.len() - 1]);
    }
}

proof fn lemma_in_string(lead: Seq<char>, t: Seq<char>)
    requires
        forall|i: int| 0 <= i < t.len() ==> #[trigger] t[i] != '"' && t[i] != '\\',
        nesting(lead).in_string,
        !nesting(lead).escaped,
    ensures
        nesting(lead + t) == nesting(lead),
    decreases t.len(),
{
    if t.len() == 0 {
        assert(lead + t == lead);
    } else {
        let init = t.drop_last();
        assert forall|i: int| 0 <= i < init.len() implies #[trigger] init[i] != '"' && init[i]
            != '\\' by {
            assert(init[i] == t[i]);
        }
        lemma_in_string(lead, init);
        assert((lead + t).drop_last() == lead + init);
        assert((lead + t).last() == t[t.len() - 1]);
    }
}

proof fn lemma_one_more(s: Seq<char>, c: char)
    ensures
        nesting(s.push(c)) == nesting(s).step(c),
{
    assert(s.push(c).drop_last() == s);
}

proof fn lemma_no_split(lead: Seq<char>, t: Seq<char>, c: char)
    requires
        forall|k: int|
            0 <= k < t.len() ==> t[k] != c || !(#[trigger] nesting(lead + t.take(k))).outside(),
    ensures
        outer_pieces(lead + t, c) == outer_pieces(lead, c).drop_last().push(
            outer_pieces(lead, c).last() + t,
        ),
    decreases t.len(),
{
    law_pieces_make_up_the_text(lead, c);
    let base = outer_pieces(lead, c);
    if t.len() == 0 {
        assert(lead + t == lead);
        assert(base.last() + t == base.last());
        assert(base.drop_last().push(base.last()) == base);
    } else {
        let init = t.drop_last();
        assert forall|k: int| 0 <= k < init.len() implies init[k] != c || !(#[trigger] nesting(
            lead + init.take(k),
        )).outside() by {
            assert(init.take(k) == t.take(k));
            assert(init[k] == t[k]);
            assert(t[k] != c || !nesting(lead + t.take(k)).outside());
        }
        lemma_no_split(lead, init, c);
        let k = t.len() - 1;
        assert(t.take(k) == init);
        assert(t[k] != c || !nesting(lead + t.take(k)).outside());
        assert((lead + t).drop_last() == lead + init);
        assert((lead + t).last() == t[k]);
        let before = outer_pieces(lead + init, c);
        assert(before.drop_last() == base.drop_last());
        assert(before.last().push(t.last()) == base.last() + t);
    }
}

/// What stands in a string or between brackets or braces is never split, and
/// is closed where they are. A quote behind a backslash does not end a string.
pub proof fn law_nothing_is_split_inside(
    a: Seq<char>,
    x: Seq<char>,
    y: Seq<char>,
    b: Seq<char>,
    open: char,
    close: char,
    c: char,
)
    requires
        is_flat(a) && is_flat(b),
        !a.contains(c),
        c == ',' || c == ':',
        forall|i: int| 0 <= i < x.len() ==> #[trigger] x[i] != '"' && x[i] != '\\',
        forall|i: int| 0 <= i < y.len() ==> #[trigger] y[i] != '"' && y[i] != '\\',
        (open == '[' && close == ']') || (open == '{' && close == '}'),
    ensures
        ({
            let s = a + seq!['"'] + x + seq!['\\', '"'] + y + seq!['"'] + seq![open] + b
                + seq![close];
            is_closed(s) && outer_pieces(s, c) == seq![s]
        }),
{
    let nothing = Seq::<char>::empty();
    let s0 = a;
    lemma_flat(nothing, a);
    assert(nothing + a == a);
    let s1 = s0.push('"');
    lemma_one_more(s0, '"');
    lemma_in_string(s1, x);
    let s2 = s1 + x;
    let s3 = s2.push('\\');
    lemma_one_more(s2, '\\');
    let s4 = s3.push('"');
    lemma_one_more(s3, '"');
    lemma_in_string(s4, y);
    let s5 = s4 + y;
    let s6 = s5.push('"');
    lemma_one_more(s5, '"');
    let s7 = s6.push(open);
    lemma_one_more(s6, open);
    lemma_flat(s7, b);
    let s8 = s7 + b;
    let s9 = s8.push(close);
    lemma_one_more(s8, close);
    let s = a + seq!['"'] + x + seq!['\\', '"'] + y + seq!['"'] + seq![open] + b + seq![close];
    assert(s4 == a + seq!['"'] + x + seq!['\\', '"']);
    assert(s6 == s4 + y + seq!['"']);
    assert(s9 == s6 + seq![open] + b + seq![close]);
    assert(s9 == s);
    assert forall|k: int| 0 <= k < a.len() implies a[k] != c || !(#[trigger] nesting(
        nothing + a.take(k),
    )).outside() by {
        assert(a.contains(a[k]));
    }
    lemma_no_split(nothing, a, c);
    assert(outer_pieces(a, c) == seq![a]);
    lemma_keeps_whole(s0, '"', c);
    assert forall|k: int| 0 <= k < x.len() implies x[k] != c || !(#[trigger] nesting(
        s1 + x.take(k),
    )).outside() by {
        lemma_in_string(s1, x.take(k));
    }
    lemma_no_split(s1, x, c);
    assert(outer_pieces(s2, c) == seq![s2]);
    lemma_keeps_whole(s2, '\\', c);
    lemma_keeps_whole(s3, '"', c);
    assert forall|k: int| 0 <= k < y.len() implies y[k] != c || !(#[trigger] nesting(
        s4 + y.take(k),
    )).outside() by {
        lemma_in_string(s4, y.take(k));
    }
    lemma_no_split(s4, y, c);
    assert(outer_pieces(s5, c) == seq![s5]);
    lemma_keeps_whole(s5, '"', c);
    lemma_keeps_whole(s6, open, c);
    assert forall|k: int| 0 <= k < b.len() implies b[k] != c || !(#[trigger] nesting(
        s7 + b.take(k),
    )).outside() by {
        assert forall|i: int| 0 <= i < b.take(k).len() implies #[trigger] b.take(k)[i] != '"'
            && b.take(k)[i] != '[' && b.take(k)[i] != ']' && b.take(k)[i] != '{' && b.take(k)[i]
            != '}' by {
            assert(b.take(k)[i] == b[i]);
        }
        lemma_flat(s7, b.take(k));
    }
    lemma_no_split(s7, b, c);
    assert(outer_pieces(s8, c) == seq![s8]);
    lemma_keeps_whole(s8, close, c);
}

proof fn lemma_keeps_whole(s: Seq<char>, d: char, c: char)
    requires
        outer_pieces(s, c) == seq![s],
        d != c,
    ensures
        outer_pieces(s.push(d), c) == seq![s.push(d)],
{
    assert(s.push(d).drop_last() == s);
    assert(seq![s].drop_last() == Seq::<Seq<char>>::empty());
    assert(Seq::<Seq<char>>::empty().push(s.push(d)) == seq![s.push(d)]);
}

/// The members of an object are read one by one, in order: a key and a value
/// around a colon give the member with that key and that value. Nothing comes
/// of a list in which a key is no text.
pub proof fn law_members_are_read_one_by_one(
    pieces: Seq<Seq<char>>,
    key: Seq<char>,
    value: Seq<char>,
    name: Seq<char>,
)
    requires
        is_closed(key),
        outer_pieces(key, ':') == seq![key],
        outer_pieces(value, ':') == seq![value],
    ensures
        text_document(key) == Some(JsonView::Text(name)) ==> match piece_fields(pieces) {
            Some(before) => piece_fields(pieces.push(key.push(':') + value)) == Some(
                before.push((FieldView { name, value: inner_document(value) })),
            ),
            None => piece_fields(pieces.push(key.push(':') + value)) is None,
        },
        !(text_document(key) matches Some(JsonView::Text(_)))
            ==> piece_fields(pieces.push(key.push(':') + value)) is None,
        piece_fields(Seq::empty()) == Some(Seq::<FieldView>::empty()),
{
    law_separators_outside_set_parts_off(key, ':', value);
    let piece = key.push(':') + value;
    let halves = outer_pieces(piece, ':');
    assert(halves == seq![key] + seq![value]);
    assert(halves[0] == key && halves[1] == value);
    assert(pieces.push(piece).drop_last() == pieces);
}

/// The members of an object are what stands between its braces.
pub proof fn law_members_stand_between_the_braces(inside: Seq<char>, s: Seq<char>)
    ensures
        json_syntax(seq!['{'] + inside + seq!['}']) ==> object_fields(
            seq!['{'] + inside + seq!['}'],
        ) == piece_fields(outer_pieces(inside, ',')),
        !json_syntax(s) ==> object_fields(s) is None,
        s.len() < 2 || s[0] != '{' || s.last() != '}' ==> object_fields(s) is None,
{
    let whole = seq!['{'] + inside + seq!['}'];
    assert(whole.subrange(1, whole.len() - 1) == inside);
}

/// A value is read one level deep: as the one item of a list.
pub proof fn law_a_value_is_read_as_the_item_of_a_list(s: Seq<char>, v: JsonView)
    ensures
        text_document(seq!['['] + s + seq![']']) == Some(JsonView::List(seq![v])) ==> inner_document(
            s,
        ) == Some(v),
        inner_document(s) == Some(v) ==> text_document(seq!['['] + s + seq![']']) == Some(
            JsonView::List(seq![v]),
        ),
{
    reveal_strlit("[");
    reveal_strlit("]");
    assert("["@ == seq!['['] && "]"@ == seq![']']);
    if let Some(JsonView::List(items)) = text_document(seq!['['] + s + seq![']']) {
        if items.len() == 1 {
            assert(items == seq![items[0]]);
        }
        assert(seq![v][0] == v && seq![v].len() == 1);
    }
}

} // verus!
