//! JSON documents as plain values. Documents are parsed by `serde_json`; the
//! rest of the library reads `JsonValue`s.
use vstd::prelude::*;
use vstd::utf8::encode_utf8;

use crate::text;

verus! {

/// A JSON document. The digits of a number are not kept: nothing reads them.
#[derive(Debug, PartialEq, Eq)]
pub enum JsonValue {
    Null,
    Bool(bool),
    Number,
    Text(String),
    List(Vec<JsonValue>),
    Object(Vec<(String, JsonValue)>),
}

/// The model of a JSON document.
pub enum JsonView {
    Null,
    Bool(bool),
    Number,
    Text(Seq<char>),
    List(Seq<JsonView>),
    Object(Seq<(Seq<char>, JsonView)>),
}

/// The model of a `JsonValue`.
pub open spec fn tree(v: JsonValue) -> JsonView
    decreases v,
{
    match v {
        JsonValue::Null => JsonView::Null,
        JsonValue::Bool(b) => JsonView::Bool(b),
        JsonValue::Number => JsonView::Number,
        JsonValue::Text(s) => JsonView::Text(s@),
        JsonValue::List(items) => JsonView::List(trees(items@)),
        JsonValue::Object(members) => JsonView::Object(member_trees(members@)),
    }
}

/// The models of a list of documents.
pub open spec fn trees(items: Seq<JsonValue>) -> Seq<JsonView>
    decreases items,
{
    if items.len() == 0 {
        Seq::empty()
    } else {
        trees(items.drop_last()).push(tree(items.last()))
    }
}

/// The models of the members of an object.
pub open spec fn member_trees(members: Seq<(String, JsonValue)>) -> Seq<(Seq<char>, JsonView)>
    decreases members,
{
    if members.len() == 0 {
        Seq::empty()
    } else {
        member_trees(members.drop_last()).push((members.last().0@, tree(members.last().1)))
    }
}

impl View for JsonValue {
    type V = JsonView;

    open spec fn view(&self) -> JsonView {
        tree(*self)
    }
}

pub proof fn lemma_trees(items: Seq<JsonValue>)
    ensures
        trees(items).len() == items.len(),
        forall|i: int| 0 <= i < items.len() ==> #[trigger] trees(items)[i] == items[i]@,
    decreases items.len(),
{
    if items.len() > 0 {
        lemma_trees(items.drop_last());
        assert forall|i: int| 0 <= i < items.len() implies #[trigger] trees(items)[i]
            == items[i]@ by {
            if i < items.len() - 1 {
                assert(items.drop_last()[i] == items[i]);
            }
        }
    }
}

pub proof fn lemma_member_trees(members: Seq<(String, JsonValue)>)
    ensures
        member_trees(members).len() == members.len(),
        forall|i: int|
            0 <= i < members.len() ==> #[trigger] member_trees(members)[i] == (
                members[i].0@,
                members[i].1@,
            ),
    decreases members.len(),
{
    if members.len() > 0 {
        lemma_member_trees(members.drop_last());
        assert forall|i: int| 0 <= i < members.len() implies #[trigger] member_trees(members)[i]
            == (members[i].0@, members[i].1@) by {
            if i < members.len() - 1 {
                assert(members.drop_last()[i] == members[i]);
            }
        }
    }
}

impl Clone for JsonValue {
    fn clone(&self) -> (r: JsonValue)
        ensures
            r@ == self@,
        decreases self,
    {
        match self {
            JsonValue::Null => JsonValue::Null,
            JsonValue::Bool(b) => JsonValue::Bool(*b),
            JsonValue::Number => JsonValue::Number,
            JsonValue::Text(s) => JsonValue::Text(s.clone()),
            JsonValue::List(items) => {
                let mut out: Vec<JsonValue> = Vec::new();
                let ghost all = trees(items@);
                proof {
                    lemma_trees(items@);
                }
                for i in 0..items.len()
                    invariant
                        *self == JsonValue::List(*items),
                        all.len() == items@.len(),
                        forall|j: int| 0 <= j < items@.len() ==> #[trigger] all[j] == items@[j]@,
                        trees(out@) == all.take(i as int),
                {
                    assert(decreases_to!(*self => (*self)->List_0@[i as int]));
                    let ghost before = out@;
                    let item = items[i].clone();
                    out.push(item);
                    assert(out@.drop_last() == before);
                    assert(all.take(i + 1) == all.take(i as int).push(all[i as int]));
                }
                assert(all.take(all.len() as int) == all);
                JsonValue::List(out)
            },
            JsonValue::Object(members) => {
                let mut out: Vec<(String, JsonValue)> = Vec::new();
                let ghost all = member_trees(members@);
                proof {
                    lemma_member_trees(members@);
                }
                for i in 0..members.len()
                    invariant
                        *self == JsonValue::Object(*members),
                        all.len() == members@.len(),
                        forall|j: int|
                            0 <= j < members@.len() ==> #[trigger] all[j] == (
                                members@[j].0@,
                                members@[j].1@,
                            ),
                        member_trees(out@) == all.take(i as int),
                {
                    assert(decreases_to!(*self => (*self)->Object_0@[i as int].1));
                    let ghost before = out@;
                    let key = members[i].0.clone();
                    let below = members[i].1.clone();
                    out.push((key, below));
                    assert(out@.drop_last() == before);
                    assert(all.take(i + 1) == all.take(i as int).push(all[i as int]));
                }
                assert(all.take(all.len() as int) == all);
                JsonValue::Object(out)
            },
        }
    }
}

/// A copy of a list of documents.
pub fn copy_list(items: &Vec<JsonValue>) -> (out: Vec<JsonValue>)
    ensures
        trees(out@) == trees(items@),
{
    let mut out: Vec<JsonValue> = Vec::new();
    let ghost all = trees(items@);
    proof {
        lemma_trees(items@);
    }
    for i in 0..items.len()
        invariant
            all.len() == items@.len(),
            forall|j: int| 0 <= j < items@.len() ==> #[trigger] all[j] == items@[j]@,
            trees(out@) == all.take(i as int),
    {
        let ghost before = out@;
        let item = items[i].clone();
        out.push(item);
        assert(out@.drop_last() == before);
        assert(all.take(i + 1) == all.take(i as int).push(all[i as int]));
    }
    assert(all.take(all.len() as int) == all);
    out
}

/// `serde_json::Value`, as an opaque type.
#[verifier::external_type_specification]
#[verifier::external_body]
pub struct ExValue(serde_json::Value);

/// `serde_json::Error`, as an opaque type.
#[verifier::external_type_specification]
#[verifier::external_body]
pub struct ExError(serde_json::Error);

/// The document that a `serde_json::Value` holds.
pub uninterp spec fn json_tree(value: serde_json::Value) -> JsonView;

/// The document that `serde_json` reads from bytes; there is none where they
/// are no JSON.
pub uninterp spec fn json_document(bytes: Seq<u8>) -> Option<JsonView>;

/// Calls `serde_json::from_slice` for a `Value`. Which document comes back, and
/// whether there is one, depends on the bytes alone.
#[verifier::external_body]
fn from_slice(bytes: &[u8]) -> (r: Result<serde_json::Value, serde_json::Error>)
    ensures
        match r {
            Ok(value) => json_document(bytes@) == Some(json_tree(value)),
            Err(_) => json_document(bytes@) is None,
        },
{
    serde_json::from_slice(bytes)
}

/// The outermost layer of a document.
enum JsonNode {
    Null,
    Bool(bool),
    Number,
    Text(String),
    List(Vec<serde_json::Value>),
    Object(Vec<(String, serde_json::Value)>),
}

/// The document that a layer and what lies below it stand for.
spec fn node_tree(node: JsonNode) -> JsonView {
    match node {
        JsonNode::Null => JsonView::Null,
        JsonNode::Bool(b) => JsonView::Bool(b),
        JsonNode::Number => JsonView::Number,
        JsonNode::Text(s) => JsonView::Text(s@),
        JsonNode::List(items) => JsonView::List(
            items@.map_values(|v: serde_json::Value| json_tree(v)),
        ),
        JsonNode::Object(members) => JsonView::Object(
            members@.map_values(|m: (String, serde_json::Value)| (m.0@, json_tree(m.1))),
        ),
    }
}

/// Takes a `serde_json::Value` apart by its variants. What the variant holds is
/// handed on as it is; a `serde_json::Map` becomes the list of its members.
#[verifier::external_body]
fn json_node(value: serde_json::Value) -> (node: JsonNode)
    ensures
        node_tree(node) == json_tree(value),
{
    match value {
        serde_json::Value::Null => JsonNode::Null,
        serde_json::Value::Bool(b) => JsonNode::Bool(b),
        serde_json::Value::Number(_) => JsonNode::Number,
        serde_json::Value::String(s) => JsonNode::Text(s),
        serde_json::Value::Array(items) => JsonNode::List(items),
        serde_json::Value::Object(members) => JsonNode::Object(members.into_iter().collect()),
    }
}

/// The document that a `serde_json::Value` holds.
pub fn json_value(value: serde_json::Value) -> (v: JsonValue)
    ensures
        v@ == json_tree(value),
    decreases json_tree(value),
{
    let node = json_node(value);
    match node {
        JsonNode::Null => JsonValue::Null,
        JsonNode::Bool(b) => JsonValue::Bool(b),
        JsonNode::Number => JsonValue::Number,
        JsonNode::Text(s) => JsonValue::Text(s),
        JsonNode::List(items) => {
            let ghost wanted = items@.map_values(|v: serde_json::Value| json_tree(v));
            let mut out: Vec<JsonValue> = Vec::new();
            for item in it: items
                invariant
                    it.seq() == items@,
                    wanted == items@.map_values(|v: serde_json::Value| json_tree(v)),
                    json_tree(value) == JsonView::List(wanted),
                    trees(out@) == wanted.take(it.index() as int),
            {
                let ghost i = it.index() as int;
                assert(wanted[i] == json_tree(item));
                assert(decreases_to!(json_tree(value) => json_tree(value)->List_0));
                assert(decreases_to!(wanted => wanted[i]));
                let ghost before = out@;
                let v = json_value(item);
                out.push(v);
                assert(out@.drop_last() == before);
                assert(wanted.take(i + 1) == wanted.take(i).push(wanted[i]));
            }
            assert(wanted.take(wanted.len() as int) == wanted);
            JsonValue::List(out)
        },
        JsonNode::Object(members) => {
            let ghost wanted = members@.map_values(
                |m: (String, serde_json::Value)| (m.0@, json_tree(m.1)),
            );
            let mut out: Vec<(String, JsonValue)> = Vec::new();
            for member in it: members
                invariant
                    it.seq() == members@,
                    wanted == members@.map_values(
                        |m: (String, serde_json::Value)| (m.0@, json_tree(m.1)),
                    ),
                    json_tree(value) == JsonView::Object(wanted),
                    member_trees(out@) == wanted.take(it.index() as int),
            {
                let ghost i = it.index() as int;
                assert(wanted[i] == (member.0@, json_tree(member.1)));
                assert(decreases_to!(json_tree(value) => json_tree(value)->Object_0));
                assert(decreases_to!(wanted => wanted[i]));
                assert(decreases_to!(wanted[i] => wanted[i].1));
                let ghost before = out@;
                let (key, below) = member;
                let v = json_value(below);
                out.push((key, v));
                assert(out@.drop_last() == before);
                assert(wanted.take(i + 1) == wanted.take(i).push(wanted[i]));
            }
            assert(wanted.take(wanted.len() as int) == wanted);
            JsonValue::Object(out)
        },
    }
}

/// The document that the bytes of a text hold.
pub open spec fn text_document(s: Seq<char>) -> Option<JsonView> {
    json_document(encode_utf8(s))
}

/// The document that a text holds.
pub fn parse_text(s: &str) -> (r: Option<JsonValue>)
    ensures
        match r {
            Some(v) => text_document(s@) == Some(v@),
            None => text_document(s@) is None,
        },
{
    match from_slice(s.as_bytes()) {
        Ok(value) => Some(json_value(value)),
        Err(_) => None,
    }
}

/// Whether `serde_json` finds a text to be JSON when it keeps nothing of it:
/// numbers may be of any size, and lists and objects of any depth.
pub uninterp spec fn json_syntax(s: Seq<char>) -> bool;

/// Calls `serde_json::from_str` for a `serde::de::IgnoredAny`, which is read by
/// skipping one value. Whether that succeeds depends on the text alone.
#[verifier::external_body]
pub(crate) fn is_json(s: &str) -> (r: bool)
    ensures
        r == json_syntax(s@),
{
    serde_json::from_str::<serde::de::IgnoredAny>(s).is_ok()
}

/// The document that bytes hold.
pub fn parse_json(bytes: &Vec<u8>) -> (r: Option<JsonValue>)
    ensures
        match r {
            Some(v) => json_document(bytes@) == Some(v@),
            None => json_document(bytes@) is None,
        },
{
    match from_slice(bytes.as_slice()) {
        Ok(value) => Some(json_value(value)),
        Err(_) => None,
    }
}

/// The first member with this key, at or after `i`.
pub open spec fn member_from(
    members: Seq<(Seq<char>, JsonView)>,
    key: Seq<char>,
    i: int,
) -> Option<JsonView>
    decreases members.len() - i,
{
    if i < 0 || i >= members.len() {
        None
    } else if members[i].0 == key {
        Some(members[i].1)
    } else {
        member_from(members, key, i + 1)
    }
}

impl JsonView {
    /// The member of an object under a key.
    pub open spec fn member(self, key: Seq<char>) -> Option<JsonView> {
        match self {
            JsonView::Object(members) => member_from(members, key, 0),
            _ => None,
        }
    }

    /// An item of a list.
    pub open spec fn item(self, i: int) -> Option<JsonView> {
        match self {
            JsonView::List(items) => if 0 <= i < items.len() {
                Some(items[i])
            } else {
                None
            },
            _ => None,
        }
    }

    pub open spec fn as_text(self) -> Option<Seq<char>> {
        match self {
            JsonView::Text(s) => Some(s),
            _ => None,
        }
    }

    pub open spec fn as_flag(self) -> Option<bool> {
        match self {
            JsonView::Bool(b) => Some(b),
            _ => None,
        }
    }

    /// The text of the member under a key.
    pub open spec fn member_text(self, key: Seq<char>) -> Option<Seq<char>> {
        match self.member(key) {
            Some(v) => v.as_text(),
            None => None,
        }
    }
}

impl JsonValue {
    /// The member of an object under a key.
    pub fn get(&self, key: &str) -> (r: Option<&JsonValue>)
        ensures
            match r {
                Some(v) => self@.member(key@) == Some(v@),
                None => self@.member(key@) is None,
            },
    {
        match self {
            JsonValue::Object(members) => {
                let ghost all = member_trees(members@);
                proof {
                    lemma_member_trees(members@);
                }
                for i in 0..members.len()
                    invariant
                        self@ == JsonView::Object(all),
                        all.len() == members@.len(),
                        forall|j: int|
                            0 <= j < members@.len() ==> #[trigger] all[j] == (
                                members@[j].0@,
                                members@[j].1@,
                            ),
                        member_from(all, key@, 0) == member_from(all, key@, i as int),
                {
                    assert(all[i as int] == (members@[i as int].0@, members@[i as int].1@));
                    if text::same(members[i].0.as_str(), key) {
                        return Some(&members[i].1);
                    }
                }
                None
            },
            _ => None,
        }
    }

    /// An item of a list.
    pub fn at(&self, i: usize) -> (r: Option<&JsonValue>)
        ensures
            match r {
                Some(v) => self@.item(i as int) == Some(v@),
                None => self@.item(i as int) is None,
            },
    {
        match self {
            JsonValue::List(items) => {
                proof {
                    lemma_trees(items@);
                }
                if i < items.len() {
                    Some(&items[i])
                } else {
                    None
                }
            },
            _ => None,
        }
    }

    pub fn as_str(&self) -> (r: Option<&String>)
        ensures
            match r {
                Some(s) => self@.as_text() == Some(s@),
                None => self@.as_text() is None,
            },
    {
        match self {
            JsonValue::Text(s) => Some(s),
            _ => None,
        }
    }

    pub fn as_bool(&self) -> (r: Option<bool>)
        ensures
            r == self@.as_flag(),
    {
        match self {
            JsonValue::Bool(b) => Some(*b),
            _ => None,
        }
    }

    /// The text of the member under a key.
    pub fn get_str(&self, key: &str) -> (r: Option<&String>)
        ensures
            match r {
                Some(s) => self@.member_text(key@) == Some(s@),
                None => self@.member_text(key@) is None,
            },
    {
        match self.get(key) {
            Some(v) => v.as_str(),
            None => None,
        }
    }
}

/// A member is found by its key, wherever in the object it stands: it is the
/// first with that key. What is no object has no members.
pub proof fn law_members_are_found_by_their_key(
    before: Seq<(Seq<char>, JsonView)>,
    key: Seq<char>,
    v: JsonView,
    after: Seq<(Seq<char>, JsonView)>,
)
    requires
        forall|i: int| 0 <= i < before.len() ==> (#[trigger] before[i]).0 != key,
    ensures
        JsonView::Object(before.push((key, v)) + after).member(key) == Some(v),
        JsonView::Object(before).member(key) is None,
        !(v is Object) ==> v.member(key) is None,
{
    let all = before.push((key, v)) + after;
    assert forall|i: int| 0 <= i < before.len() implies (#[trigger] all[i]).0 != key by {
        assert(all[i] == before[i]);
    }
    lemma_member_skips(all, key, 0, before.len() as int);
    assert(all[before.len() as int] == (key, v));
    lemma_member_skips(before, key, 0, before.len() as int);
}

proof fn lemma_member_skips(
    members: Seq<(Seq<char>, JsonView)>,
    key: Seq<char>,
    i: int,
    n: int,
)
    requires
        0 <= i <= n <= members.len(),
        forall|j: int| i <= j < n ==> (#[trigger] members[j]).0 != key,
    ensures
        member_from(members, key, i) == member_from(members, key, n),
    decreases n - i,
{
    if i < n {
        assert(members[i].0 != key);
        lemma_member_skips(members, key, i + 1, n);
    }
}

/// A value is read as what it is: a text as its characters, a boolean as
/// itself, an item of a list by its place, and nothing as anything else.
pub proof fn law_values_are_read_as_what_they_are(v: JsonView, t: Seq<char>, b: bool, i: int)
    ensures
        v.as_text() == Some(t) <==> v == JsonView::Text(t),
        v.as_flag() == Some(b) <==> v == JsonView::Bool(b),
        v.item(i) is Some <==> (v matches JsonView::List(items) && 0 <= i < items.len()),
        v matches JsonView::List(items) ==> 0 <= i < items.len() ==> v.item(i) == Some(items[i]),
{
}

} // verus!
