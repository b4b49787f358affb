//! JSON values: the library's own tree, and what `serde_json` reads and writes of it.
use vstd::prelude::*;

use crate::text;

verus! {

/// A JSON value. A number is kept as `serde_json` holds it.
pub enum Json {
    Null,
    Bool(bool),
    Number(serde_json::Number),
    Text(Seq<char>),
    Array(Seq<Json>),
    Object(Seq<(Seq<char>, Json)>),
}

/// A JSON value. The members of an object stand in the order of `serde_json`, no name twice.
#[derive(Debug)]
pub enum JsonValue {
    Null,
    Bool(bool),
    Number(serde_json::Number),
    Text(String),
    Array(Vec<JsonValue>),
    Object(Vec<(String, JsonValue)>),
}

/// The tree of a JSON value.
pub open spec fn json_view(v: JsonValue) -> Json
    decreases v,
{
    match v {
        JsonValue::Null => Json::Null,
        JsonValue::Bool(b) => Json::Bool(b),
        JsonValue::Number(n) => Json::Number(n),
        JsonValue::Text(s) => Json::Text(s@),
        JsonValue::Array(items) => Json::Array(elements_view(items@)),
        JsonValue::Object(members) => Json::Object(members_view(members@)),
    }
}

/// The trees of the elements of an array.
pub open spec fn elements_view(items: Seq<JsonValue>) -> Seq<Json>
    decreases items,
{
    Seq::new(
        items.len(),
        |i: int|
            if 0 <= i < items.len() {
                json_view(items[i])
            } else {
                arbitrary()
            },
    )
}

/// The trees of the members of an object.
pub open spec fn members_view(members: Seq<(String, JsonValue)>) -> Seq<(Seq<char>, Json)>
    decreases members,
{
    Seq::new(
        members.len(),
        |i: int|
            if 0 <= i < members.len() {
                (members[i].0@, json_view(members[i].1))
            } else {
                arbitrary()
            },
    )
}

impl View for JsonValue {
    type V = Json;

    open spec fn view(&self) -> Json {
        json_view(*self)
    }
}

/// A JSON value of `serde_json`; what it holds is [`json_held`].
#[verifier::external_type_specification]
#[verifier::external_body]
pub struct ExValue(serde_json::Value);

/// A JSON number of `serde_json`, which is only carried along.
#[verifier::external_type_specification]
#[verifier::external_body]
pub struct ExNumber(serde_json::Number);

/// The error of `serde_json`, of which nothing is claimed.
#[verifier::external_type_specification]
#[verifier::external_body]
pub struct ExError(serde_json::Error);

/// The JSON value that a `serde_json::Value` holds.
pub uninterp spec fn json_held(v: serde_json::Value) -> Json;

/// What `serde_json::from_slice` reads: a value, or nothing where the bytes are no JSON text.
pub uninterp spec fn json_in_bytes(text: Seq<u8>) -> Option<Json>;

/// What `serde_json::from_str` reads: a value, or nothing where the text is no JSON text.
pub uninterp spec fn json_in_text(text: Seq<char>) -> Option<Json>;

/// What `serde_json::to_vec` writes for a value.
pub uninterp spec fn json_written(v: Json) -> Seq<u8>;

/// Two values are the same, numbers aside.
pub open spec fn alike(a: Json, b: Json) -> bool
    decreases a,
{
    match (a, b) {
        (Json::Number(_), Json::Number(_)) => true,
        (Json::Array(x), Json::Array(y)) => x.len() == y.len() && forall|i: int|
            0 <= i < x.len() ==> alike(#[trigger] x[i], y[i]),
        (Json::Object(x), Json::Object(y)) => x.len() == y.len() && forall|i: int|
            0 <= i < x.len() ==> (#[trigger] x[i]).0 == y[i].0 && alike(x[i].1, y[i].1),
        _ => a == b,
    }
}

/// No object in the value has a member of the name that `serde_json` keeps for raw values. It
/// reads an object that begins with one as whatever JSON text the member is.
pub open spec fn no_reserved_name(v: Json) -> bool
    decreases v,
{
    match v {
        Json::Array(items) => forall|i: int|
            0 <= i < items.len() ==> no_reserved_name(#[trigger] items[i]),
        Json::Object(members) => forall|i: int|
            0 <= i < members.len() ==> (#[trigger] members[i]).0
                != "$serde_json::private::RawValue"@ && no_reserved_name(members[i].1),
        _ => true,
    }
}

/// The JSON value that a `serde_json::Value` holds, where there is one.
pub open spec fn held(v: Option<serde_json::Value>) -> Option<Json> {
    match v {
        Some(v) => Some(json_held(v)),
        None => None,
    }
}

/// A JSON value whose elements and members are still as `serde_json` holds them.
pub(crate) enum JsonNode {
    Null,
    Bool(bool),
    Number(serde_json::Number),
    Text(String),
    Array(Vec<serde_json::Value>),
    Object(Vec<(String, serde_json::Value)>),
}

pub(crate) open spec fn held_elements(items: Seq<serde_json::Value>) -> Seq<Json> {
    Seq::new(items.len(), |i: int| json_held(items[i]))
}

pub(crate) open spec fn held_members(members: Seq<(String, serde_json::Value)>) -> Seq<
    (Seq<char>, Json),
> {
    Seq::new(members.len(), |i: int| (members[i].0@, json_held(members[i].1)))
}

pub(crate) open spec fn node_view(node: JsonNode) -> Json {
    match node {
        JsonNode::Null => Json::Null,
        JsonNode::Bool(b) => Json::Bool(b),
        JsonNode::Number(n) => Json::Number(n),
        JsonNode::Text(s) => Json::Text(s@),
        JsonNode::Array(items) => Json::Array(held_elements(items@)),
        JsonNode::Object(members) => Json::Object(held_members(members@)),
    }
}

/// `serde_json::from_slice` into a `serde_json::Value`. The result depends on the bytes alone.
#[verifier::external_body]
pub(crate) fn call_from_slice(text: &[u8]) -> (r: Result<serde_json::Value, serde_json::Error>)
    ensures
        match r {
            Ok(v) => json_in_bytes(text@) == Some(json_held(v)),
            Err(_) => json_in_bytes(text@) is None,
        },
{
    serde_json::from_slice::<serde_json::Value>(text)
}

/// `serde_json::from_str` into a `serde_json::Value`. The result depends on the text alone.
#[verifier::external_body]
pub(crate) fn call_from_str(text: &str) -> (r: Result<serde_json::Value, serde_json::Error>)
    ensures
        match r {
            Ok(v) => json_in_text(text@) == Some(json_held(v)),
            Err(_) => json_in_text(text@) is None,
        },
{
    serde_json::from_str::<serde_json::Value>(text)
}

/// Takes a `serde_json::Value` apart by its variants. The members of an object come in the order
/// in which `serde_json::Map` walks them.
#[verifier::external_body]
pub(crate) fn open_value(v: serde_json::Value) -> (node: JsonNode)
    ensures
        node_view(node) == json_held(v),
{
    match v {
        serde_json::Value::Null => JsonNode::Null,
        serde_json::Value::Bool(b) => JsonNode::Bool(b),
        serde_json::Value::Number(n) => JsonNode::Number(n),
        serde_json::Value::String(s) => JsonNode::Text(s),
        serde_json::Value::Array(items) => JsonNode::Array(items),
        serde_json::Value::Object(members) => JsonNode::Object(members.into_iter().collect()),
    }
}

/// Takes over the JSON value that a `serde_json::Value` holds.
pub(crate) fn json_of(v: serde_json::Value) -> (r: JsonValue)
    ensures
        r@ == json_held(v),
    decreases json_held(v),
{
    let ghost tree = json_held(v);
    match open_value(v) {
        JsonNode::Null => JsonValue::Null,
        JsonNode::Bool(b) => JsonValue::Bool(b),
        JsonNode::Number(n) => JsonValue::Number(n),
        JsonNode::Text(s) => JsonValue::Text(s),
        JsonNode::Array(items) => {
            let ghost all = items@;
            let mut out: Vec<JsonValue> = Vec::new();
            assert(elements_view(out@) =~= held_elements(all).take(0));
            for item in iter: items.into_iter()
                invariant
                    tree == json_held(v),
                    tree == Json::Array(held_elements(all)),
                    iter.seq() == all,
                    elements_view(out@) == held_elements(all).take(iter.index() as int),
            {
                let ghost before = out@;
                let ghost k = iter.index() as int;
                proof {
                    assert(decreases_to!(tree => tree->Array_0));
                    assert(decreases_to!(tree->Array_0 => tree->Array_0[k]));
                    assert(held_elements(all).take(k + 1) =~= held_elements(all).take(k).push(
                        json_held(item),
                    ));
                }
                let value = json_of(item);
                out.push(value);
                assert(elements_view(out@) =~= elements_view(before).push(json_view(value)));
            }
            assert(held_elements(all).take(all.len() as int) =~= held_elements(all));
            JsonValue::Array(out)
        },
        JsonNode::Object(members) => {
            let ghost all = members@;
            let mut out: Vec<(String, JsonValue)> = Vec::new();
            assert(members_view(out@) =~= held_members(all).take(0));
            for member in iter: members.into_iter()
                invariant
                    tree == json_held(v),
                    tree == Json::Object(held_members(all)),
                    iter.seq() == all,
                    members_view(out@) == held_members(all).take(iter.index() as int),
            {
                let ghost before = out@;
                let ghost k = iter.index() as int;
                proof {
                    assert(decreases_to!(tree => tree->Object_0));
                    assert(decreases_to!(tree->Object_0 => tree->Object_0[k]));
                    assert(decreases_to!(tree->Object_0[k] => tree->Object_0[k].1));
                    assert(held_members(all).take(k + 1) =~= held_members(all).take(k).push(
                        (member.0@, json_held(member.1)),
                    ));
                }
                let name = member.0;
                let value = json_of(member.1);
                out.push((name, value));
                assert(members_view(out@) =~= members_view(before).push((name@, json_view(value))));
            }
            assert(held_members(all).take(all.len() as int) =~= held_members(all));
            JsonValue::Object(out)
        },
    }
}

/// Where the member of that name stands among the members of an object.
pub open spec fn member_at(members: Seq<(Seq<char>, Json)>, name: Seq<char>) -> Option<int>
    decreases members.len(),
{
    if members.len() == 0 {
        None
    } else if members.last().0 == name {
        Some(members.len() - 1)
    } else {
        member_at(members.drop_last(), name)
    }
}

/// The member of that name, where the value is an object and has one.
pub open spec fn member(v: Json, name: Seq<char>) -> Option<Json> {
    match v {
        Json::Object(members) => match member_at(members, name) {
            Some(i) => Some(members[i].1),
            None => None,
        },
        _ => None,
    }
}

/// The value with another member in place of the one of that name. A value without such a member
/// stays as it is.
pub open spec fn with_member(v: Json, name: Seq<char>, new: Json) -> Json {
    match v {
        Json::Object(members) => match member_at(members, name) {
            Some(i) => Json::Object(members.update(i, (name, new))),
            None => v,
        },
        _ => v,
    }
}

/// The text that a value is, where it is one.
pub open spec fn as_text(v: Option<Json>) -> Option<Seq<char>> {
    match v {
        Some(Json::Text(s)) => Some(s),
        _ => None,
    }
}

/// A found member has that name and is the last one of that name; where none is found there is
/// none of that name.
pub proof fn lemma_member_at(members: Seq<(Seq<char>, Json)>, name: Seq<char>)
    ensures
        match member_at(members, name) {
            Some(i) => {
                &&& 0 <= i < members.len()
                &&& members[i].0 == name
                &&& forall|j: int| i < j < members.len() ==> (#[trigger] members[j]).0 != name
            },
            None => forall|j: int| 0 <= j < members.len() ==> (#[trigger] members[j]).0 != name,
        },
    decreases members.len(),
{
    if members.len() > 0 && members.last().0 != name {
        let rest = members.drop_last();
        lemma_member_at(rest, name);
        assert forall|j: int| 0 <= j < members.len() - 1 implies #[trigger] members[j]
            == rest[j] by {}
        match member_at(rest, name) {
            Some(i) => {
                assert(members[i] == rest[i]);
                assert forall|j: int| i < j < members.len() implies (#[trigger] members[j]).0
                    != name by {
                    if j < members.len() - 1 {
                        assert(rest[j].0 != name);
                    }
                }
            },
            None => {
                assert forall|j: int| 0 <= j < members.len() implies (#[trigger] members[j]).0
                    != name by {
                    if j < members.len() - 1 {
                        assert(rest[j].0 != name);
                    }
                }
            },
        }
    }
}

/// A replaced member reads as what it was replaced by, replacing it once more forgets the first
/// replacement, and replacing it by itself changes nothing.
pub proof fn lemma_with_member(v: Json, name: Seq<char>, a: Json, b: Json)
    requires
        member(v, name) is Some,
    ensures
        member(with_member(v, name, a), name) == Some(a),
        with_member(with_member(v, name, a), name, b) == with_member(v, name, b),
        with_member(v, name, member(v, name)->0) == v,
{
    if let Json::Object(members) = v {
        lemma_member_at(members, name);
        let i = member_at(members, name)->0;
        let with_a = members.update(i, (name, a));
        lemma_member_at(with_a, name);
        let j = member_at(with_a, name)->0;
        assert(with_a[i].0 == name);
        if i < j {
            assert(with_a[j] == members[j]);
        }
        assert(with_a.update(i, (name, b)) =~= members.update(i, (name, b)));
        assert(members.update(i, (name, members[i].1)) =~= members);
    }
}

/// Replacing a member leaves those of other names as they are.
pub proof fn lemma_other_member(v: Json, name: Seq<char>, new: Json, other: Seq<char>)
    requires
        name != other,
    ensures
        member(with_member(v, name, new), other) == member(v, other),
{
    if let Json::Object(members) = v {
        lemma_member_at(members, name);
        if let Some(i) = member_at(members, name) {
            lemma_member_at_update(members, i, (name, new), other);
        }
    }
}

proof fn lemma_member_at_update(
    members: Seq<(Seq<char>, Json)>,
    i: int,
    new: (Seq<char>, Json),
    other: Seq<char>,
)
    requires
        0 <= i < members.len(),
        members[i].0 == new.0,
        new.0 != other,
    ensures
        member_at(members.update(i, new), other) == member_at(members, other),
        member_at(members, other) matches Some(k) ==> 0 <= k < members.len() && k != i,
    decreases members.len(),
{
    let updated = members.update(i, new);
    let last = members.len() - 1;
    lemma_member_at(members, other);
    if i < last {
        assert(updated.drop_last() =~= members.drop_last().update(i, new));
        lemma_member_at_update(members.drop_last(), i, new, other);
    } else {
        assert(updated.drop_last() =~= members.drop_last());
    }
}

/// Every value is like itself.
pub proof fn lemma_alike_itself(v: Json)
    ensures
        alike(v, v),
    decreases v,
{
    match v {
        Json::Array(items) => {
            assert forall|i: int| 0 <= i < items.len() implies alike(
                #[trigger] items[i],
                items[i],
            ) by {
                assert(decreases_to!(v => v->Array_0));
                assert(decreases_to!(items => items[i]));
                lemma_alike_itself(items[i]);
            }
        },
        Json::Object(members) => {
            assert forall|i: int| 0 <= i < members.len() implies alike(
                (#[trigger] members[i]).1,
                members[i].1,
            ) by {
                assert(decreases_to!(v => v->Object_0));
                assert(decreases_to!(members => members[i]));
                assert(decreases_to!(members[i] => members[i].1));
                lemma_alike_itself(members[i].1);
            }
        },
        _ => {},
    }
}

proof fn lemma_same_names(
    a: Seq<(Seq<char>, Json)>,
    b: Seq<(Seq<char>, Json)>,
    name: Seq<char>,
)
    requires
        a.len() == b.len(),
        forall|i: int| 0 <= i < a.len() ==> (#[trigger] a[i]).0 == b[i].0,
    ensures
        member_at(a, name) == member_at(b, name),
    decreases a.len(),
{
    if a.len() > 0 {
        assert(a[a.len() - 1].0 == b[a.len() - 1].0);
        assert forall|i: int| 0 <= i < a.len() - 1 implies (#[trigger] a.drop_last()[i]).0
            == b.drop_last()[i].0 by {
            assert(a[i].0 == b[i].0);
        }
        lemma_same_names(a.drop_last(), b.drop_last(), name);
    }
}

/// Values that are alike have members that are alike.
pub proof fn lemma_alike_members(a: Json, b: Json, name: Seq<char>)
    requires
        alike(a, b),
    ensures
        match (member(a, name), member(b, name)) {
            (Some(x), Some(y)) => alike(x, y),
            (None, None) => true,
            _ => false,
        },
        as_text(member(a, name)) == as_text(member(b, name)),
{
    if let Json::Object(x) = a {
        if let Json::Object(y) = b {
            lemma_same_names(x, y, name);
            lemma_member_at(x, name);
            if let Some(i) = member_at(x, name) {
                assert(alike(x[i].1, y[i].1));
            }
        }
    }
}

/// Replacing a member brings in no reserved name that the new member does not have.
pub proof fn lemma_with_member_reserves_nothing(v: Json, name: Seq<char>, new: Json)
    requires
        no_reserved_name(v),
        no_reserved_name(new),
    ensures
        no_reserved_name(with_member(v, name, new)),
{
    if let Json::Object(members) = v {
        lemma_member_at(members, name);
        if let Some(k) = member_at(members, name) {
            let updated = members.update(k, (name, new));
            assert forall|i: int| 0 <= i < updated.len() implies (#[trigger] updated[i]).0
                != "$serde_json::private::RawValue"@ && no_reserved_name(updated[i].1) by {
                assert(members[i].0 != "$serde_json::private::RawValue"@);
            }
        }
    }
}

/// What a member holds has no reserved name where the whole has none.
pub proof fn lemma_member_reserves_nothing(v: Json, name: Seq<char>)
    requires
        no_reserved_name(v),
    ensures
        member(v, name) matches Some(m) ==> no_reserved_name(m),
{
    if let Json::Object(members) = v {
        lemma_member_at(members, name);
        if let Some(k) = member_at(members, name) {
            assert(members[k].0 != "$serde_json::private::RawValue"@);
        }
    }
}

/// `serde_json::Value::get` with a member name, cloned: the member of that name, where the value
/// is an object and has one. An object of `serde_json` has no name twice.
#[verifier::external_body]
pub(crate) fn call_get(v: &serde_json::Value, name: &str) -> (r: Option<serde_json::Value>)
    ensures
        match r {
            Some(m) => member(json_held(*v), name@) == Some(json_held(m)),
            None => member(json_held(*v), name@) is None,
        },
{
    v.get(name).cloned()
}

/// `serde_json::to_vec` of a `serde_json::Value`. It succeeds, since the keys of an object are
/// strings and writing into a vector does not fail, and the result depends on the value alone.
/// Where `serde_json::from_slice` reads the bytes it reads the same value, unless a name in it is
/// reserved; of numbers nothing is claimed, since a float can come back as its neighbour.
#[verifier::external_body]
pub(crate) fn call_to_vec(v: &serde_json::Value) -> (r: Result<Vec<u8>, serde_json::Error>)
    ensures
        match r {
            Ok(bytes) => {
                &&& bytes@ == json_written(json_held(*v))
                &&& no_reserved_name(json_held(*v)) ==> match json_in_bytes(bytes@) {
                    Some(w) => alike(w, json_held(*v)),
                    None => true,
                }
            },
            Err(_) => false,
        },
{
    serde_json::to_vec(v)
}

/// Assignment through `serde_json::Value`'s `IndexMut`: puts a text in the place of
/// `[outer][index][inner]`. That the place is there keeps the indexing from panicking and from
/// inserting.
#[verifier::external_body]
pub(crate) fn call_set_text(
    v: &mut serde_json::Value,
    outer: &str,
    index: usize,
    inner: &str,
    text: String,
)
    requires
        member(json_held(*old(v)), outer@) matches Some(Json::Array(items)) && index < items.len()
            && member(items[index as int], inner@) is Some,
    ensures
        member(json_held(*old(v)), outer@) matches Some(Json::Array(items)) && json_held(*final(v))
            == with_member(
            json_held(*old(v)),
            outer@,
            Json::Array(
                items.update(
                    index as int,
                    with_member(items[index as int], inner@, Json::Text(text@)),
                ),
            ),
        ),
{
    v[outer][index][inner] = serde_json::Value::String(text);
}

/// The value that a text holds as JSON, as `serde_json` holds it.
pub(crate) fn read_text(text: &str) -> (r: Option<serde_json::Value>)
    ensures
        held(r) == json_in_text(text@),
{
    match call_from_str(text) {
        Ok(v) => Some(v),
        Err(_) => None,
    }
}

/// The value that a text holds as JSON.
pub fn parse_text(text: &str) -> (r: Option<JsonValue>)
    ensures
        match r {
            Some(v) => json_in_text(text@) == Some(v@),
            None => json_in_text(text@) is None,
        },
{
    match read_text(text) {
        Some(v) => Some(json_of(v)),
        None => None,
    }
}

/// The value that bytes hold as JSON.
pub fn parse_bytes(text: &[u8]) -> (r: Option<JsonValue>)
    ensures
        match r {
            Some(v) => json_in_bytes(text@) == Some(v@),
            None => json_in_bytes(text@) is None,
        },
{
    match call_from_slice(text) {
        Ok(v) => Some(json_of(v)),
        Err(_) => None,
    }
}

/// The member of that name.
pub fn find_member<'a>(v: &'a JsonValue, name: &str) -> (r: Option<&'a JsonValue>)
    ensures
        match r {
            Some(m) => member(v@, name@) == Some(m@),
            None => member(v@, name@) is None,
        },
{
    if let JsonValue::Object(members) = v {
        let ghost all = members_view(members@);
        let mut i: usize = members.len();
        assert(all.take(all.len() as int) =~= all);
        while i > 0
            invariant
                v@ == Json::Object(all),
                all == members_view(members@),
                i <= all.len(),
                member_at(all, name@) == member_at(all.take(i as int), name@),
            decreases i,
        {
            i -= 1;
            assert(all.take(i + 1).drop_last() =~= all.take(i as int));
            assert(all.take(i + 1).last() == all[i as int]);
            if text::same_text(members[i].0.as_str(), name) {
                return Some(&members[i].1);
            }
        }
    }
    None
}

/// The text that the member of that name is.
pub fn text_member(v: &JsonValue, name: &str) -> (r: Option<String>)
    ensures
        match r {
            Some(s) => as_text(member(v@, name@)) == Some(s@),
            None => as_text(member(v@, name@)) is None,
        },
{
    match find_member(v, name) {
        Some(JsonValue::Text(s)) => Some(s.clone()),
        _ => None,
    }
}

/// The member of a name is the last one of that name; an object without one, and a value that is no
/// object, has none.
pub proof fn law_last_member_of_a_name_counts(v: Json, name: Seq<char>, m: Json)
    ensures
        member(v, name) == Some(m) <==> v is Object && exists|i: int|
            0 <= i < v->Object_0.len() && #[trigger] v->Object_0[i] == (name, m) && forall|j: int|
                i < j < v->Object_0.len() ==> (#[trigger] v->Object_0[j]).0 != name,
        member(v, name) is None <==> (v is Object ==> forall|j: int|
            0 <= j < v->Object_0.len() ==> (#[trigger] v->Object_0[j]).0 != name),
{
    if let Json::Object(members) = v {
        lemma_member_at(members, name);
        if let Some(k) = member_at(members, name) {
            assert(members[k] == (name, members[k].1));
            if exists|i: int|
                0 <= i < members.len() && #[trigger] members[i] == (name, m) && forall|j: int|
                    i < j < members.len() ==> (#[trigger] members[j]).0 != name {
                let i = choose|i: int|
                    0 <= i < members.len() && #[trigger] members[i] == (name, m) && forall|j: int|
                        i < j < members.len() ==> (#[trigger] members[j]).0 != name;
                assert(i == k);
            }
        }
    }
}

/// Replacing a member keeps all names and every other value in its place.
pub proof fn law_replacing_keeps_the_rest(v: Json, name: Seq<char>, new: Json)
    ensures
        member(v, name) is None ==> with_member(v, name, new) == v,
        member(v, name) is Some ==> {
            &&& with_member(v, name, new) is Object
            &&& with_member(v, name, new)->Object_0.len() == v->Object_0.len()
            &&& forall|i: int|
                0 <= i < v->Object_0.len() ==> {
                    let (n, w) = #[trigger] with_member(v, name, new)->Object_0[i];
                    &&& n == v->Object_0[i].0
                    &&& n != name ==> w == v->Object_0[i].1
                }
            &&& member(with_member(v, name, new), name) == Some(new)
        },
{
    if let Json::Object(members) = v {
        lemma_member_at(members, name);
        if member(v, name) is Some {
            lemma_with_member(v, name, new, new);
        }
    }
}

/// A value is a text where it is that text, and nothing else is one.
pub proof fn law_only_texts_are_texts(v: Option<Json>, s: Seq<char>)
    ensures
        as_text(v) == Some(s) <==> v == Some(Json::Text(s)),
{
}

/// The tree of a value has its texts, its elements and its members, one for one and in order.
pub proof fn law_view_of_a_value(v: JsonValue)
    ensures
        match v {
            JsonValue::Null => v@ == Json::Null,
            JsonValue::Bool(b) => v@ == Json::Bool(b),
            JsonValue::Number(n) => v@ == Json::Number(n),
            JsonValue::Text(s) => v@ == Json::Text(s@),
            JsonValue::Array(items) => v@ is Array && v@->Array_0.len() == items@.len() && forall|
                i: int,
            |
                0 <= i < items@.len() ==> v@->Array_0[i] == (#[trigger] items@[i])@,
            JsonValue::Object(members) => v@ is Object && v@->Object_0.len() == members@.len()
                && forall|i: int|
                0 <= i < members@.len() ==> v@->Object_0[i] == (
                    (#[trigger] members@[i]).0@,
                    members@[i].1@,
                ),
        },
{
}

} // verus!
