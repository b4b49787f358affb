//! What the limits on the `variables` of a request measure.
use vstd::prelude::*;

use crate::json;
use crate::json::JsonValue;
use crate::limits;

verus! {

/// Nesting depth of a value: one more than that of what it holds.
pub open spec fn json_depth(v: json::Json) -> nat
    decreases v,
{
    match v {
        json::Json::Array(items) => 1 + elements_depth(items),
        json::Json::Object(members) => 1 + members_depth(members),
        _ => 1,
    }
}

/// Depth of the deepest element.
pub open spec fn elements_depth(items: Seq<json::Json>) -> nat
    decreases items,
{
    if items.len() == 0 {
        0
    } else {
        proof {
            assert(decreases_to!(items => items[items.len() - 1]));
        }
        limits::max(elements_depth(items.drop_last()), json_depth(items.last()))
    }
}

/// Depth of the deepest member.
pub open spec fn members_depth(members: Seq<(Seq<char>, json::Json)>) -> nat
    decreases members,
{
    if members.len() == 0 {
        0
    } else {
        proof {
            assert(decreases_to!(members => members[members.len() - 1]));
        }
        limits::max(members_depth(members.drop_last()), json_depth(members.last().1))
    }
}

/// How many members the objects in a value have, all together.
pub open spec fn json_keys(v: json::Json) -> nat
    decreases v,
{
    match v {
        json::Json::Array(items) => elements_keys(items),
        json::Json::Object(members) => members.len() + members_keys(members),
        _ => 0,
    }
}

/// How many members the objects in the elements have.
pub open spec fn elements_keys(items: Seq<json::Json>) -> nat
    decreases items,
{
    if items.len() == 0 {
        0
    } else {
        proof {
            assert(decreases_to!(items => items[items.len() - 1]));
        }
        elements_keys(items.drop_last()) + json_keys(items.last())
    }
}

/// How many members the objects in the members have.
pub open spec fn members_keys(members: Seq<(Seq<char>, json::Json)>) -> nat
    decreases members,
{
    if members.len() == 0 {
        0
    } else {
        proof {
            assert(decreases_to!(members => members[members.len() - 1]));
        }
        members_keys(members.drop_last()) + json_keys(members.last().1)
    }
}

/// Length of the longest array in a value; zero where there is none.
pub open spec fn json_longest(v: json::Json) -> nat
    decreases v,
{
    match v {
        json::Json::Array(items) => limits::max(items.len(), elements_longest(items)),
        json::Json::Object(members) => members_longest(members),
        _ => 0,
    }
}

/// Length of the longest array in the elements.
pub open spec fn elements_longest(items: Seq<json::Json>) -> nat
    decreases items,
{
    if items.len() == 0 {
        0
    } else {
        proof {
            assert(decreases_to!(items => items[items.len() - 1]));
        }
        limits::max(elements_longest(items.drop_last()), json_longest(items.last()))
    }
}

/// Length of the longest array in the members.
pub open spec fn members_longest(members: Seq<(Seq<char>, json::Json)>) -> nat
    decreases members,
{
    if members.len() == 0 {
        0
    } else {
        proof {
            assert(decreases_to!(members => members[members.len() - 1]));
        }
        limits::max(members_longest(members.drop_last()), json_longest(members.last().1))
    }
}

/// What the limits look at in a `variables` value.
#[derive(Clone, Copy, Debug, PartialEq, Eq)]
pub struct VariablesStats {
    pub depth: usize,
    pub keys: usize,
    pub max_array_len: usize,
    /// Length of the value written as JSON.
    pub approx_bytes: usize,
}

/// The figures of a value, each one as far as a `usize` goes.
pub open spec fn stats_of(v: json::Json, approx_bytes: usize) -> VariablesStats {
    VariablesStats {
        depth: limits::capped(json_depth(v)) as usize,
        keys: limits::capped(json_keys(v)) as usize,
        max_array_len: limits::capped(json_longest(v)) as usize,
        approx_bytes,
    }
}

/// The figures of a value, the length as JSON included.
pub open spec fn measured(v: json::Json) -> VariablesStats {
    stats_of(v, limits::capped(json::json_written(v).len()) as usize)
}

/// A `variables` value.
#[derive(Debug)]
pub struct Variables {
    pub tree: JsonValue,
    /// Length of the value written as JSON.
    pub written: usize,
}

/// The tree is that value, and the length is that of the value written as JSON.
pub open spec fn stands_for(v: Option<Variables>, value: Option<json::Json>) -> bool {
    match (v, value) {
        (Some(v), Some(value)) => v.tree@ == value && v.written == json::json_written(value).len(),
        (None, None) => true,
        _ => false,
    }
}

/// Takes over a `variables` value.
pub(crate) fn variables_of(v: Option<serde_json::Value>) -> (r: Option<Variables>)
    ensures
        stands_for(r, json::held(v)),
{
    match v {
        Some(v) => match json::call_to_vec(&v) {
            Ok(bytes) => Some(Variables { tree: json::json_of(v), written: bytes.len() }),
            Err(_) => None,
        },
        None => None,
    }
}

/// `from` with what a value at nesting level `level` adds to it.
spec fn grown(
    from: VariablesStats,
    level: nat,
    depth: nat,
    keys: nat,
    longest: nat,
    to: VariablesStats,
) -> bool {
    &&& to.depth == limits::max(from.depth as nat, limits::capped((level + depth - 1) as nat))
    &&& to.keys == limits::capped(from.keys as nat + keys)
    &&& to.max_array_len == limits::max(from.max_array_len as nat, limits::capped(longest))
    &&& to.approx_bytes == from.approx_bytes
}

fn walk(v: &JsonValue, level: usize, out: &mut VariablesStats)
    requires
        level >= 1,
    ensures
        grown(
            *old(out),
            level as nat,
            json_depth(v@),
            json_keys(v@),
            json_longest(v@),
            *final(out),
        ),
    decreases v@,
{
    if level > out.depth {
        out.depth = level;
    }
    let ghost tree = v@;
    match v {
        JsonValue::Object(members) => {
            let ghost all = json::members_view(members@);
            out.keys = out.keys.saturating_add(members.len());
            let ghost start = *out;
            assert(all.take(0) =~= Seq::empty());
            for i in 0..members.len()
                invariant
                    level >= 1,
                    tree == v@,
                    all == json::members_view(members@),
                    tree == json::Json::Object(all),
                    out.depth == limits::max(
                        start.depth as nat,
                        limits::capped(level as nat + members_depth(all.take(i as int))),
                    ),
                    start.depth >= level,
                    out.keys == limits::capped(
                        start.keys as nat + members_keys(all.take(i as int)),
                    ),
                    out.max_array_len == limits::max(
                        start.max_array_len as nat,
                        limits::capped(members_longest(all.take(i as int))),
                    ),
                    out.approx_bytes == start.approx_bytes,
            {
                proof {
                    assert(decreases_to!(tree => tree->Object_0));
                    assert(decreases_to!(all => all[i as int]));
                    assert(decreases_to!(all[i as int] => all[i as int].1));
                    assert(all.take(i + 1).drop_last() =~= all.take(i as int));
                    assert(all.take(i + 1).last() == all[i as int]);
                    assert(json_depth(all[i as int].1) >= 1);
                }
                walk(&members[i].1, level.saturating_add(1), out);
            }
            assert(all.take(members@.len() as int) =~= all);
        },
        JsonValue::Array(items) => {
            let ghost all = json::elements_view(items@);
            if items.len() > out.max_array_len {
                out.max_array_len = items.len();
            }
            let ghost start = *out;
            assert(all.take(0) =~= Seq::empty());
            for i in 0..items.len()
                invariant
                    level >= 1,
                    tree == v@,
                    all == json::elements_view(items@),
                    tree == json::Json::Array(all),
                    out.depth == limits::max(
                        start.depth as nat,
                        limits::capped(level as nat + elements_depth(all.take(i as int))),
                    ),
                    start.depth >= level,
                    out.keys == limits::capped(
                        start.keys as nat + elements_keys(all.take(i as int)),
                    ),
                    out.max_array_len == limits::max(
                        start.max_array_len as nat,
                        limits::capped(elements_longest(all.take(i as int))),
                    ),
                    out.approx_bytes == start.approx_bytes,
            {
                proof {
                    assert(decreases_to!(tree => tree->Array_0));
                    assert(decreases_to!(all => all[i as int]));
                    assert(all.take(i + 1).drop_last() =~= all.take(i as int));
                    assert(all.take(i + 1).last() == all[i as int]);
                    assert(json_depth(all[i as int]) >= 1);
                }
                walk(&items[i], level.saturating_add(1), out);
            }
            assert(all.take(items@.len() as int) =~= all);
        },
        _ => {},
    }
}

/// Measures a `variables` value.
pub fn variables_stats(v: &Variables) -> (stats: VariablesStats)
    ensures
        stats == stats_of(v.tree@, v.written),
{
    let mut out = VariablesStats {
        depth: 0,
        keys: 0,
        max_array_len: 0,
        approx_bytes: v.written,
    };
    walk(&v.tree, 1, &mut out);
    out
}

/// What an element of an array shows of itself, the array shows too: it is deeper by at least one,
/// and has at least as many members and as long an array inside.
pub proof fn law_array_is_no_smaller_than_its_elements(items: Seq<json::Json>, i: int)
    requires
        0 <= i < items.len(),
    ensures
        json_depth(json::Json::Array(items)) >= 1 + json_depth(items[i]),
        json_keys(json::Json::Array(items)) >= json_keys(items[i]),
        json_longest(json::Json::Array(items)) >= json_longest(items[i]),
        json_longest(json::Json::Array(items)) >= items.len(),
    decreases items.len(),
{
    if i < items.len() - 1 {
        law_array_is_no_smaller_than_its_elements(items.drop_last(), i);
        lemma_element_longest(items.drop_last(), i);
    }
}

proof fn lemma_element_longest(items: Seq<json::Json>, i: int)
    requires
        0 <= i < items.len(),
    ensures
        elements_longest(items) >= json_longest(items[i]),
    decreases items.len(),
{
    if i < items.len() - 1 {
        lemma_element_longest(items.drop_last(), i);
    }
}

/// What a member of an object shows of itself, the object shows too: it is deeper by at least one,
/// and has at least one more member and as long an array inside.
pub proof fn law_object_is_no_smaller_than_its_members(
    members: Seq<(Seq<char>, json::Json)>,
    i: int,
)
    requires
        0 <= i < members.len(),
    ensures
        json_depth(json::Json::Object(members)) >= 1 + json_depth(members[i].1),
        json_keys(json::Json::Object(members)) >= 1 + json_keys(members[i].1),
        json_longest(json::Json::Object(members)) >= json_longest(members[i].1),
    decreases members.len(),
{
    if i < members.len() - 1 {
        law_object_is_no_smaller_than_its_members(members.drop_last(), i);
    }
}

/// A value in an array of its own is one deeper, has the same members, and its longest array is
/// no shorter than that one.
pub proof fn law_wrapping_adds_one_level(v: json::Json)
    ensures
        json_depth(json::Json::Array(seq![v])) == json_depth(v) + 1,
        json_keys(json::Json::Array(seq![v])) == json_keys(v),
        json_longest(json::Json::Array(seq![v])) == limits::max(1, json_longest(v)),
{
    let items = seq![v];
    let none = items.drop_last();
    assert(items.last() == v);
    assert(elements_depth(none) == 0 && elements_keys(none) == 0 && elements_longest(none) == 0);
    assert(elements_depth(items) == json_depth(v));
    assert(elements_keys(items) == json_keys(v));
    assert(elements_longest(items) == json_longest(v));
}

/// Every value is at least one deep, and exactly one where it holds no other value.
pub proof fn law_only_nesting_adds_depth(v: json::Json)
    ensures
        json_depth(v) >= 1,
        json_depth(v) == 1 <==> match v {
            json::Json::Array(items) => items.len() == 0,
            json::Json::Object(members) => members.len() == 0,
            _ => true,
        },
{
    match v {
        json::Json::Array(items) => if items.len() > 0 {
            law_array_is_no_smaller_than_its_elements(items, 0);
            assert(json_depth(items[0]) >= 1);
        },
        json::Json::Object(members) => if members.len() > 0 {
            law_object_is_no_smaller_than_its_members(members, 0);
            assert(json_depth(members[0].1) >= 1);
        },
        _ => {},
    }
}

/// How deep a value is: an array and an object are deeper by one than the deepest value in them,
/// and one deep where there is none in them; every other value is one deep.
pub proof fn law_depth_of_a_value(v: json::Json)
    ensures
        match v {
            json::Json::Array(items) => {
                &&& items.len() == 0 ==> json_depth(v) == 1
                &&& forall|i: int|
                    0 <= i < items.len() ==> json_depth(v) > json_depth(#[trigger] items[i])
                &&& items.len() > 0 ==> exists|i: int|
                    0 <= i < items.len() && json_depth(v) == json_depth(#[trigger] items[i]) + 1
            },
            json::Json::Object(members) => {
                &&& members.len() == 0 ==> json_depth(v) == 1
                &&& forall|i: int|
                    0 <= i < members.len() ==> json_depth(v) > json_depth((#[trigger] members[i]).1)
                &&& members.len() > 0 ==> exists|i: int|
                    0 <= i < members.len() && json_depth(v) == json_depth((#[trigger] members[i]).1)
                        + 1
            },
            _ => json_depth(v) == 1,
        },
{
    match v {
        json::Json::Array(items) => lemma_deepest_element(items),
        json::Json::Object(members) => lemma_deepest_member(members),
        _ => {},
    }
}

proof fn lemma_deepest_element(items: Seq<json::Json>)
    ensures
        forall|i: int|
            0 <= i < items.len() ==> json_depth(#[trigger] items[i]) <= elements_depth(items),
        items.len() > 0 ==> exists|i: int|
            0 <= i < items.len() && json_depth(#[trigger] items[i]) == elements_depth(items),
    decreases items.len(),
{
    if items.len() > 0 {
        let rest = items.drop_last();
        let last = items.len() - 1;
        lemma_deepest_element(rest);
        assert(json_depth(items[last]) >= 1);
        assert forall|i: int| 0 <= i < items.len() implies json_depth(#[trigger] items[i])
            <= elements_depth(items) by {
            if i < last {
                assert(rest[i] == items[i]);
            }
        }
        if elements_depth(items) != json_depth(items[last]) {
            let k = choose|k: int|
                0 <= k < rest.len() && json_depth(#[trigger] rest[k]) == elements_depth(rest);
            assert(items[k] == rest[k]);
        }
    }
}

proof fn lemma_deepest_member(members: Seq<(Seq<char>, json::Json)>)
    ensures
        forall|i: int|
            0 <= i < members.len() ==> json_depth((#[trigger] members[i]).1) <= members_depth(
                members,
            ),
        members.len() > 0 ==> exists|i: int|
            0 <= i < members.len() && json_depth((#[trigger] members[i]).1) == members_depth(
                members,
            ),
    decreases members.len(),
{
    if members.len() > 0 {
        let rest = members.drop_last();
        let last = members.len() - 1;
        lemma_deepest_member(rest);
        assert(json_depth(members[last].1) >= 1);
        assert forall|i: int| 0 <= i < members.len() implies json_depth((#[trigger] members[i]).1)
            <= members_depth(members) by {
            if i < last {
                assert(rest[i] == members[i]);
            }
        }
        if members_depth(members) != json_depth(members[last].1) {
            let k = choose|k: int|
                0 <= k < rest.len() && json_depth((#[trigger] rest[k]).1) == members_depth(rest);
            assert(members[k] == rest[k]);
        }
    }
}

/// How long the longest array in a value is: that of an array is its own length or that of the
/// longest array in one of its elements, whichever is more; that of an object is the longest in one
/// of its members, and zero where none of them has an array; every other value has none.
pub proof fn law_longest_array_of_a_value(v: json::Json)
    ensures
        match v {
            json::Json::Array(items) => {
                &&& json_longest(v) >= items.len()
                &&& forall|i: int|
                    0 <= i < items.len() ==> json_longest(v) >= json_longest(#[trigger] items[i])
                &&& json_longest(v) == items.len() || exists|i: int|
                    0 <= i < items.len() && json_longest(v) == json_longest(#[trigger] items[i])
            },
            json::Json::Object(members) => {
                &&& forall|i: int|
                    0 <= i < members.len() ==> json_longest(v) >= json_longest(
                        (#[trigger] members[i]).1,
                    )
                &&& json_longest(v) == 0 || exists|i: int|
                    0 <= i < members.len() && json_longest(v) == json_longest(
                        (#[trigger] members[i]).1,
                    )
            },
            _ => json_longest(v) == 0,
        },
{
    match v {
        json::Json::Array(items) => lemma_longest_element(items),
        json::Json::Object(members) => lemma_longest_member(members),
        _ => {},
    }
}

proof fn lemma_longest_element(items: Seq<json::Json>)
    ensures
        forall|i: int|
            0 <= i < items.len() ==> json_longest(#[trigger] items[i]) <= elements_longest(items),
        elements_longest(items) == 0 || exists|i: int|
            0 <= i < items.len() && json_longest(#[trigger] items[i]) == elements_longest(items),
    decreases items.len(),
{
    if items.len() > 0 {
        let rest = items.drop_last();
        let last = items.len() - 1;
        lemma_longest_element(rest);
        assert forall|i: int| 0 <= i < items.len() implies json_longest(#[trigger] items[i])
            <= elements_longest(items) by {
            if i < last {
                assert(rest[i] == items[i]);
            }
        }
        if elements_longest(items) != 0 && elements_longest(items) != json_longest(items[last]) {
            let k = choose|k: int|
                0 <= k < rest.len() && json_longest(#[trigger] rest[k]) == elements_longest(rest);
            assert(items[k] == rest[k]);
        }
    }
}

proof fn lemma_longest_member(members: Seq<(Seq<char>, json::Json)>)
    ensures
        forall|i: int|
            0 <= i < members.len() ==> json_longest((#[trigger] members[i]).1) <= members_longest(
                members,
            ),
        members_longest(members) == 0 || exists|i: int|
            0 <= i < members.len() && json_longest((#[trigger] members[i]).1) == members_longest(
                members,
            ),
    decreases members.len(),
{
    if members.len() > 0 {
        let rest = members.drop_last();
        let last = members.len() - 1;
        lemma_longest_member(rest);
        assert forall|i: int| 0 <= i < members.len() implies json_longest(
            (#[trigger] members[i]).1,
        ) <= members_longest(members) by {
            if i < last {
                assert(rest[i] == members[i]);
            }
        }
        if members_longest(members) != 0 && members_longest(members) != json_longest(
            members[last].1,
        ) {
            let k = choose|k: int|
                0 <= k < rest.len() && json_longest((#[trigger] rest[k]).1) == members_longest(
                    rest,
                );
            assert(members[k] == rest[k]);
        }
    }
}

/// How many members the objects in a value have: an array has those of its elements, an object one
/// for each member and those in the members; every other value has none.
pub proof fn law_members_add_up(
    v: json::Json,
    name: Seq<char>,
    a: Seq<json::Json>,
    b: Seq<json::Json>,
    x: Seq<(Seq<char>, json::Json)>,
    y: Seq<(Seq<char>, json::Json)>,
)
    ensures
        !(v is Array) && !(v is Object) ==> json_keys(v) == 0,
        json_keys(json::Json::Array(Seq::empty())) == 0,
        json_keys(json::Json::Object(Seq::empty())) == 0,
        json_keys(json::Json::Array(seq![v])) == json_keys(v),
        json_keys(json::Json::Object(seq![(name, v)])) == json_keys(v) + 1,
        json_keys(json::Json::Array(a + b)) == json_keys(json::Json::Array(a)) + json_keys(
            json::Json::Array(b),
        ),
        json_keys(json::Json::Object(x + y)) == json_keys(json::Json::Object(x)) + json_keys(
            json::Json::Object(y),
        ),
{
    law_wrapping_adds_one_level(v);
    let one = seq![(name, v)];
    assert(one.last() == (name, v));
    assert(members_keys(one.drop_last()) == 0);
    assert(members_keys(one) == json_keys(v));
    lemma_element_keys_add_up(a, b);
    lemma_member_keys_add_up(x, y);
}

proof fn lemma_element_keys_add_up(a: Seq<json::Json>, b: Seq<json::Json>)
    ensures
        elements_keys(a + b) == elements_keys(a) + elements_keys(b),
    decreases b.len(),
{
    if b.len() == 0 {
        assert(a + b =~= a);
    } else {
        assert((a + b).drop_last() =~= a + b.drop_last());
        lemma_element_keys_add_up(a, b.drop_last());
    }
}

proof fn lemma_member_keys_add_up(
    a: Seq<(Seq<char>, json::Json)>,
    b: Seq<(Seq<char>, json::Json)>,
)
    ensures
        members_keys(a + b) == members_keys(a) + members_keys(b),
    decreases b.len(),
{
    if b.len() == 0 {
        assert(a + b =~= a);
    } else {
        assert((a + b).drop_last() =~= a + b.drop_last());
        lemma_member_keys_add_up(a, b.drop_last());
    }
}

/// The figures of a value are its depth, its members, its longest array and its length as JSON,
/// each one as far as a `usize` goes.
pub proof fn law_figures_of_a_value(v: json::Json, approx_bytes: usize)
    ensures
        json_depth(v) <= usize::MAX ==> stats_of(v, approx_bytes).depth == json_depth(v),
        json_depth(v) > usize::MAX ==> stats_of(v, approx_bytes).depth == usize::MAX,
        json_keys(v) <= usize::MAX ==> stats_of(v, approx_bytes).keys == json_keys(v),
        json_keys(v) > usize::MAX ==> stats_of(v, approx_bytes).keys == usize::MAX,
        json_longest(v) <= usize::MAX ==> stats_of(v, approx_bytes).max_array_len == json_longest(
            v,
        ),
        json_longest(v) > usize::MAX ==> stats_of(v, approx_bytes).max_array_len == usize::MAX,
        stats_of(v, approx_bytes).approx_bytes == approx_bytes,
        json::json_written(v).len() <= usize::MAX ==> measured(v) == stats_of(
            v,
            json::json_written(v).len() as usize,
        ),
        json::json_written(v).len() > usize::MAX ==> measured(v) == stats_of(v, usize::MAX),
{
}

/// What stands for a `variables` value is its tree and its length as JSON, and nothing stands for
/// none.
pub proof fn law_what_stands_for_variables(v: Option<Variables>, value: Option<json::Json>)
    requires
        stands_for(v, value),
    ensures
        v is Some <==> value is Some,
        v is Some ==> v->0.tree@ == value->0 && v->0.written == json::json_written(value->0).len(),
{
}

} // verus!
