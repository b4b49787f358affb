//! Removal of "Did you mean" clauses from the error messages of a GraphQL response.
use vstd::prelude::*;

use crate::json;
use crate::json::JsonValue;
use crate::text;

verus! {

/// Where the trailing clause of a message begins: at the first " Did you mean" that is set off from
/// what comes before it, and where there is none at the first "did you mean".
pub open spec fn trailing_clause_at(message: Seq<char>) -> Option<int> {
    match text::first_occurrence(message, " Did you mean"@) {
        Some(at) => Some(at),
        None => text::first_occurrence(message, "did you mean"@),
    }
}

/// The smaller of two indices, where there are two.
pub open spec fn earlier(a: Option<int>, b: Option<int>) -> Option<int> {
    match (a, b) {
        (Some(x), Some(y)) => Some(
            if x <= y {
                x
            } else {
                y
            },
        ),
        (Some(x), None) => Some(x),
        (None, y) => y,
    }
}

/// Where a message is cut: at its trailing clause, or before that at a "Did you mean" that no space
/// sets off.
pub open spec fn suggestion_at(message: Seq<char>) -> Option<int> {
    earlier(trailing_clause_at(message), text::first_occurrence(message, "Did you mean"@))
}

/// The text without the white space at its end.
pub open spec fn trimmed_end(s: Seq<char>) -> Seq<char>
    decreases s.len(),
{
    if s.len() > 0 && text::white_space(s.last()) {
        trimmed_end(s.drop_last())
    } else {
        s
    }
}

/// What is left of a message that has a suggestion clause: all before the clause, without white
/// space at its end.
pub open spec fn stripped_message(message: Seq<char>) -> Option<Seq<char>> {
    match suggestion_at(message) {
        Some(at) => Some(trimmed_end(message.take(at))),
        None => None,
    }
}

/// The new `message` of an error whose message has a suggestion clause.
pub open spec fn new_message(error: json::Json) -> Option<Seq<char>> {
    match json::as_text(json::member(error, "message"@)) {
        Some(s) => stripped_message(s),
        None => None,
    }
}

/// An error without the suggestion clause of its message.
pub open spec fn stripped_error(error: json::Json) -> json::Json {
    match new_message(error) {
        Some(s) => json::with_member(error, "message"@, json::Json::Text(s)),
        None => error,
    }
}

/// The errors without suggestion clauses.
pub open spec fn stripped_errors(errors: Seq<json::Json>) -> Seq<json::Json> {
    errors.map_values(|e: json::Json| stripped_error(e))
}

/// One of the errors has a suggestion clause.
pub open spec fn any_suggestion(errors: Seq<json::Json>) -> bool {
    exists|i: int| 0 <= i < errors.len() && new_message(#[trigger] errors[i]) is Some
}

/// A response without suggestion clauses; nothing where it has none to begin with.
pub open spec fn stripped_response(v: json::Json) -> Option<json::Json> {
    match json::member(v, "errors"@) {
        Some(json::Json::Array(errors)) => if any_suggestion(errors) {
            Some(json::with_member(v, "errors"@, json::Json::Array(stripped_errors(errors))))
        } else {
            None
        },
        _ => None,
    }
}

/// Whether `needle` stands in `hay` with its first character at index `at`.
fn stands_at(hay: &[char], needle: &[char], at: usize) -> (r: bool)
    requires
        at + needle@.len() <= hay@.len(),
    ensures
        r == text::occurs_at(hay@, needle@, at as int),
{
    let ghost part = hay@.subrange(at as int, at + needle@.len());
    let len: usize = hay.len();
    for i in 0..needle.len()
        invariant
            at + needle@.len() <= hay@.len(),
            len == hay@.len(),
            part == hay@.subrange(at as int, at + needle@.len()),
            forall|j: int| 0 <= j < i ==> part[j] == needle@[j],
    {
        if hay[at + i] != needle[i] {
            assert(part[i as int] != needle@[i as int]);
            return false;
        }
    }
    assert(part =~= needle@);
    true
}

/// The index of the first occurrence of `needle` in `hay`.
fn find_chars(hay: &[char], needle: &[char]) -> (r: Option<usize>)
    ensures
        match r {
            Some(at) => text::first_occurrence(hay@, needle@) == Some(at as int),
            None => text::first_occurrence(hay@, needle@) is None,
        },
        r matches Some(at) ==> at <= hay@.len(),
{
    if needle.len() > hay.len() {
        return None;
    }
    let last: usize = hay.len() - needle.len();
    let mut at: usize = 0;
    while at <= last
        invariant
            last + needle@.len() == hay@.len(),
            at <= last + 1,
            text::first_occurrence(hay@, needle@) == text::first_from(hay@, needle@, at as int),
        decreases last + 1 - at,
    {
        if stands_at(hay, needle, at) {
            return Some(at);
        }
        if at == last {
            assert(text::first_from(hay@, needle@, at + 1) is None);
            return None;
        }
        at += 1;
    }
    None
}

/// How many of the first `len` characters are left without the white space at the end.
fn trimmed_len(chars: &[char], len: usize) -> (r: usize)
    requires
        len <= chars@.len(),
    ensures
        r <= len,
        chars@.take(r as int) == trimmed_end(chars@.take(len as int)),
{
    let mut n: usize = len;
    while n > 0 && chars[n - 1].is_whitespace()
        invariant
            n <= len <= chars@.len(),
            trimmed_end(chars@.take(len as int)) == trimmed_end(chars@.take(n as int)),
        decreases n,
    {
        assert(chars@.take(n as int).drop_last() =~= chars@.take(n - 1));
        n -= 1;
    }
    n
}

/// A message without its suggestion clause; nothing where it has none.
pub fn strip_suggestion(message: &str) -> (r: Option<String>)
    ensures
        (match r {
            Some(s) => Some(s@),
            None => None,
        }) == stripped_message(message@),
{
    let chars = text::chars_of(message);
    let spaced = text::chars_of(" Did you mean");
    let upper = text::chars_of("Did you mean");
    let lower = text::chars_of("did you mean");
    let trailing = match find_chars(chars.as_slice(), spaced.as_slice()) {
        Some(at) => Some(at),
        None => find_chars(chars.as_slice(), lower.as_slice()),
    };
    let cut = match (trailing, find_chars(chars.as_slice(), upper.as_slice())) {
        (Some(a), Some(b)) => Some(
            if a <= b {
                a
            } else {
                b
            },
        ),
        (Some(a), None) => Some(a),
        (None, b) => b,
    };
    match cut {
        Some(at) => {
            let len: usize = trimmed_len(chars.as_slice(), at);
            Some(text::text_of(chars.as_slice(), len))
        },
        None => None,
    }
}

/// The new `message` of an error; nothing where it stays.
pub fn strip_error(error: &JsonValue) -> (r: Option<String>)
    ensures
        (match r {
            Some(s) => Some(s@),
            None => None,
        }) == new_message(error@),
{
    match json::text_member(error, "message") {
        Some(s) => strip_suggestion(s.as_str()),
        None => None,
    }
}

/// Takes the suggestion clauses out of a response; the flag tells whether there was one.
pub(crate) fn strip_response(v: serde_json::Value) -> (r: (serde_json::Value, bool))
    ensures
        r.1 == (stripped_response(json::json_held(v)) is Some),
        r.1 ==> stripped_response(json::json_held(v)) == Some(json::json_held(r.0)),
        !r.1 ==> r.0 == v,
{
    let ghost base = json::json_held(v);
    let errors = match json::call_get(&v, "errors") {
        Some(e) => json::json_of(e),
        None => {
            return (v, false);
        },
    };
    let items = match errors {
        JsonValue::Array(items) => items,
        _ => {
            return (v, false);
        },
    };
    let ghost all = json::elements_view(items@);
    let ghost stripped = stripped_errors(all);
    let mut out = v;
    let mut changed = false;
    proof {
        assert(stripped.take(0) + all.skip(0) =~= all);
        json::lemma_with_member(base, "errors"@, json::Json::Array(all), json::Json::Array(all));
    }
    for i in 0..items.len()
        invariant
            base == json::json_held(v),
            all == json::elements_view(items@),
            stripped == stripped_errors(all),
            json::member(base, "errors"@) == Some(json::Json::Array(all)),
            json::json_held(out) == json::with_member(
                base,
                "errors"@,
                json::Json::Array(stripped.take(i as int) + all.skip(i as int)),
            ),
            changed <==> exists|j: int| 0 <= j < i && new_message(#[trigger] all[j]) is Some,
            !changed ==> out == v,
    {
        let ghost mid = stripped.take(i as int) + all.skip(i as int);
        let ghost next = stripped.take(i + 1) + all.skip(i + 1);
        assert(mid[i as int] == all[i as int]);
        assert(next =~= mid.update(i as int, stripped[i as int]));
        assert(items@[i as int]@ == all[i as int]);
        match strip_error(&items[i]) {
            Some(message) => {
                proof {
                    json::lemma_with_member(
                        base,
                        "errors"@,
                        json::Json::Array(mid),
                        json::Json::Array(next),
                    );
                }
                json::call_set_text(&mut out, "errors", i, "message", message);
                changed = true;
                assert(new_message(all[i as int]) is Some);
            },
            None => {
                assert(stripped[i as int] == all[i as int]);
                assert(next =~= mid);
            },
        }
    }
    assert(stripped.take(all.len() as int) + all.skip(all.len() as int) =~= stripped);
    (out, changed)
}

proof fn lemma_trimmed_end(s: Seq<char>)
    ensures
        trimmed_end(s).len() <= s.len(),
        trimmed_end(s) == s.take(trimmed_end(s).len() as int),
        trimmed_end(s).len() > 0 ==> !text::white_space(trimmed_end(s).last()),
        forall|i: int| trimmed_end(s).len() <= i < s.len() ==> text::white_space(#[trigger] s[i]),
    decreases s.len(),
{
    if s.len() > 0 && text::white_space(s.last()) {
        let rest = s.drop_last();
        lemma_trimmed_end(rest);
        assert(rest.take(trimmed_end(s).len() as int) =~= s.take(trimmed_end(s).len() as int));
        assert forall|i: int| trimmed_end(s).len() <= i < s.len() implies text::white_space(
            #[trigger] s[i],
        ) by {
            if i < rest.len() {
                assert(text::white_space(rest[i]));
            }
        }
    } else {
        assert(s.take(s.len() as int) =~= s);
    }
}

proof fn lemma_prefix_occurrences(s: Seq<char>, len: int, needle: Seq<char>)
    requires
        0 <= len <= s.len(),
        text::occurs(s.take(len), needle),
    ensures
        exists|at: int| text::occurs_at(s, needle, at) && at + needle.len() <= len,
{
    let at = choose|at: int| text::occurs_at(s.take(len), needle, at);
    assert(s.take(len).subrange(at, at + needle.len()) =~= s.subrange(at, at + needle.len()));
    assert(text::occurs_at(s, needle, at));
}

/// What is left of a message is a beginning of it that ends in no white space and holds no
/// "Did you mean" any more. Where the message does not hold both " Did you mean" and
/// "did you mean", no "did you mean" is left either.
pub proof fn law_stripped_message_has_no_suggestion(message: Seq<char>)
    requires
        stripped_message(message) is Some,
    ensures
        ({
            let left = stripped_message(message)->0;
            &&& left.len() <= message.len()
            &&& left == message.take(left.len() as int)
            &&& left.len() > 0 ==> !text::white_space(left.last())
            &&& !text::occurs(left, "Did you mean"@)
            &&& !(text::occurs(message, " Did you mean"@) && text::occurs(message, "did you mean"@))
                ==> !text::occurs(left, "did you mean"@)
        }),
{
    reveal_strlit(" Did you mean");
    reveal_strlit("Did you mean");
    reveal_strlit("did you mean");
    let spaced = " Did you mean"@;
    let upper = "Did you mean"@;
    let lower = "did you mean"@;
    text::lemma_first_from(message, spaced, 0);
    text::lemma_first_from(message, upper, 0);
    text::lemma_first_from(message, lower, 0);
    let at = suggestion_at(message)->0;
    let before = message.take(at);
    lemma_trimmed_end(before);
    let left = trimmed_end(before);
    let n = left.len() as int;
    assert(before.take(n) =~= message.take(n));
    if text::occurs(left, upper) {
        lemma_prefix_occurrences(message, n, upper);
        assert(false);
    }
    if text::occurs(left, lower) {
        lemma_prefix_occurrences(message, n, lower);
        assert(text::occurs(message, lower));
        if !text::occurs(message, spaced) {
            if let Some(k) = text::first_occurrence(message, spaced) {
                assert(text::occurs_at(message, spaced, k));
            }
            assert(false);
        }
    }
}

/// A message has a suggestion clause, and is changed, exactly where "Did you mean" or
/// "did you mean" stands in it.
pub proof fn law_message_changes_only_with_a_suggestion(message: Seq<char>)
    ensures
        stripped_message(message) is Some <==> (text::occurs(message, "Did you mean"@)
            || text::occurs(message, "did you mean"@)),
{
    reveal_strlit(" Did you mean");
    reveal_strlit("Did you mean");
    text::lemma_first_from(message, " Did you mean"@, 0);
    text::lemma_first_from(message, "Did you mean"@, 0);
    text::lemma_first_from(message, "did you mean"@, 0);
    if let Some(k) = text::first_occurrence(message, " Did you mean"@) {
        let spaced = message.subrange(k, k + 13);
        assert(message.subrange(k + 1, k + 13) =~= spaced.skip(1));
        assert(" Did you mean"@.skip(1) =~= "Did you mean"@);
        assert(text::occurs_at(message, "Did you mean"@, k + 1));
    }
}

/// Where every "Did you mean" of a message has a space before it, the message is cut where its
/// trailing clause begins.
pub proof fn law_set_off_clauses_are_cut_where_they_begin(message: Seq<char>)
    requires
        forall|k: int| #[trigger]
            text::occurs_at(message, "Did you mean"@, k) ==> k > 0 && message[k - 1] == ' ',
    ensures
        suggestion_at(message) == trailing_clause_at(message),
{
    reveal_strlit(" Did you mean");
    reveal_strlit("Did you mean");
    let spaced = " Did you mean"@;
    let upper = "Did you mean"@;
    text::lemma_first_from(message, spaced, 0);
    text::lemma_first_from(message, upper, 0);
    if let Some(b) = text::first_occurrence(message, upper) {
        let set_off = message.subrange(b - 1, b + 12);
        assert(set_off =~= spaced) by {
            assert(set_off.skip(1) =~= message.subrange(b, b + 12));
            assert(spaced.skip(1) =~= upper);
            assert forall|i: int| 0 <= i < 13 implies set_off[i] == spaced[i] by {
                if i > 0 {
                    assert(set_off[i] == set_off.skip(1)[i - 1]);
                    assert(spaced[i] == spaced.skip(1)[i - 1]);
                }
            }
        }
        assert(text::occurs_at(message, spaced, b - 1));
    }
}

/// Stripping a message twice is the same as stripping it once, unless it holds " Did you mean" and
/// a "did you mean" before that.
pub proof fn law_stripping_again_changes_nothing(message: Seq<char>)
    requires
        stripped_message(message) is Some,
        !text::occurs(stripped_message(message)->0, "did you mean"@),
    ensures
        stripped_message(stripped_message(message)->0) is None,
{
    law_stripped_message_has_no_suggestion(message);
    law_message_changes_only_with_a_suggestion(stripped_message(message)->0);
}

/// Stripping a response leaves every member but `errors` as it is, keeps the number of errors,
/// and in each error changes nothing but the `message`.
pub proof fn law_stripping_touches_messages_only(v: json::Json, name: Seq<char>)
    requires
        stripped_response(v) is Some,
    ensures
        ({
            let w = stripped_response(v)->0;
            &&& name != "errors"@ ==> json::member(w, name) == json::member(v, name)
            &&& json::member(v, "errors"@) matches Some(json::Json::Array(old_errors))
            &&& json::member(w, "errors"@) matches Some(json::Json::Array(new_errors))
            &&& new_errors.len() == old_errors.len()
            &&& forall|i: int|
                #![trigger new_errors[i]]
                0 <= i < old_errors.len() ==> {
                    &&& name != "message"@ ==> json::member(new_errors[i], name) == json::member(
                        old_errors[i],
                        name,
                    )
                    &&& new_message(old_errors[i]) is None ==> new_errors[i] == old_errors[i]
                    &&& new_message(old_errors[i]) matches Some(s) ==> json::member(
                        new_errors[i],
                        "message"@,
                    ) == Some(json::Json::Text(s))
                }
        }),
{
    if let Some(json::Json::Array(errors)) = json::member(v, "errors"@) {
        let stripped = stripped_errors(errors);
        json::lemma_with_member(v, "errors"@, json::Json::Array(stripped), json::Json::Null);
        if name != "errors"@ {
            json::lemma_other_member(v, "errors"@, json::Json::Array(stripped), name);
        }
        assert forall|i: int| #![trigger stripped[i]] 0 <= i < errors.len() implies {
            &&& name != "message"@ ==> json::member(stripped[i], name) == json::member(
                errors[i],
                name,
            )
            &&& new_message(errors[i]) is None ==> stripped[i] == errors[i]
            &&& new_message(errors[i]) matches Some(s) ==> json::member(stripped[i], "message"@)
                == Some(json::Json::Text(s))
        } by {
            if let Some(s) = new_message(errors[i]) {
                json::lemma_with_member(
                    errors[i],
                    "message"@,
                    json::Json::Text(s),
                    json::Json::Null,
                );
                if name != "message"@ {
                    json::lemma_other_member(errors[i], "message"@, json::Json::Text(s), name);
                }
            }
        }
    }
}

/// No message of a stripped response holds "Did you mean" any more.
pub proof fn law_no_suggestion_is_left(v: json::Json, i: int)
    requires
        stripped_response(v) is Some,
    ensures
        json::member(stripped_response(v)->0, "errors"@) matches Some(json::Json::Array(errors)) && (
        0 <= i < errors.len() ==> (json::as_text(json::member(errors[i], "message"@)) matches Some(
            s,
        ) ==> !text::occurs(s, "Did you mean"@))),
{
    law_stripping_touches_messages_only(v, "message"@);
    if let Some(json::Json::Array(old_errors)) = json::member(v, "errors"@) {
        if let Some(json::Json::Array(errors)) = json::member(
            stripped_response(v)->0,
            "errors"@,
        ) {
            if 0 <= i < errors.len() {
                assert(errors[i] == errors[i]);
                if let Some(s) = json::as_text(json::member(old_errors[i], "message"@)) {
                    law_message_changes_only_with_a_suggestion(s);
                    if stripped_message(s) is Some {
                        law_stripped_message_has_no_suggestion(s);
                    }
                }
            }
        }
    }
}

/// No new message of the response holds "did you mean" any more.
pub open spec fn leaves_nothing(v: json::Json) -> bool {
    json::member(v, "errors"@) matches Some(json::Json::Array(errors)) ==> forall|i: int|
        0 <= i < errors.len() ==> (new_message(#[trigger] errors[i]) matches Some(s)
            ==> !text::occurs(s, "did you mean"@))
}

/// Where no message holds both " Did you mean" and "did you mean", stripping leaves neither.
pub proof fn law_one_spelling_leaves_nothing(v: json::Json)
    requires
        json::member(v, "errors"@) matches Some(json::Json::Array(errors)) ==> forall|i: int|
            0 <= i < errors.len() ==> (json::as_text(
                json::member(#[trigger] errors[i], "message"@),
            ) matches Some(s) ==> !(text::occurs(s, " Did you mean"@) && text::occurs(
                s,
                "did you mean"@,
            ))),
    ensures
        leaves_nothing(v),
{
    if let Some(json::Json::Array(errors)) = json::member(v, "errors"@) {
        assert forall|i: int| 0 <= i < errors.len() implies (new_message(
            #[trigger] errors[i],
        ) matches Some(s) ==> !text::occurs(s, "did you mean"@)) by {
            if let Some(s) = json::as_text(json::member(errors[i], "message"@)) {
                if let Some(left) = stripped_message(s) {
                    law_stripped_message_has_no_suggestion(s);
                }
            }
        }
    }
}

/// A value that is a stripped response, numbers aside, has nothing to strip.
pub(crate) proof fn lemma_nothing_to_strip(v: json::Json, w: json::Json)
    requires
        stripped_response(v) is Some,
        leaves_nothing(v),
        json::alike(w, stripped_response(v)->0),
    ensures
        stripped_response(w) is None,
{
    let s = stripped_response(v)->0;
    law_stripping_touches_messages_only(v, "message"@);
    json::lemma_alike_members(w, s, "errors"@);
    if let Some(json::Json::Array(old_errors)) = json::member(v, "errors"@) {
        if let Some(json::Json::Array(errors)) = json::member(s, "errors"@) {
            if let Some(json::Json::Array(again)) = json::member(w, "errors"@) {
                assert forall|i: int| 0 <= i < again.len() implies new_message(
                    #[trigger] again[i],
                ) is None by {
                    assert(json::alike(again[i], errors[i]));
                    json::lemma_alike_members(again[i], errors[i], "message"@);
                    if let Some(left) = new_message(old_errors[i]) {
                        let message = json::as_text(json::member(old_errors[i], "message"@))->0;
                        law_stripping_again_changes_nothing(message);
                    }
                }
            }
        }
    }
}

/// Stripping a response twice is the same as stripping it once, unless one of its messages holds
/// " Did you mean" and a "did you mean" before that.
pub proof fn law_stripping_a_response_again_changes_nothing(v: json::Json)
    requires
        stripped_response(v) is Some,
        leaves_nothing(v),
    ensures
        stripped_response(stripped_response(v)->0) is None,
{
    json::lemma_alike_itself(stripped_response(v)->0);
    lemma_nothing_to_strip(v, stripped_response(v)->0);
}

/// Stripping brings in no reserved name.
pub(crate) proof fn lemma_stripping_reserves_nothing(v: json::Json)
    requires
        stripped_response(v) is Some,
        json::no_reserved_name(v),
    ensures
        json::no_reserved_name(stripped_response(v)->0),
{
    json::lemma_member_reserves_nothing(v, "errors"@);
    if let Some(json::Json::Array(errors)) = json::member(v, "errors"@) {
        let stripped = stripped_errors(errors);
        assert forall|i: int| 0 <= i < stripped.len() implies json::no_reserved_name(
            #[trigger] stripped[i],
        ) by {
            assert(json::no_reserved_name(errors[i]));
            if let Some(s) = new_message(errors[i]) {
                json::lemma_with_member_reserves_nothing(
                    errors[i],
                    "message"@,
                    json::Json::Text(s),
                );
            }
        }
        json::lemma_with_member_reserves_nothing(v, "errors"@, json::Json::Array(stripped));
    }
}

/// Where a message is cut: a hint begins there, and no "Did you mean" begins before. In a message
/// without " Did you mean" no "did you mean" begins before either; in one with it the hint is a
/// "Did you mean", and the space that sets it off belongs to it. A message without any hint is not
/// cut.
pub proof fn law_where_a_message_is_cut(message: Seq<char>)
    ensures
        match suggestion_at(message) {
            Some(at) => {
                &&& {
                    ||| text::occurs_at(message, "Did you mean"@, at)
                    ||| text::occurs_at(message, " Did you mean"@, at)
                    ||| text::occurs_at(message, "did you mean"@, at)
                }
                &&& forall|k: int|
                    0 <= k < at ==> !#[trigger] text::occurs_at(message, "Did you mean"@, k)
                &&& !text::occurs_at(message, " Did you mean"@, at - 1)
                &&& !text::occurs(message, " Did you mean"@) ==> forall|k: int|
                    0 <= k < at ==> !#[trigger] text::occurs_at(message, "did you mean"@, k)
                &&& text::occurs(message, " Did you mean"@) ==> {
                    ||| text::occurs_at(message, "Did you mean"@, at)
                    ||| text::occurs_at(message, " Did you mean"@, at)
                }
            },
            None => !text::occurs(message, "Did you mean"@) && !text::occurs(
                message,
                "did you mean"@,
            ),
        },
{
    reveal_strlit(" Did you mean");
    reveal_strlit("Did you mean");
    let spaced = " Did you mean"@;
    let upper = "Did you mean"@;
    text::lemma_first_from(message, spaced, 0);
    text::lemma_first_from(message, upper, 0);
    text::lemma_first_from(message, "did you mean"@, 0);
    law_message_changes_only_with_a_suggestion(message);
    assert forall|k: int| #[trigger] text::occurs_at(message, spaced, k) implies text::occurs_at(
        message,
        upper,
        k + 1,
    ) by {
        assert(message.subrange(k + 1, k + 13) =~= message.subrange(k, k + 13).skip(1));
        assert(spaced.skip(1) =~= upper);
    }
    if let Some(at) = suggestion_at(message) {
        if text::occurs(message, spaced) {
            let a = text::first_occurrence(message, spaced)->0;
            assert(text::occurs_at(message, spaced, a));
            assert(text::occurs_at(message, upper, a + 1));
        }
        if text::occurs_at(message, spaced, at - 1) {
            assert(text::occurs_at(message, upper, at));
        }
    }
}

/// The new message of a message with a hint is all that comes before the cut, without the white
/// space at its end and with nothing else left out.
pub proof fn law_message_is_kept_up_to_the_cut(message: Seq<char>)
    ensures
        stripped_message(message) is Some <==> suggestion_at(message) is Some,
        stripped_message(message) matches Some(left) ==> {
            let at = suggestion_at(message)->0;
            &&& 0 <= at <= message.len()
            &&& left.len() <= at
            &&& forall|i: int| 0 <= i < left.len() ==> left[i] == #[trigger] message[i]
            &&& forall|i: int| left.len() <= i < at ==> text::white_space(#[trigger] message[i])
            &&& left.len() > 0 ==> !text::white_space(left.last())
        },
{
    if let Some(at) = suggestion_at(message) {
        law_where_a_message_is_cut(message);
        let before = message.take(at);
        lemma_trimmed_end(before);
        let left = trimmed_end(before);
        assert forall|i: int| 0 <= i < left.len() implies left[i] == #[trigger] message[i] by {
            assert(before.take(left.len() as int)[i] == before[i]);
        }
        assert forall|i: int| left.len() <= i < at implies text::white_space(
            #[trigger] message[i],
        ) by {
            assert(text::white_space(before[i]));
        }
    }
}

/// What becomes of each error of a response, whatever other members it has: one whose message is a
/// text with a hint gets that text up to the cut as its message, every other one stays as it is.
pub proof fn law_each_message_is_kept_up_to_its_cut(v: json::Json, i: int)
    requires
        stripped_response(v) is Some,
        json::member(v, "errors"@) matches Some(json::Json::Array(errors)) && 0 <= i < errors.len(),
    ensures
        ({
            let before = json::member(v, "errors"@)->0->Array_0[i];
            let after = json::member(stripped_response(v)->0, "errors"@)->0->Array_0[i];
            match json::member(before, "message"@) {
                Some(json::Json::Text(s)) => match suggestion_at(s) {
                    Some(at) => {
                        &&& json::member(after, "message"@) matches Some(json::Json::Text(left))
                        &&& left.len() <= at
                        &&& forall|k: int| 0 <= k < left.len() ==> left[k] == #[trigger] s[k]
                        &&& forall|k: int| left.len() <= k < at ==> text::white_space(#[trigger] s[k])
                        &&& left.len() > 0 ==> !text::white_space(left.last())
                    },
                    None => after == before,
                },
                _ => after == before,
            }
        }),
{
    law_stripping_touches_messages_only(v, "message"@);
    let errors = json::member(v, "errors"@)->0->Array_0;
    let stripped = json::member(stripped_response(v)->0, "errors"@)->0->Array_0;
    assert(stripped[i] == stripped[i]);
    if let Some(json::Json::Text(s)) = json::member(errors[i], "message"@) {
        law_message_is_kept_up_to_the_cut(s);
    }
}

/// A response is changed exactly where its `errors` are an array and one of them has a message that
/// is a text with a hint.
pub proof fn law_response_changes_only_with_a_hint(v: json::Json)
    ensures
        stripped_response(v) is Some <==> (json::member(v, "errors"@) matches Some(
            json::Json::Array(errors),
        ) && exists|i: int|
            0 <= i < errors.len() && (json::member(#[trigger] errors[i], "message"@) matches Some(
                json::Json::Text(s),
            ) && (text::occurs(s, "Did you mean"@) || text::occurs(s, "did you mean"@)))),
{
    if let Some(json::Json::Array(errors)) = json::member(v, "errors"@) {
        assert forall|i: int| 0 <= i < errors.len() implies (new_message(#[trigger] errors[i]) is Some
            <==> (json::member(errors[i], "message"@) matches Some(json::Json::Text(s)) && (
        text::occurs(s, "Did you mean"@) || text::occurs(s, "did you mean"@)))) by {
            if let Some(json::Json::Text(s)) = json::member(errors[i], "message"@) {
                law_message_changes_only_with_a_suggestion(s);
            }
        }
    }
}

/// The new message of an error is that of its text, and an error without a text has none.
pub proof fn law_new_message_is_that_of_the_text(error: json::Json)
    ensures
        new_message(error) == match json::member(error, "message"@) {
            Some(json::Json::Text(s)) => stripped_message(s),
            _ => None,
        },
{
}

/// Stripping keeps the names of a response and of its errors in their places, and every value but
/// the errors and their messages.
pub proof fn law_stripping_keeps_everything_in_its_place(v: json::Json, i: int)
    requires
        stripped_response(v) is Some,
    ensures
        ({
            let w = stripped_response(v)->0;
            let old_errors = json::member(v, "errors"@)->0->Array_0;
            let new_errors = json::member(w, "errors"@)->0->Array_0;
            &&& v is Object && w is Object && w->Object_0.len() == v->Object_0.len()
            &&& forall|k: int|
                0 <= k < v->Object_0.len() ==> {
                    let (name, value) = #[trigger] w->Object_0[k];
                    name == v->Object_0[k].0 && (name != "errors"@ ==> value == v->Object_0[k].1)
                }
            &&& new_errors.len() == old_errors.len()
            &&& 0 <= i < old_errors.len() && old_errors[i] is Object ==> {
                &&& new_errors[i] is Object
                &&& new_errors[i]->Object_0.len() == old_errors[i]->Object_0.len()
                &&& forall|k: int|
                    0 <= k < old_errors[i]->Object_0.len() ==> {
                        let (name, value) = #[trigger] new_errors[i]->Object_0[k];
                        name == old_errors[i]->Object_0[k].0 && (name != "message"@ ==> value
                            == old_errors[i]->Object_0[k].1)
                    }
            }
            &&& 0 <= i < old_errors.len() && !(old_errors[i] is Object) ==> new_errors[i]
                == old_errors[i]
        }),
{
    let errors = json::member(v, "errors"@)->0->Array_0;
    let stripped = stripped_errors(errors);
    json::law_replacing_keeps_the_rest(v, "errors"@, json::Json::Array(stripped));
    if 0 <= i < errors.len() {
        if let Some(s) = new_message(errors[i]) {
            json::law_replacing_keeps_the_rest(errors[i], "message"@, json::Json::Text(s));
        }
    }
}

} // verus!
