//! Detection of the `__schema` and `__type` introspection fields in raw bytes.
use vstd::prelude::*;

use crate::text;

verus! {

/// A byte that can stand in a GraphQL name.
pub open spec fn is_ident_byte(b: u8) -> bool {
    let c = b as char;
    ||| '0' <= c <= '9'
    ||| 'A' <= c <= 'Z'
    ||| 'a' <= c <= 'z'
    ||| c == '_'
}

/// `token` stands at `at`, and no identifier byte comes right before or right after it.
pub open spec fn stands_alone_at(h: Seq<u8>, token: Seq<u8>, at: int) -> bool {
    &&& text::occurs_at(h, token, at)
    &&& at == 0 || !is_ident_byte(h[at - 1])
    &&& at + token.len() == h.len() || !is_ident_byte(h[at + token.len()])
}

/// `token` stands somewhere in `h` as a token of its own.
pub open spec fn stands_alone(h: Seq<u8>, token: Seq<u8>) -> bool {
    exists|at: int| stands_alone_at(h, token, at)
}

/// The buffer names one of the introspection fields.
pub open spec fn names_introspection(h: Seq<u8>) -> bool {
    stands_alone(h, text::ascii_bytes("__schema"@)) || stands_alone(h, text::ascii_bytes("__type"@))
}

/// The last byte of the token stands nowhere else in it, so two occurrences never overlap.
spec fn ends_uniquely(token: Seq<u8>) -> bool {
    &&& token.len() > 0
    &&& forall|i: int| 0 <= i < token.len() - 1 ==> token[i] != token.last()
}

proof fn lemma_no_overlap(h: Seq<u8>, token: Seq<u8>, a: int, b: int)
    requires
        ends_uniquely(token),
        text::occurs_at(h, token, a),
        text::occurs_at(h, token, b),
        a < b,
    ensures
        a + token.len() <= b,
{
    if b < a + token.len() {
        let n = token.len() as int;
        let last = a + n - 1;
        assert(h.subrange(a, a + n)[n - 1] == h[last]);
        assert(h.subrange(b, b + n)[last - b] == h[last]);
        assert(token[last - b] == token.last());
    }
}

fn is_ident(b: u8) -> (r: bool)
    ensures
        r == is_ident_byte(b),
{
    let c = b as char;
    ('0' <= c && c <= '9') || ('A' <= c && c <= 'Z') || ('a' <= c && c <= 'z') || c == '_'
}

/// Whether `token` stands in `h` as a token of its own.
fn has_token(h: &[u8], token: &[u8]) -> (r: bool)
    requires
        ends_uniquely(token@),
    ensures
        r == stands_alone(h@, token@),
{
    let mut start: usize = 0;
    while start <= h.len()
        invariant
            ends_uniquely(token@),
            start <= h@.len(),
            forall|at: int| 0 <= at < start ==> !stands_alone_at(h@, token@, at),
        decreases h@.len() - start,
    {
        let rest = vstd::slice::slice_subrange(h, start, h.len());
        match memchr::memmem::find(rest, token) {
            None => {
                assert forall|at: int| !stands_alone_at(h@, token@, at) by {
                    if text::occurs_at(h@, token@, at) && start <= at {
                        lemma_occurs_in_suffix(h@, token@, start as int, at);
                        assert(text::occurs(rest@, token@));
                    }
                }
                return false;
            },
            Some(pos) => {
                proof {
                    lemma_occurs_in_suffix(h@, token@, start as int, start + pos);
                }
                let at: usize = start + pos;
                let end: usize = at + token.len();
                let opens = at == 0 || !is_ident(h[at - 1]);
                let closes = end == h.len() || !is_ident(h[end]);
                if opens && closes {
                    assert(stands_alone_at(h@, token@, at as int));
                    return true;
                }
                assert forall|j: int| 0 <= j < end implies !stands_alone_at(h@, token@, j) by {
                    if start <= j && text::occurs_at(h@, token@, j) {
                        lemma_occurs_in_suffix(h@, token@, start as int, j);
                        if at < j {
                            lemma_no_overlap(h@, token@, at as int, j);
                        }
                    }
                }
                start = end;
            },
        }
    }
    false
}

proof fn lemma_occurs_in_suffix(h: Seq<u8>, token: Seq<u8>, start: int, at: int)
    requires
        0 <= start <= h.len(),
        start <= at,
    ensures
        text::occurs_at(h.subrange(start, h.len() as int), token, at - start) <==> text::occurs_at(
            h,
            token,
            at,
        ),
{
    let rest = h.subrange(start, h.len() as int);
    if at + token.len() <= h.len() {
        assert(rest.subrange(at - start, at - start + token.len()) =~= h.subrange(
            at,
            at + token.len(),
        ));
    }
}

/// Whether the buffer names `__schema` or `__type` as a field of its own. An identifier that only
/// starts with one of them (`__typename`) or only ends with one (`custom__type`) does not count.
pub fn contains_introspection_bytes(haystack: &[u8]) -> (r: bool)
    ensures
        r == names_introspection(haystack@),
{
    proof {
        reveal_strlit("__schema");
        reveal_strlit("__type");
        text::lemma_ascii_bytes("__schema"@);
        text::lemma_ascii_bytes("__type"@);
    }
    has_token(haystack, "__schema".as_bytes()) || has_token(haystack, "__type".as_bytes())
}

/// The buffer is `before`, one of the tokens and `after`, and no identifier byte adjoins the token.
pub open spec fn parts_around_token(
    h: Seq<u8>,
    before: Seq<u8>,
    token: Seq<u8>,
    after: Seq<u8>,
) -> bool {
    &&& token == text::ascii_bytes("__schema"@) || token == text::ascii_bytes("__type"@)
    &&& h == before + token + after
    &&& before.len() == 0 || !is_ident_byte(before.last())
    &&& after.len() == 0 || !is_ident_byte(after[0])
}

/// A buffer is flagged exactly where it falls into parts around one of the tokens, with no
/// identifier byte right before or right after the token.
pub proof fn law_flagged_exactly_around_a_token(h: Seq<u8>)
    ensures
        names_introspection(h) <==> exists|before: Seq<u8>, token: Seq<u8>, after: Seq<u8>|
            parts_around_token(h, before, token, after),
{
    let schema = text::ascii_bytes("__schema"@);
    let kind = text::ascii_bytes("__type"@);
    if names_introspection(h) {
        let token = if stands_alone(h, schema) {
            schema
        } else {
            kind
        };
        let at = choose|at: int| stands_alone_at(h, token, at);
        let before = h.take(at);
        let after = h.skip(at + token.len());
        assert(h =~= before + token + after) by {
            assert(h.subrange(at, at + token.len()) =~= token);
            assert forall|i: int| 0 <= i < h.len() implies h[i] == #[trigger] (before + token
                + after)[i] by {
                if at <= i < at + token.len() {
                    assert(h.subrange(at, at + token.len())[i - at] == h[i]);
                }
            }
        }
        assert(parts_around_token(h, before, token, after));
    }
    if exists|before: Seq<u8>, token: Seq<u8>, after: Seq<u8>|
        parts_around_token(h, before, token, after) {
        let (before, token, after) = choose|before: Seq<u8>, token: Seq<u8>, after: Seq<u8>|
            parts_around_token(h, before, token, after);
        let at = before.len() as int;
        assert(h.subrange(at, at + token.len()) =~= token);
        assert(stands_alone_at(h, token, at));
    }
}

/// The bytes of an identifier are the ASCII digits and letters and the underscore.
pub proof fn law_identifier_bytes_by_number(b: u8)
    ensures
        is_ident_byte(b) <==> 0x30 <= b <= 0x39 || 0x41 <= b <= 0x5A || 0x61 <= b <= 0x7A || b == 0x5F,
{
}

} // verus!
