//! Searching and slicing of bytes and characters, shared by the detectors.
use vstd::prelude::*;
use vstd::utf8::*;

verus! {

/// `needle` stands in `hay` with its first element at index `at`.
pub open spec fn occurs_at<T>(hay: Seq<T>, needle: Seq<T>, at: int) -> bool {
    &&& 0 <= at
    &&& at + needle.len() <= hay.len()
    &&& hay.subrange(at, at + needle.len()) == needle
}

/// `needle` stands somewhere in `hay`.
pub open spec fn occurs<T>(hay: Seq<T>, needle: Seq<T>) -> bool {
    exists|at: int| occurs_at(hay, needle, at)
}

/// Index of the first occurrence of `needle` in `hay` that starts at `from` or later.
pub open spec fn first_from<T>(hay: Seq<T>, needle: Seq<T>, from: int) -> Option<int>
    decreases hay.len() - from + 1,
{
    if from + needle.len() > hay.len() {
        None
    } else if occurs_at(hay, needle, from) {
        Some(from)
    } else {
        first_from(hay, needle, from + 1)
    }
}

/// Index of the first occurrence of `needle` in `hay`.
pub open spec fn first_occurrence<T>(hay: Seq<T>, needle: Seq<T>) -> Option<int> {
    first_from(hay, needle, 0)
}

/// What [`first_from`] finds is an occurrence with none before it from `from` on, and it finds
/// one wherever there is one.
pub proof fn lemma_first_from<T>(hay: Seq<T>, needle: Seq<T>, from: int)
    requires
        0 <= from,
    ensures
        match first_from(hay, needle, from) {
            Some(at) => {
                &&& from <= at
                &&& occurs_at(hay, needle, at)
                &&& forall|j: int| from <= j < at ==> !occurs_at(hay, needle, j)
            },
            None => forall|j: int| from <= j ==> !occurs_at(hay, needle, j),
        },
    decreases hay.len() - from + 1,
{
    if from + needle.len() <= hay.len() && !occurs_at(hay, needle, from) {
        lemma_first_from(hay, needle, from + 1);
    }
}

/// The bytes of ASCII characters.
pub open spec fn ascii_bytes(s: Seq<char>) -> Seq<u8> {
    s.map_values(|c: char| c as u8)
}

/// The UTF-8 bytes of ASCII characters are the characters themselves.
pub proof fn lemma_ascii_bytes(s: Seq<char>)
    requires
        is_ascii_chars(s),
    ensures
        encode_utf8(s) == ascii_bytes(s),
{
    is_ascii_chars_encode_utf8(s);
    assert(encode_utf8(s) =~= ascii_bytes(s));
}

/// `memchr::memmem::find`: the index of the first occurrence of the needle in the haystack, and
/// nothing where the needle does not occur. The empty needle occurs at index zero.
pub assume_specification[ memchr::memmem::find ](haystack: &[u8], needle: &[u8]) -> (r: Option<usize>)
    ensures
        match r {
            Some(at) => {
                &&& occurs_at(haystack@, needle@, at as int)
                &&& forall|j: int| 0 <= j < at ==> !occurs_at(haystack@, needle@, j)
            },
            None => !occurs(haystack@, needle@),
        },
;

/// `std::string::String::push`: appends one character.
pub assume_specification[ std::string::String::push ](s: &mut String, c: char)
    ensures
        final(s)@ == old(s)@.push(c),
;

/// The characters with the Unicode property White_Space.
pub open spec fn white_space(c: char) -> bool {
    ||| '\u{9}' <= c <= '\u{D}'
    ||| c == ' '
    ||| c == '\u{85}' || c == '\u{A0}' || c == '\u{1680}'
    ||| '\u{2000}' <= c <= '\u{200A}'
    ||| c == '\u{2028}' || c == '\u{2029}' || c == '\u{202F}' || c == '\u{205F}' || c == '\u{3000}'
}

/// `char::is_whitespace`: tells the characters with the Unicode property White_Space.
pub assume_specification[ char::is_whitespace ](c: char) -> (r: bool)
    ensures
        r == white_space(c),
;

/// No white space but ASCII white space.
pub open spec fn only_ascii_space(s: Seq<char>) -> bool {
    forall|i: int| 0 <= i < s.len() && white_space(#[trigger] s[i]) ==> s[i] <= '\u{7F}'
}

/// The text with the replacement character in place of white space outside ASCII.
pub open spec fn without_wide_space(s: Seq<char>) -> Seq<char> {
    s.map_values(|c: char| if white_space(c) && c > '\u{7F}' { '\u{FFFD}' } else { c })
}

/// Puts the replacement character in place of white space outside ASCII.
pub fn replace_wide_space(s: &str) -> (r: String)
    ensures
        r@ == without_wide_space(s@),
        only_ascii_space(r@),
{
    let mut out = String::new();
    for c in iter: s.chars()
        invariant
            iter.seq() == s@,
            out@ == without_wide_space(s@).take(iter.index() as int),
    {
        assert(without_wide_space(s@).take(iter.index() as int + 1) =~= without_wide_space(s@).take(
            iter.index() as int,
        ).push(without_wide_space(s@)[iter.index() as int]));
        if c.is_whitespace() && c > '\u{7F}' {
            out.push('\u{FFFD}');
        } else {
            out.push(c);
        }
    }
    assert(without_wide_space(s@).take(s@.len() as int) =~= without_wide_space(s@));
    out
}

/// The error of `std::str::from_utf8`, of which nothing is claimed.
#[verifier::external_type_specification]
#[verifier::external_body]
pub struct ExUtf8Error(std::str::Utf8Error);

/// `std::str::from_utf8`: succeeds exactly on well-formed UTF-8, and then the text has these
/// bytes.
pub assume_specification<'a>[ std::str::from_utf8 ](v: &'a [u8]) -> (r: Result<
    &'a str,
    std::str::Utf8Error,
>)
    ensures
        r is Ok <==> valid_utf8(v@),
        r matches Ok(s) ==> s@ == decode_utf8(v@),
;

/// The characters of a text.
pub fn chars_of(s: &str) -> (r: Vec<char>)
    ensures
        r@ == s@,
{
    let mut out: Vec<char> = Vec::new();
    for c in iter: s.chars()
        invariant
            iter.seq() == s@,
            out@ == s@.take(iter.index() as int),
    {
        assert(s@.take(iter.index() as int + 1) =~= s@.take(iter.index() as int).push(c));
        out.push(c);
    }
    assert(s@.take(s@.len() as int) =~= s@);
    out
}

/// The text made of the first `len` characters.
pub fn text_of(chars: &[char], len: usize) -> (r: String)
    requires
        len <= chars@.len(),
    ensures
        r@ == chars@.take(len as int),
{
    let mut out = String::new();
    assert(chars@.take(0) =~= Seq::<char>::empty());
    for i in 0..len
        invariant
            len <= chars@.len(),
            out@ == chars@.take(i as int),
    {
        assert(chars@.take(i + 1) =~= chars@.take(i as int).push(chars@[i as int]));
        out.push(chars[i]);
    }
    out
}

/// Whether two buffers hold the same bytes.
pub fn same_bytes(a: &[u8], b: &[u8]) -> (r: bool)
    ensures
        r == (a@ == b@),
{
    if a.len() != b.len() {
        return false;
    }
    for i in 0..a.len()
        invariant
            a@.len() == b@.len(),
            forall|j: int| 0 <= j < i ==> a@[j] == b@[j],
    {
        if a[i] != b[i] {
            return false;
        }
    }
    assert(a@ =~= b@);
    true
}

/// Whether two texts are equal.
pub fn same_text(a: &str, b: &str) -> (r: bool)
    ensures
        r == (a@ == b@),
{
    proof {
        encode_utf8_decode_utf8(a@);
        encode_utf8_decode_utf8(b@);
    }
    same_bytes(a.as_bytes(), b.as_bytes())
}

/// The character in lower case, as far as it is an ASCII letter.
pub open spec fn lower(c: char) -> char {
    if 'A' <= c <= 'Z' {
        (c as int + 32) as char
    } else {
        c
    }
}

/// The text with its ASCII letters in lower case.
pub open spec fn lowered(s: Seq<char>) -> Seq<char> {
    s.map_values(|c: char| lower(c))
}

fn to_lower(c: char) -> (r: char)
    ensures
        r == lower(c),
{
    if 'A' <= c && c <= 'Z' {
        (c as u8 + 32) as char
    } else {
        c
    }
}

/// Whether a text is another one once its ASCII letters are in lower case.
pub fn lowers_to(a: &str, b: &str) -> (r: bool)
    ensures
        r == (lowered(a@) == b@),
{
    let x = chars_of(a);
    let y = chars_of(b);
    if x.len() != y.len() {
        return false;
    }
    for i in 0..x.len()
        invariant
            x@ == a@,
            y@ == b@,
            x@.len() == y@.len(),
            forall|j: int| 0 <= j < i ==> lowered(a@)[j] == #[trigger] y@[j],
    {
        if to_lower(x[i]) != y[i] {
            assert(lowered(a@)[i as int] != b@[i as int]);
            return false;
        }
    }
    assert(lowered(a@) =~= b@);
    true
}

/// The value of the first entry of that name.
pub open spec fn lookup<V>(entries: Seq<(Seq<char>, V)>, name: Seq<char>) -> Option<V>
    decreases entries.len(),
{
    if entries.len() == 0 {
        None
    } else if entries[0].0 == name {
        Some(entries[0].1)
    } else {
        lookup(entries.drop_first(), name)
    }
}

/// The first character that is no white space.
pub open spec fn first_visible(s: Seq<char>) -> Option<char>
    decreases s.len(),
{
    if s.len() == 0 {
        None
    } else if white_space(s[0]) {
        first_visible(s.drop_first())
    } else {
        Some(s[0])
    }
}

/// The text that the bytes are in UTF-8, where they are well formed.
pub open spec fn utf8_text(bytes: Seq<u8>) -> Option<Seq<char>> {
    if valid_utf8(bytes) {
        Some(decode_utf8(bytes))
    } else {
        None
    }
}

/// The first character that is no white space.
pub fn find_visible(s: &str) -> (r: Option<char>)
    ensures
        r == first_visible(s@),
{
    assert(s@.skip(0) =~= s@);
    for c in iter: s.chars()
        invariant
            iter.seq() == s@,
            first_visible(s@) == first_visible(s@.skip(iter.index() as int)),
    {
        let ghost k = iter.index() as int;
        assert(s@.skip(k).drop_first() =~= s@.skip(k + 1));
        if !c.is_whitespace() {
            return Some(c);
        }
    }
    None
}

/// Whether the bytes begin with these.
pub fn starts_with(h: &[u8], prefix: &[u8]) -> (r: bool)
    ensures
        r == occurs_at(h@, prefix@, 0),
{
    if prefix.len() > h.len() {
        return false;
    }
    same_bytes(vstd::slice::slice_subrange(h, 0, prefix.len()), prefix)
}

/// Whether these bytes stand among the others.
pub fn contains(h: &[u8], needle: &[u8]) -> (r: bool)
    ensures
        r == occurs(h@, needle@),
{
    memchr::memmem::find(h, needle).is_some()
}

/// The text that the bytes are in UTF-8, where they are well formed.
pub fn text_in(bytes: &[u8]) -> (r: Option<String>)
    ensures
        match r {
            Some(s) => utf8_text(bytes@) == Some(s@),
            None => utf8_text(bytes@) is None,
        },
{
    match std::str::from_utf8(bytes) {
        Ok(s) => Some(s.to_owned()),
        Err(_) => None,
    }
}

/// A needle stands at an index where each of its elements is found from there on.
pub proof fn law_occurrence_is_element_by_element<T>(hay: Seq<T>, needle: Seq<T>, at: int)
    ensures
        occurs_at(hay, needle, at) <==> {
            &&& 0 <= at
            &&& at + needle.len() <= hay.len()
            &&& forall|i: int| 0 <= i < needle.len() ==> hay[at + i] == #[trigger] needle[i]
        },
{
    if 0 <= at && at + needle.len() <= hay.len() {
        let part = hay.subrange(at, at + needle.len());
        if occurs_at(hay, needle, at) {
            assert forall|i: int| 0 <= i < needle.len() implies hay[at + i] == #[trigger] needle[i] by {
                assert(part[i] == hay[at + i]);
            }
        }
        if forall|i: int| 0 <= i < needle.len() ==> hay[at + i] == #[trigger] needle[i] {
            assert(part =~= needle);
        }
    }
}

/// A needle stands in a text exactly where the text is something, the needle and something.
pub proof fn law_occurrence_is_in_between<T>(hay: Seq<T>, needle: Seq<T>)
    ensures
        occurs(hay, needle) <==> exists|before: Seq<T>, after: Seq<T>|
            hay == #[trigger] (before + needle + after),
{
    if occurs(hay, needle) {
        let at = choose|at: int| occurs_at(hay, needle, at);
        let before = hay.take(at);
        let after = hay.skip(at + needle.len());
        law_occurrence_is_element_by_element(hay, needle, at);
        assert(hay =~= before + needle + after) by {
            assert forall|i: int| 0 <= i < hay.len() implies hay[i] == #[trigger] (before + needle
                + after)[i] by {
                if at <= i < at + needle.len() {
                    assert(needle[i - at] == hay[at + (i - at)]);
                }
            }
        }
    }
    if exists|before: Seq<T>, after: Seq<T>| hay == #[trigger] (before + needle + after) {
        let (before, after) = choose|before: Seq<T>, after: Seq<T>|
            hay == #[trigger] (before + needle + after);
        let at = before.len() as int;
        assert(hay.subrange(at, at + needle.len()) =~= needle);
        assert(occurs_at(hay, needle, at));
    }
}

/// The first occurrence is one with none before it, and there is one wherever the needle occurs.
pub proof fn law_first_occurrence_is_the_first<T>(hay: Seq<T>, needle: Seq<T>, at: int)
    ensures
        first_occurrence(hay, needle) == Some(at) <==> occurs_at(hay, needle, at) && forall|j: int|
            0 <= j < at ==> !#[trigger] occurs_at(hay, needle, j),
        first_occurrence(hay, needle) is None <==> !occurs(hay, needle),
{
    lemma_first_from(hay, needle, 0);
    if let Some(k) = first_occurrence(hay, needle) {
        assert(occurs_at(hay, needle, k));
        if occurs_at(hay, needle, at) && k != at {
            assert(at > k);
        }
    }
}

/// The bytes of a text in ASCII are its characters.
pub proof fn law_ascii_bytes_are_the_characters(s: Seq<char>)
    ensures
        ascii_bytes(s).len() == s.len(),
        forall|i: int| 0 <= i < s.len() ==> #[trigger] ascii_bytes(s)[i] == s[i] as u8,
{
}

/// White space is the tab to the carriage return, the space, and the spaces beyond ASCII.
pub proof fn law_white_space_by_number(c: char)
    ensures
        white_space(c) <==> {
            let n = c as int;
            ||| 0x9 <= n <= 0xD || n == 0x20 || n == 0x85 || n == 0xA0 || n == 0x1680
            ||| 0x2000 <= n <= 0x200A || n == 0x2028 || n == 0x2029 || n == 0x202F || n == 0x205F
            ||| n == 0x3000
        },
{
}

/// Replacing white space outside ASCII keeps every other character where it is.
pub proof fn law_only_wide_space_is_replaced(s: Seq<char>, i: int)
    requires
        0 <= i < s.len(),
    ensures
        without_wide_space(s).len() == s.len(),
        white_space(s[i]) && s[i] as int > 0x7F ==> without_wide_space(s)[i] as int == 0xFFFD,
        !(white_space(s[i]) && s[i] as int > 0x7F) ==> without_wide_space(s)[i] == s[i],
{
}

/// Lower case changes the ASCII capitals and nothing else.
pub proof fn law_lower_case_changes_capitals_only(s: Seq<char>, i: int)
    requires
        0 <= i < s.len(),
    ensures
        lowered(s).len() == s.len(),
        0x41 <= s[i] as int <= 0x5A ==> lowered(s)[i] as int == s[i] as int + 0x20,
        !(0x41 <= s[i] as int <= 0x5A) ==> lowered(s)[i] == s[i],
{
}

/// The entry that is found is the first one of its name, and one is found wherever there is one.
pub proof fn law_first_entry_counts<V>(entries: Seq<(Seq<char>, V)>, name: Seq<char>)
    ensures
        match lookup(entries, name) {
            Some(v) => exists|i: int|
                0 <= i < entries.len() && #[trigger] entries[i] == (name, v) && forall|j: int|
                    0 <= j < i ==> (#[trigger] entries[j]).0 != name,
            None => forall|j: int| 0 <= j < entries.len() ==> (#[trigger] entries[j]).0 != name,
        },
    decreases entries.len(),
{
    if entries.len() > 0 && entries[0].0 != name {
        let rest = entries.drop_first();
        law_first_entry_counts(rest, name);
        assert(forall|j: int| 0 < j < entries.len() ==> rest[j - 1] == #[trigger] entries[j]);
        match lookup(rest, name) {
            Some(v) => {
                let i = choose|i: int|
                    0 <= i < rest.len() && #[trigger] rest[i] == (name, v) && forall|j: int|
                        0 <= j < i ==> (#[trigger] rest[j]).0 != name;
                assert(entries[i + 1] == (name, v));
                assert forall|j: int| 0 <= j < i + 1 implies (#[trigger] entries[j]).0 != name by {
                    if j > 0 {
                        assert(rest[j - 1].0 != name);
                    }
                }
            },
            None => {
                assert forall|j: int| 0 <= j < entries.len() implies (#[trigger] entries[j]).0
                    != name by {
                    if j > 0 {
                        assert(rest[j - 1].0 != name);
                    }
                }
            },
        }
    } else if entries.len() > 0 {
        assert(entries[0] == (name, entries[0].1));
    }
}

/// The first visible character is no white space and has nothing but white space before it; a text
/// without one is white space throughout.
pub proof fn law_first_visible_character(s: Seq<char>)
    ensures
        match first_visible(s) {
            Some(c) => exists|i: int|
                0 <= i < s.len() && #[trigger] s[i] == c && !white_space(c) && forall|j: int|
                    0 <= j < i ==> white_space(#[trigger] s[j]),
            None => forall|j: int| 0 <= j < s.len() ==> white_space(#[trigger] s[j]),
        },
    decreases s.len(),
{
    if s.len() > 0 && white_space(s[0]) {
        let rest = s.drop_first();
        law_first_visible_character(rest);
        assert(forall|j: int| 0 < j < s.len() ==> rest[j - 1] == #[trigger] s[j]);
        match first_visible(rest) {
            Some(c) => {
                let i = choose|i: int|
                    0 <= i < rest.len() && #[trigger] rest[i] == c && !white_space(c) && forall|j: int|
                        0 <= j < i ==> white_space(#[trigger] rest[j]);
                assert(s[i + 1] == c);
                assert forall|j: int| 0 <= j < i + 1 implies white_space(#[trigger] s[j]) by {
                    if j > 0 {
                        assert(white_space(rest[j - 1]));
                    }
                }
            },
            None => {
                assert forall|j: int| 0 <= j < s.len() implies white_space(#[trigger] s[j]) by {
                    if j > 0 {
                        assert(white_space(rest[j - 1]));
                    }
                }
            },
        }
    } else if s.len() > 0 {
        assert(s[0] == s[0]);
    }
}

/// Bytes are read as the text that they encode, and as none where they encode none.
pub proof fn law_utf8_is_read_back(s: Seq<char>, bytes: Seq<u8>)
    ensures
        utf8_text(bytes) == Some(s) <==> bytes == encode_utf8(s),
{
    encode_utf8_valid_utf8(s);
    encode_utf8_decode_utf8(s);
    if valid_utf8(bytes) {
        decode_utf8_encode_utf8(bytes);
    }
}

} // verus!
