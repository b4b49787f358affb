//! The part of an HTTP request that is inspected, and the GraphQL query and variables in it.
use vstd::prelude::*;
use vstd::utf8::*;

use crate::json;
use crate::json::JsonValue;
use crate::text;
use crate::variables;
use crate::variables::Variables;

verus! {

/// The parts of a request that the inspection reads, besides the body.
#[derive(Clone, Debug)]
pub struct InspectedRequest {
    /// The method as it stands in the request line.
    pub method: String,
    /// The query part of the target, as it was sent, without the question mark.
    pub query: Option<String>,
    /// The headers in order. The case of the names does not matter.
    pub headers: Vec<(String, Vec<u8>)>,
}

/// The parts of a request as mathematical values. The header names are in lower case.
pub struct RequestView {
    pub method: Seq<char>,
    pub query: Option<Seq<char>>,
    pub headers: Seq<(Seq<char>, Seq<u8>)>,
}

pub open spec fn headers_view(headers: Seq<(String, Vec<u8>)>) -> Seq<(Seq<char>, Seq<u8>)> {
    headers.map_values(|h: (String, Vec<u8>)| (text::lowered(h.0@), h.1@))
}

impl View for InspectedRequest {
    type V = RequestView;

    open spec fn view(&self) -> RequestView {
        RequestView {
            method: self.method@,
            query: match self.query {
                Some(q) => Some(q@),
                None => None,
            },
            headers: headers_view(self.headers@),
        }
    }
}

/// A byte that `http::HeaderValue::to_str` accepts: visible ASCII, the space and the tab.
pub open spec fn is_visible_ascii(b: u8) -> bool {
    32 <= b < 127 || b == 9
}

/// The media type of the body: the first `content-type` header, and empty where there is none or
/// it is not visible ASCII.
pub open spec fn content_type_of(headers: Seq<(Seq<char>, Seq<u8>)>) -> Seq<u8> {
    match text::lookup(headers, "content-type"@) {
        Some(v) => if forall|i: int| 0 <= i < v.len() ==> is_visible_ascii(#[trigger] v[i]) {
            v
        } else {
            Seq::empty()
        },
        None => Seq::empty(),
    }
}

/// The media type is that of a JSON text.
pub open spec fn is_json_type(ct: Seq<u8>) -> bool {
    text::occurs_at(ct, text::ascii_bytes("application/json"@), 0) || text::occurs(
        ct,
        text::ascii_bytes("+json"@),
    )
}

/// The media type is that of a bare query document.
pub open spec fn is_graphql_type(ct: Seq<u8>) -> bool {
    text::occurs_at(ct, text::ascii_bytes("application/graphql"@), 0)
}

/// What `url::form_urlencoded::parse` reads from a query string: its names and values in order.
pub uninterp spec fn form_pairs(raw: Seq<char>) -> Seq<(Seq<char>, Seq<char>)>;

/// What `percent_encoding::percent_decode_str` makes of a text, read as UTF-8 with replacement
/// characters for what is not well formed.
pub uninterp spec fn percent_decoded(raw: Seq<char>) -> Seq<char>;

pub open spec fn pairs_view(pairs: Seq<(String, String)>) -> Seq<(Seq<char>, Seq<char>)> {
    pairs.map_values(|p: (String, String)| (p.0@, p.1@))
}

/// `url::form_urlencoded::parse`, its pairs owned and collected. The result depends on the text
/// alone.
#[verifier::external_body]
fn call_form_parse(raw: &str) -> (r: Vec<(String, String)>)
    ensures
        pairs_view(r@) == form_pairs(raw@),
{
    url::form_urlencoded::parse(raw.as_bytes()).into_owned().collect()
}

/// `percent_encoding::percent_decode_str` with `decode_utf8_lossy`. The result depends on the text
/// alone.
#[verifier::external_body]
fn call_percent_decode(raw: &str) -> (r: String)
    ensures
        r@ == percent_decoded(raw@),
{
    percent_encoding::percent_decode_str(raw).decode_utf8_lossy().into_owned()
}

/// The query text of a query string: the first `query` parameter; without one, the `query` member
/// of the decoded string where that is a JSON object, and else the decoded string itself. `blob`
/// is the decoded string read as JSON.
pub open spec fn chosen_query(
    pairs: Seq<(Seq<char>, Seq<char>)>,
    decoded: Seq<char>,
    blob: Option<json::Json>,
) -> Seq<char> {
    match text::lookup(pairs, "query"@) {
        Some(q) => q,
        None => decoded_query(decoded, blob),
    }
}

/// The `query` member of `blob` where the text looks like a JSON object and has one, else the text.
pub open spec fn decoded_query(decoded: Seq<char>, blob: Option<json::Json>) -> Seq<char> {
    if text::first_visible(decoded) == Some('{') {
        match blob {
            Some(v) => match json::as_text(json::member(v, "query"@)) {
                Some(q) => q,
                None => decoded,
            },
            None => decoded,
        }
    } else {
        decoded
    }
}

/// The query text of a query string.
pub open spec fn get_query(raw: Seq<char>) -> Seq<char> {
    chosen_query(form_pairs(raw), percent_decoded(raw), json::json_in_text(percent_decoded(raw)))
}

/// The value of the first pair of that name.
pub fn pair_named(pairs: &Vec<(String, String)>, name: &str) -> (r: Option<String>)
    ensures
        match r {
            Some(v) => text::lookup(pairs_view(pairs@), name@) == Some(v@),
            None => text::lookup(pairs_view(pairs@), name@) is None,
        },
{
    let ghost all = pairs_view(pairs@);
    assert(all.skip(0) =~= all);
    for i in 0..pairs.len()
        invariant
            all == pairs_view(pairs@),
            text::lookup(all, name@) == text::lookup(all.skip(i as int), name@),
    {
        assert(all.skip(i as int).drop_first() =~= all.skip(i + 1));
        if text::same_text(pairs[i].0.as_str(), name) {
            return Some(pairs[i].1.clone());
        }
    }
    None
}

/// The query text that a decoded query string stands for. `blob` is the string read as JSON.
pub fn query_of_decoded(decoded: String, blob: Option<JsonValue>) -> (r: String)
    ensures
        r@ == decoded_query(
            decoded@,
            match blob {
                Some(v) => Some(v@),
                None => None,
            },
        ),
{
    if let Some(c) = text::find_visible(decoded.as_str()) {
        if c == '{' {
            if let Some(v) = blob {
                if let Some(q) = json::text_member(&v, "query") {
                    return q;
                }
            }
        }
    }
    decoded
}

/// The query text in the query string of the request target, where there is a query string.
pub fn extract_query_from_get(req: &InspectedRequest) -> (r: Option<String>)
    ensures
        match r {
            Some(q) => req@.query matches Some(raw) && q@ == get_query(raw),
            None => req@.query is None,
        },
{
    match &req.query {
        None => None,
        Some(raw) => {
            let pairs = call_form_parse(raw.as_str());
            if let Some(q) = pair_named(&pairs, "query") {
                return Some(q);
            }
            let decoded = call_percent_decode(raw.as_str());
            let blob = if text::find_visible(decoded.as_str()) == Some('{') {
                json::parse_text(decoded.as_str())
            } else {
                None
            };
            Some(query_of_decoded(decoded, blob))
        },
    }
}

/// The value of a `variables` parameter: none where it is blank, else what it holds as JSON
/// (`direct`), and where it is no JSON what it holds once percent-decoded again (`again`).
pub open spec fn chosen_variables<T>(
    param: Seq<char>,
    direct: Option<T>,
    again: Option<T>,
) -> Option<T> {
    if text::first_visible(param) is None {
        None
    } else {
        match direct {
            Some(v) => Some(v),
            None => again,
        }
    }
}

/// The value of the `variables` parameter of a query string.
pub open spec fn get_variables(raw: Seq<char>) -> Option<json::Json> {
    match text::lookup(form_pairs(raw), "variables"@) {
        Some(v) => chosen_variables(
            v,
            json::json_in_text(v),
            json::json_in_text(percent_decoded(v)),
        ),
        None => None,
    }
}

/// The value of a `variables` parameter. `direct` is the parameter read as JSON, `again` what it
/// is once percent-decoded again, read as JSON.
pub fn variables_of_param(
    param: &str,
    direct: Option<Variables>,
    again: Option<Variables>,
) -> (r: Option<Variables>)
    ensures
        r == chosen_variables(param@, direct, again),
{
    if text::find_visible(param).is_none() {
        return None;
    }
    match direct {
        Some(v) => Some(v),
        None => again,
    }
}

/// The `variables` value in the query string of the request target.
pub fn extract_variables_from_get(req: &InspectedRequest) -> (r: Option<Variables>)
    ensures
        variables::stands_for(
            r,
            match req@.query {
                Some(raw) => get_variables(raw),
                None => None,
            },
        ),
{
    match &req.query {
        None => None,
        Some(raw) => {
            let pairs = call_form_parse(raw.as_str());
            match pair_named(&pairs, "variables") {
                None => None,
                Some(v) => {
                    let direct = variables::variables_of(json::read_text(v.as_str()));
                    let again = if direct.is_none() {
                        let decoded = call_percent_decode(v.as_str());
                        variables::variables_of(json::read_text(decoded.as_str()))
                    } else {
                        None
                    };
                    variables_of_param(v.as_str(), direct, again)
                },
            }
        },
    }
}

/// The value of the first header of that name.
fn header_named<'a>(req: &'a InspectedRequest, name: &str) -> (r: Option<&'a Vec<u8>>)
    ensures
        match r {
            Some(v) => text::lookup(req@.headers, name@) == Some(v@),
            None => text::lookup(req@.headers, name@) is None,
        },
{
    let ghost all = req@.headers;
    assert(all.skip(0) =~= all);
    for i in 0..req.headers.len()
        invariant
            all == req@.headers,
            text::lookup(all, name@) == text::lookup(all.skip(i as int), name@),
    {
        assert(all.skip(i as int).drop_first() =~= all.skip(i + 1));
        if text::lowers_to(req.headers[i].0.as_str(), name) {
            return Some(&req.headers[i].1);
        }
    }
    None
}

/// The media type of the body.
pub fn content_type(req: &InspectedRequest) -> (r: Vec<u8>)
    ensures
        r@ == content_type_of(req@.headers),
{
    match header_named(req, "content-type") {
        Some(v) => {
            let mut out: Vec<u8> = Vec::new();
            for i in 0..v.len()
                invariant
                    text::lookup(req@.headers, "content-type"@) == Some(v@),
                    out@ == v@.take(i as int),
                    forall|j: int| 0 <= j < i ==> is_visible_ascii(#[trigger] v@[j]),
            {
                let b: u8 = v[i];
                if !((32 <= b && b < 127) || b == 9) {
                    assert(!is_visible_ascii(v@[i as int]));
                    return Vec::new();
                }
                assert(v@.take(i + 1) =~= v@.take(i as int).push(b));
                out.push(b);
            }
            assert(v@.take(v@.len() as int) =~= v@);
            out
        },
        None => Vec::new(),
    }
}

/// Whether the media type is that of a JSON text.
pub fn has_json_type(ct: &[u8]) -> (r: bool)
    ensures
        r == is_json_type(ct@),
{
    proof {
        reveal_strlit("application/json");
        reveal_strlit("+json");
        text::lemma_ascii_bytes("application/json"@);
        text::lemma_ascii_bytes("+json"@);
    }
    text::starts_with(ct, "application/json".as_bytes()) || text::contains(ct, "+json".as_bytes())
}

fn has_graphql_type(ct: &[u8]) -> (r: bool)
    ensures
        r == is_graphql_type(ct@),
{
    proof {
        reveal_strlit("application/graphql");
        text::lemma_ascii_bytes("application/graphql"@);
    }
    text::starts_with(ct, "application/graphql".as_bytes())
}

/// The query text of a body of that media type: the body itself where it is a bare query document
/// or no JSON text, else its `query` member. A batch, which is an array, has none. `parsed` is the
/// body read as JSON.
pub open spec fn body_query_of(
    ct: Seq<u8>,
    body: Seq<u8>,
    parsed: Option<json::Json>,
) -> Option<Seq<char>> {
    if body.len() == 0 {
        None
    } else if is_graphql_type(ct) {
        text::utf8_text(body)
    } else if is_json_type(ct) {
        match parsed {
            Some(v) => json::as_text(json::member(v, "query"@)),
            None => text::utf8_text(body),
        }
    } else {
        text::utf8_text(body)
    }
}

/// The query text of a body.
pub open spec fn body_query(ct: Seq<u8>, body: Seq<u8>) -> Option<Seq<char>> {
    body_query_of(ct, body, json::json_in_bytes(body))
}

/// The query text of a body of that media type. `parsed` is the body read as JSON.
pub fn query_of_body(ct: &[u8], body: &[u8], parsed: Option<JsonValue>) -> (r: Option<String>)
    ensures
        (match r {
            Some(q) => Some(q@),
            None => None,
        }) == body_query_of(
            ct@,
            body@,
            match parsed {
                Some(v) => Some(v@),
                None => None,
            },
        ),
{
    if body.len() == 0 {
        return None;
    }
    if !has_graphql_type(ct) && has_json_type(ct) {
        if let Some(v) = parsed {
            return json::text_member(&v, "query");
        }
    }
    text::text_in(body)
}

/// The query text in the body of the request.
pub fn extract_query_from_body(req: &InspectedRequest, inspected_body: &[u8]) -> (r: Option<
    String,
>)
    ensures
        (match r {
            Some(q) => Some(q@),
            None => None,
        }) == body_query(content_type_of(req@.headers), inspected_body@),
{
    let ct = content_type(req);
    let parsed = if has_json_type(ct.as_slice()) {
        json::parse_bytes(inspected_body)
    } else {
        None
    };
    query_of_body(ct.as_slice(), inspected_body, parsed)
}

/// The `variables` member of a JSON body.
pub open spec fn body_variables(ct: Seq<u8>, body: Seq<u8>) -> Option<json::Json> {
    if body.len() == 0 || !is_json_type(ct) {
        None
    } else {
        match json::json_in_bytes(body) {
            Some(v) => json::member(v, "variables"@),
            None => None,
        }
    }
}

/// The `variables` value in the body of the request.
pub fn extract_variables_from_body(
    req: &InspectedRequest,
    inspected_body: &[u8],
) -> (r: Option<Variables>)
    ensures
        variables::stands_for(r, body_variables(content_type_of(req@.headers), inspected_body@)),
{
    if inspected_body.len() == 0 {
        return None;
    }
    let ct = content_type(req);
    if !has_json_type(ct.as_slice()) {
        return None;
    }
    match json::call_from_slice(inspected_body) {
        Ok(v) => variables::variables_of(json::call_get(&v, "variables")),
        Err(_) => None,
    }
}

/// The body is a batch: a JSON array.
pub open spec fn is_batch(ct: Seq<u8>, body: Seq<u8>) -> bool {
    &&& body.len() > 0
    &&& is_json_type(ct)
    &&& json::json_in_bytes(body) matches Some(json::Json::Array(_))
}

/// Whether the body of the request is a batch.
pub fn is_batched_json(req: &InspectedRequest, inspected_body: &[u8]) -> (r: bool)
    ensures
        r == is_batch(content_type_of(req@.headers), inspected_body@),
{
    if inspected_body.len() == 0 {
        return false;
    }
    let ct = content_type(req);
    if !has_json_type(ct.as_slice()) {
        return false;
    }
    match json::call_from_slice(inspected_body) {
        Ok(v) => matches!(json::open_value(v), json::JsonNode::Array(_)),
        Err(_) => false,
    }
}

/// The query text of element `i` of a batch.
pub open spec fn batch_query(ct: Seq<u8>, body: Seq<u8>, i: int) -> Option<Seq<char>> {
    match json::json_in_bytes(body) {
        Some(json::Json::Array(items)) => if is_batch(ct, body) && 0 <= i < items.len() {
            json::as_text(json::member(items[i], "query"@))
        } else {
            None
        },
        _ => None,
    }
}

/// The texts are those of the elements of the batch, in order; without a batch there are none.
pub open spec fn queries_of_batch(queries: Seq<Option<String>>, ct: Seq<u8>, body: Seq<u8>) -> bool {
    &&& queries.len() == match json::json_in_bytes(body) {
        Some(json::Json::Array(items)) => if is_batch(ct, body) {
            items.len()
        } else {
            0
        },
        _ => 0,
    }
    &&& forall|i: int|
        0 <= i < queries.len() ==> match #[trigger] queries[i] {
            Some(q) => batch_query(ct, body, i) == Some(q@),
            None => batch_query(ct, body, i) is None,
        }
}

/// The query texts of the elements of a batch.
pub fn extract_queries_from_batch(req: &InspectedRequest, inspected_body: &[u8]) -> (r: Vec<
    Option<String>,
>)
    ensures
        queries_of_batch(r@, content_type_of(req@.headers), inspected_body@),
{
    let mut queries: Vec<Option<String>> = Vec::new();
    let ct = content_type(req);
    if inspected_body.len() == 0 || !has_json_type(ct.as_slice()) {
        return queries;
    }
    if let Some(JsonValue::Array(items)) = json::parse_bytes(inspected_body) {
        let ghost all = json::elements_view(items@);
        for i in 0..items.len()
            invariant
                ct@ == content_type_of(req@.headers),
                inspected_body@.len() > 0,
                is_json_type(ct@),
                all == json::elements_view(items@),
                json::json_in_bytes(inspected_body@) == Some(json::Json::Array(all)),
                queries@.len() == i,
                forall|j: int|
                    0 <= j < i ==> match #[trigger] queries@[j] {
                        Some(q) => batch_query(ct@, inspected_body@, j) == Some(q@),
                        None => batch_query(ct@, inspected_body@, j) is None,
                    },
        {
            assert(items@[i as int]@ == all[i as int]);
            queries.push(json::text_member(&items[i], "query"));
        }
    }
    queries
}

/// The query text of a request: that of the query string where there is one, else that of the
/// body.
pub open spec fn request_query(req: RequestView, body: Seq<u8>) -> Option<Seq<char>> {
    match req.query {
        Some(raw) => Some(get_query(raw)),
        None => body_query(content_type_of(req.headers), body),
    }
}

/// The `variables` value of a request: that of the query string where it has one, else that of
/// the body.
pub open spec fn request_variables(req: RequestView, body: Seq<u8>) -> Option<json::Json> {
    let from_get = match req.query {
        Some(raw) => get_variables(raw),
        None => None,
    };
    match from_get {
        Some(v) => Some(v),
        None => body_variables(content_type_of(req.headers), body),
    }
}

/// A byte that can stand in a header name.
pub open spec fn is_header_byte(b: u8) -> bool {
    let c = b as char;
    ||| 'a' <= c <= 'z' || 'A' <= c <= 'Z' || '0' <= c <= '9'
    ||| c == '!' || c == '"' || c == '#' || c == '$' || c == '%' || c == '&' || c == '\''
    ||| c == '*' || c == '+' || c == '-' || c == '.' || c == '^' || c == '_' || c == '`'
    ||| c == '|' || c == '~'
}

/// A byte of a header name as a character in lower case.
pub open spec fn header_char(b: u8) -> char {
    if 'A' <= (b as char) <= 'Z' {
        (b + 32) as char
    } else {
        b as char
    }
}

/// The header name that the bytes are, in lower case: at least one and at most 65535 bytes that
/// can stand in a header name.
pub open spec fn header_name(bytes: Seq<u8>) -> Option<Seq<char>> {
    if 1 <= bytes.len() <= 65535 && forall|i: int|
        0 <= i < bytes.len() ==> is_header_byte(#[trigger] bytes[i]) {
        Some(bytes.map_values(|b: u8| header_char(b)))
    } else {
        None
    }
}

/// `http::header::HeaderName::from_bytes` with `as_str`: accepts the bytes that are a header name
/// and puts it in lower case.
#[verifier::external_body]
fn call_header_name(name: &[u8]) -> (r: Option<String>)
    ensures
        match r {
            Some(s) => header_name(name@) == Some(s@),
            None => header_name(name@) is None,
        },
{
    match http::header::HeaderName::from_bytes(name) {
        Ok(n) => Some(n.as_str().to_string()),
        Err(_) => None,
    }
}

/// The request has a header of the name that `wanted` is; no header has a name that is none.
pub open spec fn carries_header(req: RequestView, wanted: Seq<char>) -> bool {
    match header_name(encode_utf8(wanted)) {
        Some(name) => text::lookup(req.headers, name) is Some,
        None => false,
    }
}

/// Whether the request has a header of that name, in upper or lower case.
pub fn has_header(req: &InspectedRequest, wanted: &str) -> (r: bool)
    ensures
        r == carries_header(req@, wanted@),
{
    match call_header_name(wanted.as_bytes()) {
        Some(name) => header_named(req, name.as_str()).is_some(),
        None => false,
    }
}

/// A batch has no query text and no variables of its own, unless its media type begins with
/// `application/graphql`: then its text is taken for a query.
pub proof fn law_batch_holds_no_query(ct: Seq<u8>, body: Seq<u8>)
    requires
        is_batch(ct, body),
    ensures
        !is_graphql_type(ct) ==> body_query(ct, body) is None,
        body_variables(ct, body) is None,
{
}

/// A request with a query string has a query text, and the body has no say in it; without one the
/// body alone has.
pub proof fn law_query_string_comes_first(req: RequestView, body: Seq<u8>)
    ensures
        req.query is Some ==> request_query(req, body) is Some,
        req.query is Some ==> forall|other: Seq<u8>| #[trigger]
            request_query(req, other) == request_query(req, body),
        req.query is None ==> request_query(req, body) == body_query(
            content_type_of(req.headers),
            body,
        ),
{
}

/// A request with neither a query string nor a body has no query text and no variables.
pub proof fn law_bare_request_has_no_query(req: RequestView)
    requires
        req.query is None,
    ensures
        request_query(req, Seq::empty()) is None,
        request_variables(req, Seq::empty()) is None,
{
}

/// Names that differ in upper and lower case only ask for the same header.
pub proof fn law_header_names_ignore_case(a: Seq<u8>, b: Seq<u8>)
    requires
        a.len() == b.len(),
        forall|i: int|
            #![trigger a[i]]
            #![trigger b[i]]
            0 <= i < a.len() ==> header_char(a[i]) == header_char(b[i]),
    ensures
        header_name(a) == header_name(b),
{
    assert forall|i: int| 0 <= i < a.len() implies #[trigger] is_header_byte(a[i])
        == is_header_byte(b[i]) by {
        assert(header_char(a[i]) == header_char(b[i]));
    }
    assert(a.map_values(|c: u8| header_char(c)) =~= b.map_values(|c: u8| header_char(c)));
}

/// A header value can be read where its bytes are the tab and those from the space to the tilde.
pub proof fn law_visible_bytes_by_number(b: u8)
    ensures
        is_visible_ascii(b) <==> 0x20 <= b <= 0x7E || b == 0x9,
{
}

/// The media type is the value of the first `content-type` header, whatever other headers there
/// are, and empty where that cannot be read or there is none.
pub proof fn law_media_type_is_that_of_the_first_header(
    headers: Seq<(Seq<char>, Seq<u8>)>,
    i: int,
)
    ensures
        0 <= i < headers.len() && headers[i].0 == "content-type"@ && (forall|j: int|
            0 <= j < i ==> (#[trigger] headers[j]).0 != "content-type"@) ==> {
            &&& (forall|k: int|
                0 <= k < headers[i].1.len() ==> is_visible_ascii(#[trigger] headers[i].1[k]))
                ==> content_type_of(headers) == headers[i].1
            &&& (exists|k: int|
                0 <= k < headers[i].1.len() && !is_visible_ascii(#[trigger] headers[i].1[k]))
                ==> content_type_of(headers).len() == 0
        },
        (forall|j: int| 0 <= j < headers.len() ==> (#[trigger] headers[j]).0 != "content-type"@)
            ==> content_type_of(headers).len() == 0,
{
    text::law_first_entry_counts(headers, "content-type"@);
    if 0 <= i < headers.len() && headers[i].0 == "content-type"@ && (forall|j: int|
        0 <= j < i ==> (#[trigger] headers[j]).0 != "content-type"@) {
        assert(text::lookup(headers, "content-type"@) == Some(headers[i].1));
    }
}

/// A media type is that of JSON where it begins with `application/json` or has `+json` in it, and
/// that of a query document where it begins with `application/graphql`.
pub proof fn law_media_types(ct: Seq<u8>)
    ensures
        is_json_type(ct) <==> (exists|rest: Seq<u8>|
            ct == #[trigger] (text::ascii_bytes("application/json"@) + rest)) || (exists|
            before: Seq<u8>,
            after: Seq<u8>,
        |
            ct == #[trigger] (before + text::ascii_bytes("+json"@) + after)),
        is_graphql_type(ct) <==> exists|rest: Seq<u8>|
            ct == #[trigger] (text::ascii_bytes("application/graphql"@) + rest),
{
    text::law_occurrence_is_in_between(ct, text::ascii_bytes("+json"@));
    lemma_begins_with(ct, text::ascii_bytes("application/json"@));
    lemma_begins_with(ct, text::ascii_bytes("application/graphql"@));
}

proof fn lemma_begins_with(s: Seq<u8>, prefix: Seq<u8>)
    ensures
        text::occurs_at(s, prefix, 0) <==> exists|rest: Seq<u8>| s == #[trigger] (prefix + rest),
{
    if text::occurs_at(s, prefix, 0) {
        assert(s =~= prefix + s.skip(prefix.len() as int)) by {
            assert(s.subrange(0, prefix.len() as int) =~= prefix);
            assert forall|i: int| 0 <= i < s.len() implies s[i] == #[trigger] (prefix + s.skip(
                prefix.len() as int,
            ))[i] by {
                if i < prefix.len() {
                    assert(s.subrange(0, prefix.len() as int)[i] == s[i]);
                }
            }
        }
    }
    if exists|rest: Seq<u8>| s == #[trigger] (prefix + rest) {
        let rest = choose|rest: Seq<u8>| s == #[trigger] (prefix + rest);
        assert(s.subrange(0, prefix.len() as int) =~= prefix);
    }
}

/// The query text of a query string: its first `query` parameter where it has one. Without one it
/// is the `query` text of the decoded string where that begins with a brace and reads as an object
/// with one, whatever else the object has, and else the decoded string.
pub proof fn law_query_text_of_a_query_string(raw: Seq<char>)
    ensures
        ({
            let decoded = percent_decoded(raw);
            match text::lookup(form_pairs(raw), "query"@) {
                Some(q) => get_query(raw) == q,
                None => {
                    &&& text::first_visible(decoded) != Some('{') ==> get_query(raw) == decoded
                    &&& text::first_visible(decoded) == Some('{') ==> match json::json_in_text(
                        decoded,
                    ) {
                        Some(v) => match json::member(v, "query"@) {
                            Some(json::Json::Text(q)) => get_query(raw) == q,
                            _ => get_query(raw) == decoded,
                        },
                        None => get_query(raw) == decoded,
                    }
                },
            }
        }),
{
}

/// The text that a decoded query string stands for, whatever its JSON reading holds besides.
pub proof fn law_decoded_text(decoded: Seq<char>, blob: Option<json::Json>)
    ensures
        decoded_query(decoded, blob) != decoded ==> text::first_visible(decoded) == Some('{'),
        text::first_visible(decoded) == Some('{') && blob is Some ==> match json::member(
            blob->0,
            "query"@,
        ) {
            Some(json::Json::Text(q)) => decoded_query(decoded, blob) == q,
            _ => decoded_query(decoded, blob) == decoded,
        },
        blob is None ==> decoded_query(decoded, blob) == decoded,
{
}

/// The variables of a query string: those of its first `variables` parameter, read as JSON at once
/// or after decoding it once more, and none where that is blank or there is none.
pub proof fn law_variables_of_a_query_string(raw: Seq<char>)
    ensures
        match text::lookup(form_pairs(raw), "variables"@) {
            Some(v) => {
                &&& text::first_visible(v) is None ==> get_variables(raw) is None
                &&& text::first_visible(v) is Some && json::json_in_text(v) is Some
                    ==> get_variables(raw) == json::json_in_text(v)
                &&& text::first_visible(v) is Some && json::json_in_text(v) is None
                    ==> get_variables(raw) == json::json_in_text(percent_decoded(v))
            },
            None => get_variables(raw) is None,
        },
{
}

/// A parameter that is not blank gives what it reads as, and what it reads as after decoding it
/// once more only where it reads as nothing.
pub proof fn law_chosen_variables<T>(param: Seq<char>, direct: Option<T>, again: Option<T>)
    ensures
        text::first_visible(param) is None ==> chosen_variables(param, direct, again) is None,
        text::first_visible(param) is Some && direct is Some ==> chosen_variables(
            param,
            direct,
            again,
        ) == direct,
        text::first_visible(param) is Some && direct is None ==> chosen_variables(
            param,
            direct,
            again,
        ) == again,
{
}

/// A JSON body that reads as an object has the text of its `query` member as its query text,
/// whatever other members the object has, and none where that is no text or there is none.
pub proof fn law_query_text_of_a_json_body(
    ct: Seq<u8>,
    body: Seq<u8>,
    members: Seq<(Seq<char>, json::Json)>,
    i: int,
)
    requires
        body.len() > 0,
        is_json_type(ct),
        !is_graphql_type(ct),
        json::json_in_bytes(body) == Some(json::Json::Object(members)),
    ensures
        0 <= i < members.len() && members[i].0 == "query"@ && (forall|j: int|
            i < j < members.len() ==> (#[trigger] members[j]).0 != "query"@) ==> {
            &&& members[i].1 is Text ==> body_query(ct, body) == Some(members[i].1->Text_0)
            &&& !(members[i].1 is Text) ==> body_query(ct, body) is None
        },
        (forall|j: int| 0 <= j < members.len() ==> (#[trigger] members[j]).0 != "query"@)
            ==> body_query(ct, body) is None,
{
    let v = json::Json::Object(members);
    if 0 <= i < members.len() {
        json::law_last_member_of_a_name_counts(v, "query"@, members[i].1);
        assert(members[i] == (members[i].0, members[i].1));
    }
    json::law_last_member_of_a_name_counts(v, "query"@, json::Json::Null);
}

/// The query text of a body that is no JSON object: a body that is a query document, is of another
/// media type or cannot be read as JSON is its own text, and any other JSON value has none. An empty
/// body never has a query text.
pub proof fn law_query_text_of_another_body(ct: Seq<u8>, body: Seq<u8>)
    ensures
        body.len() == 0 ==> body_query(ct, body) is None,
        body.len() > 0 && (is_graphql_type(ct) || !is_json_type(ct) || json::json_in_bytes(
            body,
        ) is None) ==> body_query(ct, body) == text::utf8_text(body),
        body.len() > 0 && !is_graphql_type(ct) && is_json_type(ct) ==> (json::json_in_bytes(
            body,
        ) matches Some(v) ==> (!(v is Object) ==> body_query(ct, body) is None)),
{
}

/// The query text of a body depends on its JSON reading only through the `query` member, and that
/// is what is looked at where the body is read as JSON.
pub proof fn law_only_the_query_member_matters(
    ct: Seq<u8>,
    body: Seq<u8>,
    a: json::Json,
    b: json::Json,
)
    requires
        json::member(a, "query"@) == json::member(b, "query"@),
    ensures
        body_query_of(ct, body, Some(a)) == body_query_of(ct, body, Some(b)),
        body_query(ct, body) == body_query_of(ct, body, json::json_in_bytes(body)),
        body.len() > 0 && is_json_type(ct) && !is_graphql_type(ct) ==> match json::member(
            a,
            "query"@,
        ) {
            Some(json::Json::Text(q)) => body_query_of(ct, body, Some(a)) == Some(q),
            _ => body_query_of(ct, body, Some(a)) is None,
        },
        body.len() > 0 && (is_graphql_type(ct) || !is_json_type(ct)) ==> body_query_of(
            ct,
            body,
            Some(a),
        ) == text::utf8_text(body),
        body.len() > 0 ==> body_query_of(ct, body, None) == text::utf8_text(body),
        body.len() == 0 ==> body_query_of(ct, body, Some(a)) is None && body_query_of(
            ct,
            body,
            None,
        ) is None,
{
}

/// The variables of a body are the `variables` member of what it reads as, whatever else that has;
/// there are none in an empty body, in one of another media type and in one that is no JSON.
pub proof fn law_variables_of_a_body(ct: Seq<u8>, body: Seq<u8>)
    ensures
        body.len() == 0 ==> body_variables(ct, body) is None,
        !is_json_type(ct) ==> body_variables(ct, body) is None,
        json::json_in_bytes(body) is None ==> body_variables(ct, body) is None,
        body.len() > 0 && is_json_type(ct) ==> (json::json_in_bytes(body) matches Some(v)
            ==> body_variables(ct, body) == json::member(v, "variables"@)),
{
}

/// A batch is a JSON body that reads as an array, and its queries are those of its elements.
pub proof fn law_batches(ct: Seq<u8>, body: Seq<u8>, i: int)
    ensures
        is_batch(ct, body) <==> body.len() > 0 && is_json_type(ct) && json::json_in_bytes(
            body,
        ) is Some && json::json_in_bytes(body)->0 is Array,
        !is_batch(ct, body) ==> batch_query(ct, body, i) is None,
        is_batch(ct, body) ==> {
            let items = json::json_in_bytes(body)->0->Array_0;
            &&& !(0 <= i < items.len()) ==> batch_query(ct, body, i) is None
            &&& 0 <= i < items.len() ==> match json::member(items[i], "query"@) {
                Some(json::Json::Text(q)) => batch_query(ct, body, i) == Some(q),
                _ => batch_query(ct, body, i) is None,
            }
        },
{
}

/// The texts of a batch are one for each element, and none where there is no batch.
pub proof fn law_texts_of_a_batch(queries: Seq<Option<String>>, ct: Seq<u8>, body: Seq<u8>, i: int)
    requires
        queries_of_batch(queries, ct, body),
    ensures
        is_batch(ct, body) ==> queries.len() == json::json_in_bytes(body)->0->Array_0.len(),
        !is_batch(ct, body) ==> queries.len() == 0,
        0 <= i < queries.len() ==> {
            &&& queries[i] is Some ==> batch_query(ct, body, i) == Some(queries[i]->0@)
            &&& queries[i] is None ==> batch_query(ct, body, i) is None
        },
{
}

/// The variables of a request are those of its query string where it has them, and else those of
/// its body.
pub proof fn law_variables_of_a_request(req: RequestView, body: Seq<u8>)
    ensures
        ({
            let ct = content_type_of(req.headers);
            match req.query {
                Some(raw) => {
                    &&& get_variables(raw) is Some ==> request_variables(req, body)
                        == get_variables(raw)
                    &&& get_variables(raw) is None ==> request_variables(req, body)
                        == body_variables(ct, body)
                },
                None => request_variables(req, body) == body_variables(ct, body),
            }
        }),
{
}

/// The query text of a request is that of its query string where it has one, and else that of its
/// body.
pub proof fn law_query_text_of_a_request(req: RequestView, body: Seq<u8>)
    ensures
        match req.query {
            Some(raw) => request_query(req, body) == Some(get_query(raw)),
            None => request_query(req, body) == body_query(content_type_of(req.headers), body),
        },
{
}

/// A header name is at least one and at most 65535 header bytes, put in lower case.
pub proof fn law_header_names(bytes: Seq<u8>)
    ensures
        header_name(bytes) is Some <==> 1 <= bytes.len() <= 65535 && forall|i: int|
            0 <= i < bytes.len() ==> is_header_byte(#[trigger] bytes[i]),
        header_name(bytes) matches Some(name) ==> name.len() == bytes.len() && forall|i: int|
            0 <= i < bytes.len() ==> #[trigger] name[i] == text::lower(bytes[i] as char),
{
}

/// A request carries a header exactly where one of its headers has the name that is asked for.
pub proof fn law_carried_headers(req: RequestView, wanted: Seq<char>)
    ensures
        carries_header(req, wanted) <==> exists|i: int|
            0 <= i < req.headers.len() && header_name(encode_utf8(wanted)) == Some(
                (#[trigger] req.headers[i]).0,
            ),
{
    if let Some(name) = header_name(encode_utf8(wanted)) {
        text::law_first_entry_counts(req.headers, name);
    }
}

/// The parts of a request are its method and its query string as they are, and its headers in order
/// with the names in lower case.
pub proof fn law_view_of_a_request(req: InspectedRequest)
    ensures
        req@.method == req.method@,
        req.query is None ==> req@.query is None,
        req.query is Some ==> req@.query == Some(req.query->0@),
        req@.headers.len() == req.headers@.len(),
        forall|i: int|
            0 <= i < req.headers@.len() ==> req@.headers[i] == (
                text::lowered((#[trigger] req.headers@[i]).0@),
                req.headers@[i].1@,
            ),
{
}

/// Pairs are taken as they are and in order.
pub proof fn law_view_of_pairs(pairs: Seq<(String, String)>)
    ensures
        pairs_view(pairs).len() == pairs.len(),
        forall|i: int|
            0 <= i < pairs.len() ==> pairs_view(pairs)[i] == (
                (#[trigger] pairs[i]).0@,
                pairs[i].1@,
            ),
{
}

} // verus!
