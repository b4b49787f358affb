use graphql_waf::cost::{compute_cost, CostModel, CostTerm};
use graphql_waf::document::{parse_document, Document};
use graphql_waf::graphql_security::{
    check_document, check_query, check_variables, conclude, evaluate_graphql_security,
    looks_like_graphql_request, strip_graphql_field_suggestions, GraphqlMatch,
    GraphqlSecurityConfig, Verdict,
};
use graphql_waf::introspection::contains_introspection_bytes;
use graphql_waf::json::{find_member, parse_bytes, parse_text, text_member, JsonValue};
use graphql_waf::limits::{count_aliases_and_directives, max_depth_document};
use graphql_waf::probe::{is_typename_document, is_typename_health_probe};
use graphql_waf::request::{
    content_type, extract_queries_from_batch, extract_query_from_body, extract_query_from_get,
    extract_variables_from_body, extract_variables_from_get, has_header, is_batched_json, pair_named, query_of_body,
    query_of_decoded, variables_of_param, InspectedRequest,
};
use graphql_waf::suggestions::{strip_error, strip_suggestion};
use graphql_waf::text::replace_wide_space;
use graphql_waf::variables::{variables_stats, Variables, VariablesStats};

fn cfg_open() -> GraphqlSecurityConfig {
    GraphqlSecurityConfig {
        enabled: true,
        block_non_graphql_paths: false,
        block_introspection: false,
        allow_introspection_header: None,
        allow_get: true,
        max_query_bytes: None,
        max_depth: None,
        max_aliases: None,
        max_directives: None,
        max_cost: None,
        cost_scalar_cost: 1,
        cost_object_cost: 2,
        cost_flatten_fragments: false,
        cost_ignore_introspection: true,
        cost_fragment_recursion_cost: 1000,
        max_variables_bytes: None,
        max_variables_depth: None,
        max_variables_keys: None,
        max_variables_array_len: None,
        block_batch: false,
        block_invalid_query: false,
        block_field_suggestions: true,
        max_response_bytes: 262144,
    }
}

fn get(query: &str) -> InspectedRequest {
    InspectedRequest {
        method: "GET".to_string(),
        query: Some(query.to_string()),
        headers: vec![],
    }
}

fn post(ct: &str) -> InspectedRequest {
    InspectedRequest {
        method: "POST".to_string(),
        query: None,
        headers: vec![("content-type".to_string(), ct.as_bytes().to_vec())],
    }
}

fn doc(query: &str) -> Document {
    parse_document(query).unwrap()
}

fn reason(cfg: &GraphqlSecurityConfig, r: &InspectedRequest, body: &[u8]) -> Option<&'static str> {
    match evaluate_graphql_security(cfg, r, body) {
        Verdict::Decided(m) => {
            assert_eq!(m.matched, m.reason.is_some());
            m.reason
        }
        Verdict::CostLimit { .. } => panic!("the cost was left open"),
    }
}

fn total(cost: &CostTerm, factor: f64) -> f64 {
    match cost {
        CostTerm::Leaf(n) => *n as f64,
        CostTerm::Sum(terms) => {
            let mut sum = 0.0;
            for t in terms {
                sum += total(t, factor);
            }
            sum
        }
        CostTerm::Object {
            base,
            scaled,
            terms,
        } => {
            let mut sum = *base as f64;
            for t in terms {
                sum += if *scaled {
                    factor * total(t, factor)
                } else {
                    total(t, factor)
                };
            }
            sum
        }
    }
}

fn cost_of(query: &str, model: CostModel) -> f64 {
    total(&compute_cost(&doc(query), model), 1.5)
}

fn model() -> CostModel {
    cfg_open().cost_model()
}

#[test]
fn a_match_has_a_reason() {
    let none = GraphqlMatch::no_match();
    assert!(!none.matched);
    assert_eq!(none.reason, None);
    let some = GraphqlMatch::matched("graphql_batch_blocked");
    assert!(some.matched);
    assert_eq!(some.reason, Some("graphql_batch_blocked"));
}

#[test]
fn tokens_are_found_at_either_end_of_the_buffer() {
    assert!(contains_introspection_bytes(b"__type"));
    assert!(contains_introspection_bytes(b"__schema"));
    assert!(contains_introspection_bytes(b"a.__type,"));
    assert!(!contains_introspection_bytes(b""));
    assert!(!contains_introspection_bytes(b"_type schema"));
}

#[test]
fn a_later_token_is_found_behind_a_longer_identifier() {
    assert!(contains_introspection_bytes(b"{ __typename __type }"));
    assert!(contains_introspection_bytes(b"__typename x__schema __schema\n"));
    assert!(!contains_introspection_bytes(b"__typename x__type __types"));
}

#[test]
fn identifier_bytes_alone_keep_a_token_from_standing_alone() {
    for b in 0..=255u8 {
        let alone = !(b.is_ascii_alphanumeric() || b == b'_');
        for token in [b"__type".as_slice(), b"__schema".as_slice()] {
            assert_eq!(contains_introspection_bytes(&[token, &[b]].concat()), alone, "{b}");
            assert_eq!(contains_introspection_bytes(&[&[b], token].concat()), alone, "{b}");
        }
    }
}

#[test]
fn a_directive_may_follow_the_token() {
    assert!(contains_introspection_bytes(
        b"{__schema@include(if:true){queryType{name}}}"
    ));
}

#[test]
fn the_query_parameter_is_decoded() {
    let r = get("x=1&query=%7Bping%7D+%23&query=other");
    assert_eq!(extract_query_from_get(&r).unwrap(), "{ping} #");
}

#[test]
fn a_query_string_without_the_parameter_is_the_query() {
    assert_eq!(extract_query_from_get(&get("%7Bping%7D")).unwrap(), "{ping}");
    assert_eq!(
        extract_query_from_get(&get("%20%7B%22query%22:%22%7Ba%7D%22%7D")).unwrap(),
        "{a}"
    );
    assert_eq!(
        extract_query_from_get(&get("%7B%22other%22:1%7D")).unwrap(),
        "{\"other\":1}"
    );
    assert_eq!(extract_query_from_get(&get("a%FFb")).unwrap(), "a\u{FFFD}b");
    assert_eq!(extract_query_from_get(&post("text/plain")), None);
}

#[test]
fn a_decoded_query_string_may_be_a_request_object() {
    let blob = parse_text(r#"{"query":"{a}"}"#);
    assert_eq!(query_of_decoded(" {}".to_string(), blob), "{a}");
    let blob = parse_text(r#"{"query":"{a}"}"#);
    assert_eq!(query_of_decoded("[{}]".to_string(), blob), "[{}]");
    let blob = parse_text(r#"{"query":7}"#);
    assert_eq!(query_of_decoded("{}".to_string(), blob), "{}");
    assert_eq!(query_of_decoded("{}".to_string(), None), "{}");
}

#[test]
fn the_first_pair_of_a_name_counts() {
    let pairs = vec![
        ("a".to_string(), "1".to_string()),
        ("b".to_string(), "2".to_string()),
        ("b".to_string(), "3".to_string()),
    ];
    assert_eq!(pair_named(&pairs, "b").unwrap(), "2");
    assert_eq!(pair_named(&pairs, "c"), None);
}

#[test]
fn the_content_type_is_the_first_readable_header() {
    let mut r = post("application/json");
    r.headers.push(("content-type".to_string(), b"text/html".to_vec()));
    assert_eq!(content_type(&r), b"application/json");
    r.headers[0].1 = vec![b'a', 0x80];
    assert_eq!(content_type(&r), b"");
    r.headers.clear();
    assert_eq!(content_type(&r), b"");
}

#[test]
fn the_body_is_read_by_its_media_type() {
    let json = br#"{"query":"{a}"}"#;
    assert_eq!(extract_query_from_body(&post("application/json"), json).unwrap(), "{a}");
    assert_eq!(extract_query_from_body(&post("application/x+json"), json).unwrap(), "{a}");
    assert_eq!(
        extract_query_from_body(&post("application/graphql"), json).unwrap(),
        r#"{"query":"{a}"}"#
    );
    assert_eq!(
        extract_query_from_body(&post("text/plain"), json).unwrap(),
        r#"{"query":"{a}"}"#
    );
    assert_eq!(extract_query_from_body(&post("application/json"), b"{a}").unwrap(), "{a}");
    assert_eq!(extract_query_from_body(&post("application/json"), b"[]"), None);
    assert_eq!(extract_query_from_body(&post("application/json"), b"{}"), None);
    assert_eq!(extract_query_from_body(&post("application/json"), b""), None);
    assert_eq!(extract_query_from_body(&post("application/graphql"), &[0xff]), None);
}

#[test]
fn a_parsed_body_gives_its_query() {
    let parsed = parse_bytes(br#"{"query":"{a}"}"#);
    assert_eq!(query_of_body(b"application/json", b"x", parsed).unwrap(), "{a}");
    assert_eq!(query_of_body(b"application/json", b"x", None).unwrap(), "x");
    assert_eq!(query_of_body(b"application/json", b"", None), None);
}

#[test]
fn a_batch_holds_no_query_of_its_own() {
    let body = br#"[{"query":"{a}"}]"#;
    let r = post("application/json");
    assert!(is_batched_json(&r, body));
    assert_eq!(extract_query_from_body(&r, body), None);
    assert!(extract_variables_from_body(&r, body).is_none());
    assert!(!is_batched_json(&post("text/plain"), body));
    assert!(!is_batched_json(&r, b"{}"));
    assert!(!is_batched_json(&r, b"[nope"));
    assert!(!is_batched_json(&r, b""));
    let odd = post("application/graphql+json");
    assert!(is_batched_json(&odd, body));
    assert_eq!(extract_query_from_body(&odd, body).unwrap(), r#"[{"query":"{a}"}]"#);
}

#[test]
fn variables_come_from_the_query_string_or_the_body() {
    let member = |v: &Variables| match find_member(&v.tree, "a") {
        Some(JsonValue::Number(n)) => n.as_i64(),
        _ => None,
    };
    let v = extract_variables_from_get(&get("variables=%7B%22a%22:1%7D")).unwrap();
    assert_eq!((member(&v), v.written), (Some(1), 7));
    let v = extract_variables_from_get(&get("variables=%257B%2522a%2522:1%257D")).unwrap();
    assert_eq!(member(&v), Some(1));
    assert!(extract_variables_from_get(&get("variables=+")).is_none());
    assert!(extract_variables_from_get(&get("variables=%7B")).is_none());
    assert!(extract_variables_from_get(&get("query=%7Ba%7D")).is_none());
    assert!(extract_variables_from_get(&post("text/plain")).is_none());
    let body = br#"{"variables":{ "a" : 2 }}"#;
    let v = extract_variables_from_body(&post("application/json"), body).unwrap();
    assert_eq!((member(&v), v.written), (Some(2), 7));
    assert!(extract_variables_from_body(&post("text/plain"), body).is_none());
    assert!(extract_variables_from_body(&post("application/json"), b"{").is_none());
    assert!(extract_variables_from_body(&post("application/json"), b"").is_none());
}

#[test]
fn a_variables_parameter_is_read_directly_or_decoded_again() {
    let some = |written: usize| {
        Some(Variables {
            tree: JsonValue::Null,
            written,
        })
    };
    let written = |v: Option<Variables>| v.map(|v| v.written);
    assert_eq!(written(variables_of_param("x", some(1), some(2))), Some(1));
    assert_eq!(written(variables_of_param("x", None, some(2))), Some(2));
    assert_eq!(written(variables_of_param("x", None, None)), None);
    assert_eq!(written(variables_of_param(" \n", some(1), some(2))), None);
}

#[test]
fn the_query_string_comes_before_the_body() {
    let cfg = GraphqlSecurityConfig {
        max_depth: Some(1),
        ..cfg_open()
    };
    let mut r = post("application/graphql");
    assert_eq!(reason(&cfg, &r, b"{ a { b } }"), Some("graphql_depth_exceeded"));
    r.query = Some("query=%7Ba%7D".to_string());
    assert_eq!(reason(&cfg, &r, b"{ a { b } }"), None);
}

fn measured(value: &str) -> VariablesStats {
    let body = format!("{{\"variables\":{value}}}");
    let v = extract_variables_from_body(&post("application/json"), body.as_bytes()).unwrap();
    variables_stats(&v)
}

#[test]
fn wrapping_a_value_adds_one_level() {
    for value in ["null", "[]", "{}", r#"{"a":[1,2,3]}"#, r#"[[7],{"b":{}}]"#] {
        let (v, w) = (measured(value), measured(&format!("[{value}]")));
        assert_eq!(w.depth, v.depth + 1);
        assert_eq!(w.keys, v.keys);
        assert_eq!(w.max_array_len, v.max_array_len.max(1));
        assert_eq!(w.approx_bytes, v.approx_bytes + 2);
    }
}

#[test]
fn only_nesting_adds_depth() {
    for value in ["null", "true", "3", "\"x\"", "[]", "{}"] {
        assert_eq!(measured(value).depth, 1);
    }
    assert_eq!(measured("[null]").depth, 2);
}

#[test]
fn counts_of_definitions_add_up() {
    let (a, b) = ("query A { x: a @d }", "fragment F on T @e { y: b z: c }");
    let (first, second) = (
        count_aliases_and_directives(&doc(a)),
        count_aliases_and_directives(&doc(b)),
    );
    let both = count_aliases_and_directives(&doc(&format!("{a} {b}")));
    assert_eq!(both.aliases, first.aliases + second.aliases);
    assert_eq!(both.directives, first.directives + second.directives);
    assert_eq!((both.aliases, both.directives), (3, 2));
}

#[test]
fn header_names_are_compared_in_lower_case() {
    let mut r = post("text/plain");
    r.headers.push(("x-allow".to_string(), b"".to_vec()));
    assert!(has_header(&r, "x-allow"));
    assert!(has_header(&r, "X-Allow"));
    r.headers.push(("X-Other".to_string(), b"".to_vec()));
    assert!(has_header(&r, "x-other"));
    assert!(!has_header(&r, "x-deny"));
    assert!(!has_header(&r, "x allow"));
    assert!(!has_header(&r, ""));
}

#[test]
fn a_request_looks_like_graphql_when_it_has_a_query() {
    assert!(looks_like_graphql_request(&get("a=1"), b""));
    assert!(looks_like_graphql_request(&post("text/plain"), b"x"));
    assert!(!looks_like_graphql_request(&post("text/plain"), b""));
    assert!(!looks_like_graphql_request(&post("application/json"), b"{\"a\":1}"));
}

#[test]
fn json_is_taken_over_whole() {
    let v = parse_bytes(br#"{"b":[null,true,2,"x"],"a":{"c":"d"}}"#).unwrap();
    let b = find_member(&v, "b").unwrap();
    match b {
        JsonValue::Array(items) => {
            assert_eq!(items.len(), 4);
            assert!(matches!(items[0], JsonValue::Null));
            assert!(matches!(items[1], JsonValue::Bool(true)));
            assert!(matches!(&items[2], JsonValue::Number(n) if n.as_i64() == Some(2)));
            assert!(matches!(&items[3], JsonValue::Text(s) if s == "x"));
        }
        _ => panic!("not an array"),
    }
    let a = find_member(&v, "a").unwrap();
    assert_eq!(text_member(a, "c").unwrap(), "d");
    assert!(find_member(&v, "c").is_none());
    assert!(find_member(b, "c").is_none());
    assert_eq!(text_member(&v, "b"), None);
    assert!(parse_bytes(b"{").is_none());
    assert!(parse_text("nope").is_none());
}

#[test]
fn variables_are_measured() {
    assert_eq!(
        measured(r#"{"a":[1,{"b":[]}],"c":"d"}"#),
        VariablesStats {
            depth: 4,
            keys: 3,
            max_array_len: 2,
            approx_bytes: 26,
        }
    );
    let scalar = Variables {
        tree: JsonValue::Null,
        written: 4,
    };
    assert_eq!(
        variables_stats(&scalar),
        VariablesStats {
            depth: 1,
            keys: 0,
            max_array_len: 0,
            approx_bytes: 4,
        }
    );
}

#[test]
fn spaces_around_variables_do_not_count() {
    assert_eq!(measured(" { \"a\" : 1 } ").approx_bytes, 7);
}

#[test]
fn the_first_passed_limit_on_variables_is_named() {
    let st = VariablesStats {
        depth: 4,
        keys: 3,
        max_array_len: 2,
        approx_bytes: 26,
    };
    let mut cfg = cfg_open();
    assert_eq!(check_variables(&cfg, &st), None);
    cfg.max_variables_array_len = Some(1);
    assert_eq!(check_variables(&cfg, &st), Some("graphql_variables_array_exceeded"));
    cfg.max_variables_keys = Some(2);
    assert_eq!(check_variables(&cfg, &st), Some("graphql_variables_keys_exceeded"));
    cfg.max_variables_depth = Some(3);
    assert_eq!(check_variables(&cfg, &st), Some("graphql_variables_depth_exceeded"));
    cfg.max_variables_bytes = Some(25);
    assert_eq!(check_variables(&cfg, &st), Some("graphql_variables_too_large"));
    cfg.max_variables_bytes = Some(26);
    cfg.max_variables_depth = Some(4);
    cfg.max_variables_keys = Some(3);
    cfg.max_variables_array_len = Some(2);
    assert_eq!(check_variables(&cfg, &st), None);
}

#[test]
fn depth_counts_levels_and_spreads() {
    assert_eq!(max_depth_document(&doc("{ a }")), 1);
    assert_eq!(max_depth_document(&doc("query { a { b { c { d } } } }")), 4);
    assert_eq!(max_depth_document(&doc("{ ... on Q { a } }")), 2);
    assert_eq!(max_depth_document(&doc("{ ...F } fragment F on Q { a { b } }")), 3);
    assert_eq!(max_depth_document(&doc("{ ...Missing }")), 1);
    assert_eq!(max_depth_document(&doc("fragment F on Q { a { b } }")), 0);
    assert_eq!(max_depth_document(&doc("query A { a } mutation B { b { c } }")), 2);
}

#[test]
fn cyclic_fragments_are_expanded_once() {
    let d = doc("{ ...A } fragment A on Q { x ...B } fragment B on Q { ...A }");
    assert_eq!(max_depth_document(&d), 3);
    let d = doc("{ ...A ...A } fragment A on Q { ...A }");
    assert_eq!(max_depth_document(&d), 2);
}

#[test]
fn of_two_fragments_of_a_name_the_later_counts() {
    let d = doc("{ ...A } fragment A on Q { a { b { c } } } fragment A on Q { a }");
    assert_eq!(max_depth_document(&d), 2);
}

#[test]
fn aliases_and_directives_are_counted_as_written() {
    let d = doc(
        "query Q @q { a: b @x { c: d ... on T @y { e: f } ...F @z } } fragment F on T @v { g: h }",
    );
    let stats = count_aliases_and_directives(&d);
    assert_eq!(stats.aliases, 4);
    assert_eq!(stats.directives, 5);
}

#[test]
fn directives_on_an_operation_count() {
    let stats = count_aliases_and_directives(&doc("query Q @a @b { ping }"));
    assert_eq!(stats.directives, 2);
}

#[test]
fn joined_selection_sets_are_as_deep_as_the_deeper() {
    assert_eq!(max_depth_document(&doc("{ a b { c } }")), 2);
    assert_eq!(max_depth_document(&doc("{ b { c } a }")), 2);
}

#[test]
fn cost_grows_with_depth() {
    assert_eq!(cost_of("{ a }", model()), 1.0);
    assert_eq!(cost_of("{ a { b { c { d } } } }", model()), 12.875);
    assert_eq!(
        cost_of("{ a { ...F } } fragment F on Q { b { c { d } } }", model()),
        12.875
    );
    assert_eq!(cost_of("{ a { ... on Q { b c } } }", model()), 5.0);
    assert_eq!(cost_of("query A { a } query B { b }", model()), 2.0);
    assert_eq!(cost_of("{ ...Missing }", model()), 0.0);
}

#[test]
fn a_spread_costs_what_it_stands_for() {
    let frags = "fragment F on Q { x ...G } fragment G on Q { y { z } }";
    let spread = cost_of(&format!("{{ a {{ ...F }} ...G }} {frags}"), model());
    let one = cost_of(
        &format!("{{ a {{ ... {{ x ...G }} }} ...G }} {frags}"),
        model(),
    );
    let inside = cost_of(
        "{ a { ...F } ... { y { z } } } fragment F on Q { x ... { y { z } } } fragment G on Q { y { z } }",
        model(),
    );
    assert_eq!(spread, 12.25);
    assert_eq!(one, spread);
    assert_eq!(inside, spread);
}

#[test]
fn a_fragment_that_nobody_spreads_costs_nothing() {
    let bare = cost_of("{ ...F } fragment F on Q { x }", model());
    assert_eq!(bare, 1.0);
    assert_eq!(
        cost_of("fragment H on Q { h { i } ...H } { ...F } fragment F on Q { x }", model()),
        bare
    );
}

#[test]
fn flattened_cost_has_no_factor() {
    let flat = CostModel {
        flatten_fragments: true,
        ..model()
    };
    let cost = compute_cost(&doc("{ a { b { c { d } } } }"), flat);
    assert_eq!(total(&cost, 1.5), 7.0);
    assert_eq!(total(&cost, 100.0), 7.0);
}

#[test]
fn a_recursive_spread_costs_extra() {
    assert_eq!(cost_of("{ ...A } fragment A on Q { x ...A }", model()), 1001.0);
}

#[test]
fn introspection_costs_nothing_when_ignored() {
    assert_eq!(cost_of("{ __schema { types { name } } a }", model()), 1.0);
    let counted = CostModel {
        ignore_introspection: false,
        ..model()
    };
    assert_eq!(cost_of("{ __schema { types { name } } a }", counted), 8.25);
}

#[test]
fn the_cost_keeps_the_shape_of_the_document() {
    match compute_cost(&doc("{ a { b } }"), model()) {
        CostTerm::Sum(ops) => match &ops[0] {
            CostTerm::Sum(fields) => match &fields[0] {
                CostTerm::Object {
                    base: 2,
                    scaled: true,
                    terms,
                } => assert!(matches!(terms[0], CostTerm::Leaf(1))),
                other => panic!("{other:?}"),
            },
            other => panic!("{other:?}"),
        },
        other => panic!("{other:?}"),
    }
}

#[test]
fn the_probe_is_one_bare_field() {
    assert!(is_typename_health_probe("{__typename}"));
    assert!(is_typename_health_probe("query { __typename }"));
    assert!(is_typename_health_probe("mutation M { __typename }"));
    assert!(is_typename_health_probe("subscription { __typename }"));
    for q in [
        "{ __typename ping }",
        "{ t: __typename }",
        "{ __typename(a: 1) }",
        "{ __typename @skip(if: true) }",
        "{ __typename { a } }",
        "{ ping }",
        "{ ... on Q { __typename } }",
        "query ($a: Int) { __typename }",
        "query Q @d { __typename }",
        "{ __typename } { __typename }",
        "fragment F on Q { __typename }",
        "nope",
    ] {
        assert!(!is_typename_health_probe(q), "{q}");
    }
    assert!(is_typename_document(&doc("{__typename}")));
}

#[test]
fn wide_white_space_does_not_reach_the_parser() {
    assert_eq!(replace_wide_space("a\u{3000}b \u{A0}"), "a\u{FFFD}b \u{FFFD}");
    assert!(parse_document("{ a(s: \"\"\"\n  x\n\u{3000}\n  y\"\"\") }").is_some());
    assert!(parse_document("{ a(s: \"x\u{A0}y\") }").is_some());
    assert!(parse_document("{ a # \u{2003}\n }").is_some());
    assert!(parse_document("{ a\u{A0}b }").is_none());
}

#[test]
fn the_first_passed_limit_on_the_document_is_named() {
    let d = doc("{ x: a @d { y: b @e } }");
    let mut cfg = cfg_open();
    assert!(matches!(check_document(&cfg, &d), Verdict::Decided(m) if !m.matched));
    cfg.max_cost = Some(1);
    match check_document(&cfg, &d) {
        Verdict::CostLimit { cost, max_cost } => {
            assert_eq!(max_cost, 1);
            assert_eq!(total(&cost, 1.5), 3.5);
        }
        other => panic!("{other:?}"),
    }
    cfg.max_directives = Some(1);
    cfg.max_aliases = Some(2);
    assert!(matches!(check_document(&cfg, &d), Verdict::Decided(m)
        if m.reason == Some("graphql_directives_exceeded")));
    cfg.max_aliases = Some(1);
    cfg.max_depth = Some(2);
    assert!(matches!(check_document(&cfg, &d), Verdict::Decided(m)
        if m.reason == Some("graphql_aliases_exceeded")));
    cfg.max_depth = Some(1);
    assert!(matches!(check_document(&cfg, &d), Verdict::Decided(m)
        if m.reason == Some("graphql_depth_exceeded")));
}

#[test]
fn the_size_of_a_query_is_in_bytes() {
    let cfg = GraphqlSecurityConfig {
        max_query_bytes: Some(7),
        ..cfg_open()
    };
    assert!(matches!(check_query(&cfg, "#\u{e9}\u{e9}\u{e9}\u{e9}"), Verdict::Decided(m)
        if m.reason == Some("graphql_query_too_large")));
    assert!(matches!(check_query(&cfg, "{ abc }"), Verdict::Decided(m) if !m.matched));
}

#[test]
fn the_cost_decides_only_where_it_is_left_open() {
    let open = Verdict::CostLimit {
        cost: CostTerm::Leaf(4),
        max_cost: 3,
    };
    assert_eq!(conclude(open, true).reason, Some("graphql_cost_exceeded"));
    let open = Verdict::CostLimit {
        cost: CostTerm::Leaf(2),
        max_cost: 3,
    };
    assert!(!conclude(open, false).matched);
    let decided = Verdict::Decided(GraphqlMatch::no_match());
    assert!(!conclude(decided, true).matched);
}

#[test]
fn introspection_by_get_is_reported_as_introspection() {
    let cfg = GraphqlSecurityConfig {
        block_introspection: true,
        allow_get: false,
        ..cfg_open()
    };
    let r = get("query=%7B__schema%7Bx%7D%7D");
    assert_eq!(reason(&cfg, &r, b""), Some("graphql_introspection_blocked"));
    let raw = get("x=__type&query=%7Ba%7D");
    assert_eq!(reason(&cfg, &raw, b""), Some("graphql_introspection_blocked"));
    let raw = get("__type");
    assert_eq!(reason(&cfg, &raw, b""), Some("graphql_introspection_blocked"));
}

#[test]
fn introspection_behind_an_escape_is_blocked() {
    let cfg = GraphqlSecurityConfig {
        block_introspection: true,
        ..cfg_open()
    };
    let blocked = Some("graphql_introspection_blocked");
    let mut r = post("application/json");
    let body = br#"{"query":"query {\n__schema { queryType { name } } }"}"#;
    assert_eq!(reason(&cfg, &r, body), blocked);
    let batch = br#"[{"query":"{ a }"},{"query":"{\n__type }"}]"#;
    assert_eq!(reason(&cfg, &r, batch), blocked);
    assert_eq!(reason(&cfg, &r, br#"{"query":"{\n__typename }"}"#), None);
    assert_eq!(reason(&cfg, &r, br#"[{"query":"{\n__typename }"},7]"#), None);
    r.query = Some("x=1".to_string());
    assert_eq!(reason(&cfg, &r, body), blocked);
}

#[test]
fn a_batch_has_the_queries_of_its_elements() {
    let body = br#"[{"query":"{ a }"},{"other":1},7]"#;
    assert_eq!(
        extract_queries_from_batch(&post("application/json"), body),
        vec![Some("{ a }".to_string()), None, None]
    );
    assert!(extract_queries_from_batch(&post("text/plain"), body).is_empty());
    assert!(extract_queries_from_batch(&post("application/json"), b"{}").is_empty());
    assert!(extract_queries_from_batch(&post("application/json"), b"").is_empty());
}

#[test]
fn the_allowing_header_works_in_any_case() {
    let cfg = GraphqlSecurityConfig {
        block_introspection: true,
        allow_introspection_header: Some("X-Allow".to_string()),
        ..cfg_open()
    };
    let mut r = post("application/graphql");
    let body = b"{ __type }";
    assert_eq!(reason(&cfg, &r, body), Some("graphql_introspection_blocked"));
    r.headers.push(("x-allow".to_string(), b"1".to_vec()));
    assert_eq!(reason(&cfg, &r, body), None);
}

#[test]
fn only_queries_by_get_are_blocked_as_such() {
    let cfg = GraphqlSecurityConfig {
        allow_get: false,
        ..cfg_open()
    };
    let mut r = get("query=%7Bping%7D");
    assert_eq!(reason(&cfg, &r, b""), Some("graphql_get_disabled"));
    r.method = "HEAD".to_string();
    assert_eq!(reason(&cfg, &r, b""), None);
    r.method = "GET".to_string();
    r.query = None;
    assert_eq!(reason(&cfg, &r, b""), None);
}

#[test]
fn variables_are_reported_before_the_query() {
    let cfg = GraphqlSecurityConfig {
        max_variables_keys: Some(0),
        max_query_bytes: Some(1),
        block_invalid_query: true,
        ..cfg_open()
    };
    let body = br#"{"query":"nope","variables":{"a":1}}"#;
    assert_eq!(
        reason(&cfg, &post("application/json"), body),
        Some("graphql_variables_keys_exceeded")
    );
}

#[test]
fn variables_of_the_query_string_come_first() {
    let cfg = GraphqlSecurityConfig {
        max_variables_keys: Some(1),
        ..cfg_open()
    };
    let mut r = post("application/json");
    let body = br#"{"variables":{"a":1,"b":2}}"#;
    assert_eq!(reason(&cfg, &r, body), Some("graphql_variables_keys_exceeded"));
    r.query = Some("query=%7Ba%7D&variables=%7B%22a%22:1%7D".to_string());
    assert_eq!(reason(&cfg, &r, body), None);
}

#[test]
fn nothing_set_blocks_nothing() {
    let cfg = cfg_open();
    assert_eq!(reason(&cfg, &get("query=%7B__schema%7Ba%7D%7D"), b"[]"), None);
    assert_eq!(reason(&cfg, &post("application/json"), b"[{}]"), None);
    assert_eq!(reason(&cfg, &post("application/graphql"), b"nope"), None);
}

#[test]
fn suggestions_are_cut_off() {
    assert_eq!(strip_suggestion("No \"a\". Did you mean \"b\"?").unwrap(), "No \"a\".");
    assert_eq!(strip_suggestion("No a \t\u{3000} Did you mean b?").unwrap(), "No a");
    assert_eq!(strip_suggestion("no a, did you mean b").unwrap(), "no a,");
    assert_eq!(strip_suggestion("Did you mean b?").unwrap(), "");
    assert_eq!(strip_suggestion("No a.Did you mean b? Did you mean c?").unwrap(), "No a.");
    assert_eq!(strip_suggestion("did you mean b?").unwrap(), "");
    assert_eq!(strip_suggestion("\u{e9}\u{e9} Did you mean b?").unwrap(), "\u{e9}\u{e9}");
    assert_eq!(strip_suggestion("fine"), None);
}

#[test]
fn a_hint_without_a_space_does_not_hide_an_earlier_one() {
    assert_eq!(strip_suggestion("a did you mean b (Did you mean c").unwrap(), "a");
    assert_eq!(
        strip_suggestion("Unknown field, did you mean foo? (Did you mean bar?)").unwrap(),
        "Unknown field,"
    );
    assert_eq!(strip_suggestion("a (Did you mean b, did you mean c)").unwrap(), "a (");
    assert_eq!(strip_suggestion("a (Did you mean b) Did you mean c").unwrap(), "a (");
    let body = br#"{"errors":[{"message":"a did you mean b (Did you mean c"}]}"#;
    let out = strip_graphql_field_suggestions(body).unwrap();
    assert_eq!(out, br#"{"errors":[{"message":"a"}]}"#);
    assert_eq!(strip_graphql_field_suggestions(&out), None);
}

#[test]
fn the_capital_suggestion_is_cut_first() {
    let once = strip_suggestion("did you mean x. Did you mean y?").unwrap();
    assert_eq!(once, "did you mean x.");
    assert_eq!(strip_suggestion(&once).unwrap(), "");
    let once = strip_suggestion("No a. Did you mean b or did you mean c?").unwrap();
    assert_eq!(strip_suggestion(&once), None);
}

#[test]
fn only_text_messages_are_stripped() {
    let e = parse_text(r#"{"message":"a Did you mean b"}"#).unwrap();
    assert_eq!(strip_error(&e).unwrap(), "a");
    let e = parse_text(r#"{"message":["a Did you mean b"]}"#).unwrap();
    assert_eq!(strip_error(&e), None);
    let e = parse_text(r#"["a Did you mean b"]"#).unwrap();
    assert_eq!(strip_error(&e), None);
}

#[test]
fn a_message_that_is_the_hint_becomes_empty() {
    let body = br#"{"errors":[{"message":"Did you mean \"bar\"?"}]}"#;
    let out = strip_graphql_field_suggestions(body).unwrap();
    assert_eq!(out, br#"{"errors":[{"message":""}]}"#);
    assert_eq!(strip_graphql_field_suggestions(&out), None);
}

#[test]
fn a_stripped_response_has_nothing_to_strip() {
    let body = br#"{"errors":[{"message":"a Did you mean b?"},{"message":"c, did you mean d","n":0.1}]}"#;
    let out = strip_graphql_field_suggestions(body).unwrap();
    assert_eq!(strip_graphql_field_suggestions(&out), None);
}

#[test]
fn stripping_leaves_the_rest_of_a_response() {
    let body = br#"{"data":{"x":[1,null]},"errors":[{"message":"a","path":["p"]},7,{"code":3,"message":"b Did you mean c?"}],"z":"Did you mean"}"#;
    let out = strip_graphql_field_suggestions(body).unwrap();
    assert_eq!(
        String::from_utf8(out).unwrap(),
        r#"{"data":{"x":[1,null]},"errors":[{"message":"a","path":["p"]},7,{"code":3,"message":"b"}],"z":"Did you mean"}"#
    );
}

#[test]
fn responses_without_suggestions_stay() {
    assert_eq!(strip_graphql_field_suggestions(br#"{"errors":[{"message":"a"}]}"#), None);
    assert_eq!(strip_graphql_field_suggestions(br#"{"errors":"x Did you mean y"}"#), None);
    assert_eq!(strip_graphql_field_suggestions(br#"{"errors":[]}"#), None);
    assert_eq!(strip_graphql_field_suggestions(br#"["errors"]"#), None);
    assert_eq!(strip_graphql_field_suggestions(br#"{"errors": Did you mean"#), None);
    let escaped = br#"{"\u0065rrors":[{"message":"a Did you mean b"}]}"#;
    assert_eq!(strip_graphql_field_suggestions(escaped), None);
}
