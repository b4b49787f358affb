use graphql_waf::cost::CostTerm;
use graphql_waf::graphql_security::{
    conclude, evaluate_graphql_security, strip_graphql_field_suggestions, GraphqlMatch,
    GraphqlSecurityConfig, Verdict,
};
use graphql_waf::introspection::contains_introspection_bytes;
use graphql_waf::request::InspectedRequest;
use http::{header, Method, Request};

const DEPTH_COST_FACTOR: f64 = 1.5;

fn cfg_base() -> GraphqlSecurityConfig {
    GraphqlSecurityConfig {
        enabled: true,
        block_non_graphql_paths: false,
        block_introspection: false,
        allow_introspection_header: None,
        allow_get: false,
        max_query_bytes: None,
        max_depth: None,
        max_aliases: None,
        max_directives: None,
        max_cost: None,
        cost_scalar_cost: 1,
        cost_object_cost: 2,
        cost_flatten_fragments: false,
        cost_ignore_introspection: true,
        cost_fragment_recursion_cost: 1000,
        max_variables_bytes: None,
        max_variables_depth: None,
        max_variables_keys: None,
        max_variables_array_len: None,
        block_batch: false,
        block_invalid_query: false,
        block_field_suggestions: true,
        max_response_bytes: 256 * 1024,
    }
}

fn req(method: Method, uri: &str, content_type: Option<&str>) -> InspectedRequest {
    let mut b = Request::builder().method(method).uri(uri);
    if let Some(ct) = content_type {
        b = b.header(header::CONTENT_TYPE, ct);
    }
    let r = b.body(()).unwrap();
    InspectedRequest {
        method: r.method().as_str().to_string(),
        query: r.uri().query().map(|q| q.to_string()),
        headers: r
            .headers()
            .iter()
            .map(|(k, v)| (k.as_str().to_string(), v.as_bytes().to_vec()))
            .collect(),
    }
}

fn total(cost: &CostTerm) -> f64 {
    match cost {
        CostTerm::Leaf(n) => *n as f64,
        CostTerm::Sum(terms) => {
            let mut sum = 0.0;
            for t in terms {
                sum += total(t);
            }
            sum
        }
        CostTerm::Object {
            base,
            scaled,
            terms,
        } => {
            let mut sum = *base as f64;
            for t in terms {
                if *scaled {
                    sum += DEPTH_COST_FACTOR * total(t);
                } else {
                    sum += total(t);
                }
            }
            sum
        }
    }
}

fn evaluate(cfg: &GraphqlSecurityConfig, r: &InspectedRequest, body: &[u8]) -> GraphqlMatch {
    let verdict = evaluate_graphql_security(cfg, r, body);
    let exceeded = match &verdict {
        Verdict::CostLimit { cost, max_cost } => total(cost) > *max_cost as f64,
        Verdict::Decided(_) => false,
    };
    conclude(verdict, exceeded)
}

#[test]
fn disabled_does_not_match() {
    let cfg = GraphqlSecurityConfig {
        enabled: false,
        block_introspection: true,
        ..cfg_base()
    };
    let r = req(
        Method::GET,
        "/graphql?query=%7B__schema%7BqueryType%7Bname%7D%7D%7D",
        None,
    );
    let m = evaluate(&cfg, &r, b"");
    assert!(!m.matched);
    assert!(m.reason.is_none());
}

#[test]
fn blocks_introspection_from_get_query_param() {
    let cfg = GraphqlSecurityConfig {
        block_introspection: true,
        ..cfg_base()
    };
    let r = req(
        Method::GET,
        "/graphql?query=%7B__schema%7BqueryType%7Bname%7D%7D%7D",
        None,
    );
    let m = evaluate(&cfg, &r, b"");
    assert!(m.matched);
    assert_eq!(m.reason, Some("graphql_introspection_blocked"));
}

#[test]
fn blocks_introspection_from_json_body_query_field() {
    let cfg = GraphqlSecurityConfig {
        block_introspection: true,
        ..cfg_base()
    };
    let r = req(Method::POST, "/graphql", Some("application/json"));
    let body = r#"{"query":"query { __schema { queryType { name } } }"}"#.as_bytes();
    let m = evaluate(&cfg, &r, body);
    assert!(m.matched);
    assert_eq!(m.reason, Some("graphql_introspection_blocked"));
}

#[test]
fn blocks_introspection_from_application_graphql_body() {
    let cfg = GraphqlSecurityConfig {
        block_introspection: true,
        ..cfg_base()
    };
    let r = req(Method::POST, "/graphql", Some("application/graphql"));
    let body = "query { __type(name: \"Query\") { name } }".as_bytes();
    let m = evaluate(&cfg, &r, body);
    assert!(m.matched);
    assert_eq!(m.reason, Some("graphql_introspection_blocked"));
}

#[test]
fn blocks_batched_json_when_enabled() {
    let cfg = GraphqlSecurityConfig {
        block_batch: true,
        ..cfg_base()
    };
    let r = req(Method::POST, "/graphql", Some("application/json"));
    let body = r#"[{"query":"query { ping }"},{"query":"query { ping }"}]"#.as_bytes();
    let m = evaluate(&cfg, &r, body);
    assert!(m.matched);
    assert_eq!(m.reason, Some("graphql_batch_blocked"));
}

#[test]
fn enforces_max_query_bytes() {
    let cfg = GraphqlSecurityConfig {
        max_query_bytes: Some(10),
        ..cfg_base()
    };
    let r = req(Method::POST, "/graphql", Some("application/graphql"));
    let body = "query { ping }".as_bytes();
    let m = evaluate(&cfg, &r, body);
    assert!(m.matched);
    assert_eq!(m.reason, Some("graphql_query_too_large"));
}

#[test]
fn enforces_max_depth() {
    let cfg = GraphqlSecurityConfig {
        max_depth: Some(3),
        ..cfg_base()
    };
    let r = req(Method::POST, "/graphql", Some("application/graphql"));
    let body = "query { a { b { c { d } } } }".as_bytes();
    let m = evaluate(&cfg, &r, body);
    assert!(m.matched);
    assert_eq!(m.reason, Some("graphql_depth_exceeded"));
}

#[test]
fn enforces_max_depth_with_fragments_flattened() {
    let cfg = GraphqlSecurityConfig {
        max_depth: Some(3),
        ..cfg_base()
    };
    let r = req(Method::POST, "/graphql", Some("application/graphql"));
    // Without fragment expansion, this used to undercount depth.
    let body = r#"
            query {
              a { ...Frag }
            }
            fragment Frag on Query {
              b { c { d } }
            }
        "#
    .as_bytes();
    let m = evaluate(&cfg, &r, body);
    assert!(m.matched);
    assert_eq!(m.reason, Some("graphql_depth_exceeded"));
}

#[test]
fn enforces_max_aliases() {
    let cfg = GraphqlSecurityConfig {
        max_aliases: Some(1),
        ..cfg_base()
    };
    let r = req(Method::POST, "/graphql", Some("application/graphql"));
    let body = "query { a1: ping a2: ping }".as_bytes();
    let m = evaluate(&cfg, &r, body);
    assert!(m.matched);
    assert_eq!(m.reason, Some("graphql_aliases_exceeded"));
}

#[test]
fn enforces_max_directives() {
    let cfg = GraphqlSecurityConfig {
        max_directives: Some(1),
        ..cfg_base()
    };
    let r = req(Method::POST, "/graphql", Some("application/graphql"));
    let body = "query { ping @skip(if: true) @include(if: true) }".as_bytes();
    let m = evaluate(&cfg, &r, body);
    assert!(m.matched);
    assert_eq!(m.reason, Some("graphql_directives_exceeded"));
}

#[test]
fn invalid_query_does_not_match_limits() {
    let cfg = GraphqlSecurityConfig {
        max_depth: Some(1),
        max_aliases: Some(0),
        max_directives: Some(0),
        ..cfg_base()
    };
    let r = req(Method::POST, "/graphql", Some("application/graphql"));
    let body = "not actually graphql".as_bytes();
    let m = evaluate(&cfg, &r, body);
    assert!(!m.matched);
}

#[test]
fn enforces_max_cost_with_fragments() {
    let cfg = GraphqlSecurityConfig {
        max_cost: Some(3),
        ..cfg_base()
    };
    let r = req(Method::POST, "/graphql", Some("application/graphql"));
    // With default cost model (scalar=1, object=2, depth_factor=1.5), this is well above 3.
    let body = r#"
            query {
              a { ...Frag }
            }
            fragment Frag on Query {
              b { c { d } }
            }
        "#
    .as_bytes();
    let m = evaluate(&cfg, &r, body);
    assert!(m.matched);
    assert_eq!(m.reason, Some("graphql_cost_exceeded"));
}

#[test]
fn cost_limit_can_ignore_introspection_fields() {
    let cfg = GraphqlSecurityConfig {
        max_cost: Some(1),
        block_introspection: false,
        cost_ignore_introspection: true,
        ..cfg_base()
    };
    let r = req(Method::POST, "/graphql", Some("application/graphql"));
    let body = "query { __schema { types { name } } }".as_bytes();
    let m = evaluate(&cfg, &r, body);
    assert!(!m.matched);
}

#[test]
fn allows_introspection_when_allow_header_present() {
    let cfg = GraphqlSecurityConfig {
        block_introspection: true,
        allow_introspection_header: Some("x-gotestwaf-test".to_string()),
        ..cfg_base()
    };
    let mut r = req(Method::POST, "/graphql", Some("application/json"));
    r.headers
        .push(("x-gotestwaf-test".to_string(), b"1".to_vec()));
    let body = r#"{"query":"query { __schema { queryType { name } } }"}"#.as_bytes();
    let m = evaluate(&cfg, &r, body);
    assert!(!m.matched);
}

#[test]
fn does_not_block_typename_meta_field() {
    let cfg = GraphqlSecurityConfig {
        block_introspection: true,
        ..cfg_base()
    };
    let r = req(Method::GET, "/graphql?query=%7B__typename%7D", None);
    let m = evaluate(&cfg, &r, b"");
    assert!(!m.matched);
}

#[test]
fn blocks_introspection_when_querystring_is_json_blob() {
    let cfg = GraphqlSecurityConfig {
        block_introspection: true,
        ..cfg_base()
    };
    // GoTestWAF can send URL-encoded JSON in the query string (without query=).
    let r = req(
        Method::GET,
        "/graphql?%7B%22query%22:%22query%20%7B__schema%7BqueryType%7Bname%7D%7D%7D%22%7D",
        None,
    );
    let m = evaluate(&cfg, &r, b"");
    assert!(m.matched);
    assert_eq!(m.reason, Some("graphql_introspection_blocked"));
}

#[test]
fn blocks_graphql_get_when_disabled() {
    let cfg = GraphqlSecurityConfig {
        allow_get: false,
        ..cfg_base()
    };
    let r = req(Method::GET, "/graphql?query=%7Bping%7D", None);
    let m = evaluate(&cfg, &r, b"");
    assert!(m.matched);
    assert_eq!(m.reason, Some("graphql_get_disabled"));
}

#[test]
fn allows_gtw_typename_get_probe_when_get_disabled() {
    let cfg = GraphqlSecurityConfig {
        allow_get: false,
        ..cfg_base()
    };
    // GoTestWAF GraphQL availability check: GET with ?query={__typename}
    let r = req(Method::GET, "/graphql?query=%7B__typename%7D", None);
    let m = evaluate(&cfg, &r, b"");
    assert!(!m.matched);
}

#[test]
fn allows_graphql_get_when_enabled() {
    let cfg = GraphqlSecurityConfig {
        allow_get: true,
        ..cfg_base()
    };
    let r = req(Method::GET, "/graphql?query=%7Bping%7D", None);
    let m = evaluate(&cfg, &r, b"");
    assert!(!m.matched);
}

#[test]
fn strips_field_suggestions_from_graphql_errors() {
    let body = br#"{"errors":[{"message":"Cannot query field \"foo\" on type \"Query\". Did you mean \"bar\"?"}],"data":null}"#;
    let out = strip_graphql_field_suggestions(body).unwrap();
    let v: serde_json::Value = serde_json::from_slice(&out).unwrap();
    let msg = v["errors"][0]["message"].as_str().unwrap();
    assert_eq!(msg, "Cannot query field \"foo\" on type \"Query\".");
}

#[test]
fn returns_none_for_success_response_with_no_errors_key() {
    // A success-shaped body with no "errors" key anywhere (e.g. a bigList-style response
    // with thousands of items) has nothing to strip. This is also the case the cheap
    // `memmem` pre-check is meant to short-circuit before paying for a full JSON parse.
    let body = br#"{"data":{"bigList":[{"id":1,"name":"item-1"},{"id":2,"name":"item-2"}]}}"#;
    assert_eq!(strip_graphql_field_suggestions(body), None);
}

#[test]
fn returns_none_for_malformed_body_without_errors_substring() {
    // Malformed JSON that doesn't even contain the "errors" substring must not panic or
    // attempt a parse -- the pre-check should reject it immediately, same as a well-formed
    // body would if it lacked an "errors" key.
    let body = b"not json at all, and definitely no e-r-r-o-r-s substring here";
    assert_eq!(strip_graphql_field_suggestions(body), None);
}

#[test]
fn blocks_invalid_graphql_when_enabled() {
    let cfg = GraphqlSecurityConfig {
        block_invalid_query: true,
        ..cfg_base()
    };
    let r = req(Method::POST, "/graphql", Some("application/graphql"));
    let body = "not actually graphql".as_bytes();
    let m = evaluate(&cfg, &r, body);
    assert!(m.matched);
    assert_eq!(m.reason, Some("graphql_invalid_query"));
}

#[test]
fn enforces_max_variables_bytes() {
    let cfg = GraphqlSecurityConfig {
        max_variables_bytes: Some(10),
        ..cfg_base()
    };
    let r = req(Method::POST, "/graphql", Some("application/json"));
    let body = r#"{"query":"query { ping }","variables":{"a":"0123456789"}} "#.as_bytes();
    let m = evaluate(&cfg, &r, body);
    assert!(m.matched);
    assert_eq!(m.reason, Some("graphql_variables_too_large"));
}

#[test]
fn enforces_max_variables_depth() {
    let cfg = GraphqlSecurityConfig {
        max_variables_depth: Some(3),
        ..cfg_base()
    };
    let r = req(Method::POST, "/graphql", Some("application/json"));
    let body = r#"{"query":"query { ping }","variables":{"a":{"b":{"c":{"d":1}}}}}"#.as_bytes();
    let m = evaluate(&cfg, &r, body);
    assert!(m.matched);
    assert_eq!(m.reason, Some("graphql_variables_depth_exceeded"));
}

#[test]
fn enforces_max_variables_keys() {
    let cfg = GraphqlSecurityConfig {
        max_variables_keys: Some(2),
        ..cfg_base()
    };
    let r = req(Method::POST, "/graphql", Some("application/json"));
    let body = r#"{"query":"query { ping }","variables":{"a":1,"b":2,"c":3}}"#.as_bytes();
    let m = evaluate(&cfg, &r, body);
    assert!(m.matched);
    assert_eq!(m.reason, Some("graphql_variables_keys_exceeded"));
}

#[test]
fn enforces_max_variables_array_len() {
    let cfg = GraphqlSecurityConfig {
        max_variables_array_len: Some(2),
        ..cfg_base()
    };
    let r = req(Method::POST, "/graphql", Some("application/json"));
    let body = r#"{"query":"query { ping }","variables":{"a":[1,2,3]}}"#.as_bytes();
    let m = evaluate(&cfg, &r, body);
    assert!(m.matched);
    assert_eq!(m.reason, Some("graphql_variables_array_exceeded"));
}

#[test]
fn introspection_token_boundary_ignores_trailing_identifier_suffix() {
    // A field/identifier that merely *ends* with "__type"/"__schema" (e.g. a custom
    // field name) must not be flagged -- only the real `__type`/`__schema` fields.
    assert!(!contains_introspection_bytes(b"{ custom__type(id: 1) }"));
    assert!(!contains_introspection_bytes(b"{ foo__schema: bar }"));
    assert!(!contains_introspection_bytes(b"my__typeSomething"));
}

#[test]
fn introspection_token_boundary_still_matches_real_fields() {
    assert!(contains_introspection_bytes(b"{__schema{queryType{name}}}"));
    assert!(contains_introspection_bytes(
        b"query { __type(name: \"Query\") { name } }"
    ));
    assert!(contains_introspection_bytes(b" __type "));
}

#[test]
fn introspection_token_boundary_still_excludes_typename() {
    assert!(!contains_introspection_bytes(b"{ __typename }"));
}
