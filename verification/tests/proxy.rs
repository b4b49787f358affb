use graphql_waf::config::{
    parse_mode, resolve_graphql, resolve_waf, ConfigError, GraphqlSection, TomlConfig, WafSection,
};
use graphql_waf::graphql_security::{
    conclude, evaluate_graphql_security, GraphqlMatch, GraphqlSecurityConfig,
};
use graphql_waf::proxy::{
    answer, blocks, inspects, is_foreign_path, looks_through, response_body, Findings,
};
use graphql_waf::request::InspectedRequest;
use graphql_waf::{resolve_worker_threads, WafMode};

fn quiet() -> Findings {
    Findings {
        oversized_body: false,
        foreign_path: false,
        graphql: GraphqlMatch::no_match(),
        wirefilter: false,
        modsec: false,
    }
}

fn default_cfg() -> GraphqlSecurityConfig {
    resolve_graphql(GraphqlSection::default(), GraphqlSection::default())
}

fn upstream_only() -> WafSection {
    WafSection {
        upstream: Some("http://127.0.0.1:4000".to_string()),
        ..WafSection::default()
    }
}

#[test]
fn off_mode_forwards_without_inspection() {
    let f = Findings {
        oversized_body: true,
        graphql: GraphqlMatch::matched("graphql_get_disabled"),
        wirefilter: true,
        modsec: true,
        foreign_path: true,
    };
    assert!(!inspects(WafMode::Off));
    assert!(!blocks(WafMode::Off, true, &f));
}

#[test]
fn block_mode_blocks_oversized_body_by_default() {
    let settings = resolve_waf(upstream_only(), WafSection::default()).unwrap();
    let f = Findings {
        oversized_body: true,
        ..quiet()
    };
    assert_eq!(settings.mode, WafMode::Block);
    assert!(blocks(settings.mode, settings.reject_oversized_body, &f));
}

#[test]
fn block_mode_forwards_oversized_body_when_opted_out() {
    let f = Findings {
        oversized_body: true,
        ..quiet()
    };
    assert!(!blocks(WafMode::Block, false, &f));
}

#[test]
fn audit_mode_never_blocks_oversized_body() {
    let f = Findings {
        oversized_body: true,
        ..quiet()
    };
    assert!(inspects(WafMode::Audit));
    assert!(!blocks(WafMode::Audit, true, &f));
}

fn graphql_findings(body: &str) -> Findings {
    let cfg = GraphqlSecurityConfig {
        block_introspection: true,
        block_invalid_query: false,
        block_field_suggestions: false,
        ..default_cfg()
    };
    let req = InspectedRequest {
        method: "POST".to_string(),
        query: None,
        headers: vec![("content-type".to_string(), b"application/json".to_vec())],
    };
    let verdict = evaluate_graphql_security(&cfg, &req, body.as_bytes());
    Findings {
        graphql: conclude(verdict, false),
        ..quiet()
    }
}

#[test]
fn block_mode_blocks_introspection_query() {
    let f = graphql_findings(r#"{"query":"query { __schema { queryType { name } } }"}"#);
    assert!(blocks(WafMode::Block, true, &f));
    let (status, name, value) = answer(WafMode::Block, true, &f).unwrap();
    assert_eq!(status, 400);
    assert_eq!(name, "x-waf-blocked");
    assert_eq!(value, "true");
}

#[test]
fn block_mode_allows_normal_query() {
    let f = graphql_findings(r#"{"query":"query { ping }"}"#);
    assert!(!blocks(WafMode::Block, true, &f));
    assert_eq!(answer(WafMode::Block, true, &f), None);
}

#[test]
fn only_the_blocking_mode_answers() {
    let f = Findings {
        oversized_body: true,
        ..quiet()
    };
    assert_eq!(answer(WafMode::Off, true, &f), None);
    assert_eq!(answer(WafMode::Audit, true, &f), None);
    assert_eq!(answer(WafMode::Block, false, &f), None);
    assert_eq!(
        answer(WafMode::Block, true, &f),
        Some((400, "x-waf-blocked".to_string(), "true".to_string()))
    );
}

#[test]
fn each_detector_blocks_by_itself() {
    assert!(!blocks(WafMode::Block, true, &quiet()));
    let graphql = Findings {
        graphql: GraphqlMatch::matched("graphql_introspection_blocked"),
        ..quiet()
    };
    let wirefilter = Findings {
        wirefilter: true,
        ..quiet()
    };
    let modsec = Findings {
        modsec: true,
        ..quiet()
    };
    let path = Findings {
        foreign_path: true,
        ..quiet()
    };
    for f in [graphql, wirefilter, modsec, path] {
        assert!(blocks(WafMode::Block, false, &f));
        assert!(!blocks(WafMode::Audit, true, &f));
    }
}

#[test]
fn only_graphql_paths_pass_when_asked_for() {
    let open = default_cfg();
    assert!(!is_foreign_path(&open, "/rest"));
    let closed = GraphqlSecurityConfig {
        block_non_graphql_paths: true,
        ..default_cfg()
    };
    assert!(is_foreign_path(&closed, "/rest"));
    assert!(!is_foreign_path(&closed, "/graphql"));
    assert!(!is_foreign_path(&closed, "/graphiql"));
    let disabled = GraphqlSecurityConfig {
        enabled: false,
        ..closed
    };
    assert!(!is_foreign_path(&disabled, "/rest"));
}

#[test]
fn responses_lose_their_suggestions() {
    let cfg = default_cfg();
    let body = br#"{"errors":[{"message":"No field. Did you mean \"bar\"?"}]}"#.to_vec();
    let json = b"application/json; charset=utf-8";
    assert_eq!(
        response_body(WafMode::Block, &cfg, json, body.clone()),
        br#"{"errors":[{"message":"No field."}]}"#.to_vec()
    );
    assert_eq!(response_body(WafMode::Off, &cfg, json, body.clone()), body);
    assert_eq!(
        response_body(WafMode::Block, &cfg, b"text/html", body.clone()),
        body
    );
    let small = GraphqlSecurityConfig {
        max_response_bytes: body.len() - 1,
        ..default_cfg()
    };
    assert_eq!(response_body(WafMode::Block, &small, json, body.clone()), body);
    let kept = GraphqlSecurityConfig {
        block_field_suggestions: false,
        ..default_cfg()
    };
    assert_eq!(response_body(WafMode::Audit, &kept, json, body.clone()), body);
}

#[test]
fn a_response_of_the_largest_size_is_looked_through() {
    let cfg = default_cfg();
    assert!(looks_through(WafMode::Audit, &cfg, b"application/problem+json", 262144));
    assert!(!looks_through(WafMode::Audit, &cfg, b"application/problem+json", 262145));
}

#[test]
fn modes_have_names() {
    assert_eq!(parse_mode("off"), Some(WafMode::Off));
    assert_eq!(parse_mode("audit"), Some(WafMode::Audit));
    assert_eq!(parse_mode("block"), Some(WafMode::Block));
    assert_eq!(parse_mode("Block"), None);
    assert_eq!(parse_mode(""), None);
}

#[test]
fn worker_threads_come_from_the_command_line_first() {
    let file = TomlConfig {
        waf: Some(WafSection {
            worker_threads: Some(4),
            ..WafSection::default()
        }),
        graphql: None,
    };
    assert_eq!(resolve_worker_threads(None, None), Ok(2));
    assert_eq!(resolve_worker_threads(None, Some(&TomlConfig::default())), Ok(2));
    assert_eq!(resolve_worker_threads(None, Some(&file)), Ok(4));
    assert_eq!(resolve_worker_threads(Some(8), Some(&file)), Ok(8));
    assert_eq!(
        resolve_worker_threads(Some(0), Some(&file)),
        Err(ConfigError::NoWorkerThreads)
    );
}

#[test]
fn proxy_settings_have_defaults() {
    let s = resolve_waf(WafSection::default(), upstream_only()).unwrap();
    assert_eq!(s.listen_host, "127.0.0.1");
    assert_eq!(s.listen_port, 8080);
    assert_eq!(s.upstream, "http://127.0.0.1:4000");
    assert_eq!(s.mode, WafMode::Block);
    assert!(s.modsec_rules.is_empty());
    assert_eq!(s.wirefilter, None);
    assert_eq!(s.max_body_bytes, 1048576);
    assert!(s.reject_oversized_body);
}

#[test]
fn the_command_line_overrides_the_file() {
    let file = WafSection {
        listen_port: Some(8080),
        mode: Some("block".to_string()),
        max_body_bytes: Some(10),
        ..upstream_only()
    };
    let cli = WafSection {
        listen_port: Some(8443),
        mode: Some("audit".to_string()),
        ..WafSection::default()
    };
    let s = resolve_waf(cli, file).unwrap();
    assert_eq!(s.listen_port, 8443);
    assert_eq!(s.mode, WafMode::Audit);
    assert_eq!(s.max_body_bytes, 10);
}

#[test]
fn faulty_proxy_settings_are_named() {
    assert_eq!(
        resolve_waf(WafSection::default(), WafSection::default()).unwrap_err(),
        ConfigError::MissingUpstream
    );
    let cli = WafSection {
        mode: Some("paranoid".to_string()),
        ..upstream_only()
    };
    assert_eq!(
        resolve_waf(cli, WafSection::default()).unwrap_err(),
        ConfigError::UnknownMode
    );
}

#[test]
fn detector_settings_have_defaults() {
    let cfg = default_cfg();
    assert!(cfg.enabled);
    assert!(!cfg.block_non_graphql_paths);
    assert!(!cfg.block_introspection);
    assert_eq!(cfg.allow_introspection_header, None);
    assert!(!cfg.allow_get);
    assert!(cfg.block_invalid_query);
    assert!(!cfg.block_batch);
    assert_eq!(cfg.max_query_bytes, None);
    assert_eq!(cfg.max_depth, None);
    assert_eq!(cfg.max_aliases, None);
    assert_eq!(cfg.max_directives, None);
    assert_eq!(cfg.max_cost, None);
    assert_eq!(cfg.cost_scalar_cost, 1);
    assert_eq!(cfg.cost_object_cost, 2);
    assert!(!cfg.cost_flatten_fragments);
    assert!(cfg.cost_ignore_introspection);
    assert_eq!(cfg.cost_fragment_recursion_cost, 1000);
    assert_eq!(cfg.max_variables_bytes, None);
    assert_eq!(cfg.max_variables_depth, None);
    assert_eq!(cfg.max_variables_keys, None);
    assert_eq!(cfg.max_variables_array_len, None);
    assert!(cfg.block_field_suggestions);
    assert_eq!(cfg.max_response_bytes, 262144);
}

#[test]
fn detector_settings_come_from_the_command_line_first() {
    let file = GraphqlSection {
        max_depth: Some(5),
        max_aliases: Some(6),
        block_batch: Some(true),
        ..GraphqlSection::default()
    };
    let cli = GraphqlSection {
        max_depth: Some(9),
        block_batch: Some(false),
        ..GraphqlSection::default()
    };
    let cfg = resolve_graphql(cli, file);
    assert_eq!(cfg.max_depth, Some(9));
    assert_eq!(cfg.max_aliases, Some(6));
    assert!(!cfg.block_batch);
}
