//! What the proxy decides about a request and about the response to it.
use vstd::prelude::*;

use crate::graphql_security;
use crate::graphql_security::{GraphqlMatch, GraphqlSecurityConfig};
use crate::request;
use crate::text;

pub use crate::config::{resolve_worker_threads, WafMode};

verus! {

/// What the detectors found in a request.
#[derive(Debug)]
pub struct Findings {
    /// The body is larger than what is inspected.
    pub oversized_body: bool,
    /// The request is not for a GraphQL endpoint, and only those are let through.
    pub foreign_path: bool,
    pub graphql: GraphqlMatch,
    pub wirefilter: bool,
    pub modsec: bool,
}

/// One of the detectors matched.
pub open spec fn any_match(f: Findings) -> bool {
    f.foreign_path || f.graphql.matched || f.wirefilter || f.modsec
}

/// Requests are inspected in this mode.
pub open spec fn inspected(mode: WafMode) -> bool {
    mode != WafMode::Off
}

/// A request is blocked: only in the blocking mode, and there where a detector matched or the body
/// is too large and such bodies are rejected.
pub open spec fn blocked(mode: WafMode, reject_oversized_body: bool, f: Findings) -> bool {
    &&& mode == WafMode::Block
    &&& any_match(f) || (f.oversized_body && reject_oversized_body)
}

/// Whether requests are inspected in this mode; where not, they are forwarded as they come.
pub fn inspects(mode: WafMode) -> (r: bool)
    ensures
        r == inspected(mode),
{
    mode != WafMode::Off
}

/// Whether a request is blocked.
pub fn blocks(mode: WafMode, reject_oversized_body: bool, findings: &Findings) -> (r: bool)
    ensures
        r == blocked(mode, reject_oversized_body, *findings),
{
    let matched = findings.foreign_path || findings.graphql.matched || findings.wirefilter
        || findings.modsec;
    mode == WafMode::Block && (matched || (findings.oversized_body && reject_oversized_body))
}

/// The answer to a blocked request: the status, and the name and value of a header. A request that
/// is not blocked is forwarded.
pub fn answer(mode: WafMode, reject_oversized_body: bool, findings: &Findings) -> (r: Option<
    (u16, String, String),
>)
    ensures
        match r {
            Some(a) => blocked(mode, reject_oversized_body, *findings) && a.0 == 400 && a.1@
                == "x-waf-blocked"@ && a.2@ == "true"@,
            None => !blocked(mode, reject_oversized_body, *findings),
        },
{
    if blocks(mode, reject_oversized_body, findings) {
        Some((400, "x-waf-blocked".to_owned(), "true".to_owned()))
    } else {
        None
    }
}

/// The path is that of a GraphQL endpoint.
pub open spec fn graphql_path(path: Seq<char>) -> bool {
    path == "/graphql"@ || path == "/graphiql"@
}

/// A request for this path is to be kept out.
pub open spec fn foreign(cfg: GraphqlSecurityConfig, path: Seq<char>) -> bool {
    cfg.enabled && cfg.block_non_graphql_paths && !graphql_path(path)
}

/// Whether a request for this path is to be kept out.
pub fn is_foreign_path(cfg: &GraphqlSecurityConfig, path: &str) -> (r: bool)
    ensures
        r == foreign(*cfg, path@),
{
    cfg.enabled && cfg.block_non_graphql_paths && !text::same_text(path, "/graphql")
        && !text::same_text(path, "/graphiql")
}

/// A response of this media type and length is looked through for suggestions.
pub open spec fn looked_through(
    mode: WafMode,
    cfg: GraphqlSecurityConfig,
    ct: Seq<u8>,
    len: nat,
) -> bool {
    &&& inspected(mode)
    &&& cfg.enabled
    &&& cfg.block_field_suggestions
    &&& request::is_json_type(ct)
    &&& len <= cfg.max_response_bytes
}

/// The body of a response as it is sent on.
pub open spec fn response_sent(
    mode: WafMode,
    cfg: GraphqlSecurityConfig,
    ct: Seq<u8>,
    body: Seq<u8>,
) -> Seq<u8> {
    if looked_through(mode, cfg, ct, body.len()) {
        match graphql_security::stripped_body(body) {
            Some(stripped) => stripped,
            None => body,
        }
    } else {
        body
    }
}

/// Whether a response of this media type and length is looked through for suggestions.
pub fn looks_through(
    mode: WafMode,
    cfg: &GraphqlSecurityConfig,
    content_type: &[u8],
    len: usize,
) -> (r: bool)
    ensures
        r == looked_through(mode, *cfg, content_type@, len as nat),
{
    inspects(mode) && cfg.enabled && cfg.block_field_suggestions && request::has_json_type(
        content_type,
    ) && len <= cfg.max_response_bytes
}

/// The body of a response as it is to be sent on.
pub fn response_body(
    mode: WafMode,
    cfg: &GraphqlSecurityConfig,
    content_type: &[u8],
    body: Vec<u8>,
) -> (r: Vec<u8>)
    ensures
        r@ == response_sent(mode, *cfg, content_type@, body@),
{
    if looks_through(mode, cfg, content_type, body.len()) {
        if let Some(stripped) = graphql_security::strip_graphql_field_suggestions(body.as_slice()) {
            return stripped;
        }
    }
    body
}

/// Without inspection nothing is blocked and no response is changed.
pub proof fn law_off_mode_only_forwards(
    reject_oversized_body: bool,
    f: Findings,
    cfg: GraphqlSecurityConfig,
    ct: Seq<u8>,
    body: Seq<u8>,
)
    ensures
        !inspected(WafMode::Off),
        !blocked(WafMode::Off, reject_oversized_body, f),
        response_sent(WafMode::Off, cfg, ct, body) == body,
{
}

/// Auditing never blocks.
pub proof fn law_audit_mode_never_blocks(reject_oversized_body: bool, f: Findings)
    ensures
        inspected(WafMode::Audit),
        !blocked(WafMode::Audit, reject_oversized_body, f),
{
}

/// In the blocking mode each detector is enough to block a request by itself, and where none
/// matches only a body that is too large is.
pub proof fn law_any_detector_blocks(reject_oversized_body: bool, f: Findings)
    ensures
        f.graphql.matched ==> blocked(WafMode::Block, reject_oversized_body, f),
        f.wirefilter ==> blocked(WafMode::Block, reject_oversized_body, f),
        f.modsec ==> blocked(WafMode::Block, reject_oversized_body, f),
        f.foreign_path ==> blocked(WafMode::Block, reject_oversized_body, f),
        !any_match(f) ==> (blocked(WafMode::Block, reject_oversized_body, f) <==> f.oversized_body
            && reject_oversized_body),
{
}

/// A request is blocked exactly in the blocking mode, and there where a detector matched, its path
/// is to be kept out, or its body is too large and such bodies are rejected.
pub proof fn law_when_a_request_is_blocked(mode: WafMode, reject_oversized_body: bool, f: Findings)
    ensures
        inspected(mode) <==> mode is Audit || mode is Block,
        blocked(mode, reject_oversized_body, f) <==> mode is Block && (f.graphql.matched
            || f.wirefilter || f.modsec || f.foreign_path || (reject_oversized_body
            && f.oversized_body)),
{
}

/// A path is kept out exactly where only GraphQL is to pass, the detector is on, and the path is
/// neither `/graphql` nor `/graphiql`.
pub proof fn law_which_paths_are_kept_out(cfg: GraphqlSecurityConfig, path: Seq<char>)
    ensures
        foreign(cfg, path) <==> cfg.block_non_graphql_paths && cfg.enabled && path != "/graphql"@
            && path != "/graphiql"@,
{
}

/// A response is changed only where it is inspected for suggestions: in a mode that inspects, with
/// the detector and the stripping on, in JSON, and up to the largest size, which is included. There
/// it is the stripped body where there is one, and else it stays.
pub proof fn law_which_responses_are_changed(
    mode: WafMode,
    cfg: GraphqlSecurityConfig,
    ct: Seq<u8>,
    body: Seq<u8>,
)
    ensures
        ({
            let looked = !(mode is Off) && cfg.enabled && cfg.block_field_suggestions
                && request::is_json_type(ct) && body.len() <= cfg.max_response_bytes;
            &&& looked_through(mode, cfg, ct, body.len()) <==> looked
            &&& !looked ==> response_sent(mode, cfg, ct, body) == body
            &&& looked && graphql_security::stripped_body(body) is None ==> response_sent(
                mode,
                cfg,
                ct,
                body,
            ) == body
            &&& looked && graphql_security::stripped_body(body) is Some ==> Some(
                response_sent(mode, cfg, ct, body),
            ) == graphql_security::stripped_body(body)
        }),
{
}

} // verus!
