//! The GraphQL detector: introspection, queries by GET, batches, and limits on the query and its
//! variables.
use vstd::prelude::*;
use vstd::utf8::*;

use crate::cost;
use crate::cost::{CostModel, CostTerm};
use crate::document;
use crate::document::Document;
use crate::introspection;
use crate::json;
use crate::limits;
use crate::probe;
use crate::request;
use crate::request::InspectedRequest;
use crate::suggestions;
use crate::text;
use crate::variables;
use crate::variables::VariablesStats;

verus! {

/// Settings of the GraphQL detector. The factor by which the cost grows with the nesting depth is
/// no part of them: it is applied where the terms of the cost are summed up.
#[derive(Clone, Debug)]
pub struct GraphqlSecurityConfig {
    pub enabled: bool,
    /// If true, block requests that are not targeting GraphQL endpoints.
    ///
    /// This is useful when the proxy is intended to expose only GraphQL, and you
    /// want to reject REST/other endpoints early.
    pub block_non_graphql_paths: bool,
    pub block_introspection: bool,
    /// If set and present on the request, introspection blocking is bypassed.
    pub allow_introspection_header: Option<String>,
    /// Allow GraphQL-over-GET requests (default should typically be false).
    pub allow_get: bool,
    pub max_query_bytes: Option<usize>,
    pub max_depth: Option<usize>,
    pub max_aliases: Option<usize>,
    pub max_directives: Option<usize>,
    pub max_cost: Option<usize>,
    pub cost_scalar_cost: usize,
    pub cost_object_cost: usize,
    pub cost_flatten_fragments: bool,
    pub cost_ignore_introspection: bool,
    pub cost_fragment_recursion_cost: usize,
    /// Maximum size of the `variables` JSON value, in bytes of its JSON text written anew.
    pub max_variables_bytes: Option<usize>,
    /// Maximum nesting depth of the `variables` JSON value.
    pub max_variables_depth: Option<usize>,
    /// Maximum number of object keys in the `variables` JSON value (total across all objects).
    pub max_variables_keys: Option<usize>,
    /// Maximum length of any array inside the `variables` JSON value.
    pub max_variables_array_len: Option<usize>,
    pub block_batch: bool,
    /// If true, block requests that look like GraphQL but fail GraphQL parsing.
    pub block_invalid_query: bool,
    /// If true, strip "Did you mean ..." suggestions from GraphQL error messages in JSON responses.
    pub block_field_suggestions: bool,
    /// Maximum response body bytes to buffer for suggestion stripping.
    pub max_response_bytes: usize,
}

impl GraphqlSecurityConfig {
    /// What the entries of a selection set cost under these settings.
    pub open spec fn spec_cost_model(&self) -> CostModel {
        CostModel {
            scalar_cost: self.cost_scalar_cost,
            object_cost: self.cost_object_cost,
            flatten_fragments: self.cost_flatten_fragments,
            ignore_introspection: self.cost_ignore_introspection,
            fragment_recursion_cost: self.cost_fragment_recursion_cost,
        }
    }

    /// What the entries of a selection set cost under these settings.
    pub fn cost_model(&self) -> (model: CostModel)
        ensures
            model == self.spec_cost_model(),
    {
        CostModel {
            scalar_cost: self.cost_scalar_cost,
            object_cost: self.cost_object_cost,
            flatten_fragments: self.cost_flatten_fragments,
            ignore_introspection: self.cost_ignore_introspection,
            fragment_recursion_cost: self.cost_fragment_recursion_cost,
        }
    }
}

/// What the detector says of a request.
#[derive(Clone, Debug)]
pub struct GraphqlMatch {
    pub matched: bool,
    pub reason: Option<&'static str>,
}

/// What the detector says of a request, as a mathematical value.
pub struct MatchView {
    pub matched: bool,
    pub reason: Option<Seq<char>>,
}

impl View for GraphqlMatch {
    type V = MatchView;

    open spec fn view(&self) -> MatchView {
        MatchView {
            matched: self.matched,
            reason: match self.reason {
                Some(r) => Some(r@),
                None => None,
            },
        }
    }
}

/// Nothing was found.
pub open spec fn nothing() -> MatchView {
    MatchView { matched: false, reason: None }
}

/// Something was found, for this reason.
pub open spec fn found(reason: Seq<char>) -> MatchView {
    MatchView { matched: true, reason: Some(reason) }
}

impl GraphqlMatch {
    /// Nothing was found.
    pub fn no_match() -> (m: Self)
        ensures
            m@ == nothing(),
            m.reason is None,
    {
        GraphqlMatch { matched: false, reason: None }
    }

    /// Something was found, for this reason.
    pub fn matched(reason: &'static str) -> (m: Self)
        ensures
            m@ == found(reason@),
            m.reason == Some(reason),
    {
        GraphqlMatch { matched: true, reason: Some(reason) }
    }
}

/// What is left of an inspection: a result, or a cost that is to be held against its limit.
#[derive(Debug)]
pub enum Verdict {
    Decided(GraphqlMatch),
    CostLimit { cost: CostTerm, max_cost: usize },
}

/// What is left of an inspection, as a mathematical value.
pub enum VerdictView {
    Decided(MatchView),
    CostLimit { cost: cost::CostTree, max_cost: nat },
}

impl View for Verdict {
    type V = VerdictView;

    open spec fn view(&self) -> VerdictView {
        match *self {
            Verdict::Decided(m) => VerdictView::Decided(m@),
            Verdict::CostLimit { cost, max_cost } => VerdictView::CostLimit {
                cost: cost@,
                max_cost: max_cost as nat,
            },
        }
    }
}

/// A limit is set and passed.
pub open spec fn over(n: nat, limit: Option<usize>) -> bool {
    limit matches Some(max) && n > max
}

fn exceeds(n: usize, limit: Option<usize>) -> (r: bool)
    ensures
        r == over(n as nat, limit),
{
    match limit {
        Some(max) => n > max,
        None => false,
    }
}

/// The first limit that the figures of a `variables` value pass.
pub open spec fn variables_excess(
    cfg: GraphqlSecurityConfig,
    st: VariablesStats,
) -> Option<Seq<char>> {
    if over(st.approx_bytes as nat, cfg.max_variables_bytes) {
        Some("graphql_variables_too_large"@)
    } else if over(st.depth as nat, cfg.max_variables_depth) {
        Some("graphql_variables_depth_exceeded"@)
    } else if over(st.keys as nat, cfg.max_variables_keys) {
        Some("graphql_variables_keys_exceeded"@)
    } else if over(st.max_array_len as nat, cfg.max_variables_array_len) {
        Some("graphql_variables_array_exceeded"@)
    } else {
        None
    }
}

/// Holds the figures of a `variables` value against the limits.
pub fn check_variables(cfg: &GraphqlSecurityConfig, st: &VariablesStats) -> (r: Option<
    &'static str,
>)
    ensures
        (match r {
            Some(reason) => Some(reason@),
            None => None,
        }) == variables_excess(*cfg, *st),
{
    if exceeds(st.approx_bytes, cfg.max_variables_bytes) {
        return Some("graphql_variables_too_large");
    }
    if exceeds(st.depth, cfg.max_variables_depth) {
        return Some("graphql_variables_depth_exceeded");
    }
    if exceeds(st.keys, cfg.max_variables_keys) {
        return Some("graphql_variables_keys_exceeded");
    }
    if exceeds(st.max_array_len, cfg.max_variables_array_len) {
        return Some("graphql_variables_array_exceeded");
    }
    None
}

/// What the structural limits say of a document. A cost limit is held against the cost only where
/// no other limit is passed.
pub open spec fn document_verdict(
    cfg: GraphqlSecurityConfig,
    defs: Seq<document::DefinitionTree>,
) -> VerdictView {
    if over(limits::capped(limits::document_depth(defs)), cfg.max_depth) {
        VerdictView::Decided(found("graphql_depth_exceeded"@))
    } else if over(limits::capped(limits::document_aliases(defs)), cfg.max_aliases) {
        VerdictView::Decided(found("graphql_aliases_exceeded"@))
    } else if over(limits::capped(limits::document_directives(defs)), cfg.max_directives) {
        VerdictView::Decided(found("graphql_directives_exceeded"@))
    } else {
        match cfg.max_cost {
            Some(max_cost) => VerdictView::CostLimit {
                cost: cost::document_cost(defs, cfg.spec_cost_model()),
                max_cost: max_cost as nat,
            },
            None => VerdictView::Decided(nothing()),
        }
    }
}

/// Holds a document against the structural limits.
pub fn check_document(cfg: &GraphqlSecurityConfig, doc: &Document) -> (r: Verdict)
    ensures
        r@ == document_verdict(*cfg, doc@),
{
    if let Some(max_depth) = cfg.max_depth {
        let depth = limits::max_depth_document(doc);
        if depth > max_depth {
            return Verdict::Decided(GraphqlMatch::matched("graphql_depth_exceeded"));
        }
    }
    let stats = limits::count_aliases_and_directives(doc);
    if exceeds(stats.aliases, cfg.max_aliases) {
        return Verdict::Decided(GraphqlMatch::matched("graphql_aliases_exceeded"));
    }
    if exceeds(stats.directives, cfg.max_directives) {
        return Verdict::Decided(GraphqlMatch::matched("graphql_directives_exceeded"));
    }
    match cfg.max_cost {
        Some(max_cost) => {
            let cost = cost::compute_cost(doc, cfg.cost_model());
            Verdict::CostLimit { cost, max_cost }
        },
        None => Verdict::Decided(GraphqlMatch::no_match()),
    }
}

/// What the limits say of a query text whose document is `doc`.
pub open spec fn query_verdict(
    cfg: GraphqlSecurityConfig,
    query: Seq<char>,
    doc: Option<Seq<document::DefinitionTree>>,
) -> VerdictView {
    if over(encode_utf8(query).len(), cfg.max_query_bytes) {
        VerdictView::Decided(found("graphql_query_too_large"@))
    } else {
        match doc {
            Some(defs) => document_verdict(cfg, defs),
            None => VerdictView::Decided(
                if cfg.block_invalid_query {
                    found("graphql_invalid_query"@)
                } else {
                    nothing()
                },
            ),
        }
    }
}

/// Holds a query text against the limits.
pub fn check_query(cfg: &GraphqlSecurityConfig, query: &str) -> (r: Verdict)
    ensures
        r@ == query_verdict(*cfg, query@, document::document_in(query@)),
{
    let size: usize = query.as_bytes().len();
    if exceeds(size, cfg.max_query_bytes) {
        return Verdict::Decided(GraphqlMatch::matched("graphql_query_too_large"));
    }
    match document::parse_document(query) {
        Some(doc) => check_document(cfg, &doc),
        None => if cfg.block_invalid_query {
            Verdict::Decided(GraphqlMatch::matched("graphql_invalid_query"))
        } else {
            Verdict::Decided(GraphqlMatch::no_match())
        },
    }
}

/// The request carries the header that bypasses the blocking of introspection.
pub open spec fn introspection_allowed(
    cfg: GraphqlSecurityConfig,
    req: request::RequestView,
) -> bool {
    cfg.allow_introspection_header matches Some(h) && request::carries_header(req, h@)
}

/// The text names an introspection field.
pub open spec fn text_shows_introspection(query: Option<Seq<char>>) -> bool {
    query matches Some(q) && introspection::names_introspection(encode_utf8(q))
}

/// The query string, the body or one of the query texts in them names an introspection field. The
/// query texts are looked at besides the bytes because an escape can stand before a name.
pub open spec fn shows_introspection(req: request::RequestView, body: Seq<u8>) -> bool {
    ||| text_shows_introspection(req.query)
    ||| introspection::names_introspection(body)
    ||| text_shows_introspection(request::request_query(req, body))
    ||| text_shows_introspection(request::body_query(request::content_type_of(req.headers), body))
    ||| exists|i: int|
        text_shows_introspection(
            #[trigger] request::batch_query(request::content_type_of(req.headers), body, i),
        )
}

/// The request is blocked for introspection.
pub open spec fn introspection_blocked(
    cfg: GraphqlSecurityConfig,
    req: request::RequestView,
    body: Seq<u8>,
) -> bool {
    &&& cfg.block_introspection
    &&& !introspection_allowed(cfg, req)
    &&& shows_introspection(req, body)
}

/// The request is blocked for being a GET with a query that is more than the `__typename` probe.
pub open spec fn get_blocked(cfg: GraphqlSecurityConfig, req: request::RequestView) -> bool {
    &&& req.method == "GET"@
    &&& !cfg.allow_get
    &&& req.query matches Some(raw) && !probe::health_probe(request::get_query(raw))
}

/// The limit that the `variables` of the request pass.
pub open spec fn request_variables_excess(
    cfg: GraphqlSecurityConfig,
    req: request::RequestView,
    body: Seq<u8>,
) -> Option<Seq<char>> {
    match request::request_variables(req, body) {
        Some(v) => variables_excess(cfg, variables::measured(v)),
        None => None,
    }
}

/// What the detector says of a request. The checks come in this order, and the first one that
/// finds something decides.
pub open spec fn evaluation(
    cfg: GraphqlSecurityConfig,
    req: request::RequestView,
    body: Seq<u8>,
) -> VerdictView {
    if !cfg.enabled {
        VerdictView::Decided(nothing())
    } else if introspection_blocked(cfg, req, body) {
        VerdictView::Decided(found("graphql_introspection_blocked"@))
    } else if get_blocked(cfg, req) {
        VerdictView::Decided(found("graphql_get_disabled"@))
    } else if let Some(reason) = request_variables_excess(cfg, req, body) {
        VerdictView::Decided(found(reason))
    } else if cfg.block_batch && request::is_batch(request::content_type_of(req.headers), body) {
        VerdictView::Decided(found("graphql_batch_blocked"@))
    } else {
        match request::request_query(req, body) {
            Some(query) => query_verdict(cfg, query, document::document_in(query)),
            None => VerdictView::Decided(nothing()),
        }
    }
}

fn is_introspection_allowed(cfg: &GraphqlSecurityConfig, req: &InspectedRequest) -> (r: bool)
    ensures
        r == introspection_allowed(*cfg, req@),
{
    match &cfg.allow_introspection_header {
        Some(h) => request::has_header(req, h.as_str()),
        None => false,
    }
}

fn query_shows_introspection(query: &Option<String>) -> (r: bool)
    ensures
        r == text_shows_introspection(
            match *query {
                Some(q) => Some(q@),
                None => None,
            },
        ),
{
    match query {
        Some(q) => introspection::contains_introspection_bytes(q.as_str().as_bytes()),
        None => false,
    }
}

fn has_introspection(req: &InspectedRequest, inspected_body: &[u8]) -> (r: bool)
    ensures
        r == shows_introspection(req@, inspected_body@),
{
    if query_shows_introspection(&req.query) {
        return true;
    }
    if query_shows_introspection(&request::extract_query_from_get(req)) {
        return true;
    }
    if introspection::contains_introspection_bytes(inspected_body) {
        return true;
    }
    if query_shows_introspection(&request::extract_query_from_body(req, inspected_body)) {
        return true;
    }
    let queries = request::extract_queries_from_batch(req, inspected_body);
    let ghost ct = request::content_type_of(req@.headers);
    for i in 0..queries.len()
        invariant
            ct == request::content_type_of(req@.headers),
            request::queries_of_batch(queries@, ct, inspected_body@),
            forall|j: int|
                0 <= j < i ==> !text_shows_introspection(
                    #[trigger] request::batch_query(ct, inspected_body@, j),
                ),
    {
        if query_shows_introspection(&queries[i]) {
            assert(text_shows_introspection(request::batch_query(ct, inspected_body@, i as int)));
            return true;
        }
    }
    false
}

/// Inspects a request.
pub fn evaluate_graphql_security(
    cfg: &GraphqlSecurityConfig,
    req: &InspectedRequest,
    inspected_body: &[u8],
) -> (r: Verdict)
    ensures
        r@ == evaluation(*cfg, req@, inspected_body@),
{
    if !cfg.enabled {
        return Verdict::Decided(GraphqlMatch::no_match());
    }
    // Introspection comes before the blocking of GET, so that introspection by GET is reported
    // as what it is.
    if cfg.block_introspection && !is_introspection_allowed(cfg, req) && has_introspection(
        req,
        inspected_body,
    ) {
        return Verdict::Decided(GraphqlMatch::matched("graphql_introspection_blocked"));
    }
    if text::same_text(req.method.as_str(), "GET") && !cfg.allow_get {
        if let Some(q) = request::extract_query_from_get(req) {
            if !probe::is_typename_health_probe(q.as_str()) {
                return Verdict::Decided(GraphqlMatch::matched("graphql_get_disabled"));
            }
        }
    }
    // The limits on variables come before the query is parsed, so that a huge value cannot bypass
    // the cheap checks.
    let from_get = request::extract_variables_from_get(req);
    let vars = match from_get {
        Some(v) => Some(v),
        None => request::extract_variables_from_body(req, inspected_body),
    };
    if let Some(v) = vars {
        let st = variables::variables_stats(&v);
        if let Some(reason) = check_variables(cfg, &st) {
            return Verdict::Decided(GraphqlMatch::matched(reason));
        }
    }
    if cfg.block_batch && request::is_batched_json(req, inspected_body) {
        return Verdict::Decided(GraphqlMatch::matched("graphql_batch_blocked"));
    }
    let from_get = request::extract_query_from_get(req);
    let query = match from_get {
        Some(q) => Some(q),
        None => request::extract_query_from_body(req, inspected_body),
    };
    match query {
        Some(q) => check_query(cfg, q.as_str()),
        None => Verdict::Decided(GraphqlMatch::no_match()),
    }
}

/// What a request comes to once it is known whether its cost passes the limit.
pub open spec fn conclusion(verdict: VerdictView, cost_exceeded: bool) -> MatchView {
    match verdict {
        VerdictView::Decided(m) => m,
        VerdictView::CostLimit { .. } => if cost_exceeded {
            found("graphql_cost_exceeded"@)
        } else {
            nothing()
        },
    }
}

/// Concludes an inspection. `cost_exceeded` says whether the summed up cost is over its limit; it
/// is looked at only where the inspection left a cost limit open.
pub fn conclude(verdict: Verdict, cost_exceeded: bool) -> (m: GraphqlMatch)
    ensures
        m@ == conclusion(verdict@, cost_exceeded),
{
    match verdict {
        Verdict::Decided(m) => m,
        Verdict::CostLimit { cost: _, max_cost: _ } => if cost_exceeded {
            GraphqlMatch::matched("graphql_cost_exceeded")
        } else {
            GraphqlMatch::no_match()
        },
    }
}

/// Whether the request carries a query: in its query string or in its body.
pub fn looks_like_graphql_request(req: &InspectedRequest, inspected_body: &[u8]) -> (r: bool)
    ensures
        r == (request::request_query(req@, inspected_body@) is Some),
{
    match request::extract_query_from_get(req) {
        Some(_) => true,
        None => request::extract_query_from_body(req, inspected_body).is_some(),
    }
}

/// What a response body becomes without suggestion clauses: nothing where it stays as it is. A
/// body without the bytes `"errors"` is not even read as JSON.
pub open spec fn stripped_body(body: Seq<u8>) -> Option<Seq<u8>> {
    if !text::occurs(body, text::ascii_bytes("\"errors\""@)) {
        None
    } else {
        match json::json_in_bytes(body) {
            Some(v) => match suggestions::stripped_response(v) {
                Some(w) => Some(json::json_written(w)),
                None => None,
            },
            None => None,
        }
    }
}

/// Removes "Did you mean" clauses from the error messages of a response body. Gives nothing where
/// there is nothing to remove. Unless a name in the body is one that `serde_json` keeps for itself,
/// what it gives reads as the stripped response, numbers aside, and has nothing to remove any more
/// where no message holds " Did you mean" and a "did you mean" before that.
pub fn strip_graphql_field_suggestions(json_body: &[u8]) -> (r: Option<Vec<u8>>)
    ensures
        (match r {
            Some(bytes) => Some(bytes@),
            None => None,
        }) == stripped_body(json_body@),
        match (r, json::json_in_bytes(json_body@)) {
            (Some(bytes), Some(v)) => json::no_reserved_name(v) ==> {
                &&& match json::json_in_bytes(bytes@) {
                    Some(x) => json::alike(x, suggestions::stripped_response(v)->0),
                    None => true,
                }
                &&& suggestions::leaves_nothing(v) ==> stripped_body(bytes@) is None
            },
            _ => true,
        },
{
    proof {
        reveal_strlit("\"errors\"");
        text::lemma_ascii_bytes("\"errors\""@);
    }
    if !text::contains(json_body, "\"errors\"".as_bytes()) {
        return None;
    }
    match json::call_from_slice(json_body) {
        Ok(v) => {
            let ghost tree = json::json_held(v);
            let (stripped, changed) = suggestions::strip_response(v);
            if !changed {
                return None;
            }
            proof {
                if json::no_reserved_name(tree) {
                    suggestions::lemma_stripping_reserves_nothing(tree);
                }
            }
            match json::call_to_vec(&stripped) {
                Ok(bytes) => {
                    proof {
                        if json::no_reserved_name(tree) && suggestions::leaves_nothing(tree) {
                            if let Some(again) = json::json_in_bytes(bytes@) {
                                suggestions::lemma_nothing_to_strip(tree, again);
                            }
                        }
                    }
                    Some(bytes)
                },
                Err(_) => None,
            }
        },
        Err(_) => None,
    }
}

/// Switched off, the detector finds nothing.
pub proof fn law_disabled_never_matches(
    cfg: GraphqlSecurityConfig,
    req: request::RequestView,
    body: Seq<u8>,
    cost_exceeded: bool,
)
    requires
        !cfg.enabled,
    ensures
        conclusion(evaluation(cfg, req, body), cost_exceeded) == nothing(),
{
}

/// Whatever comes out of an inspection has a reason exactly where something was found.
pub proof fn law_matches_have_a_reason(
    cfg: GraphqlSecurityConfig,
    req: request::RequestView,
    body: Seq<u8>,
    cost_exceeded: bool,
)
    ensures
        ({
            let m = conclusion(evaluation(cfg, req, body), cost_exceeded);
            m.matched <==> m.reason is Some
        }),
{
}

/// Introspection is reported as what it is, whatever else is wrong with the request; in particular
/// a GET that is blocked anyway does not hide it.
pub proof fn law_introspection_is_reported_first(
    cfg: GraphqlSecurityConfig,
    req: request::RequestView,
    body: Seq<u8>,
)
    requires
        cfg.enabled,
        introspection_blocked(cfg, req, body),
    ensures
        evaluation(cfg, req, body) == VerdictView::Decided(
            found("graphql_introspection_blocked"@),
        ),
{
}

/// With the header that allows it on the request, introspection is blocked no more than with the
/// blocking switched off.
pub proof fn law_allowing_header_bypasses_the_blocking(
    cfg: GraphqlSecurityConfig,
    open: GraphqlSecurityConfig,
    req: request::RequestView,
    body: Seq<u8>,
)
    requires
        introspection_allowed(cfg, req),
        open == (GraphqlSecurityConfig { block_introspection: false, ..cfg }),
    ensures
        evaluation(cfg, req, body) == evaluation(open, req, body),
{
}

/// A query string that asks for `__typename` alone is let through: it is treated as with GET
/// allowed.
pub proof fn law_probe_is_let_through_by_get(
    cfg: GraphqlSecurityConfig,
    open: GraphqlSecurityConfig,
    req: request::RequestView,
    body: Seq<u8>,
)
    requires
        req.query matches Some(raw) && probe::health_probe(request::get_query(raw)),
        open == (GraphqlSecurityConfig { allow_get: true, ..cfg }),
    ensures
        evaluation(cfg, req, body) == evaluation(open, req, body),
{
}

/// Only a GET request is ever blocked for being one, and only with a query string.
pub proof fn law_only_queries_by_get_are_blocked_as_such(
    cfg: GraphqlSecurityConfig,
    open: GraphqlSecurityConfig,
    req: request::RequestView,
    body: Seq<u8>,
)
    requires
        req.method != "GET"@ || req.query is None,
        open == (GraphqlSecurityConfig { allow_get: true, ..cfg }),
    ensures
        evaluation(cfg, req, body) == evaluation(open, req, body),
{
}

/// Variables that pass a limit are reported whatever the query is: the query is not even parsed.
pub proof fn law_variables_are_checked_before_the_query(
    cfg: GraphqlSecurityConfig,
    req: request::RequestView,
    body: Seq<u8>,
)
    requires
        cfg.enabled,
        !introspection_blocked(cfg, req, body),
        !get_blocked(cfg, req),
        request_variables_excess(cfg, req, body) is Some,
    ensures
        evaluation(cfg, req, body) == VerdictView::Decided(
            found(request_variables_excess(cfg, req, body)->0),
        ),
{
}

/// A limit that is not set is never enforced, and what is not to be blocked is not: each reason
/// comes only with its own setting.
pub proof fn law_each_reason_needs_its_setting(
    cfg: GraphqlSecurityConfig,
    req: request::RequestView,
    body: Seq<u8>,
    cost_exceeded: bool,
)
    ensures
        ({
            let m = conclusion(evaluation(cfg, req, body), cost_exceeded);
            &&& m.reason == Some("graphql_introspection_blocked"@) ==> cfg.block_introspection
            &&& m.reason == Some("graphql_get_disabled"@) ==> !cfg.allow_get
            &&& m.reason == Some("graphql_variables_too_large"@) ==> cfg.max_variables_bytes is Some
            &&& m.reason == Some("graphql_variables_depth_exceeded"@)
                ==> cfg.max_variables_depth is Some
            &&& m.reason == Some("graphql_variables_keys_exceeded"@)
                ==> cfg.max_variables_keys is Some
            &&& m.reason == Some("graphql_variables_array_exceeded"@)
                ==> cfg.max_variables_array_len is Some
            &&& m.reason == Some("graphql_batch_blocked"@) ==> cfg.block_batch
            &&& m.reason == Some("graphql_query_too_large"@) ==> cfg.max_query_bytes is Some
            &&& m.reason == Some("graphql_invalid_query"@) ==> cfg.block_invalid_query
            &&& m.reason == Some("graphql_depth_exceeded"@) ==> cfg.max_depth is Some
            &&& m.reason == Some("graphql_aliases_exceeded"@) ==> cfg.max_aliases is Some
            &&& m.reason == Some("graphql_directives_exceeded"@) ==> cfg.max_directives is Some
            &&& m.reason == Some("graphql_cost_exceeded"@) ==> cfg.max_cost is Some
        }),
{
    // No two reasons are the same text.
    reveal_strlit("graphql_introspection_blocked");
    assert("graphql_introspection_blocked"@.len() == 29);
    reveal_strlit("graphql_get_disabled");
    assert("graphql_get_disabled"@.len() == 20);
    reveal_strlit("graphql_variables_too_large");
    assert("graphql_variables_too_large"@.len() == 27);
    reveal_strlit("graphql_variables_depth_exceeded");
    assert("graphql_variables_depth_exceeded"@.len() == 32);
    reveal_strlit("graphql_variables_keys_exceeded");
    assert("graphql_variables_keys_exceeded"@.len() == 31);
    reveal_strlit("graphql_variables_array_exceeded");
    assert("graphql_variables_array_exceeded"@.len() == 32);
    reveal_strlit("graphql_batch_blocked");
    assert("graphql_batch_blocked"@.len() == 21);
    reveal_strlit("graphql_query_too_large");
    assert("graphql_query_too_large"@.len() == 23);
    reveal_strlit("graphql_invalid_query");
    assert("graphql_invalid_query"@.len() == 21);
    reveal_strlit("graphql_depth_exceeded");
    assert("graphql_depth_exceeded"@.len() == 22);
    reveal_strlit("graphql_aliases_exceeded");
    assert("graphql_aliases_exceeded"@.len() == 24);
    reveal_strlit("graphql_directives_exceeded");
    assert("graphql_directives_exceeded"@.len() == 27);
    reveal_strlit("graphql_cost_exceeded");
    assert("graphql_cost_exceeded"@.len() == 21);
    assert("graphql_variables_too_large"@[8] != "graphql_directives_exceeded"@[8]);
    assert("graphql_variables_depth_exceeded"@[18] != "graphql_variables_array_exceeded"@[18]);
    assert("graphql_batch_blocked"@[8] != "graphql_invalid_query"@[8]);
    assert("graphql_batch_blocked"@[8] != "graphql_cost_exceeded"@[8]);
    assert("graphql_invalid_query"@[8] != "graphql_cost_exceeded"@[8]);
}

/// With no limit set and nothing to be blocked, every request passes.
pub proof fn law_nothing_set_blocks_nothing(
    cfg: GraphqlSecurityConfig,
    req: request::RequestView,
    body: Seq<u8>,
    cost_exceeded: bool,
)
    requires
        !cfg.block_introspection,
        cfg.allow_get,
        !cfg.block_batch,
        !cfg.block_invalid_query,
        cfg.max_variables_bytes is None,
        cfg.max_variables_depth is None,
        cfg.max_variables_keys is None,
        cfg.max_variables_array_len is None,
        cfg.max_query_bytes is None,
        cfg.max_depth is None,
        cfg.max_aliases is None,
        cfg.max_directives is None,
        cfg.max_cost is None,
    ensures
        conclusion(evaluation(cfg, req, body), cost_exceeded) == nothing(),
{
}

/// A response body is rewritten exactly where it holds the bytes `"errors"` and one of its error
/// messages a suggestion clause.
pub proof fn law_only_suggestions_are_rewritten(body: Seq<u8>)
    ensures
        stripped_body(body) is Some <==> {
            &&& text::occurs(body, text::ascii_bytes("\"errors\""@))
            &&& json::json_in_bytes(body) matches Some(v)
            &&& json::member(v, "errors"@) matches Some(json::Json::Array(errors))
            &&& suggestions::any_suggestion(errors)
        },
{
}

/// The document keeps the limits. The one on the cost is looked at where it is set.
pub open spec fn keeps_limits(
    cfg: GraphqlSecurityConfig,
    defs: Seq<document::DefinitionTree>,
    cost_exceeded: bool,
) -> bool {
    &&& !over(limits::capped(limits::document_depth(defs)), cfg.max_depth)
    &&& !over(limits::capped(limits::document_aliases(defs)), cfg.max_aliases)
    &&& !over(limits::capped(limits::document_directives(defs)), cfg.max_directives)
    &&& !(cfg.max_cost is Some && cost_exceeded)
}

/// The request breaks none of the rules that the settings make.
pub open spec fn breaks_no_rule(
    cfg: GraphqlSecurityConfig,
    req: request::RequestView,
    body: Seq<u8>,
    cost_exceeded: bool,
) -> bool {
    &&& !introspection_blocked(cfg, req, body)
    &&& !get_blocked(cfg, req)
    &&& request_variables_excess(cfg, req, body) is None
    &&& !(cfg.block_batch && request::is_batch(request::content_type_of(req.headers), body))
    &&& request::request_query(req, body) matches Some(query) ==> {
        &&& !over(encode_utf8(query).len(), cfg.max_query_bytes)
        &&& match document::document_in(query) {
            Some(defs) => keeps_limits(cfg, defs, cost_exceeded),
            None => !cfg.block_invalid_query,
        }
    }
}

/// What passes the detector breaks no rule, and what breaks no rule passes.
pub proof fn law_what_breaks_no_rule_passes(
    cfg: GraphqlSecurityConfig,
    req: request::RequestView,
    body: Seq<u8>,
    cost_exceeded: bool,
)
    requires
        cfg.enabled,
    ensures
        conclusion(evaluation(cfg, req, body), cost_exceeded) == nothing() <==> breaks_no_rule(
            cfg,
            req,
            body,
            cost_exceeded,
        ),
{
}

/// A batch is blocked where batches are, unless something else is reported first.
pub proof fn law_batches_are_blocked(
    cfg: GraphqlSecurityConfig,
    req: request::RequestView,
    body: Seq<u8>,
)
    requires
        cfg.enabled,
        cfg.block_batch,
        request::is_batch(request::content_type_of(req.headers), body),
        !introspection_blocked(cfg, req, body),
        !get_blocked(cfg, req),
        request_variables_excess(cfg, req, body) is None,
    ensures
        evaluation(cfg, req, body) == VerdictView::Decided(found("graphql_batch_blocked"@)),
{
}

/// A query text that is no query document is held against no limit but that on its size: it is
/// blocked where such texts are, and else it passes.
pub proof fn law_invalid_queries_meet_no_other_limit(
    cfg: GraphqlSecurityConfig,
    query: Seq<char>,
)
    requires
        document::document_in(query) is None,
        !over(encode_utf8(query).len(), cfg.max_query_bytes),
    ensures
        query_verdict(cfg, query, document::document_in(query)) == VerdictView::Decided(
            if cfg.block_invalid_query {
                found("graphql_invalid_query"@)
            } else {
                nothing()
            },
        ),
{
}

/// Unless introspection, batches or limits are configured, the probe of a live endpoint passes,
/// though queries by GET are blocked.
pub proof fn law_probe_passes_by_default(
    cfg: GraphqlSecurityConfig,
    req: request::RequestView,
    body: Seq<u8>,
    cost_exceeded: bool,
)
    requires
        req.query matches Some(raw) && probe::health_probe(request::get_query(raw)),
        !cfg.block_introspection,
        !cfg.block_batch,
        cfg.max_variables_bytes is None,
        cfg.max_variables_depth is None,
        cfg.max_variables_keys is None,
        cfg.max_variables_array_len is None,
        cfg.max_query_bytes is None,
        cfg.max_depth is None,
        cfg.max_aliases is None,
        cfg.max_directives is None,
        cfg.max_cost is None,
    ensures
        conclusion(evaluation(cfg, req, body), cost_exceeded) == nothing(),
{
}

/// A limit is passed by more than it allows and kept by exactly that much; a limit that is not set
/// is never passed.
pub proof fn law_limits_are_passed_by_more(n: nat, limit: usize)
    ensures
        !over(n, None),
        n <= limit ==> !over(n, Some(limit)),
        n > limit ==> over(n, Some(limit)),
{
}

/// Of the limits on variables the first one that is passed is named: the one on the size, then that
/// on the depth, that on the members and that on the arrays, each one held against its own figure.
pub proof fn law_first_passed_limit_on_variables(cfg: GraphqlSecurityConfig, st: VariablesStats)
    ensures
        ({
            let size = cfg.max_variables_bytes matches Some(max) && st.approx_bytes > max;
            let depth = cfg.max_variables_depth matches Some(max) && st.depth > max;
            let keys = cfg.max_variables_keys matches Some(max) && st.keys > max;
            let array = cfg.max_variables_array_len matches Some(max) && st.max_array_len > max;
            let named = variables_excess(cfg, st);
            &&& size ==> named == Some("graphql_variables_too_large"@)
            &&& !size && depth ==> named == Some("graphql_variables_depth_exceeded"@)
            &&& !size && !depth && keys ==> named == Some("graphql_variables_keys_exceeded"@)
            &&& !size && !depth && !keys && array ==> named == Some(
                "graphql_variables_array_exceeded"@,
            )
            &&& !size && !depth && !keys && !array ==> named is None
        }),
{
}

/// Of the limits on a document the first one that is passed is named: the one on the depth, then
/// that on the aliases and that on the directives. Where all are kept the cost is left to be held
/// against its limit, with the costs that the settings give, and nothing is left without one.
pub proof fn law_first_passed_limit_on_a_document(
    cfg: GraphqlSecurityConfig,
    defs: Seq<document::DefinitionTree>,
)
    ensures
        ({
            let depth = over(limits::capped(limits::document_depth(defs)), cfg.max_depth);
            let aliases = over(limits::capped(limits::document_aliases(defs)), cfg.max_aliases);
            let directives = over(
                limits::capped(limits::document_directives(defs)),
                cfg.max_directives,
            );
            let verdict = document_verdict(cfg, defs);
            &&& depth ==> conclusion(verdict, true).reason == Some("graphql_depth_exceeded"@)
                && verdict is Decided
            &&& !depth && aliases ==> conclusion(verdict, true).reason == Some(
                "graphql_aliases_exceeded"@,
            ) && verdict is Decided
            &&& !depth && !aliases && directives ==> conclusion(verdict, true).reason == Some(
                "graphql_directives_exceeded"@,
            ) && verdict is Decided
            &&& !depth && !aliases && !directives ==> match cfg.max_cost {
                Some(max) => verdict is CostLimit && verdict->max_cost == max && verdict->cost
                    == cost::document_cost(
                    defs,
                    CostModel {
                        scalar_cost: cfg.cost_scalar_cost,
                        object_cost: cfg.cost_object_cost,
                        flatten_fragments: cfg.cost_flatten_fragments,
                        ignore_introspection: cfg.cost_ignore_introspection,
                        fragment_recursion_cost: cfg.cost_fragment_recursion_cost,
                    },
                ),
                None => verdict == VerdictView::Decided(
                    MatchView { matched: false, reason: None },
                ),
            }
            &&& depth || aliases || directives ==> conclusion(verdict, true).matched
                && conclusion(verdict, false) == conclusion(verdict, true)
        }),
{
}

/// A query text is held against the limit on its size, in bytes, and then against those on its
/// document; where it has no document it is blocked if such texts are, and else it passes.
pub proof fn law_what_a_query_text_comes_to(
    cfg: GraphqlSecurityConfig,
    query: Seq<char>,
    doc: Option<Seq<document::DefinitionTree>>,
)
    ensures
        ({
            let large = cfg.max_query_bytes matches Some(max) && encode_utf8(query).len() > max;
            let verdict = query_verdict(cfg, query, doc);
            &&& large ==> verdict == VerdictView::Decided(
                MatchView { matched: true, reason: Some("graphql_query_too_large"@) },
            )
            &&& !large && doc is Some ==> verdict == document_verdict(cfg, doc->0)
            &&& !large && doc is None && cfg.block_invalid_query ==> verdict
                == VerdictView::Decided(
                MatchView { matched: true, reason: Some("graphql_invalid_query"@) },
            )
            &&& !large && doc is None && !cfg.block_invalid_query ==> verdict
                == VerdictView::Decided(MatchView { matched: false, reason: None })
        }),
{
}

/// Introspection is shown exactly where the query string, the body, or a query text in one of them
/// names an introspection field; it is allowed exactly by the header that is configured, and
/// blocked exactly where it is to be, is shown and is not allowed.
pub proof fn law_when_introspection_is_blocked(
    cfg: GraphqlSecurityConfig,
    req: request::RequestView,
    body: Seq<u8>,
)
    ensures
        ({
            let ct = request::content_type_of(req.headers);
            shows_introspection(req, body) <==> {
                ||| req.query is Some && introspection::names_introspection(
                    encode_utf8(req.query->0),
                )
                ||| req.query is Some && introspection::names_introspection(
                    encode_utf8(request::get_query(req.query->0)),
                )
                ||| introspection::names_introspection(body)
                ||| request::body_query(ct, body) is Some && introspection::names_introspection(
                    encode_utf8(request::body_query(ct, body)->0),
                )
                ||| exists|i: int|
                    (#[trigger] request::batch_query(ct, body, i)) is Some
                        && introspection::names_introspection(
                        encode_utf8(request::batch_query(ct, body, i)->0),
                    )
            }
        }),
        introspection_allowed(cfg, req) <==> cfg.allow_introspection_header is Some
            && request::carries_header(req, cfg.allow_introspection_header->0@),
        introspection_blocked(cfg, req, body) <==> cfg.block_introspection && shows_introspection(
            req,
            body,
        ) && !introspection_allowed(cfg, req),
{
    let ct = request::content_type_of(req.headers);
    if shows_introspection(req, body) && exists|i: int|
        text_shows_introspection(#[trigger] request::batch_query(ct, body, i)) {
        let i = choose|i: int| text_shows_introspection(#[trigger] request::batch_query(ct, body, i));
        assert(request::batch_query(ct, body, i) is Some);
    }
    if exists|i: int|
        (#[trigger] request::batch_query(ct, body, i)) is Some && introspection::names_introspection(
            encode_utf8(request::batch_query(ct, body, i)->0),
        ) {
        let i = choose|i: int|
            (#[trigger] request::batch_query(ct, body, i)) is Some
                && introspection::names_introspection(
                encode_utf8(request::batch_query(ct, body, i)->0),
            );
        assert(text_shows_introspection(request::batch_query(ct, body, i)));
    }
}

/// A request is blocked for being a GET exactly where GET is not allowed, it is one, and the query
/// text of its query string is no probe.
pub proof fn law_when_a_get_is_blocked(cfg: GraphqlSecurityConfig, req: request::RequestView)
    ensures
        get_blocked(cfg, req) <==> !cfg.allow_get && req.method == "GET"@ && req.query is Some
            && !probe::health_probe(request::get_query(req.query->0)),
{
}

/// What is held against the limits on variables are the figures of the variables of the request,
/// and without variables none of them is passed.
pub proof fn law_which_variables_are_measured(
    cfg: GraphqlSecurityConfig,
    req: request::RequestView,
    body: Seq<u8>,
)
    ensures
        match request::request_variables(req, body) {
            Some(v) => request_variables_excess(cfg, req, body) == variables_excess(
                cfg,
                variables::measured(v),
            ),
            None => request_variables_excess(cfg, req, body) is None,
        },
{
}

/// The rules come in this order, and the first one that a request breaks decides: introspection,
/// GET, the variables, batches, and what the query text comes to. A request that breaks none and has
/// no query text passes.
pub proof fn law_first_broken_rule_decides(
    cfg: GraphqlSecurityConfig,
    req: request::RequestView,
    body: Seq<u8>,
)
    requires
        cfg.enabled,
    ensures
        ({
            let introspection = introspection_blocked(cfg, req, body);
            let get = get_blocked(cfg, req);
            let excess = request_variables_excess(cfg, req, body);
            let batch = cfg.block_batch && request::is_batch(
                request::content_type_of(req.headers),
                body,
            );
            let query = request::request_query(req, body);
            let verdict = evaluation(cfg, req, body);
            &&& introspection ==> verdict == VerdictView::Decided(
                MatchView { matched: true, reason: Some("graphql_introspection_blocked"@) },
            )
            &&& !introspection && get ==> verdict == VerdictView::Decided(
                MatchView { matched: true, reason: Some("graphql_get_disabled"@) },
            )
            &&& !introspection && !get && excess is Some ==> verdict == VerdictView::Decided(
                MatchView { matched: true, reason: excess },
            )
            &&& !introspection && !get && excess is None && batch ==> verdict
                == VerdictView::Decided(
                MatchView { matched: true, reason: Some("graphql_batch_blocked"@) },
            )
            &&& !introspection && !get && excess is None && !batch && query is Some ==> verdict
                == query_verdict(cfg, query->0, document::document_in(query->0))
            &&& !introspection && !get && excess is None && !batch && query is None ==> verdict
                == VerdictView::Decided(MatchView { matched: false, reason: None })
        }),
{
}

/// A decided inspection stays as it is; one that was left to the cost matches exactly where the cost
/// passes its limit.
pub proof fn law_cost_decides_where_it_is_left_open(
    m: MatchView,
    cost: cost::CostTree,
    max_cost: nat,
    cost_exceeded: bool,
)
    ensures
        conclusion(VerdictView::Decided(m), cost_exceeded) == m,
        conclusion(VerdictView::CostLimit { cost, max_cost }, true) == (MatchView {
            matched: true,
            reason: Some("graphql_cost_exceeded"@),
        }),
        conclusion(VerdictView::CostLimit { cost, max_cost }, false) == (MatchView {
            matched: false,
            reason: None,
        }),
{
}

/// A rewritten body is the stripped response, written as JSON.
pub proof fn law_rewritten_body_is_the_stripped_response(body: Seq<u8>, v: json::Json)
    requires
        json::json_in_bytes(body) == Some(v),
        text::occurs(body, text::ascii_bytes("\"errors\""@)),
    ensures
        stripped_body(body) is Some <==> suggestions::stripped_response(v) is Some,
        suggestions::stripped_response(v) matches Some(w) ==> stripped_body(body) == Some(
            json::json_written(w),
        ),
{
}

/// What a match says is whether something was found and for which reason.
pub proof fn law_view_of_a_match(m: GraphqlMatch)
    ensures
        m@.matched == m.matched,
        m.reason is None ==> m@.reason is None,
        m.reason is Some ==> m@.reason == Some(m.reason->0@),
{
}

/// What a verdict says is its match, or its cost and the limit on that.
pub proof fn law_view_of_a_verdict(v: Verdict)
    ensures
        match v {
            Verdict::Decided(m) => v@ == VerdictView::Decided(m@),
            Verdict::CostLimit { cost, max_cost } => v@ == (VerdictView::CostLimit {
                cost: cost@,
                max_cost: max_cost as nat,
            }),
        },
{
}

/// The costs are held as they are set.
pub proof fn law_costs_are_those_that_are_set(cfg: GraphqlSecurityConfig)
    ensures
        cfg.spec_cost_model().scalar_cost == cfg.cost_scalar_cost,
        cfg.spec_cost_model().object_cost == cfg.cost_object_cost,
        cfg.spec_cost_model().flatten_fragments == cfg.cost_flatten_fragments,
        cfg.spec_cost_model().ignore_introspection == cfg.cost_ignore_introspection,
        cfg.spec_cost_model().fragment_recursion_cost == cfg.cost_fragment_recursion_cost,
{
}

} // verus!
