//! The settings of the proxy: what a configuration file or the command line sets, and what holds
//! once both are put together with the defaults.
use vstd::prelude::*;

use crate::graphql_security::GraphqlSecurityConfig;
use crate::text;

verus! {

/// The sections of a configuration file.
#[derive(Clone, Debug, Default)]
pub struct TomlConfig {
    pub waf: Option<WafSection>,
    pub graphql: Option<GraphqlSection>,
}

/// The settings of the proxy itself, as far as they are given.
#[derive(Clone, Debug, Default)]
pub struct WafSection {
    pub listen_host: Option<String>,
    pub listen_port: Option<u16>,
    pub upstream: Option<String>,
    pub mode: Option<String>,
    pub modsec_rules: Option<Vec<String>>,
    pub wirefilter: Option<String>,
    pub max_body_bytes: Option<usize>,
    pub reject_oversized_body: Option<bool>,
    pub worker_threads: Option<usize>,
}

/// The settings of the GraphQL detector, as far as they are given. The factor by which the cost
/// grows with the nesting depth is no part of them: it is applied where the terms of the cost are
/// summed up.
#[derive(Clone, Debug, Default)]
pub struct GraphqlSection {
    pub enabled: Option<bool>,
    pub block_non_graphql_paths: Option<bool>,
    pub block_introspection: Option<bool>,
    pub allow_introspection_header: Option<String>,
    pub allow_get: Option<bool>,
    pub block_invalid_query: Option<bool>,
    pub block_batch: Option<bool>,
    pub max_query_bytes: Option<usize>,
    pub max_depth: Option<usize>,
    pub max_aliases: Option<usize>,
    pub max_directives: Option<usize>,
    pub max_cost: Option<usize>,
    pub cost_scalar_cost: Option<usize>,
    pub cost_object_cost: Option<usize>,
    pub cost_flatten_fragments: Option<bool>,
    pub cost_ignore_introspection: Option<bool>,
    pub cost_fragment_recursion_cost: Option<usize>,
    pub max_variables_bytes: Option<usize>,
    pub max_variables_depth: Option<usize>,
    pub max_variables_keys: Option<usize>,
    pub max_variables_array_len: Option<usize>,
    pub block_field_suggestions: Option<bool>,
    pub max_response_bytes: Option<usize>,
}

/// What the proxy does with the requests it gets.
#[derive(Clone, Copy, Debug, PartialEq, Eq, Structural)]
pub enum WafMode {
    /// No inspection, pure reverse proxy.
    Off,
    /// Log decisions, never block.
    Audit,
    /// Block what a detector matches.
    Block,
}

/// What is wrong with the settings.
#[derive(Clone, Copy, Debug, PartialEq, Eq, Structural)]
pub enum ConfigError {
    /// Neither the command line nor the file names an upstream.
    MissingUpstream,
    /// The mode is none of `off`, `audit` and `block`.
    UnknownMode,
    /// The runtime needs at least one worker thread.
    NoWorkerThreads,
}

/// The settings of the proxy itself.
#[derive(Debug)]
pub struct WafSettings {
    pub listen_host: String,
    pub listen_port: u16,
    pub upstream: String,
    pub mode: WafMode,
    pub modsec_rules: Vec<String>,
    pub wirefilter: Option<String>,
    pub max_body_bytes: usize,
    pub reject_oversized_body: bool,
}

/// The first of two values that is given.
pub open spec fn given<T>(first: Option<T>, second: Option<T>) -> Option<T> {
    match first {
        Some(v) => Some(v),
        None => second,
    }
}

/// A value, or what stands for it where none is given.
pub open spec fn or_default<T>(value: Option<T>, default: T) -> T {
    match value {
        Some(v) => v,
        None => default,
    }
}

fn first_given<T>(first: Option<T>, second: Option<T>) -> (r: Option<T>)
    ensures
        r == given(first, second),
{
    match first {
        Some(v) => Some(v),
        None => second,
    }
}

fn with_default<T>(value: Option<T>, default: T) -> (r: T)
    ensures
        r == or_default(value, default),
{
    match value {
        Some(v) => v,
        None => default,
    }
}

/// The mode of that name.
pub open spec fn mode_named(name: Seq<char>) -> Option<WafMode> {
    if name == "off"@ {
        Some(WafMode::Off)
    } else if name == "audit"@ {
        Some(WafMode::Audit)
    } else if name == "block"@ {
        Some(WafMode::Block)
    } else {
        None
    }
}

/// The mode of that name.
pub fn parse_mode(name: &str) -> (r: Option<WafMode>)
    ensures
        r == mode_named(name@),
{
    if text::same_text(name, "off") {
        Some(WafMode::Off)
    } else if text::same_text(name, "audit") {
        Some(WafMode::Audit)
    } else if text::same_text(name, "block") {
        Some(WafMode::Block)
    } else {
        None
    }
}

/// The proxy section of a file, where there is a file and it has one.
pub open spec fn waf_section(file: Option<TomlConfig>) -> Option<WafSection> {
    match file {
        Some(cfg) => cfg.waf,
        None => None,
    }
}

/// The number of worker threads that is set: the command line counts before the file, and without
/// either there are two.
pub open spec fn worker_threads_set(cli: Option<usize>, file: Option<TomlConfig>) -> usize {
    or_default(
        given(
            cli,
            match waf_section(file) {
                Some(waf) => waf.worker_threads,
                None => None,
            },
        ),
        2,
    )
}

/// The number of worker threads of the runtime: at least one.
pub fn resolve_worker_threads(cli: Option<usize>, file_cfg: Option<&TomlConfig>) -> (r: Result<
    usize,
    ConfigError,
>)
    ensures
        ({
            let set = worker_threads_set(
                cli,
                match file_cfg {
                    Some(cfg) => Some(*cfg),
                    None => None,
                },
            );
            r == if set >= 1 {
                Ok::<usize, ConfigError>(set)
            } else {
                Err(ConfigError::NoWorkerThreads)
            }
        }),
{
    let from_file: Option<usize> = match file_cfg {
        Some(cfg) => match &cfg.waf {
            Some(waf) => waf.worker_threads,
            None => None,
        },
        None => None,
    };
    let threads: usize = with_default(first_given(cli, from_file), 2);
    if threads >= 1 {
        Ok(threads)
    } else {
        Err(ConfigError::NoWorkerThreads)
    }
}

/// What is wrong with the settings of the proxy, if anything: first the upstream is looked at, then
/// the mode. The worker threads are a matter of [`resolve_worker_threads`].
pub open spec fn waf_error(cli: WafSection, file: WafSection) -> Option<ConfigError> {
    if given(cli.upstream, file.upstream) is None {
        Some(ConfigError::MissingUpstream)
    } else if given(cli.mode, file.mode) matches Some(name) && mode_named(name@) is None {
        Some(ConfigError::UnknownMode)
    } else {
        None
    }
}

/// The settings that come of a command line and a file: the command line counts before the file,
/// and the defaults fill in what neither gives.
pub open spec fn waf_resolved(cli: WafSection, file: WafSection, s: WafSettings) -> bool {
    &&& match given(cli.listen_host, file.listen_host) {
        Some(host) => s.listen_host == host,
        None => s.listen_host@ == "127.0.0.1"@,
    }
    &&& s.listen_port == or_default(given(cli.listen_port, file.listen_port), 8080)
    &&& given(cli.upstream, file.upstream) == Some(s.upstream)
    &&& match given(cli.mode, file.mode) {
        Some(name) => mode_named(name@) == Some(s.mode),
        None => s.mode == WafMode::Block,
    }
    &&& match given(cli.modsec_rules, file.modsec_rules) {
        Some(rules) => s.modsec_rules == rules,
        None => s.modsec_rules@.len() == 0,
    }
    &&& s.wirefilter == given(cli.wirefilter, file.wirefilter)
    &&& s.max_body_bytes == or_default(given(cli.max_body_bytes, file.max_body_bytes), 1048576)
    &&& s.reject_oversized_body == or_default(
        given(cli.reject_oversized_body, file.reject_oversized_body),
        true,
    )
}

/// Puts the settings of the proxy together.
pub fn resolve_waf(cli: WafSection, file: WafSection) -> (r: Result<WafSettings, ConfigError>)
    ensures
        match r {
            Ok(s) => waf_error(cli, file) is None && waf_resolved(cli, file, s),
            Err(e) => waf_error(cli, file) == Some(e),
        },
{
    let upstream = match first_given(cli.upstream, file.upstream) {
        Some(u) => u,
        None => {
            return Err(ConfigError::MissingUpstream);
        },
    };
    let mode = match first_given(cli.mode, file.mode) {
        Some(name) => match parse_mode(name.as_str()) {
            Some(mode) => mode,
            None => {
                return Err(ConfigError::UnknownMode);
            },
        },
        None => WafMode::Block,
    };
    let listen_host = match first_given(cli.listen_host, file.listen_host) {
        Some(host) => host,
        None => "127.0.0.1".to_owned(),
    };
    let modsec_rules = match first_given(cli.modsec_rules, file.modsec_rules) {
        Some(rules) => rules,
        None => Vec::new(),
    };
    Ok(
        WafSettings {
            listen_host,
            listen_port: with_default(first_given(cli.listen_port, file.listen_port), 8080),
            upstream,
            mode,
            modsec_rules,
            wirefilter: first_given(cli.wirefilter, file.wirefilter),
            max_body_bytes: with_default(
                first_given(cli.max_body_bytes, file.max_body_bytes),
                1048576,
            ),
            reject_oversized_body: with_default(
                first_given(cli.reject_oversized_body, file.reject_oversized_body),
                true,
            ),
        },
    )
}

/// The settings of the detector that come of a command line and a file: the command line counts
/// before the file, and the defaults fill in what neither gives. No limit is set by default.
pub open spec fn graphql_resolved(
    cli: GraphqlSection,
    file: GraphqlSection,
) -> GraphqlSecurityConfig {
    GraphqlSecurityConfig {
        enabled: or_default(given(cli.enabled, file.enabled), true),
        block_non_graphql_paths: or_default(
            given(cli.block_non_graphql_paths, file.block_non_graphql_paths),
            false,
        ),
        block_introspection: or_default(
            given(cli.block_introspection, file.block_introspection),
            false,
        ),
        allow_introspection_header: given(
            cli.allow_introspection_header,
            file.allow_introspection_header,
        ),
        allow_get: or_default(given(cli.allow_get, file.allow_get), false),
        max_query_bytes: given(cli.max_query_bytes, file.max_query_bytes),
        max_depth: given(cli.max_depth, file.max_depth),
        max_aliases: given(cli.max_aliases, file.max_aliases),
        max_directives: given(cli.max_directives, file.max_directives),
        max_cost: given(cli.max_cost, file.max_cost),
        cost_scalar_cost: or_default(given(cli.cost_scalar_cost, file.cost_scalar_cost), 1),
        cost_object_cost: or_default(given(cli.cost_object_cost, file.cost_object_cost), 2),
        cost_flatten_fragments: or_default(
            given(cli.cost_flatten_fragments, file.cost_flatten_fragments),
            false,
        ),
        cost_ignore_introspection: or_default(
            given(cli.cost_ignore_introspection, file.cost_ignore_introspection),
            true,
        ),
        cost_fragment_recursion_cost: or_default(
            given(cli.cost_fragment_recursion_cost, file.cost_fragment_recursion_cost),
            1000,
        ),
        max_variables_bytes: given(cli.max_variables_bytes, file.max_variables_bytes),
        max_variables_depth: given(cli.max_variables_depth, file.max_variables_depth),
        max_variables_keys: given(cli.max_variables_keys, file.max_variables_keys),
        max_variables_array_len: given(cli.max_variables_array_len, file.max_variables_array_len),
        block_batch: or_default(given(cli.block_batch, file.block_batch), false),
        block_invalid_query: or_default(
            given(cli.block_invalid_query, file.block_invalid_query),
            true,
        ),
        block_field_suggestions: or_default(
            given(cli.block_field_suggestions, file.block_field_suggestions),
            true,
        ),
        max_response_bytes: or_default(
            given(cli.max_response_bytes, file.max_response_bytes),
            262144,
        ),
    }
}

/// Puts the settings of the detector together.
pub fn resolve_graphql(cli: GraphqlSection, file: GraphqlSection) -> (r: GraphqlSecurityConfig)
    ensures
        r == graphql_resolved(cli, file),
{
    GraphqlSecurityConfig {
        enabled: with_default(first_given(cli.enabled, file.enabled), true),
        block_non_graphql_paths: with_default(
            first_given(cli.block_non_graphql_paths, file.block_non_graphql_paths),
            false,
        ),
        block_introspection: with_default(
            first_given(cli.block_introspection, file.block_introspection),
            false,
        ),
        allow_introspection_header: first_given(
            cli.allow_introspection_header,
            file.allow_introspection_header,
        ),
        allow_get: with_default(first_given(cli.allow_get, file.allow_get), false),
        max_query_bytes: first_given(cli.max_query_bytes, file.max_query_bytes),
        max_depth: first_given(cli.max_depth, file.max_depth),
        max_aliases: first_given(cli.max_aliases, file.max_aliases),
        max_directives: first_given(cli.max_directives, file.max_directives),
        max_cost: first_given(cli.max_cost, file.max_cost),
        cost_scalar_cost: with_default(
            first_given(cli.cost_scalar_cost, file.cost_scalar_cost),
            1,
        ),
        cost_object_cost: with_default(
            first_given(cli.cost_object_cost, file.cost_object_cost),
            2,
        ),
        cost_flatten_fragments: with_default(
            first_given(cli.cost_flatten_fragments, file.cost_flatten_fragments),
            false,
        ),
        cost_ignore_introspection: with_default(
            first_given(cli.cost_ignore_introspection, file.cost_ignore_introspection),
            true,
        ),
        cost_fragment_recursion_cost: with_default(
            first_given(cli.cost_fragment_recursion_cost, file.cost_fragment_recursion_cost),
            1000,
        ),
        max_variables_bytes: first_given(cli.max_variables_bytes, file.max_variables_bytes),
        max_variables_depth: first_given(cli.max_variables_depth, file.max_variables_depth),
        max_variables_keys: first_given(cli.max_variables_keys, file.max_variables_keys),
        max_variables_array_len: first_given(
            cli.max_variables_array_len,
            file.max_variables_array_len,
        ),
        block_batch: with_default(first_given(cli.block_batch, file.block_batch), false),
        block_invalid_query: with_default(
            first_given(cli.block_invalid_query, file.block_invalid_query),
            true,
        ),
        block_field_suggestions: with_default(
            first_given(cli.block_field_suggestions, file.block_field_suggestions),
            true,
        ),
        max_response_bytes: with_default(
            first_given(cli.max_response_bytes, file.max_response_bytes),
            262144,
        ),
    }
}

/// No limit is enforced that neither the command line nor the file sets.
pub proof fn law_limits_are_off_by_default(cli: GraphqlSection, file: GraphqlSection)
    ensures
        ({
            let cfg = graphql_resolved(cli, file);
            &&& cli.max_query_bytes is None && file.max_query_bytes is None
                ==> cfg.max_query_bytes is None
            &&& cli.max_depth is None && file.max_depth is None ==> cfg.max_depth is None
            &&& cli.max_aliases is None && file.max_aliases is None ==> cfg.max_aliases is None
            &&& cli.max_directives is None && file.max_directives is None
                ==> cfg.max_directives is None
            &&& cli.max_cost is None && file.max_cost is None ==> cfg.max_cost is None
            &&& cli.max_variables_bytes is None && file.max_variables_bytes is None
                ==> cfg.max_variables_bytes is None
            &&& cli.max_variables_depth is None && file.max_variables_depth is None
                ==> cfg.max_variables_depth is None
            &&& cli.max_variables_keys is None && file.max_variables_keys is None
                ==> cfg.max_variables_keys is None
            &&& cli.max_variables_array_len is None && file.max_variables_array_len is None
                ==> cfg.max_variables_array_len is None
        }),
{
}

/// What the command line gives, holds, whatever the file says.
pub proof fn law_command_line_overrides_the_file<T>(cli: Option<T>, file: Option<T>, default: T)
    ensures
        cli matches Some(v) ==> or_default(given(cli, file), default) == v,
        cli is None ==> or_default(given(cli, file), default) == or_default(file, default),
{
}

/// Unless told otherwise, a proxy listens locally, blocks, and rejects a body that is too large to
/// be inspected.
pub proof fn law_default_is_to_block(cli: WafSection, file: WafSection, s: WafSettings)
    requires
        waf_resolved(cli, file, s),
        cli.listen_host is None && file.listen_host is None,
        cli.mode is None && file.mode is None,
        cli.reject_oversized_body is None && file.reject_oversized_body is None,
    ensures
        s.listen_host@ == "127.0.0.1"@,
        s.mode == WafMode::Block,
        s.reject_oversized_body,
{
}

/// The value is that of the command line where it gives one, else that of the file where it gives
/// one, and else the default.
pub open spec fn settled<T>(cli: Option<T>, file: Option<T>, default: T, value: T) -> bool {
    &&& cli is Some ==> value == cli->0
    &&& cli is None && file is Some ==> value == file->0
    &&& cli is None && file is None ==> value == default
}

/// Every setting of the detector comes from the command line, the file or its default, in this
/// order; a limit and the header that allows introspection have no default.
pub proof fn law_where_detector_settings_come_from(cli: GraphqlSection, file: GraphqlSection)
    ensures
        ({
            let cfg = graphql_resolved(cli, file);
            &&& settled(cli.enabled, file.enabled, true, cfg.enabled)
            &&& settled(
                cli.block_non_graphql_paths,
                file.block_non_graphql_paths,
                false,
                cfg.block_non_graphql_paths,
            )
            &&& settled(
                cli.block_introspection,
                file.block_introspection,
                false,
                cfg.block_introspection,
            )
            &&& settled(cli.allow_get, file.allow_get, false, cfg.allow_get)
            &&& settled(cli.block_batch, file.block_batch, false, cfg.block_batch)
            &&& settled(
                cli.block_invalid_query,
                file.block_invalid_query,
                true,
                cfg.block_invalid_query,
            )
            &&& settled(
                cli.block_field_suggestions,
                file.block_field_suggestions,
                true,
                cfg.block_field_suggestions,
            )
            &&& settled(
                cli.cost_flatten_fragments,
                file.cost_flatten_fragments,
                false,
                cfg.cost_flatten_fragments,
            )
            &&& settled(
                cli.cost_ignore_introspection,
                file.cost_ignore_introspection,
                true,
                cfg.cost_ignore_introspection,
            )
            &&& settled(cli.cost_scalar_cost, file.cost_scalar_cost, 1, cfg.cost_scalar_cost)
            &&& settled(cli.cost_object_cost, file.cost_object_cost, 2, cfg.cost_object_cost)
            &&& settled(
                cli.cost_fragment_recursion_cost,
                file.cost_fragment_recursion_cost,
                1000,
                cfg.cost_fragment_recursion_cost,
            )
            &&& settled(
                cli.max_response_bytes,
                file.max_response_bytes,
                262144,
                cfg.max_response_bytes,
            )
            &&& cli.allow_introspection_header is Some
                ==> cfg.allow_introspection_header == cli.allow_introspection_header
            &&& cli.allow_introspection_header is None
                ==> cfg.allow_introspection_header == file.allow_introspection_header
            &&& cli.max_query_bytes is Some ==> cfg.max_query_bytes == cli.max_query_bytes
            &&& cli.max_query_bytes is None ==> cfg.max_query_bytes == file.max_query_bytes
            &&& cli.max_depth is Some ==> cfg.max_depth == cli.max_depth
            &&& cli.max_depth is None ==> cfg.max_depth == file.max_depth
            &&& cli.max_aliases is Some ==> cfg.max_aliases == cli.max_aliases
            &&& cli.max_aliases is None ==> cfg.max_aliases == file.max_aliases
            &&& cli.max_directives is Some ==> cfg.max_directives == cli.max_directives
            &&& cli.max_directives is None ==> cfg.max_directives == file.max_directives
            &&& cli.max_cost is Some ==> cfg.max_cost == cli.max_cost
            &&& cli.max_cost is None ==> cfg.max_cost == file.max_cost
            &&& cli.max_variables_bytes is Some
                ==> cfg.max_variables_bytes == cli.max_variables_bytes
            &&& cli.max_variables_bytes is None
                ==> cfg.max_variables_bytes == file.max_variables_bytes
            &&& cli.max_variables_depth is Some
                ==> cfg.max_variables_depth == cli.max_variables_depth
            &&& cli.max_variables_depth is None
                ==> cfg.max_variables_depth == file.max_variables_depth
            &&& cli.max_variables_keys is Some ==> cfg.max_variables_keys == cli.max_variables_keys
            &&& cli.max_variables_keys is None ==> cfg.max_variables_keys == file.max_variables_keys
            &&& cli.max_variables_array_len is Some
                ==> cfg.max_variables_array_len == cli.max_variables_array_len
            &&& cli.max_variables_array_len is None
                ==> cfg.max_variables_array_len == file.max_variables_array_len
        }),
{
}

/// The names of the modes are `off`, `audit` and `block`, and nothing else is one.
pub proof fn law_names_of_the_modes(name: Seq<char>)
    ensures
        mode_named(name) == Some(WafMode::Off) <==> name == "off"@,
        mode_named(name) == Some(WafMode::Audit) <==> name == "audit"@,
        mode_named(name) == Some(WafMode::Block) <==> name == "block"@,
{
    reveal_strlit("off");
    reveal_strlit("audit");
    reveal_strlit("block");
    assert("off"@.len() == 3 && "audit"@.len() == 5 && "block"@.len() == 5);
    assert("audit"@[0] != "block"@[0]);
}

/// The worker threads are those of the command line, else those of the file, and else two.
pub proof fn law_where_worker_threads_come_from(cli: Option<usize>, file: Option<TomlConfig>)
    ensures
        ({
            let from_file = if file is Some && file->0.waf is Some {
                file->0.waf->0.worker_threads
            } else {
                None
            };
            settled(cli, from_file, 2, worker_threads_set(cli, file))
        }),
{
}

/// The settings of the proxy are refused exactly where no upstream is given, or else where the mode
/// that is given is not one.
pub proof fn law_which_proxy_settings_are_refused(cli: WafSection, file: WafSection)
    ensures
        waf_error(cli, file) == Some(ConfigError::MissingUpstream) <==> cli.upstream is None
            && file.upstream is None,
        waf_error(cli, file) == Some(ConfigError::UnknownMode) <==> (cli.upstream is Some
            || file.upstream is Some) && {
            ||| cli.mode is Some && mode_named(cli.mode->0@) is None
            ||| cli.mode is None && file.mode is Some && mode_named(file.mode->0@) is None
        },
        waf_error(cli, file) != Some(ConfigError::NoWorkerThreads),
{
}

/// Every setting of the proxy comes from the command line, the file or its default, in this order;
/// the upstream has no default, and neither has the wirefilter expression.
pub proof fn law_where_proxy_settings_come_from(cli: WafSection, file: WafSection, s: WafSettings)
    requires
        waf_resolved(cli, file, s),
    ensures
        cli.listen_host is Some ==> s.listen_host == cli.listen_host->0,
        cli.listen_host is None && file.listen_host is Some ==> s.listen_host
            == file.listen_host->0,
        cli.listen_host is None && file.listen_host is None ==> s.listen_host@ == "127.0.0.1"@,
        settled(cli.listen_port, file.listen_port, 8080, s.listen_port),
        cli.upstream is Some ==> s.upstream == cli.upstream->0,
        cli.upstream is None ==> file.upstream == Some(s.upstream),
        cli.mode is Some ==> mode_named(cli.mode->0@) == Some(s.mode),
        cli.mode is None && file.mode is Some ==> mode_named(file.mode->0@) == Some(s.mode),
        cli.mode is None && file.mode is None ==> s.mode is Block,
        cli.modsec_rules is Some ==> s.modsec_rules == cli.modsec_rules->0,
        cli.modsec_rules is None && file.modsec_rules is Some ==> s.modsec_rules
            == file.modsec_rules->0,
        cli.modsec_rules is None && file.modsec_rules is None ==> s.modsec_rules@.len() == 0,
        cli.wirefilter is Some ==> s.wirefilter == cli.wirefilter,
        cli.wirefilter is None ==> s.wirefilter == file.wirefilter,
        settled(cli.max_body_bytes, file.max_body_bytes, 1048576, s.max_body_bytes),
        settled(
            cli.reject_oversized_body,
            file.reject_oversized_body,
            true,
            s.reject_oversized_body,
        ),
{
}

} // verus!
