# graphql_waf

A web application firewall for GraphQL, verified with Verus. It inspects the requests that a reverse
proxy hands it, says what is wrong with them, and takes "Did you mean" hints out of responses.

## What is where

- `src/graphql_security.rs` - the detector: `evaluate_graphql_security`, its settings and its
  result, and `strip_graphql_field_suggestions`. `evaluation` states in which order the rules come.
- `src/introspection.rs` - finds `__schema` and `__type` in raw bytes.
- `src/request.rs` - the query text and the variables of a request.
- `src/document.rs`, `src/limits.rs`, `src/cost.rs`, `src/probe.rs` - query documents: their depth,
  aliases, directives and cost, and the `{__typename}` probe.
- `src/inlining.rs` - what the cost of a document has to do with where its fragments are written.
- `src/json.rs`, `src/variables.rs`, `src/suggestions.rs` - JSON values, what is measured of
  variables, and what is cut from error messages.
- `src/config.rs`, `src/proxy.rs` - the settings with their defaults, and what the proxy does with a
  request and a response in each mode.
- `src/upstream.rs` - what the demo upstream answers.
- `src/text.rs` - searching in bytes and characters.
- `app/` - the program: command line, configuration file, the proxy itself and the demo upstream.

The promises that span several functions are the proof functions whose names begin with `law_`.

## What is trusted

Functions named `call_*`, `open_value` and `pop_*`, and the `assume_specification` items, make the
calls into other crates: `memchr`, `serde_json`, `graphql-parser`, `url`, `percent-encoding` and
`http`. Their contracts are believed; each one says what it claims. What a parser reads is given a
name (`json_in_bytes`, `parsed_query` and the like), and everything behind it is proved for whatever
it reads.

The cost of a query is left as a tree of terms. The program sums it up, because the factor by which
it grows with the nesting depth is a floating-point number.
