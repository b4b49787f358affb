//! The `{__typename}` query by which tools ask whether a GraphQL endpoint is alive.
use vstd::prelude::*;

use crate::document;
use crate::document::{Definition, Document, Selection};
use crate::text;

verus! {

/// The selection set is the one field `__typename`, without alias, arguments, directives and
/// selections of its own.
pub open spec fn only_typename(items: Seq<document::SelectionTree>) -> bool {
    &&& items.len() == 1
    &&& items[0] matches document::SelectionTree::Field {
        alias,
        name,
        arguments,
        directives,
        items: inner,
    } && name == "__typename"@ && alias is None && arguments == 0 && directives == 0 && inner.len()
        == 0
}

/// The document is one operation without variables and directives that selects `__typename` alone.
pub open spec fn typename_probe(defs: Seq<document::DefinitionTree>) -> bool {
    &&& defs.len() == 1
    &&& match defs[0] {
        document::DefinitionTree::SelectionSet { items } => only_typename(items),
        document::DefinitionTree::Operation { variables, directives, items } => variables == 0
            && directives == 0 && only_typename(items),
        document::DefinitionTree::Fragment { .. } => false,
    }
}

/// The text is a query document that asks for `__typename` and nothing else.
pub open spec fn health_probe(query: Seq<char>) -> bool {
    match document::document_in(query) {
        Some(defs) => typename_probe(defs),
        None => false,
    }
}

fn selection_set_is_only_typename_field(items: &Vec<Selection>) -> (r: bool)
    ensures
        r == only_typename(document::items_view(items@)),
{
    if items.len() != 1 {
        return false;
    }
    assert(document::items_view(items@)[0] == document::selection_view(items@[0]));
    match &items[0] {
        Selection::Field { alias, name, arguments, directives, items } => {
            text::same_text(name.as_str(), "__typename") && alias.is_none() && *arguments == 0
                && *directives == 0 && items.len() == 0
        },
        _ => false,
    }
}

/// Whether the document is one operation that selects `__typename` alone.
pub fn is_typename_document(doc: &Document) -> (r: bool)
    ensures
        r == typename_probe(doc@),
{
    if doc.definitions.len() != 1 {
        return false;
    }
    assert(doc@[0] == document::definition_view(doc.definitions@[0]));
    match &doc.definitions[0] {
        Definition::SelectionSet { items } => selection_set_is_only_typename_field(items),
        Definition::Operation { variables, directives, items } => *variables == 0 && *directives
            == 0 && selection_set_is_only_typename_field(items),
        Definition::Fragment { name: _, directives: _, items: _ } => false,
    }
}

/// Whether the text is a query document that asks for `__typename` and nothing else.
pub fn is_typename_health_probe(query: &str) -> (r: bool)
    ensures
        r == health_probe(query@),
{
    match document::parse_document(query) {
        Some(doc) => is_typename_document(&doc),
        None => false,
    }
}

/// The probe is the document with nothing but the bare field `__typename` in its one operation, be
/// that a bare selection set or an operation without variables and directives.
pub proof fn law_probe_is_the_bare_typename(defs: Seq<document::DefinitionTree>)
    ensures
        typename_probe(defs) <==> {
            let bare = seq![
                document::SelectionTree::Field {
                    alias: None,
                    name: "__typename"@,
                    arguments: 0,
                    directives: 0,
                    items: Seq::empty(),
                },
            ];
            ||| defs == seq![document::DefinitionTree::SelectionSet { items: bare }]
            ||| defs == seq![
                document::DefinitionTree::Operation { variables: 0, directives: 0, items: bare },
            ]
        },
{
    let bare = seq![
        document::SelectionTree::Field {
            alias: None,
            name: "__typename"@,
            arguments: 0,
            directives: 0,
            items: Seq::empty(),
        },
    ];
    if typename_probe(defs) {
        let items = match defs[0] {
            document::DefinitionTree::SelectionSet { items } => items,
            document::DefinitionTree::Operation { items, .. } => items,
            document::DefinitionTree::Fragment { items, .. } => items,
        };
        assert(document::inner_items(items[0]) =~= Seq::empty());
        assert(items =~= bare);
        if defs[0] is SelectionSet {
            assert(defs =~= seq![document::DefinitionTree::SelectionSet { items: bare }]);
        } else {
            assert(defs =~= seq![
                document::DefinitionTree::Operation { variables: 0, directives: 0, items: bare },
            ]);
        }
    }
    let a = seq![document::DefinitionTree::SelectionSet { items: bare }];
    let b = seq![
        document::DefinitionTree::Operation { variables: 0, directives: 0, items: bare },
    ];
    assert(bare.len() == 1 && bare[0] is Field);
    assert(a.len() == 1 && a[0] == (document::DefinitionTree::SelectionSet { items: bare }));
    assert(b.len() == 1 && b[0] == (document::DefinitionTree::Operation {
        variables: 0,
        directives: 0,
        items: bare,
    }));
}

/// A text is the probe exactly where it parses as one.
pub proof fn law_probe_parses(query: Seq<char>)
    ensures
        health_probe(query) <==> exists|defs: Seq<document::DefinitionTree>|
            document::document_in(query) == Some(defs) && #[trigger] typename_probe(defs),
{
}

} // verus!
