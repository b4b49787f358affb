//! GraphQL query documents: the part of a parsed document that the limits read.
use graphql_parser::query::{
    Definition as ParsedDefinition, OperationDefinition as ParsedOperation,
    Selection as ParsedSelection,
};
use vstd::prelude::*;

use crate::text;

verus! {

/// One entry of a selection set.
pub enum SelectionTree {
    Field {
        alias: Option<Seq<char>>,
        name: Seq<char>,
        arguments: nat,
        directives: nat,
        items: Seq<SelectionTree>,
    },
    FragmentSpread { name: Seq<char>, directives: nat },
    InlineFragment { directives: nat, items: Seq<SelectionTree> },
}

/// One definition of a document.
pub enum DefinitionTree {
    /// An anonymous query written as a bare selection set.
    SelectionSet { items: Seq<SelectionTree> },
    /// A query, mutation or subscription.
    Operation { variables: nat, directives: nat, items: Seq<SelectionTree> },
    Fragment { name: Seq<char>, directives: nat, items: Seq<SelectionTree> },
}

/// One entry of a selection set. Of arguments and directives only the number is kept.
#[derive(Debug)]
pub enum Selection {
    Field {
        alias: Option<String>,
        name: String,
        arguments: usize,
        directives: usize,
        items: Vec<Selection>,
    },
    FragmentSpread { name: String, directives: usize },
    InlineFragment { directives: usize, items: Vec<Selection> },
}

/// One definition of a document. Of variables and directives only the number is kept.
#[derive(Debug)]
pub enum Definition {
    /// An anonymous query written as a bare selection set.
    SelectionSet { items: Vec<Selection> },
    /// A query, mutation or subscription.
    Operation { variables: usize, directives: usize, items: Vec<Selection> },
    Fragment { name: String, directives: usize, items: Vec<Selection> },
}

/// A query document.
#[derive(Debug)]
pub struct Document {
    pub definitions: Vec<Definition>,
}

pub open spec fn alias_view(alias: Option<String>) -> Option<Seq<char>> {
    match alias {
        Some(s) => Some(s@),
        None => None,
    }
}

/// The tree of a selection.
pub open spec fn selection_view(sel: Selection) -> SelectionTree
    decreases sel,
{
    match sel {
        Selection::Field { alias, name, arguments, directives, items } => SelectionTree::Field {
            alias: alias_view(alias),
            name: name@,
            arguments: arguments as nat,
            directives: directives as nat,
            items: items_view(items@),
        },
        Selection::FragmentSpread { name, directives } => SelectionTree::FragmentSpread {
            name: name@,
            directives: directives as nat,
        },
        Selection::InlineFragment { directives, items } => SelectionTree::InlineFragment {
            directives: directives as nat,
            items: items_view(items@),
        },
    }
}

/// The trees of the entries of a selection set.
pub open spec fn items_view(items: Seq<Selection>) -> Seq<SelectionTree>
    decreases items,
{
    Seq::new(
        items.len(),
        |i: int|
            if 0 <= i < items.len() {
                selection_view(items[i])
            } else {
                arbitrary()
            },
    )
}

/// The tree of a definition.
pub open spec fn definition_view(def: Definition) -> DefinitionTree {
    match def {
        Definition::SelectionSet { items } => DefinitionTree::SelectionSet {
            items: items_view(items@),
        },
        Definition::Operation { variables, directives, items } => DefinitionTree::Operation {
            variables: variables as nat,
            directives: directives as nat,
            items: items_view(items@),
        },
        Definition::Fragment { name, directives, items } => DefinitionTree::Fragment {
            name: name@,
            directives: directives as nat,
            items: items_view(items@),
        },
    }
}

impl View for Document {
    type V = Seq<DefinitionTree>;

    open spec fn view(&self) -> Seq<DefinitionTree> {
        self.definitions@.map_values(|d: Definition| definition_view(d))
    }
}

/// The `items` of a `graphql_parser::query::SelectionSet`. What they are is [`selections_held`].
#[verifier::external_body]
pub struct ParsedSelections(Vec<ParsedSelection<'static, String>>);

/// The `definitions` of a `graphql_parser::query::Document`. What they are is
/// [`definitions_held`].
#[verifier::external_body]
pub struct ParsedDocument(Vec<ParsedDefinition<'static, String>>);

/// The error of `graphql_parser::parse_query`, of which nothing is claimed.
#[verifier::external_type_specification]
#[verifier::external_body]
pub struct ExParseError(graphql_parser::query::ParseError);

/// What a parsed selection set holds, in document order.
pub uninterp spec fn selections_held(set: ParsedSelections) -> Seq<SelectionTree>;

/// What a parsed document holds, in document order.
pub uninterp spec fn definitions_held(doc: ParsedDocument) -> Seq<DefinitionTree>;

/// What `graphql_parser::parse_query` makes of a text: its definitions, or nothing where the text
/// is no query document.
pub uninterp spec fn parsed_query(query: Seq<char>) -> Option<Seq<DefinitionTree>>;

/// A selection whose own entries are still as the parser left them.
enum SelectionNode {
    Field(Option<String>, String, usize, usize, ParsedSelections),
    FragmentSpread(String, usize),
    InlineFragment(usize, ParsedSelections),
}

/// A definition whose selection set is still as the parser left it.
enum DefinitionNode {
    SelectionSet(ParsedSelections),
    Operation(usize, usize, ParsedSelections),
    Fragment(String, usize, ParsedSelections),
}

spec fn selection_node_view(node: SelectionNode) -> SelectionTree {
    match node {
        SelectionNode::Field(alias, name, arguments, directives, items) => SelectionTree::Field {
            alias: alias_view(alias),
            name: name@,
            arguments: arguments as nat,
            directives: directives as nat,
            items: selections_held(items),
        },
        SelectionNode::FragmentSpread(name, directives) => SelectionTree::FragmentSpread {
            name: name@,
            directives: directives as nat,
        },
        SelectionNode::InlineFragment(directives, items) => SelectionTree::InlineFragment {
            directives: directives as nat,
            items: selections_held(items),
        },
    }
}

spec fn definition_node_view(node: DefinitionNode) -> DefinitionTree {
    match node {
        DefinitionNode::SelectionSet(items) => DefinitionTree::SelectionSet {
            items: selections_held(items),
        },
        DefinitionNode::Operation(variables, directives, items) => DefinitionTree::Operation {
            variables: variables as nat,
            directives: directives as nat,
            items: selections_held(items),
        },
        DefinitionNode::Fragment(name, directives, items) => DefinitionTree::Fragment {
            name: name@,
            directives: directives as nat,
            items: selections_held(items),
        },
    }
}

/// `graphql_parser::parse_query`: parses a query document. The result depends on the text alone.
/// Removing the indentation of a block string, the parser slices by bytes and panics inside a
/// white space character that takes more than one, so the text has none.
#[verifier::external_body]
fn call_parse_query(query: &str) -> (r: Result<ParsedDocument, graphql_parser::query::ParseError>)
    requires
        text::only_ascii_space(query@),
    ensures
        match r {
            Ok(doc) => parsed_query(query@) == Some(definitions_held(doc)),
            Err(_) => parsed_query(query@) is None,
        },
{
    let doc = graphql_parser::parse_query::<String>(query)?;
    Ok(ParsedDocument(doc.into_static().definitions))
}

/// Takes the last entry off the `items` of a `graphql_parser::query::SelectionSet` and hands its
/// fields out: names as they are, of arguments and directives the number, and the entries of the
/// entry itself as the parser left them.
#[verifier::external_body]
fn pop_selection(set: &mut ParsedSelections) -> (r: Option<SelectionNode>)
    ensures
        match r {
            Some(node) => {
                &&& selections_held(*old(set)).len() > 0
                &&& selection_node_view(node) == selections_held(*old(set)).last()
                &&& selections_held(*final(set)) == selections_held(*old(set)).drop_last()
            },
            None => {
                &&& selections_held(*old(set)).len() == 0
                &&& selections_held(*final(set)).len() == 0
            },
        },
{
    Some(match set.0.pop()? {
        ParsedSelection::Field(f) => SelectionNode::Field(
            f.alias, f.name, f.arguments.len(), f.directives.len(),
            ParsedSelections(f.selection_set.items),
        ),
        ParsedSelection::FragmentSpread(f) => SelectionNode::FragmentSpread(
            f.fragment_name, f.directives.len(),
        ),
        ParsedSelection::InlineFragment(f) => SelectionNode::InlineFragment(
            f.directives.len(), ParsedSelections(f.selection_set.items),
        ),
    })
}

/// Takes the last definition off the `definitions` of a `graphql_parser::query::Document` and
/// hands its fields out: the name as it is, of variables and directives the number, and the
/// selection set as the parser left it.
#[verifier::external_body]
fn pop_definition(doc: &mut ParsedDocument) -> (r: Option<DefinitionNode>)
    ensures
        match r {
            Some(node) => {
                &&& definitions_held(*old(doc)).len() > 0
                &&& definition_node_view(node) == definitions_held(*old(doc)).last()
                &&& definitions_held(*final(doc)) == definitions_held(*old(doc)).drop_last()
            },
            None => {
                &&& definitions_held(*old(doc)).len() == 0
                &&& definitions_held(*final(doc)).len() == 0
            },
        },
{
    Some(match doc.0.pop()? {
        ParsedDefinition::Operation(ParsedOperation::SelectionSet(s)) =>
            DefinitionNode::SelectionSet(ParsedSelections(s.items)),
        ParsedDefinition::Operation(ParsedOperation::Query(q)) => DefinitionNode::Operation(
            q.variable_definitions.len(), q.directives.len(), ParsedSelections(q.selection_set.items)),
        ParsedDefinition::Operation(ParsedOperation::Mutation(m)) => DefinitionNode::Operation(
            m.variable_definitions.len(), m.directives.len(), ParsedSelections(m.selection_set.items)),
        ParsedDefinition::Operation(ParsedOperation::Subscription(s)) => DefinitionNode::Operation(
            s.variable_definitions.len(), s.directives.len(), ParsedSelections(s.selection_set.items)),
        ParsedDefinition::Fragment(f) => DefinitionNode::Fragment(
            f.name, f.directives.len(), ParsedSelections(f.selection_set.items)),
    })
}

/// The entries of an entry of a selection set.
pub open spec fn inner_items(sel: SelectionTree) -> Seq<SelectionTree> {
    match sel {
        SelectionTree::Field { items, .. } => items,
        SelectionTree::FragmentSpread { .. } => Seq::empty(),
        SelectionTree::InlineFragment { items, .. } => items,
    }
}

proof fn lemma_items_decrease(all: Seq<SelectionTree>, k: int)
    requires
        0 <= k < all.len(),
        !(all[k] is FragmentSpread),
    ensures
        decreases_to!(all => inner_items(all[k])),
{
    let sel = all[k];
    assert(decreases_to!(all => all[k]));
    match sel {
        SelectionTree::Field { items, .. } => {
            assert(decreases_to!(sel => sel->Field_items));
        },
        SelectionTree::FragmentSpread { .. } => {},
        SelectionTree::InlineFragment { items, .. } => {
            assert(decreases_to!(sel => sel->InlineFragment_items));
        },
    }
}

/// Takes over what a parsed selection set holds.
fn selections_of(set: ParsedSelections) -> (r: Vec<Selection>)
    ensures
        items_view(r@) == selections_held(set),
    decreases selections_held(set),
{
    let mut rest = set;
    let mut reversed: Vec<Selection> = Vec::new();
    let ghost all = selections_held(set);
    loop
        invariant
            all == selections_held(set),
            selections_held(rest).len() + reversed@.len() == all.len(),
            selections_held(rest) == all.take(selections_held(rest).len() as int),
            items_view(reversed@) == all.skip(selections_held(rest).len() as int).reverse(),
        ensures
            selections_held(rest).len() == 0,
        decreases selections_held(rest).len(),
    {
        let ghost before = reversed@;
        let node = pop_selection(&mut rest);
        proof {
            let k = selections_held(rest).len() as int;
            if k < all.len() {
                assert(all.take(k + 1).drop_last() =~= all.take(k));
                assert(all.skip(k).reverse() =~= all.skip(k + 1).reverse().push(all[k]));
            }
        }
        match node {
            None => break,
            Some(SelectionNode::Field(alias, name, arguments, directives, items)) => {
                proof {
                    lemma_items_decrease(all, selections_held(rest).len() as int);
                }
                let items = selections_of(items);
                reversed.push(Selection::Field { alias, name, arguments, directives, items });
            },
            Some(SelectionNode::FragmentSpread(name, directives)) => {
                reversed.push(Selection::FragmentSpread { name, directives });
            },
            Some(SelectionNode::InlineFragment(directives, items)) => {
                proof {
                    lemma_items_decrease(all, selections_held(rest).len() as int);
                }
                let items = selections_of(items);
                reversed.push(Selection::InlineFragment { directives, items });
            },
        }
        assert(items_view(reversed@) =~= items_view(before).push(selection_view(reversed@.last())));
    }
    let ghost popped = reversed@;
    let out = reverse(reversed);
    assert(items_view(out@) =~= items_view(popped).reverse());
    assert(all.skip(0).reverse().reverse() =~= all);
    out
}

/// The elements in the opposite order.
fn reverse<T>(v: Vec<T>) -> (r: Vec<T>)
    ensures
        r@ == v@.reverse(),
{
    let mut rest = v;
    let mut out: Vec<T> = Vec::new();
    while rest.len() > 0
        invariant
            rest@ == v@.take(rest@.len() as int),
            out@ == v@.skip(rest@.len() as int).reverse(),
            rest@.len() <= v@.len(),
        decreases rest@.len(),
    {
        let ghost k = rest@.len() - 1;
        if let Some(x) = rest.pop() {
            out.push(x);
            proof {
                assert(rest@ =~= v@.take(k));
                assert(v@.skip(k).reverse() =~= v@.skip(k + 1).reverse().push(v@[k]));
            }
        }
    }
    assert(v@.skip(0) =~= v@);
    out
}

/// Takes over what a parsed document holds.
fn document_of(doc: ParsedDocument) -> (r: Document)
    ensures
        r@ == definitions_held(doc),
{
    let mut rest = doc;
    let mut reversed: Vec<Definition> = Vec::new();
    let ghost all = definitions_held(doc);
    let ghost view = |d: Definition| definition_view(d);
    loop
        invariant
            view == (|d: Definition| definition_view(d)),
            definitions_held(rest).len() + reversed@.len() == all.len(),
            definitions_held(rest) == all.take(definitions_held(rest).len() as int),
            reversed@.map_values(view) == all.skip(definitions_held(rest).len() as int).reverse(),
        ensures
            definitions_held(rest).len() == 0,
        decreases definitions_held(rest).len(),
    {
        let ghost before = reversed@;
        let node = pop_definition(&mut rest);
        proof {
            let k = definitions_held(rest).len() as int;
            if k < all.len() {
                assert(all.take(k + 1).drop_last() =~= all.take(k));
                assert(all.skip(k).reverse() =~= all.skip(k + 1).reverse().push(all[k]));
            }
        }
        match node {
            None => break,
            Some(DefinitionNode::SelectionSet(items)) => {
                let items = selections_of(items);
                reversed.push(Definition::SelectionSet { items });
            },
            Some(DefinitionNode::Operation(variables, directives, items)) => {
                let items = selections_of(items);
                reversed.push(Definition::Operation { variables, directives, items });
            },
            Some(DefinitionNode::Fragment(name, directives, items)) => {
                let items = selections_of(items);
                reversed.push(Definition::Fragment { name, directives, items });
            },
        }
        assert(reversed@.map_values(view) =~= before.map_values(view).push(
            definition_view(reversed@.last()),
        ));
    }
    let ghost popped = reversed@;
    let definitions = reverse(reversed);
    assert(definitions@.map_values(view) =~= popped.map_values(view).reverse());
    assert(all.skip(0).reverse().reverse() =~= all);
    Document { definitions }
}

/// The document that a query text holds. White space outside ASCII can stand in a document in
/// strings and comments only, neither of which the document keeps, so a replacement character is
/// handed to the parser in its place.
pub open spec fn document_in(query: Seq<char>) -> Option<Seq<DefinitionTree>> {
    parsed_query(text::without_wide_space(query))
}

/// Parses a query document; nothing where the text is none.
pub fn parse_document(query: &str) -> (r: Option<Document>)
    ensures
        match r {
            Some(doc) => document_in(query@) == Some(doc@),
            None => document_in(query@) is None,
        },
{
    let narrowed = text::replace_wide_space(query);
    match call_parse_query(narrowed.as_str()) {
        Ok(doc) => Some(document_of(doc)),
        Err(_) => None,
    }
}

/// A text without white space outside ASCII is handed to the parser as it is.
pub proof fn law_plain_text_is_parsed_as_it_is(query: Seq<char>)
    requires
        text::only_ascii_space(query),
    ensures
        document_in(query) == parsed_query(query),
{
    assert(text::without_wide_space(query) =~= query);
}

/// What the parser is handed has the length of the query text and its characters, with the
/// replacement character in the place of white space outside ASCII.
pub proof fn law_what_the_parser_is_handed(query: Seq<char>, handed: Seq<char>)
    requires
        handed.len() == query.len(),
        forall|i: int|
            0 <= i < query.len() ==> #[trigger] handed[i] == if text::white_space(query[i])
                && query[i] as int > 0x7F {
                '\u{FFFD}'
            } else {
                query[i]
            },
    ensures
        document_in(query) == parsed_query(handed),
{
    assert(text::without_wide_space(query) =~= handed);
}

/// The tree of a selection has what is written in it, and of its entries the trees in order.
pub proof fn law_view_of_a_selection(sel: Selection)
    ensures
        match sel {
            Selection::Field { alias, name, arguments, directives, items } => {
                let tree = selection_view(sel);
                &&& tree is Field
                &&& alias is None ==> tree->alias is None
                &&& alias is Some ==> tree->alias == Some(alias->0@)
                &&& tree->Field_name == name@
                &&& tree->arguments == arguments
                &&& tree->Field_directives == directives
                &&& tree->Field_items.len() == items@.len()
                &&& forall|i: int|
                    0 <= i < items@.len() ==> tree->Field_items[i] == selection_view(
                        #[trigger] items@[i],
                    )
            },
            Selection::FragmentSpread { name, directives } => selection_view(sel)
                == (SelectionTree::FragmentSpread { name: name@, directives: directives as nat }),
            Selection::InlineFragment { directives, items } => {
                let tree = selection_view(sel);
                &&& tree is InlineFragment
                &&& tree->InlineFragment_directives == directives
                &&& tree->InlineFragment_items.len() == items@.len()
                &&& forall|i: int|
                    0 <= i < items@.len() ==> tree->InlineFragment_items[i] == selection_view(
                        #[trigger] items@[i],
                    )
            },
        },
{
}

/// The tree of a document has its definitions in order, each with what is written in it.
pub proof fn law_view_of_a_document(doc: Document, i: int)
    requires
        0 <= i < doc.definitions@.len(),
    ensures
        doc@.len() == doc.definitions@.len(),
        match doc.definitions@[i] {
            Definition::SelectionSet { items } => doc@[i] == (DefinitionTree::SelectionSet {
                items: items_view(items@),
            }),
            Definition::Operation { variables, directives, items } => doc@[i] == (
            DefinitionTree::Operation {
                variables: variables as nat,
                directives: directives as nat,
                items: items_view(items@),
            }),
            Definition::Fragment { name, directives, items } => doc@[i] == (
            DefinitionTree::Fragment {
                name: name@,
                directives: directives as nat,
                items: items_view(items@),
            }),
        },
{
}

/// The trees of a selection set are those of its entries, one for one and in order.
pub proof fn law_view_of_a_selection_set(items: Seq<Selection>)
    ensures
        items_view(items).len() == items.len(),
        forall|i: int|
            0 <= i < items.len() ==> items_view(items)[i] == selection_view(#[trigger] items[i]),
{
}

/// The entries of a field and of an inline fragment are those that are written in it; a spread has
/// none of its own.
pub proof fn law_entries_of_an_entry(
    alias: Option<Seq<char>>,
    name: Seq<char>,
    arguments: nat,
    directives: nat,
    items: Seq<SelectionTree>,
)
    ensures
        inner_items(SelectionTree::Field { alias, name, arguments, directives, items }) == items,
        inner_items(SelectionTree::InlineFragment { directives, items }) == items,
        inner_items(SelectionTree::FragmentSpread { name, directives }).len() == 0,
{
}

} // verus!
