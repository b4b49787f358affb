//! The cost of a query document, as the terms that are to be summed up.
use vstd::hash_map::StringHashMap;
use vstd::hash_set::StringHashSet;
use vstd::prelude::*;

use crate::document;
use crate::document::{Definition, Document, Selection};
use crate::limits;
use crate::text;

verus! {

/// A cost that is still to be computed.
pub enum CostTree {
    /// A fixed cost.
    Leaf(nat),
    /// The terms in order, summed up from zero.
    Sum(Seq<CostTree>),
    /// The terms in order, added to `base`, each one multiplied by the depth factor first where
    /// `scaled` is set.
    Object { base: nat, scaled: bool, terms: Seq<CostTree> },
}

/// A cost that is still to be computed: whoever knows the depth factor sums it up.
#[derive(Debug)]
pub enum CostTerm {
    /// A fixed cost.
    Leaf(usize),
    /// The terms in order, summed up from zero.
    Sum(Vec<CostTerm>),
    /// The terms in order, added to `base`, each one multiplied by the depth factor first where
    /// `scaled` is set.
    Object { base: usize, scaled: bool, terms: Vec<CostTerm> },
}

/// The tree of a cost.
pub open spec fn term_view(term: CostTerm) -> CostTree
    decreases term,
{
    match term {
        CostTerm::Leaf(n) => CostTree::Leaf(n as nat),
        CostTerm::Sum(terms) => CostTree::Sum(terms_view(terms@)),
        CostTerm::Object { base, scaled, terms } => CostTree::Object {
            base: base as nat,
            scaled,
            terms: terms_view(terms@),
        },
    }
}

/// The trees of costs.
pub open spec fn terms_view(terms: Seq<CostTerm>) -> Seq<CostTree>
    decreases terms,
{
    Seq::new(
        terms.len(),
        |i: int|
            if 0 <= i < terms.len() {
                term_view(terms[i])
            } else {
                arbitrary()
            },
    )
}

impl View for CostTerm {
    type V = CostTree;

    open spec fn view(&self) -> CostTree {
        term_view(*self)
    }
}

/// What the entries of a selection set cost.
#[derive(Clone, Copy, Debug, PartialEq, Eq)]
pub struct CostModel {
    /// Cost of a field without a selection set.
    pub scalar_cost: usize,
    /// Cost of a field with a selection set, before what it selects.
    pub object_cost: usize,
    /// Leave the depth factor out.
    pub flatten_fragments: bool,
    /// `__schema` and `__type` cost nothing.
    pub ignore_introspection: bool,
    /// Cost of spreading a fragment that is being expanded already.
    pub fragment_recursion_cost: usize,
}

/// The introspection fields.
pub open spec fn introspection_field(name: Seq<char>) -> bool {
    name == "__schema"@ || name == "__type"@
}

/// Cost of one entry of a selection set. A field costs the scalar cost, or the object cost and
/// what it selects; an inline fragment and a fragment spread cost what they select; a spread of a
/// fragment that is being expanded already costs the recursion cost, one of a fragment that is not
/// defined nothing.
pub open spec fn selection_cost(
    sel: document::SelectionTree,
    model: CostModel,
    frags: limits::Fragments,
    active: Set<Seq<char>>,
) -> CostTree
    decreases limits::unexpanded(frags, active), sel,
    when frags.dom().finite()
{
    match sel {
        document::SelectionTree::Field { name, items, .. } => {
            if model.ignore_introspection && introspection_field(name) {
                CostTree::Leaf(0)
            } else if items.len() == 0 {
                CostTree::Leaf(model.scalar_cost as nat)
            } else {
                CostTree::Object {
                    base: model.object_cost as nat,
                    scaled: !model.flatten_fragments,
                    terms: set_cost(items, model, frags, active),
                }
            }
        },
        document::SelectionTree::InlineFragment { items, .. } => CostTree::Sum(
            set_cost(items, model, frags, active),
        ),
        document::SelectionTree::FragmentSpread { name, .. } => {
            if active.contains(name) {
                CostTree::Leaf(model.fragment_recursion_cost as nat)
            } else if !frags.contains_key(name) {
                CostTree::Leaf(0)
            } else {
                proof {
                    limits::lemma_expanding(frags, active, name);
                }
                CostTree::Sum(set_cost(frags[name], model, frags, active.insert(name)))
            }
        },
    }
}

/// Costs of the entries of a selection set, in order.
pub open spec fn set_cost(
    items: limits::Items,
    model: CostModel,
    frags: limits::Fragments,
    active: Set<Seq<char>>,
) -> Seq<CostTree>
    decreases limits::unexpanded(frags, active), items,
    when frags.dom().finite()
{
    if items.len() == 0 {
        Seq::empty()
    } else {
        proof {
            assert(decreases_to!(items => items[items.len() - 1]));
        }
        set_cost(items.drop_last(), model, frags, active).push(
            selection_cost(items.last(), model, frags, active),
        )
    }
}

/// Costs of the operations among the definitions, in order.
pub open spec fn operations_cost(
    defs: Seq<document::DefinitionTree>,
    model: CostModel,
    frags: limits::Fragments,
) -> Seq<CostTree>
    decreases defs.len(),
{
    if defs.len() == 0 {
        Seq::empty()
    } else {
        let before = operations_cost(defs.drop_last(), model, frags);
        match limits::operation_items(defs.last()) {
            Some(items) => before.push(CostTree::Sum(set_cost(items, model, frags, Set::empty()))),
            None => before,
        }
    }
}

/// Cost of a document: of all its operations, fragments expanded.
pub open spec fn document_cost(
    defs: Seq<document::DefinitionTree>,
    model: CostModel,
) -> CostTree {
    CostTree::Sum(operations_cost(defs, model, limits::fragments_of(defs)))
}

fn is_introspection_field(name: &str) -> (r: bool)
    ensures
        r == introspection_field(name@),
{
    text::same_text(name, "__schema") || text::same_text(name, "__type")
}

fn walk_selection_set(
    items: &Vec<Selection>,
    model: CostModel,
    doc: &Document,
    index: &StringHashMap<usize>,
    active: &mut StringHashSet,
) -> (terms: Vec<CostTerm>)
    requires
        limits::indexes(index@, doc.definitions@, limits::fragments_of(doc@)),
    ensures
        terms_view(terms@) == set_cost(
            document::items_view(items@),
            model,
            limits::fragments_of(doc@),
            old(active)@,
        ),
        final(active)@ == old(active)@,
    decreases
            limits::unexpanded(limits::fragments_of(doc@), old(active)@),
            document::items_view(items@),
{
    let ghost all = document::items_view(items@);
    let ghost frags = limits::fragments_of(doc@);
    let ghost stack = active@;
    let mut terms: Vec<CostTerm> = Vec::new();
    assert(all.take(0) =~= Seq::empty());
    assert(terms_view(terms@) =~= Seq::empty());
    for i in 0..items.len()
        invariant
            all == document::items_view(items@),
            frags == limits::fragments_of(doc@),
            stack == old(active)@,
            limits::indexes(index@, doc.definitions@, frags),
            active@ == stack,
            terms_view(terms@) == set_cost(all.take(i as int), model, frags, stack),
    {
        proof {
            assert(all.take(i + 1).drop_last() =~= all.take(i as int));
            assert(all.take(i + 1).last() == all[i as int]);
            assert(decreases_to!(all => all[i as int]));
        }
        let ghost before = terms@;
        let term = walk_selection(&items[i], model, doc, index, active);
        terms.push(term);
        assert(terms_view(terms@) =~= terms_view(before).push(term_view(term)));
    }
    assert(all.take(items@.len() as int) =~= all);
    terms
}

fn walk_selection(
    sel: &Selection,
    model: CostModel,
    doc: &Document,
    index: &StringHashMap<usize>,
    active: &mut StringHashSet,
) -> (term: CostTerm)
    requires
        limits::indexes(index@, doc.definitions@, limits::fragments_of(doc@)),
    ensures
        term@ == selection_cost(
            document::selection_view(*sel),
            model,
            limits::fragments_of(doc@),
            old(active)@,
        ),
        final(active)@ == old(active)@,
    decreases
            limits::unexpanded(limits::fragments_of(doc@), old(active)@),
            document::selection_view(*sel),
{
    let ghost tree = document::selection_view(*sel);
    match sel {
        Selection::Field { alias: _, name, arguments: _, directives: _, items } => {
            proof {
                assert(decreases_to!(tree => tree->Field_items));
            }
            if model.ignore_introspection && is_introspection_field(name.as_str()) {
                CostTerm::Leaf(0)
            } else if items.len() == 0 {
                CostTerm::Leaf(model.scalar_cost)
            } else {
                let terms = walk_selection_set(items, model, doc, index, active);
                CostTerm::Object {
                    base: model.object_cost,
                    scaled: !model.flatten_fragments,
                    terms,
                }
            }
        },
        Selection::InlineFragment { directives: _, items } => {
            proof {
                assert(decreases_to!(tree => tree->InlineFragment_items));
            }
            CostTerm::Sum(walk_selection_set(items, model, doc, index, active))
        },
        Selection::FragmentSpread { name, directives: _ } => {
            if active.contains(name.as_str()) {
                return CostTerm::Leaf(model.fragment_recursion_cost);
            }
            match index.get(name.as_str()) {
                Some(at) => {
                    let ghost stack = active@;
                    proof {
                        limits::lemma_expanding(limits::fragments_of(doc@), stack, name@);
                    }
                    active.insert(name.clone());
                    let terms: Vec<CostTerm> = match &doc.definitions[*at] {
                        Definition::Fragment { name: _, directives: _, items } =>
                            walk_selection_set(items, model, doc, index, active),
                        _ => Vec::new(),
                    };
                    active.remove(name.as_str());
                    assert(active@ =~= stack);
                    CostTerm::Sum(terms)
                },
                None => CostTerm::Leaf(0),
            }
        },
    }
}

/// The cost of all operations of a document, fragments expanded.
pub fn compute_cost(doc: &Document, model: CostModel) -> (cost: CostTerm)
    ensures
        cost@ == document_cost(doc@, model),
{
    let index = limits::index_fragments(doc);
    let ghost frags = limits::fragments_of(doc@);
    let mut terms: Vec<CostTerm> = Vec::new();
    assert(doc@.take(0) =~= Seq::empty());
    assert(terms_view(terms@) =~= Seq::empty());
    for i in 0..doc.definitions.len()
        invariant
            frags == limits::fragments_of(doc@),
            limits::indexes(index@, doc.definitions@, frags),
            terms_view(terms@) == operations_cost(doc@.take(i as int), model, frags),
    {
        proof {
            assert(doc@.take(i + 1).drop_last() =~= doc@.take(i as int));
            assert(doc@.take(i + 1).last() == document::definition_view(
                doc.definitions@[i as int],
            ));
        }
        let ghost before = terms@;
        let set: Option<&Vec<Selection>> = match &doc.definitions[i] {
            Definition::SelectionSet { items } => Some(items),
            Definition::Operation { variables: _, directives: _, items } => Some(items),
            Definition::Fragment { name: _, directives: _, items: _ } => None,
        };
        if let Some(items) = set {
            let sum = walk_selection_set(items, model, doc, &index, &mut StringHashSet::new());
            terms.push(CostTerm::Sum(sum));
            assert(terms_view(terms@) =~= terms_view(before).push(term_view(CostTerm::Sum(sum))));
        }
    }
    assert(doc@.take(doc@.len() as int) =~= doc@);
    CostTerm::Sum(terms)
}

/// Nothing in the cost is multiplied by the depth factor.
pub open spec fn unscaled(cost: CostTree) -> bool
    decreases cost,
{
    match cost {
        CostTree::Leaf(_) => true,
        CostTree::Sum(terms) => all_unscaled(terms),
        CostTree::Object { scaled, terms, .. } => !scaled && all_unscaled(terms),
    }
}

/// Nothing in the costs is multiplied by the depth factor.
pub open spec fn all_unscaled(terms: Seq<CostTree>) -> bool
    decreases terms,
{
    forall|i: int| 0 <= i < terms.len() ==> unscaled(#[trigger] terms[i])
}

proof fn lemma_selection_unscaled(
    sel: document::SelectionTree,
    model: CostModel,
    frags: limits::Fragments,
    active: Set<Seq<char>>,
)
    requires
        frags.dom().finite(),
        model.flatten_fragments,
    ensures
        unscaled(selection_cost(sel, model, frags, active)),
    decreases limits::unexpanded(frags, active), sel,
{
    match sel {
        document::SelectionTree::Field { items, .. } => {
            assert(decreases_to!(sel => sel->Field_items));
            lemma_set_unscaled(items, model, frags, active);
        },
        document::SelectionTree::InlineFragment { items, .. } => {
            assert(decreases_to!(sel => sel->InlineFragment_items));
            lemma_set_unscaled(items, model, frags, active);
        },
        document::SelectionTree::FragmentSpread { name, .. } => {
            if !active.contains(name) && frags.contains_key(name) {
                limits::lemma_expanding(frags, active, name);
                lemma_set_unscaled(frags[name], model, frags, active.insert(name));
            }
        },
    }
}

proof fn lemma_set_unscaled(
    items: limits::Items,
    model: CostModel,
    frags: limits::Fragments,
    active: Set<Seq<char>>,
)
    requires
        frags.dom().finite(),
        model.flatten_fragments,
    ensures
        all_unscaled(set_cost(items, model, frags, active)),
    decreases limits::unexpanded(frags, active), items,
{
    if items.len() > 0 {
        assert(decreases_to!(items => items[items.len() - 1]));
        lemma_set_unscaled(items.drop_last(), model, frags, active);
        lemma_selection_unscaled(items.last(), model, frags, active);
    }
}

proof fn lemma_operations_unscaled(
    defs: Seq<document::DefinitionTree>,
    model: CostModel,
    frags: limits::Fragments,
)
    requires
        frags.dom().finite(),
        model.flatten_fragments,
    ensures
        all_unscaled(operations_cost(defs, model, frags)),
    decreases defs.len(),
{
    if defs.len() > 0 {
        lemma_operations_unscaled(defs.drop_last(), model, frags);
        if let Some(items) = limits::operation_items(defs.last()) {
            lemma_set_unscaled(items, model, frags, Set::empty());
        }
    }
}

/// With `flatten_fragments` the cost of a document does not depend on the depth factor.
pub proof fn law_flattened_cost_is_not_scaled(
    defs: Seq<document::DefinitionTree>,
    model: CostModel,
)
    requires
        model.flatten_fragments,
    ensures
        unscaled(document_cost(defs, model)),
{
    limits::lemma_fragments_finite(defs);
    lemma_operations_unscaled(defs, model, limits::fragments_of(defs));
}

/// With `ignore_introspection` an introspection field costs nothing, whatever it selects.
pub proof fn law_ignored_introspection_costs_nothing(
    defs: Seq<document::DefinitionTree>,
    field: document::SelectionTree,
    model: CostModel,
    active: Set<Seq<char>>,
)
    requires
        model.ignore_introspection,
        field matches document::SelectionTree::Field { name, .. } && introspection_field(name),
    ensures
        selection_cost(field, model, limits::fragments_of(defs), active) == CostTree::Leaf(0),
{
    limits::lemma_fragments_finite(defs);
}

/// What an entry of a selection set costs. A field that is not an ignored introspection field costs
/// the scalar cost where it selects nothing, and else the object cost with the costs of what it
/// selects, in order, whatever its alias, arguments and directives are. An inline fragment costs
/// what it selects, a spread what its fragment selects; a spread that recurs costs the recursion
/// cost and one of an undefined fragment nothing.
pub proof fn law_cost_of_an_entry(
    defs: Seq<document::DefinitionTree>,
    model: CostModel,
    active: Set<Seq<char>>,
    alias: Option<Seq<char>>,
    name: Seq<char>,
    arguments: nat,
    directives: nat,
    items: limits::Items,
)
    ensures
        ({
            let frags = limits::fragments_of(defs);
            let field = document::SelectionTree::Field {
                alias,
                name,
                arguments,
                directives,
                items,
            };
            let inline = document::SelectionTree::InlineFragment { directives, items };
            let spread = document::SelectionTree::FragmentSpread { name, directives };
            let ignored = model.ignore_introspection && (name == "__schema"@ || name == "__type"@);
            let cost = selection_cost(field, model, frags, active);
            &&& ignored ==> cost == CostTree::Leaf(0)
            &&& !ignored && items.len() == 0 ==> cost == CostTree::Leaf(model.scalar_cost as nat)
            &&& !ignored && items.len() > 0 ==> {
                &&& cost is Object
                &&& cost->base == model.object_cost
                &&& cost->scaled == !model.flatten_fragments
                &&& cost->Object_terms.len() == items.len()
                &&& forall|i: int|
                    0 <= i < items.len() ==> cost->Object_terms[i] == selection_cost(
                        #[trigger] items[i],
                        model,
                        frags,
                        active,
                    )
            }
            &&& selection_cost(inline, model, frags, active) == CostTree::Sum(
                set_cost(items, model, frags, active),
            )
            &&& active.contains(name) ==> selection_cost(spread, model, frags, active)
                == CostTree::Leaf(model.fragment_recursion_cost as nat)
            &&& !active.contains(name) && !frags.contains_key(name) ==> selection_cost(
                spread,
                model,
                frags,
                active,
            ) == CostTree::Leaf(0)
            &&& !active.contains(name) && frags.contains_key(name) ==> selection_cost(
                spread,
                model,
                frags,
                active,
            ) == CostTree::Sum(set_cost(frags[name], model, frags, active.insert(name)))
        }),
{
    limits::lemma_fragments_finite(defs);
    law_set_costs_are_those_of_its_entries(defs, model, items, active);
}

/// The costs of a selection set are those of its entries, one for one and in order.
pub proof fn law_set_costs_are_those_of_its_entries(
    defs: Seq<document::DefinitionTree>,
    model: CostModel,
    items: limits::Items,
    active: Set<Seq<char>>,
)
    ensures
        ({
            let frags = limits::fragments_of(defs);
            let costs = set_cost(items, model, frags, active);
            &&& costs.len() == items.len()
            &&& forall|i: int|
                #![trigger items[i]]
                #![trigger costs[i]]
                0 <= i < items.len() ==> costs[i] == selection_cost(items[i], model, frags, active)
        }),
    decreases items.len(),
{
    limits::lemma_fragments_finite(defs);
    if items.len() > 0 {
        let rest = items.drop_last();
        law_set_costs_are_those_of_its_entries(defs, model, rest, active);
        assert forall|i: int| 0 <= i < items.len() - 1 implies #[trigger] items[i] == rest[i] by {}
    }
}

/// What a field costs does not change with its alias, its arguments and its directives, nor with
/// its name unless one of the names is that of an introspection field.
pub proof fn law_labels_cost_nothing(
    defs: Seq<document::DefinitionTree>,
    model: CostModel,
    active: Set<Seq<char>>,
    a: document::SelectionTree,
    b: document::SelectionTree,
)
    requires
        a is Field,
        b is Field,
        document::inner_items(a) == document::inner_items(b),
        a->Field_name == b->Field_name || !({
            ||| a->Field_name == "__schema"@
            ||| a->Field_name == "__type"@
            ||| b->Field_name == "__schema"@
            ||| b->Field_name == "__type"@
        }),
    ensures
        selection_cost(a, model, limits::fragments_of(defs), active) == selection_cost(
            b,
            model,
            limits::fragments_of(defs),
            active,
        ),
{
    limits::lemma_fragments_finite(defs);
}

/// The cost of a document is the sum of the costs of its operations, each one the sum of what it
/// selects, whatever variables and directives it has. A fragment definition adds nothing itself.
pub proof fn law_operations_cost_what_they_select(
    first: Seq<document::DefinitionTree>,
    second: Seq<document::DefinitionTree>,
    model: CostModel,
    frags: limits::Fragments,
    name: Seq<char>,
    variables: nat,
    directives: nat,
    items: limits::Items,
)
    ensures
        document_cost(first, model) == CostTree::Sum(
            operations_cost(first, model, limits::fragments_of(first)),
        ),
        operations_cost(Seq::empty(), model, frags) == Seq::<CostTree>::empty(),
        operations_cost(first + second, model, frags) == operations_cost(first, model, frags)
            + operations_cost(second, model, frags),
        operations_cost(seq![document::DefinitionTree::SelectionSet { items }], model, frags)
            == seq![CostTree::Sum(set_cost(items, model, frags, Set::empty()))],
        operations_cost(
            seq![document::DefinitionTree::Operation { variables, directives, items }],
            model,
            frags,
        ) == seq![CostTree::Sum(set_cost(items, model, frags, Set::empty()))],
        operations_cost(
            seq![document::DefinitionTree::Fragment { name, directives, items }],
            model,
            frags,
        ) == Seq::<CostTree>::empty(),
    decreases second.len(),
{
    lemma_single_operation(document::DefinitionTree::SelectionSet { items }, model, frags);
    lemma_single_operation(
        document::DefinitionTree::Operation { variables, directives, items },
        model,
        frags,
    );
    lemma_single_operation(
        document::DefinitionTree::Fragment { name, directives, items },
        model,
        frags,
    );
    if second.len() == 0 {
        assert(first + second =~= first);
    } else {
        assert((first + second).drop_last() =~= first + second.drop_last());
        law_operations_cost_what_they_select(
            first,
            second.drop_last(),
            model,
            frags,
            name,
            variables,
            directives,
            items,
        );
        assert(operations_cost(first + second, model, frags) =~= operations_cost(
            first,
            model,
            frags,
        ) + operations_cost(second, model, frags));
    }
}

proof fn lemma_single_operation(
    def: document::DefinitionTree,
    model: CostModel,
    frags: limits::Fragments,
)
    ensures
        operations_cost(seq![def], model, frags) == match limits::operation_items(def) {
            Some(items) => seq![CostTree::Sum(set_cost(items, model, frags, Set::empty()))],
            None => Seq::empty(),
        },
{
    let one = seq![def];
    assert(one.drop_last() =~= Seq::empty());
    assert(operations_cost(one.drop_last(), model, frags) =~= Seq::empty());
    assert(one.last() == def);
    if let Some(items) = limits::operation_items(def) {
        assert(operations_cost(one, model, frags) =~= seq![
            CostTree::Sum(set_cost(items, model, frags, Set::empty())),
        ]);
    }
}

/// The tree of a cost has the numbers and the terms of the cost, one for one and in order.
pub proof fn law_view_of_a_cost(term: CostTerm)
    ensures
        match term {
            CostTerm::Leaf(n) => term@ == CostTree::Leaf(n as nat),
            CostTerm::Sum(terms) => term@ is Sum && term@->Sum_0.len() == terms@.len() && forall|
                i: int,
            |
                0 <= i < terms@.len() ==> term@->Sum_0[i] == (#[trigger] terms@[i])@,
            CostTerm::Object { base, scaled, terms } => term@ is Object && term@->base == base
                && term@->scaled == scaled && term@->Object_terms.len() == terms@.len() && forall|
                i: int,
            |
                0 <= i < terms@.len() ==> term@->Object_terms[i] == (#[trigger] terms@[i])@,
        },
{
}

} // verus!
