//! What the structural limits measure in a query document: depth, aliases and directives.
use vstd::hash_map::StringHashMap;
use vstd::hash_set::StringHashSet;
use vstd::prelude::*;

use crate::document;
use crate::document::{Definition, Document, Selection};

verus! {

pub type Items = Seq<document::SelectionTree>;

/// The fragments of a document by name.
pub type Fragments = Map<Seq<char>, Seq<document::SelectionTree>>;

/// The fragments that the definitions define. Of two with one name the later one counts.
pub open spec fn fragments_of(defs: Seq<document::DefinitionTree>) -> Fragments
    decreases defs.len(),
{
    if defs.len() == 0 {
        Map::empty()
    } else {
        let before = fragments_of(defs.drop_last());
        match defs.last() {
            document::DefinitionTree::Fragment { name, items, .. } => before.insert(name, items),
            _ => before,
        }
    }
}

/// How many fragments are not being expanded yet.
pub open spec fn unexpanded(frags: Fragments, active: Set<Seq<char>>) -> nat {
    frags.dom().difference(active).len()
}

pub open spec fn max(a: nat, b: nat) -> nat {
    if a < b {
        b
    } else {
        a
    }
}

/// Nesting depth of one entry of a selection set: one more than what it holds. A fragment spread
/// holds what its fragment selects; a spread of a fragment that is being expanded already (a
/// cycle) or that is not defined holds nothing.
pub open spec fn selection_depth(
    sel: document::SelectionTree,
    frags: Fragments,
    active: Set<Seq<char>>,
) -> nat
    decreases unexpanded(frags, active), sel,
    when frags.dom().finite()
{
    match sel {
        document::SelectionTree::Field { items, .. } => 1 + set_depth(items, frags, active),
        document::SelectionTree::InlineFragment { items, .. } => 1 + set_depth(items, frags, active),
        document::SelectionTree::FragmentSpread { name, .. } => {
            if active.contains(name) || !frags.contains_key(name) {
                1
            } else {
                proof {
                    lemma_expanding(frags, active, name);
                }
                1 + set_depth(frags[name], frags, active.insert(name))
            }
        },
    }
}

/// Nesting depth of a selection set: that of its deepest entry.
pub open spec fn set_depth(items: Items, frags: Fragments, active: Set<Seq<char>>) -> nat
    decreases unexpanded(frags, active), items,
    when frags.dom().finite()
{
    if items.len() == 0 {
        0
    } else {
        proof {
            assert(decreases_to!(items => items[items.len() - 1]));
        }
        max(
            set_depth(items.drop_last(), frags, active),
            selection_depth(items.last(), frags, active),
        )
    }
}

/// Expanding a fragment leaves fewer to expand.
pub proof fn lemma_expanding(frags: Fragments, active: Set<Seq<char>>, name: Seq<char>)
    requires
        frags.dom().finite(),
        frags.contains_key(name),
        !active.contains(name),
    ensures
        unexpanded(frags, active.insert(name)) < unexpanded(frags, active),
{
    let left = frags.dom().difference(active);
    assert(frags.dom().difference(active.insert(name)) =~= left.remove(name));
}

/// Nesting depth of a document: that of its deepest operation.
pub open spec fn document_depth(defs: Seq<document::DefinitionTree>) -> nat {
    operations_depth(defs, fragments_of(defs))
}

/// Depth of the deepest operation among the definitions.
pub open spec fn operations_depth(defs: Seq<document::DefinitionTree>, frags: Fragments) -> nat
    decreases defs.len(),
{
    if defs.len() == 0 {
        0
    } else {
        let before = operations_depth(defs.drop_last(), frags);
        match operation_items(defs.last()) {
            Some(items) => max(before, set_depth(items, frags, Set::empty())),
            None => before,
        }
    }
}

/// The selection set of an operation.
pub open spec fn operation_items(def: document::DefinitionTree) -> Option<Items> {
    match def {
        document::DefinitionTree::SelectionSet { items } => Some(items),
        document::DefinitionTree::Operation { items, .. } => Some(items),
        document::DefinitionTree::Fragment { .. } => None,
    }
}

/// A count as a `usize`, which stops at the largest one.
pub open spec fn capped(n: nat) -> nat {
    if n <= usize::MAX {
        n
    } else {
        usize::MAX as nat
    }
}

/// For each fragment name, where its definition stands.
pub open spec fn indexes(index: Map<Seq<char>, usize>, defs: Seq<Definition>, frags: Fragments) -> bool {
    &&& frags.dom().finite()
    &&& forall|name: Seq<char>|
        #![trigger index.contains_key(name)]
        #![trigger frags.contains_key(name)]
        index.contains_key(name) <==> frags.contains_key(name)
    &&& forall|name: Seq<char>| #[trigger]
        index.contains_key(name) ==> {
            &&& index[name] < defs.len()
            &&& defs[index[name] as int] is Fragment
            &&& document::items_view(defs[index[name] as int]->Fragment_items@) == frags[name]
        }
}

/// Finds the definition of each fragment. Of two with one name the later one counts.
pub fn index_fragments(doc: &Document) -> (index: StringHashMap<usize>)
    ensures
        indexes(index@, doc.definitions@, fragments_of(doc@)),
{
    let mut index: StringHashMap<usize> = StringHashMap::new();
    assert(doc@.take(0) =~= Seq::empty());
    for i in 0..doc.definitions.len()
        invariant
            indexes(index@, doc.definitions@, fragments_of(doc@.take(i as int))),
    {
        assert(doc@.take(i + 1).drop_last() =~= doc@.take(i as int));
        assert(doc@.take(i + 1).last() == document::definition_view(doc.definitions@[i as int]));
        if let Definition::Fragment { name, directives: _, items: _ } = &doc.definitions[i] {
            index.insert(name.clone(), i);
        }
    }
    assert(doc@.take(doc@.len() as int) =~= doc@);
    index
}

/// The nesting depth of a selection set, fragments expanded. `index` says where the fragments of the
/// document are defined, `active` which of them are being expanded.
pub fn max_depth_selection_set(
    items: &Vec<Selection>,
    doc: &Document,
    index: &StringHashMap<usize>,
    active: &mut StringHashSet,
) -> (depth: usize)
    requires
        indexes(index@, doc.definitions@, fragments_of(doc@)),
    ensures
        depth == capped(
            set_depth(document::items_view(items@), fragments_of(doc@), old(active)@),
        ),
        final(active)@ == old(active)@,
    decreases
            unexpanded(fragments_of(doc@), old(active)@),
            document::items_view(items@),
{
    let ghost all = document::items_view(items@);
    let ghost frags = fragments_of(doc@);
    let ghost stack = active@;
    let mut depth: usize = 0;
    assert(all.take(0) =~= Seq::empty());
    for i in 0..items.len()
        invariant
            all == document::items_view(items@),
            frags == fragments_of(doc@),
            stack == old(active)@,
            indexes(index@, doc.definitions@, frags),
            active@ == stack,
            depth == capped(set_depth(all.take(i as int), frags, stack)),
    {
        proof {
            assert(all.take(i + 1).drop_last() =~= all.take(i as int));
            assert(all.take(i + 1).last() == all[i as int]);
            assert(decreases_to!(all => all[i as int]));
        }
        let d = sel_depth(&items[i], doc, index, active);
        if d > depth {
            depth = d;
        }
    }
    assert(all.take(items@.len() as int) =~= all);
    depth
}

fn sel_depth(
    sel: &Selection,
    doc: &Document,
    index: &StringHashMap<usize>,
    active: &mut StringHashSet,
) -> (depth: usize)
    requires
        indexes(index@, doc.definitions@, fragments_of(doc@)),
    ensures
        depth == capped(
            selection_depth(document::selection_view(*sel), fragments_of(doc@), old(active)@),
        ),
        final(active)@ == old(active)@,
    decreases
            unexpanded(fragments_of(doc@), old(active)@),
            document::selection_view(*sel),
{
    let ghost tree = document::selection_view(*sel);
    match sel {
        Selection::Field { alias: _, name: _, arguments: _, directives: _, items } => {
            proof {
                assert(decreases_to!(tree => tree->Field_items));
            }
            max_depth_selection_set(items, doc, index, active).saturating_add(1)
        },
        Selection::InlineFragment { directives: _, items } => {
            proof {
                assert(decreases_to!(tree => tree->InlineFragment_items));
            }
            max_depth_selection_set(items, doc, index, active).saturating_add(1)
        },
        Selection::FragmentSpread { name, directives: _ } => {
            if active.contains(name.as_str()) {
                return 1;
            }
            match index.get(name.as_str()) {
                Some(at) => {
                    let ghost stack = active@;
                    proof {
                        lemma_expanding(fragments_of(doc@), stack, name@);
                    }
                    active.insert(name.clone());
                    let depth: usize = match &doc.definitions[*at] {
                        Definition::Fragment { name: _, directives: _, items } => max_depth_selection_set(
                            items,
                            doc,
                            index,
                            active,
                        ),
                        _ => 0,
                    };
                    active.remove(name.as_str());
                    assert(active@ =~= stack);
                    depth.saturating_add(1)
                },
                None => 1,
            }
        },
    }
}

/// The nesting depth of the deepest operation, fragments expanded.
pub fn max_depth_document(doc: &Document) -> (depth: usize)
    ensures
        depth == capped(document_depth(doc@)),
{
    let index = index_fragments(doc);
    let ghost frags = fragments_of(doc@);
    let mut depth: usize = 0;
    assert(doc@.take(0) =~= Seq::empty());
    for i in 0..doc.definitions.len()
        invariant
            frags == fragments_of(doc@),
            indexes(index@, doc.definitions@, frags),
            depth == capped(operations_depth(doc@.take(i as int), frags)),
    {
        proof {
            assert(doc@.take(i + 1).drop_last() =~= doc@.take(i as int));
            assert(doc@.take(i + 1).last() == document::definition_view(
                doc.definitions@[i as int],
            ));
        }
        let d: usize = match &doc.definitions[i] {
            Definition::SelectionSet { items } => max_depth_selection_set(
                items,
                doc,
                &index,
                &mut StringHashSet::new(),
            ),
            Definition::Operation { variables: _, directives: _, items } => max_depth_selection_set(
                items,
                doc,
                &index,
                &mut StringHashSet::new(),
            ),
            Definition::Fragment { name: _, directives: _, items: _ } => 0,
        };
        if d > depth {
            depth = d;
        }
    }
    assert(doc@.take(doc@.len() as int) =~= doc@);
    depth
}

/// How many aliases an entry of a selection set holds, what its own entries hold included.
pub open spec fn selection_aliases(sel: document::SelectionTree) -> nat
    decreases sel,
{
    match sel {
        document::SelectionTree::Field { alias, items, .. } => (if alias is Some {
            1nat
        } else {
            0nat
        }) + set_aliases(items),
        document::SelectionTree::InlineFragment { items, .. } => set_aliases(items),
        document::SelectionTree::FragmentSpread { .. } => 0,
    }
}

/// How many aliases a selection set holds.
pub open spec fn set_aliases(items: Items) -> nat
    decreases items,
{
    if items.len() == 0 {
        0
    } else {
        proof {
            assert(decreases_to!(items => items[items.len() - 1]));
        }
        set_aliases(items.drop_last()) + selection_aliases(items.last())
    }
}

/// How many directives an entry of a selection set holds, those of its own entries included.
pub open spec fn selection_directives(sel: document::SelectionTree) -> nat
    decreases sel,
{
    match sel {
        document::SelectionTree::Field { directives, items, .. } => directives + set_directives(
            items,
        ),
        document::SelectionTree::InlineFragment { directives, items } => directives
            + set_directives(items),
        document::SelectionTree::FragmentSpread { directives, .. } => directives,
    }
}

/// How many directives a selection set holds.
pub open spec fn set_directives(items: Items) -> nat
    decreases items,
{
    if items.len() == 0 {
        0
    } else {
        proof {
            assert(decreases_to!(items => items[items.len() - 1]));
        }
        set_directives(items.drop_last()) + selection_directives(items.last())
    }
}

/// The selection set of a definition.
pub open spec fn definition_items(def: document::DefinitionTree) -> Items {
    match def {
        document::DefinitionTree::SelectionSet { items } => items,
        document::DefinitionTree::Operation { items, .. } => items,
        document::DefinitionTree::Fragment { items, .. } => items,
    }
}

/// How many aliases a document holds. Each fragment counts once, however often it is spread.
pub open spec fn document_aliases(defs: Seq<document::DefinitionTree>) -> nat
    decreases defs.len(),
{
    if defs.len() == 0 {
        0
    } else {
        document_aliases(defs.drop_last()) + set_aliases(definition_items(defs.last()))
    }
}

/// How many directives a definition holds: its own and those in its selection set.
pub open spec fn definition_directives(def: document::DefinitionTree) -> nat {
    (match def {
        document::DefinitionTree::SelectionSet { .. } => 0,
        document::DefinitionTree::Operation { directives, .. } => directives,
        document::DefinitionTree::Fragment { directives, .. } => directives,
    }) + set_directives(definition_items(def))
}

/// How many directives a document holds. Each fragment counts once, however often it is spread.
pub open spec fn document_directives(defs: Seq<document::DefinitionTree>) -> nat
    decreases defs.len(),
{
    if defs.len() == 0 {
        0
    } else {
        document_directives(defs.drop_last()) + definition_directives(defs.last())
    }
}

/// Counts over a document.
#[derive(Clone, Copy, Debug, PartialEq, Eq)]
pub struct DocStats {
    pub aliases: usize,
    pub directives: usize,
}

fn walk_set(items: &Vec<Selection>, out: &mut DocStats)
    ensures
        final(out).aliases == capped(
            old(out).aliases as nat + set_aliases(document::items_view(items@)),
        ),
        final(out).directives == capped(
            old(out).directives as nat + set_directives(document::items_view(items@)),
        ),
    decreases document::items_view(items@),
{
    let ghost all = document::items_view(items@);
    let ghost start = *out;
    assert(all.take(0) =~= Seq::empty());
    for i in 0..items.len()
        invariant
            all == document::items_view(items@),
            start == *old(out),
            out.aliases == capped(start.aliases as nat + set_aliases(all.take(i as int))),
            out.directives == capped(start.directives as nat + set_directives(all.take(i as int))),
    {
        let ghost tree = all[i as int];
        proof {
            assert(all.take(i + 1).drop_last() =~= all.take(i as int));
            assert(all.take(i + 1).last() == tree);
            assert(set_aliases(all.take(i + 1)) == set_aliases(all.take(i as int))
                + selection_aliases(tree));
            assert(set_directives(all.take(i + 1)) == set_directives(all.take(i as int))
                + selection_directives(tree));
            assert(tree == document::selection_view(items@[i as int]));
            assert(decreases_to!(all => all[i as int]));
        }
        match &items[i] {
            Selection::Field { alias, name: _, arguments: _, directives, items } => {
                proof {
                    assert(decreases_to!(tree => tree->Field_items));
                }
                if alias.is_some() {
                    out.aliases = out.aliases.saturating_add(1);
                }
                out.directives = out.directives.saturating_add(*directives);
                walk_set(items, out);
            },
            Selection::InlineFragment { directives, items } => {
                proof {
                    assert(decreases_to!(tree => tree->InlineFragment_items));
                }
                out.directives = out.directives.saturating_add(*directives);
                walk_set(items, out);
            },
            Selection::FragmentSpread { name: _, directives } => {
                out.directives = out.directives.saturating_add(*directives);
            },
        }
    }
    assert(all.take(items@.len() as int) =~= all);
}

/// Counts the aliases and the directives of a document.
pub fn count_aliases_and_directives(doc: &Document) -> (stats: DocStats)
    ensures
        stats.aliases == capped(document_aliases(doc@)),
        stats.directives == capped(document_directives(doc@)),
{
    let mut out = DocStats { aliases: 0, directives: 0 };
    assert(doc@.take(0) =~= Seq::empty());
    for i in 0..doc.definitions.len()
        invariant
            out.aliases == capped(document_aliases(doc@.take(i as int))),
            out.directives == capped(document_directives(doc@.take(i as int))),
    {
        proof {
            assert(doc@.take(i + 1).drop_last() =~= doc@.take(i as int));
            assert(doc@.take(i + 1).last() == document::definition_view(
                doc.definitions@[i as int],
            ));
        }
        match &doc.definitions[i] {
            Definition::SelectionSet { items } => walk_set(items, &mut out),
            Definition::Operation { variables: _, directives, items } => {
                out.directives = out.directives.saturating_add(*directives);
                walk_set(items, &mut out);
            },
            Definition::Fragment { name: _, directives, items } => {
                out.directives = out.directives.saturating_add(*directives);
                walk_set(items, &mut out);
            },
        }
    }
    assert(doc@.take(doc@.len() as int) =~= doc@);
    out
}

/// How many entries a selection set holds, those of the entries included.
pub open spec fn set_size(items: Items) -> nat
    decreases items,
{
    if items.len() == 0 {
        0
    } else {
        proof {
            assert(decreases_to!(items => items[items.len() - 1]));
        }
        set_size(items.drop_last()) + selection_size(items.last())
    }
}

/// One, and how many entries an entry of a selection set holds.
pub open spec fn selection_size(sel: document::SelectionTree) -> nat
    decreases sel,
{
    match sel {
        document::SelectionTree::Field { items, .. } => 1 + set_size(items),
        document::SelectionTree::InlineFragment { items, .. } => 1 + set_size(items),
        document::SelectionTree::FragmentSpread { .. } => 1,
    }
}

/// How many entries the selection sets of a document hold, as they are written.
pub open spec fn document_size(defs: Seq<document::DefinitionTree>) -> nat
    decreases defs.len(),
{
    if defs.len() == 0 {
        0
    } else {
        document_size(defs.drop_last()) + set_size(definition_items(defs.last()))
    }
}

/// How many entries the fragments hold that are not being expanded.
spec fn fragments_size(defs: Seq<document::DefinitionTree>, active: Set<Seq<char>>) -> nat
    decreases defs.len(),
{
    if defs.len() == 0 {
        0
    } else {
        fragments_size(defs.drop_last(), active) + match defs.last() {
            document::DefinitionTree::Fragment { name, items, .. } => if active.contains(name) {
                0
            } else {
                set_size(items)
            },
            _ => 0,
        }
    }
}

/// A document defines finitely many fragments.
pub proof fn lemma_fragments_finite(defs: Seq<document::DefinitionTree>)
    ensures
        fragments_of(defs).dom().finite(),
    decreases defs.len(),
{
    if defs.len() > 0 {
        lemma_fragments_finite(defs.drop_last());
    }
}

proof fn lemma_expanding_size(
    defs: Seq<document::DefinitionTree>,
    active: Set<Seq<char>>,
    name: Seq<char>,
)
    requires
        !active.contains(name),
    ensures
        fragments_size(defs, active.insert(name)) <= fragments_size(defs, active),
        fragments_of(defs).contains_key(name) ==> set_size(fragments_of(defs)[name])
            + fragments_size(defs, active.insert(name)) <= fragments_size(defs, active),
    decreases defs.len(),
{
    if defs.len() > 0 {
        lemma_expanding_size(defs.drop_last(), active, name);
    }
}

proof fn lemma_depth_bound_selection(
    sel: document::SelectionTree,
    defs: Seq<document::DefinitionTree>,
    active: Set<Seq<char>>,
)
    ensures
        selection_depth(sel, fragments_of(defs), active) <= selection_size(sel) + fragments_size(
            defs,
            active,
        ),
    decreases unexpanded(fragments_of(defs), active), sel,
{
    let frags = fragments_of(defs);
    lemma_fragments_finite(defs);
    match sel {
        document::SelectionTree::Field { items, .. } => {
            assert(decreases_to!(sel => sel->Field_items));
            lemma_depth_bound(items, defs, active);
        },
        document::SelectionTree::InlineFragment { items, .. } => {
            assert(decreases_to!(sel => sel->InlineFragment_items));
            lemma_depth_bound(items, defs, active);
        },
        document::SelectionTree::FragmentSpread { name, .. } => {
            if !active.contains(name) && frags.contains_key(name) {
                lemma_expanding(frags, active, name);
                lemma_expanding_size(defs, active, name);
                lemma_depth_bound(frags[name], defs, active.insert(name));
            }
        },
    }
}

proof fn lemma_depth_bound(
    items: Items,
    defs: Seq<document::DefinitionTree>,
    active: Set<Seq<char>>,
)
    ensures
        set_depth(items, fragments_of(defs), active) <= set_size(items) + fragments_size(
            defs,
            active,
        ),
    decreases unexpanded(fragments_of(defs), active), items,
{
    lemma_fragments_finite(defs);
    if items.len() > 0 {
        assert(decreases_to!(items => items[items.len() - 1]));
        lemma_depth_bound(items.drop_last(), defs, active);
        lemma_depth_bound_selection(items.last(), defs, active);
    }
}

/// Expanding fragments always comes to an end, cycles or not: a document is never deeper than the
/// number of entries that are written in it.
pub proof fn law_depth_is_bounded_by_what_is_written(defs: Seq<document::DefinitionTree>)
    ensures
        document_depth(defs) <= document_size(defs),
{
    lemma_operations_depth_bound(defs, defs.len() as int);
    assert(defs.take(defs.len() as int) =~= defs);
    lemma_operation_and_fragments(defs);
}

/// The size of the largest operation.
spec fn largest_operation(defs: Seq<document::DefinitionTree>) -> nat
    decreases defs.len(),
{
    if defs.len() == 0 {
        0
    } else {
        match operation_items(defs.last()) {
            Some(items) => max(largest_operation(defs.drop_last()), set_size(items)),
            None => largest_operation(defs.drop_last()),
        }
    }
}

proof fn lemma_operations_depth_bound(defs: Seq<document::DefinitionTree>, n: int)
    requires
        0 <= n <= defs.len(),
    ensures
        operations_depth(defs.take(n), fragments_of(defs)) <= largest_operation(defs.take(n))
            + fragments_size(defs, Set::empty()),
    decreases n,
{
    if n > 0 {
        lemma_operations_depth_bound(defs, n - 1);
        assert(defs.take(n).drop_last() =~= defs.take(n - 1));
        if let Some(items) = operation_items(defs.take(n).last()) {
            lemma_depth_bound(items, defs, Set::empty());
        }
    }
}

proof fn lemma_operation_and_fragments(defs: Seq<document::DefinitionTree>)
    ensures
        largest_operation(defs) + fragments_size(defs, Set::empty()) <= document_size(defs),
    decreases defs.len(),
{
    if defs.len() > 0 {
        lemma_operation_and_fragments(defs.drop_last());
    }
}

/// A spread is as deep as an inline fragment with the selections of its fragment, inside which
/// that fragment is not expanded once more.
pub proof fn law_spread_is_as_deep_as_what_it_stands_for(
    defs: Seq<document::DefinitionTree>,
    name: Seq<char>,
    directives: nat,
    active: Set<Seq<char>>,
)
    requires
        fragments_of(defs).contains_key(name),
        !active.contains(name),
    ensures
        selection_depth(
            document::SelectionTree::FragmentSpread { name, directives },
            fragments_of(defs),
            active,
        ) == selection_depth(
            document::SelectionTree::InlineFragment {
                directives,
                items: fragments_of(defs)[name],
            },
            fragments_of(defs),
            active.insert(name),
        ),
{
    lemma_fragments_finite(defs);
}

/// A field is one deeper than what it selects, however deep that is.
pub proof fn law_each_level_adds_one(
    defs: Seq<document::DefinitionTree>,
    field: document::SelectionTree,
    active: Set<Seq<char>>,
)
    requires
        field is Field,
    ensures
        set_depth(seq![field], fragments_of(defs), active) == 1 + set_depth(
            document::inner_items(field),
            fragments_of(defs),
            active,
        ),
{
    lemma_fragments_finite(defs);
    let items = seq![field];
    assert(items.drop_last() =~= Seq::empty());
    assert(items.last() == field);
    assert(selection_depth(field, fragments_of(defs), active) == 1 + set_depth(
        document::inner_items(field),
        fragments_of(defs),
        active,
    ));
    assert(set_depth(items.drop_last(), fragments_of(defs), active) == 0);
}

/// The aliases and the directives of a document are those of its parts, added up.
pub proof fn law_counts_add_up(
    first: Seq<document::DefinitionTree>,
    second: Seq<document::DefinitionTree>,
)
    ensures
        document_aliases(first + second) == document_aliases(first) + document_aliases(second),
        document_directives(first + second) == document_directives(first) + document_directives(
            second,
        ),
    decreases second.len(),
{
    let both = first + second;
    if second.len() == 0 {
        assert(both =~= first);
    } else {
        assert(both.drop_last() =~= first + second.drop_last());
        law_counts_add_up(first, second.drop_last());
    }
}

/// Every entry of a selection set is at least one deep, a spread of an undefined fragment or of
/// one that is being expanded included.
proof fn lemma_entry_depth(
    sel: document::SelectionTree,
    defs: Seq<document::DefinitionTree>,
    active: Set<Seq<char>>,
)
    ensures
        selection_depth(sel, fragments_of(defs), active) >= 1,
{
    lemma_fragments_finite(defs);
}

/// Two selection sets joined are as deep as the deeper one, and only the empty selection set has
/// no depth.
pub proof fn law_joined_sets_are_as_deep_as_the_deeper(
    defs: Seq<document::DefinitionTree>,
    a: Items,
    b: Items,
    active: Set<Seq<char>>,
)
    ensures
        set_depth(a + b, fragments_of(defs), active) == max(
            set_depth(a, fragments_of(defs), active),
            set_depth(b, fragments_of(defs), active),
        ),
        set_depth(a, fragments_of(defs), active) == 0 <==> a.len() == 0,
    decreases b.len(),
{
    lemma_fragments_finite(defs);
    if a.len() > 0 {
        lemma_entry_depth(a.last(), defs, active);
    }
    if b.len() == 0 {
        assert(a + b =~= a);
    } else {
        assert((a + b).drop_last() =~= a + b.drop_last());
        law_joined_sets_are_as_deep_as_the_deeper(defs, a, b.drop_last(), active);
    }
}

/// A field and an inline fragment are one deeper than what they select, whatever else is written
/// about them. A spread is one deeper than what its fragment selects where that is defined and not
/// being expanded, and else as deep as a bare field.
pub proof fn law_depth_of_an_entry(
    defs: Seq<document::DefinitionTree>,
    active: Set<Seq<char>>,
    alias: Option<Seq<char>>,
    name: Seq<char>,
    arguments: nat,
    directives: nat,
    items: Items,
)
    ensures
        ({
            let frags = fragments_of(defs);
            let field = document::SelectionTree::Field {
                alias,
                name,
                arguments,
                directives,
                items,
            };
            let inline = document::SelectionTree::InlineFragment { directives, items };
            let spread = document::SelectionTree::FragmentSpread { name, directives };
            &&& selection_depth(field, frags, active) == set_depth(items, frags, active) + 1
            &&& selection_depth(inline, frags, active) == set_depth(items, frags, active) + 1
            &&& active.contains(name) ==> selection_depth(spread, frags, active) == 1
            &&& !frags.contains_key(name) ==> selection_depth(spread, frags, active) == 1
            &&& frags.contains_key(name) && !active.contains(name) ==> selection_depth(
                spread,
                frags,
                active,
            ) == set_depth(frags[name], frags, active.insert(name)) + 1
        }),
{
    lemma_fragments_finite(defs);
}

/// A selection set is at least as deep as each of its entries and exactly as deep as one of them;
/// an empty one has no depth.
pub proof fn law_set_is_as_deep_as_its_deepest_entry(
    defs: Seq<document::DefinitionTree>,
    items: Items,
    active: Set<Seq<char>>,
)
    ensures
        ({
            let frags = fragments_of(defs);
            let depth = set_depth(items, frags, active);
            &&& items.len() == 0 ==> depth == 0
            &&& forall|i: int|
                0 <= i < items.len() ==> selection_depth(#[trigger] items[i], frags, active)
                    <= depth
            &&& items.len() > 0 ==> exists|i: int|
                0 <= i < items.len() && selection_depth(#[trigger] items[i], frags, active)
                    == depth
        }),
    decreases items.len(),
{
    lemma_fragments_finite(defs);
    let frags = fragments_of(defs);
    if items.len() > 0 {
        let rest = items.drop_last();
        let last = items.len() - 1;
        law_set_is_as_deep_as_its_deepest_entry(defs, rest, active);
        lemma_entry_depth(items[last], defs, active);
        assert forall|i: int| 0 <= i < items.len() implies selection_depth(
            #[trigger] items[i],
            frags,
            active,
        ) <= set_depth(items, frags, active) by {
            if i < last {
                assert(rest[i] == items[i]);
            }
        }
        if selection_depth(items[last], frags, active) != set_depth(items, frags, active) {
            let k = choose|k: int|
                0 <= k < rest.len() && selection_depth(#[trigger] rest[k], frags, active)
                    == set_depth(rest, frags, active);
            assert(items[k] == rest[k]);
        }
    }
}

/// A document is at least as deep as the selection set of each of its operations, with or without
/// variables and directives, and exactly as deep as one of them; without any it has no depth.
pub proof fn law_document_is_as_deep_as_its_deepest_operation(
    defs: Seq<document::DefinitionTree>,
)
    ensures
        ({
            let frags = fragments_of(defs);
            let depth = document_depth(defs);
            &&& forall|i: int|
                0 <= i < defs.len() ==> match #[trigger] defs[i] {
                    document::DefinitionTree::SelectionSet { items } => set_depth(
                        items,
                        frags,
                        Set::empty(),
                    ) <= depth,
                    document::DefinitionTree::Operation { variables, directives, items } =>
                        set_depth(items, frags, Set::empty()) <= depth,
                    document::DefinitionTree::Fragment { .. } => true,
                }
            &&& depth == 0 || exists|i: int|
                0 <= i < defs.len() && match #[trigger] defs[i] {
                    document::DefinitionTree::SelectionSet { items } => set_depth(
                        items,
                        frags,
                        Set::empty(),
                    ) == depth,
                    document::DefinitionTree::Operation { variables, directives, items } =>
                        set_depth(items, frags, Set::empty()) == depth,
                    document::DefinitionTree::Fragment { .. } => false,
                }
        }),
{
    lemma_deepest_operation(defs, fragments_of(defs));
}

proof fn lemma_deepest_operation(defs: Seq<document::DefinitionTree>, frags: Fragments)
    ensures
        forall|i: int|
            0 <= i < defs.len() ==> (operation_items(#[trigger] defs[i]) matches Some(items)
                ==> set_depth(items, frags, Set::empty()) <= operations_depth(defs, frags)),
        operations_depth(defs, frags) == 0 || exists|i: int|
            0 <= i < defs.len() && operation_items(#[trigger] defs[i]) is Some && set_depth(
                operation_items(defs[i])->0,
                frags,
                Set::empty(),
            ) == operations_depth(defs, frags),
    decreases defs.len(),
{
    if defs.len() > 0 {
        let rest = defs.drop_last();
        let last = defs.len() - 1;
        lemma_deepest_operation(rest, frags);
        assert forall|i: int| 0 <= i < defs.len() implies (operation_items(
            #[trigger] defs[i],
        ) matches Some(items) ==> set_depth(items, frags, Set::empty()) <= operations_depth(
            defs,
            frags,
        )) by {
            if i < last {
                assert(rest[i] == defs[i]);
            }
        }
        if operations_depth(defs, frags) == operations_depth(rest, frags) && operations_depth(
            rest,
            frags,
        ) > 0 {
            let k = choose|k: int|
                0 <= k < rest.len() && operation_items(#[trigger] rest[k]) is Some && set_depth(
                    operation_items(rest[k])->0,
                    frags,
                    Set::empty(),
                ) == operations_depth(rest, frags);
            assert(defs[k] == rest[k]);
        } else {
            assert(operation_items(defs[last]) is Some || operations_depth(defs, frags) == 0);
        }
    }
}

/// A name stands for the last fragment definition of that name, and for none where there is none.
pub proof fn law_name_stands_for_the_last_definition(
    defs: Seq<document::DefinitionTree>,
    name: Seq<char>,
)
    ensures
        match fragments_of(defs).contains_key(name) {
            true => exists|i: int|
                0 <= i < defs.len() && (#[trigger] defs[i] matches document::DefinitionTree::Fragment {
                    name: n,
                    directives,
                    items,
                } && n == name && items == fragments_of(defs)[name]) && forall|j: int|
                    i < j < defs.len() ==> (#[trigger] defs[j] matches document::DefinitionTree::Fragment {
                        name: n,
                        ..
                    } ==> n != name),
            false => forall|j: int|
                0 <= j < defs.len() ==> (#[trigger] defs[j] matches document::DefinitionTree::Fragment {
                    name: n,
                    ..
                } ==> n != name),
        },
    decreases defs.len(),
{
    if defs.len() > 0 {
        let rest = defs.drop_last();
        let last = defs.len() - 1;
        law_name_stands_for_the_last_definition(rest, name);
        assert(forall|j: int| 0 <= j < last ==> rest[j] == #[trigger] defs[j]);
        if fragments_of(defs).contains_key(name) {
            if defs[last] matches document::DefinitionTree::Fragment { name: n, .. } && n == name {
                assert(defs[last] is Fragment);
            } else {
                let k = choose|i: int|
                    0 <= i < rest.len() && (#[trigger] rest[i] matches document::DefinitionTree::Fragment {
                        name: n,
                        directives,
                        items,
                    } && n == name && items == fragments_of(rest)[name]) && forall|j: int|
                        i < j < rest.len() ==> (#[trigger] rest[j] matches document::DefinitionTree::Fragment {
                            name: n,
                            ..
                        } ==> n != name);
                assert(defs[k] == rest[k]);
                assert forall|j: int| k < j < defs.len() implies (#[trigger] defs[j] matches document::DefinitionTree::Fragment {
                    name: n,
                    ..
                } ==> n != name) by {
                    if j < last {
                        assert(rest[j] == defs[j]);
                    }
                }
            }
        } else {
            assert forall|j: int| 0 <= j < defs.len() implies (#[trigger] defs[j] matches document::DefinitionTree::Fragment {
                name: n,
                ..
            } ==> n != name) by {
                if j < last {
                    assert(rest[j] == defs[j]);
                }
            }
        }
    }
}

/// What an entry of a selection set adds to the counts: a field one alias where it has one, every
/// entry its own directives, and a field and an inline fragment what they select. A spread adds
/// nothing of its fragment.
pub proof fn law_counts_of_an_entry(
    alias: Option<Seq<char>>,
    name: Seq<char>,
    arguments: nat,
    directives: nat,
    items: Items,
)
    ensures
        ({
            let field = document::SelectionTree::Field {
                alias,
                name,
                arguments,
                directives,
                items,
            };
            let inline = document::SelectionTree::InlineFragment { directives, items };
            let spread = document::SelectionTree::FragmentSpread { name, directives };
            &&& alias is None ==> selection_aliases(field) == set_aliases(items)
            &&& alias is Some ==> selection_aliases(field) == set_aliases(items) + 1
            &&& selection_aliases(inline) == set_aliases(items)
            &&& selection_aliases(spread) == 0
            &&& selection_directives(field) == set_directives(items) + directives
            &&& selection_directives(inline) == set_directives(items) + directives
            &&& selection_directives(spread) == directives
        }),
{
}

/// The aliases and the directives of a selection set are those of its entries, added up.
pub proof fn law_set_counts_add_up(a: Items, b: Items, sel: document::SelectionTree)
    ensures
        set_aliases(Seq::empty()) == 0,
        set_directives(Seq::empty()) == 0,
        set_aliases(seq![sel]) == selection_aliases(sel),
        set_directives(seq![sel]) == selection_directives(sel),
        set_aliases(a + b) == set_aliases(a) + set_aliases(b),
        set_directives(a + b) == set_directives(a) + set_directives(b),
    decreases b.len(),
{
    let one = seq![sel];
    assert(one.drop_last() =~= Seq::empty());
    assert(one.last() == sel);
    assert(set_aliases(one.drop_last()) == 0 && set_directives(one.drop_last()) == 0);
    if b.len() == 0 {
        assert(a + b =~= a);
    } else {
        assert((a + b).drop_last() =~= a + b.drop_last());
        law_set_counts_add_up(a, b.drop_last(), sel);
    }
}

/// What a definition adds to the counts of a document: the aliases and the directives that it
/// selects, and the directives written on it, be it an operation or a fragment.
pub proof fn law_counts_of_a_definition(
    name: Seq<char>,
    variables: nat,
    directives: nat,
    items: Items,
)
    ensures
        ({
            let bare = seq![document::DefinitionTree::SelectionSet { items }];
            let operation = seq![
                document::DefinitionTree::Operation { variables, directives, items },
            ];
            let fragment = seq![document::DefinitionTree::Fragment { name, directives, items }];
            &&& document_aliases(bare) == set_aliases(items)
            &&& document_aliases(operation) == set_aliases(items)
            &&& document_aliases(fragment) == set_aliases(items)
            &&& document_directives(bare) == set_directives(items)
            &&& document_directives(operation) == set_directives(items) + directives
            &&& document_directives(fragment) == set_directives(items) + directives
        }),
{
    lemma_single_definition(document::DefinitionTree::SelectionSet { items });
    lemma_single_definition(document::DefinitionTree::Operation { variables, directives, items });
    lemma_single_definition(document::DefinitionTree::Fragment { name, directives, items });
}

proof fn lemma_single_definition(def: document::DefinitionTree)
    ensures
        document_aliases(seq![def]) == set_aliases(definition_items(def)),
        document_directives(seq![def]) == definition_directives(def),
{
    let one = seq![def];
    assert(one.drop_last() =~= Seq::empty());
    assert(document_aliases(one.drop_last()) == 0 && document_directives(one.drop_last()) == 0);
    assert(one.last() == def);
}

/// A count is exact as far as a `usize` goes, and never says more than there is.
pub proof fn law_counts_are_exact_as_far_as_they_go(n: nat)
    ensures
        n <= usize::MAX ==> capped(n) == n,
        n > usize::MAX ==> capped(n) == usize::MAX,
{
}

} // verus!
