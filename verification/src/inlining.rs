//! What spreading a fragment comes to: the cost of a document with its fragments written out.
use vstd::prelude::*;

use crate::cost;
use crate::cost::CostModel;
use crate::document;
use crate::limits;

verus! {

/// The names of the fragments that an entry of a selection set spreads, as it is written.
pub open spec fn selection_spreads(sel: document::SelectionTree) -> Set<Seq<char>>
    decreases sel,
{
    match sel {
        document::SelectionTree::Field { items, .. } => set_spreads(items),
        document::SelectionTree::InlineFragment { items, .. } => set_spreads(items),
        document::SelectionTree::FragmentSpread { name, .. } => Set::empty().insert(name),
    }
}

/// The names of the fragments that a selection set spreads, as it is written.
pub open spec fn set_spreads(items: limits::Items) -> Set<Seq<char>>
    decreases items,
{
    if items.len() == 0 {
        Set::empty()
    } else {
        proof {
            assert(decreases_to!(items => items[items.len() - 1]));
        }
        set_spreads(items.drop_last()).union(selection_spreads(items.last()))
    }
}

/// With the name of a fragment the set has all names that the fragment spreads.
pub open spec fn closed(s: Set<Seq<char>>, frags: limits::Fragments) -> bool {
    forall|m: Seq<char>| #[trigger]
        s.contains(m) && frags.contains_key(m) ==> set_spreads(frags[m]).subset_of(s)
}

/// The names that a selection set spreads, by itself or through the fragments that it spreads: the
/// smallest set that has its spreads and is closed.
pub open spec fn reached(items: limits::Items, frags: limits::Fragments) -> Set<Seq<char>> {
    Set::new(
        |n: Seq<char>|
            forall|s: Set<Seq<char>>|
                set_spreads(items).subset_of(s) && #[trigger] closed(s, frags) ==> s.contains(n),
    )
}

/// No fragment spreads itself, by itself or through others.
pub open spec fn acyclic(frags: limits::Fragments) -> bool {
    forall|m: Seq<char>| #[trigger]
        frags.contains_key(m) ==> !reached(frags[m], frags).contains(m)
}

proof fn lemma_reached(items: limits::Items, frags: limits::Fragments)
    ensures
        set_spreads(items).subset_of(reached(items, frags)),
        closed(reached(items, frags), frags),
{
    let r = reached(items, frags);
    assert forall|m: Seq<char>| #[trigger] r.contains(m) && frags.contains_key(m) implies
        set_spreads(frags[m]).subset_of(r) by {
        assert forall|n: Seq<char>| set_spreads(frags[m]).contains(n) implies r.contains(n) by {
            assert forall|s: Set<Seq<char>>|
                set_spreads(items).subset_of(s) && #[trigger] closed(s, frags) implies s.contains(
                n,
            ) by {
                assert(s.contains(m));
            }
        }
    }
}

proof fn lemma_reached_within(items: limits::Items, frags: limits::Fragments, s: Set<Seq<char>>)
    requires
        set_spreads(items).subset_of(s),
        closed(s, frags),
    ensures
        reached(items, frags).subset_of(s),
{
}

/// The names in the set stand for the same fragments.
spec fn agree(f: limits::Fragments, g: limits::Fragments, s: Set<Seq<char>>) -> bool {
    forall|m: Seq<char>| #[trigger]
        s.contains(m) ==> f.contains_key(m) == g.contains_key(m) && (f.contains_key(m) ==> f[m]
            == g[m])
}

/// The same names of the set are being expanded.
spec fn same_active(a: Set<Seq<char>>, b: Set<Seq<char>>, s: Set<Seq<char>>) -> bool {
    forall|m: Seq<char>| #[trigger] s.contains(m) ==> a.contains(m) == b.contains(m)
}

proof fn lemma_same_selection_cost(
    sel: document::SelectionTree,
    model: CostModel,
    f: limits::Fragments,
    g: limits::Fragments,
    a: Set<Seq<char>>,
    b: Set<Seq<char>>,
    s: Set<Seq<char>>,
)
    requires
        f.dom().finite(),
        g.dom().finite(),
        selection_spreads(sel).subset_of(s),
        closed(s, f),
        agree(f, g, s),
        same_active(a, b, s),
    ensures
        cost::selection_cost(sel, model, f, a) == cost::selection_cost(sel, model, g, b),
    decreases limits::unexpanded(f, a), sel,
{
    match sel {
        document::SelectionTree::Field { items, .. } => {
            assert(decreases_to!(sel => sel->Field_items));
            lemma_same_set_cost(items, model, f, g, a, b, s);
        },
        document::SelectionTree::InlineFragment { items, .. } => {
            assert(decreases_to!(sel => sel->InlineFragment_items));
            lemma_same_set_cost(items, model, f, g, a, b, s);
        },
        document::SelectionTree::FragmentSpread { name, .. } => {
            assert(s.contains(name));
            if !a.contains(name) && f.contains_key(name) {
                limits::lemma_expanding(f, a, name);
                lemma_same_set_cost(f[name], model, f, g, a.insert(name), b.insert(name), s);
            }
        },
    }
}

/// What a selection set costs depends on nothing but the fragments that it reaches, and on which of
/// them are being expanded.
proof fn lemma_same_set_cost(
    items: limits::Items,
    model: CostModel,
    f: limits::Fragments,
    g: limits::Fragments,
    a: Set<Seq<char>>,
    b: Set<Seq<char>>,
    s: Set<Seq<char>>,
)
    requires
        f.dom().finite(),
        g.dom().finite(),
        set_spreads(items).subset_of(s),
        closed(s, f),
        agree(f, g, s),
        same_active(a, b, s),
    ensures
        cost::set_cost(items, model, f, a) == cost::set_cost(items, model, g, b),
    decreases limits::unexpanded(f, a), items,
{
    if items.len() > 0 {
        assert(decreases_to!(items => items[items.len() - 1]));
        assert(set_spreads(items) == set_spreads(items.drop_last()).union(
            selection_spreads(items.last()),
        ));
        assert forall|m: Seq<char>| set_spreads(items.drop_last()).contains(m) implies s.contains(
            m,
        ) by {
            assert(set_spreads(items).contains(m));
        }
        assert forall|m: Seq<char>| selection_spreads(items.last()).contains(m) implies s.contains(
            m,
        ) by {
            assert(set_spreads(items).contains(m));
        }
        lemma_same_set_cost(items.drop_last(), model, f, g, a, b, s);
        lemma_same_selection_cost(items.last(), model, f, g, a, b, s);
    }
}

/// A spread of a fragment that does not reach itself costs what an inline fragment with its
/// selections costs.
pub proof fn law_spread_costs_what_it_stands_for(
    defs: Seq<document::DefinitionTree>,
    name: Seq<char>,
    directives: nat,
    active: Set<Seq<char>>,
    model: CostModel,
)
    requires
        limits::fragments_of(defs).contains_key(name),
        !active.contains(name),
        !reached(limits::fragments_of(defs)[name], limits::fragments_of(defs)).contains(name),
    ensures
        cost::selection_cost(
            document::SelectionTree::FragmentSpread { name, directives },
            model,
            limits::fragments_of(defs),
            active,
        ) == cost::selection_cost(
            document::SelectionTree::InlineFragment {
                directives,
                items: limits::fragments_of(defs)[name],
            },
            model,
            limits::fragments_of(defs),
            active,
        ),
{
    let frags = limits::fragments_of(defs);
    let body = frags[name];
    limits::lemma_fragments_finite(defs);
    lemma_reached(body, frags);
    lemma_same_set_cost(
        body,
        model,
        frags,
        frags,
        active.insert(name),
        active,
        reached(body, frags),
    );
}

/// `b` is `a` with an inline fragment that holds `body` in the place of spreads of `name`: of none,
/// of one or of more.
pub open spec fn inlined(
    a: document::SelectionTree,
    b: document::SelectionTree,
    name: Seq<char>,
    body: limits::Items,
) -> bool
    decreases a,
{
    a == b || match (a, b) {
        (
            document::SelectionTree::FragmentSpread { name: spread, directives: d },
            document::SelectionTree::InlineFragment { directives: e, items },
        ) => spread == name && d == e && items == body,
        (
            document::SelectionTree::Field {
                alias: alias1,
                name: name1,
                arguments: arguments1,
                directives: d,
                items: x,
            },
            document::SelectionTree::Field {
                alias: alias2,
                name: name2,
                arguments: arguments2,
                directives: e,
                items: y,
            },
        ) => alias1 == alias2 && name1 == name2 && arguments1 == arguments2 && d == e
            && all_inlined(x, y, name, body),
        (
            document::SelectionTree::InlineFragment { directives: d, items: x },
            document::SelectionTree::InlineFragment { directives: e, items: y },
        ) => d == e && all_inlined(x, y, name, body),
        _ => false,
    }
}

/// Entry by entry, `y` is `x` with an inline fragment in the place of spreads of `name`.
pub open spec fn all_inlined(
    x: limits::Items,
    y: limits::Items,
    name: Seq<char>,
    body: limits::Items,
) -> bool
    decreases x,
{
    &&& x.len() == y.len()
    &&& forall|i: int| 0 <= i < x.len() ==> inlined(#[trigger] x[i], y[i], name, body)
}

/// A definition with an inline fragment in the place of spreads of `name`.
pub open spec fn definition_inlined(
    a: document::DefinitionTree,
    b: document::DefinitionTree,
    name: Seq<char>,
    body: limits::Items,
) -> bool {
    match (a, b) {
        (
            document::DefinitionTree::SelectionSet { items: x },
            document::DefinitionTree::SelectionSet { items: y },
        ) => all_inlined(x, y, name, body),
        (
            document::DefinitionTree::Operation { variables: v, directives: d, items: x },
            document::DefinitionTree::Operation { variables: w, directives: e, items: y },
        ) => v == w && d == e && all_inlined(x, y, name, body),
        (
            document::DefinitionTree::Fragment { name: n, directives: d, items: x },
            document::DefinitionTree::Fragment { name: m, directives: e, items: y },
        ) => n == m && d == e && all_inlined(x, y, name, body),
        _ => false,
    }
}

/// A document with inline fragments in the place of spreads of `name`.
pub open spec fn document_inlined(
    a: Seq<document::DefinitionTree>,
    b: Seq<document::DefinitionTree>,
    name: Seq<char>,
    body: limits::Items,
) -> bool {
    &&& a.len() == b.len()
    &&& forall|i: int| 0 <= i < a.len() ==> definition_inlined(#[trigger] a[i], b[i], name, body)
}

/// The fragments of a document with inline fragments in the place of spreads of `name`.
spec fn fragments_inlined(
    f: limits::Fragments,
    g: limits::Fragments,
    name: Seq<char>,
    body: limits::Items,
) -> bool {
    forall|m: Seq<char>|
        #![trigger f.contains_key(m)]
        #![trigger g.contains_key(m)]
        f.contains_key(m) == g.contains_key(m) && (f.contains_key(m) ==> all_inlined(
            f[m],
            g[m],
            name,
            body,
        ))
}

proof fn lemma_fragments_inlined(
    a: Seq<document::DefinitionTree>,
    b: Seq<document::DefinitionTree>,
    name: Seq<char>,
    body: limits::Items,
)
    requires
        document_inlined(a, b, name, body),
    ensures
        fragments_inlined(limits::fragments_of(a), limits::fragments_of(b), name, body),
    decreases a.len(),
{
    if a.len() > 0 {
        assert(definition_inlined(a[a.len() - 1], b[a.len() - 1], name, body));
        assert forall|i: int| 0 <= i < a.len() - 1 implies definition_inlined(
            #[trigger] a.drop_last()[i],
            b.drop_last()[i],
            name,
            body,
        ) by {
            assert(definition_inlined(a[i], b[i], name, body));
        }
        lemma_fragments_inlined(a.drop_last(), b.drop_last(), name, body);
    }
}

proof fn lemma_selection_inlined_spreads(
    a: document::SelectionTree,
    b: document::SelectionTree,
    name: Seq<char>,
    body: limits::Items,
    n: Seq<char>,
)
    requires
        inlined(a, b, name, body),
        selection_spreads(b).contains(n),
    ensures
        selection_spreads(a).contains(n) || (selection_spreads(a).contains(name) && set_spreads(
            body,
        ).contains(n)),
    decreases a,
{
    if a != b {
        match (a, b) {
            (
                document::SelectionTree::Field { items: x, .. },
                document::SelectionTree::Field { items: y, .. },
            ) => {
                assert(decreases_to!(a => a->Field_items));
                lemma_set_inlined_spreads(x, y, name, body, n);
            },
            (
                document::SelectionTree::InlineFragment { items: x, .. },
                document::SelectionTree::InlineFragment { items: y, .. },
            ) => {
                assert(decreases_to!(a => a->InlineFragment_items));
                lemma_set_inlined_spreads(x, y, name, body, n);
            },
            _ => {},
        }
    }
}

proof fn lemma_set_inlined_spreads(
    x: limits::Items,
    y: limits::Items,
    name: Seq<char>,
    body: limits::Items,
    n: Seq<char>,
)
    requires
        all_inlined(x, y, name, body),
        set_spreads(y).contains(n),
    ensures
        set_spreads(x).contains(n) || (set_spreads(x).contains(name) && set_spreads(body).contains(
            n,
        )),
    decreases x,
{
    if x.len() > 0 {
        let last = x.len() - 1;
        assert(decreases_to!(x => x[x.len() - 1]));
        assert(inlined(x[last], y[last], name, body));
        lemma_drop_last_inlined(x, y, name, body);
        if set_spreads(y.drop_last()).contains(n) {
            lemma_set_inlined_spreads(x.drop_last(), y.drop_last(), name, body, n);
        } else {
            lemma_selection_inlined_spreads(x.last(), y.last(), name, body, n);
        }
    }
}

proof fn lemma_drop_last_inlined(
    x: limits::Items,
    y: limits::Items,
    name: Seq<char>,
    body: limits::Items,
)
    requires
        all_inlined(x, y, name, body),
        x.len() > 0,
    ensures
        all_inlined(x.drop_last(), y.drop_last(), name, body),
        inlined(x.last(), y.last(), name, body),
{
    assert forall|i: int| 0 <= i < x.len() - 1 implies inlined(
        #[trigger] x.drop_last()[i],
        y.drop_last()[i],
        name,
        body,
    ) by {
        assert(inlined(x[i], y[i], name, body));
    }
    assert(inlined(x[x.len() - 1], y[x.len() - 1], name, body));
}

proof fn lemma_closed_inlined(
    s: Set<Seq<char>>,
    f: limits::Fragments,
    g: limits::Fragments,
    name: Seq<char>,
)
    requires
        f.contains_key(name),
        fragments_inlined(f, g, name, f[name]),
        closed(s, f),
    ensures
        closed(s, g),
{
    assert forall|m: Seq<char>| #[trigger] s.contains(m) && g.contains_key(m) implies set_spreads(
        g[m],
    ).subset_of(s) by {
        assert(f.contains_key(m));
        assert forall|n: Seq<char>| set_spreads(g[m]).contains(n) implies s.contains(n) by {
            lemma_set_inlined_spreads(f[m], g[m], name, f[name], n);
            if !set_spreads(f[m]).contains(n) {
                assert(s.contains(name));
            }
        }
    }
}

proof fn lemma_inlined_selection_cost(
    a: document::SelectionTree,
    b: document::SelectionTree,
    model: CostModel,
    f: limits::Fragments,
    g: limits::Fragments,
    active: Set<Seq<char>>,
    s: Set<Seq<char>>,
    name: Seq<char>,
)
    requires
        f.dom().finite(),
        g.dom().finite(),
        f.contains_key(name),
        acyclic(f),
        fragments_inlined(f, g, name, f[name]),
        inlined(a, b, name, f[name]),
        selection_spreads(a).subset_of(s),
        closed(s, f),
        active.disjoint(s),
    ensures
        cost::selection_cost(a, model, f, active) == cost::selection_cost(b, model, g, active),
    decreases limits::unexpanded(f, active), a,
{
    let body = f[name];
    match a {
        document::SelectionTree::Field { items: x, .. } => {
            let y = document::inner_items(b);
            assert(decreases_to!(a => a->Field_items));
            assert(all_inlined(x, y, name, body));
            lemma_inlined_set_cost(x, y, model, f, g, active, s, name);
        },
        document::SelectionTree::InlineFragment { items: x, .. } => {
            let y = document::inner_items(b);
            assert(decreases_to!(a => a->InlineFragment_items));
            assert(all_inlined(x, y, name, body));
            lemma_inlined_set_cost(x, y, model, f, g, active, s, name);
        },
        document::SelectionTree::FragmentSpread { name: m, .. } => {
            assert(selection_spreads(a).contains(m));
            assert(s.contains(m));
            assert(!active.contains(m));
            if f.contains_key(m) {
                let within = reached(f[m], f);
                lemma_reached(f[m], f);
                lemma_reached_within(f[m], f, s);
                limits::lemma_expanding(f, active, m);
                assert(active.insert(m).disjoint(within)) by {
                    assert forall|n: Seq<char>| active.insert(m).contains(n) implies !within.contains(
                        n,
                    ) by {}
                }
                if a == b {
                    lemma_inlined_set_cost(
                        f[m],
                        g[m],
                        model,
                        f,
                        g,
                        active.insert(m),
                        within,
                        name,
                    );
                } else {
                    assert(all_inlined(body, body, name, body));
                    lemma_inlined_set_cost(
                        body,
                        body,
                        model,
                        f,
                        g,
                        active.insert(m),
                        within,
                        name,
                    );
                    lemma_closed_inlined(within, f, g, name);
                    lemma_same_set_cost(body, model, g, g, active.insert(m), active, within);
                }
            } else {
                assert(a == b);
            }
        },
    }
}

proof fn lemma_inlined_set_cost(
    x: limits::Items,
    y: limits::Items,
    model: CostModel,
    f: limits::Fragments,
    g: limits::Fragments,
    active: Set<Seq<char>>,
    s: Set<Seq<char>>,
    name: Seq<char>,
)
    requires
        f.dom().finite(),
        g.dom().finite(),
        f.contains_key(name),
        acyclic(f),
        fragments_inlined(f, g, name, f[name]),
        all_inlined(x, y, name, f[name]),
        set_spreads(x).subset_of(s),
        closed(s, f),
        active.disjoint(s),
    ensures
        cost::set_cost(x, model, f, active) == cost::set_cost(y, model, g, active),
    decreases limits::unexpanded(f, active), x,
{
    if x.len() > 0 {
        assert(decreases_to!(x => x[x.len() - 1]));
        lemma_drop_last_inlined(x, y, name, f[name]);
        assert forall|m: Seq<char>| set_spreads(x.drop_last()).contains(m) implies s.contains(m) by {
            assert(set_spreads(x).contains(m));
        }
        assert forall|m: Seq<char>| selection_spreads(x.last()).contains(m) implies s.contains(
            m,
        ) by {
            assert(set_spreads(x).contains(m));
        }
        lemma_inlined_set_cost(x.drop_last(), y.drop_last(), model, f, g, active, s, name);
        lemma_inlined_selection_cost(x.last(), y.last(), model, f, g, active, s, name);
    }
}

proof fn lemma_inlined_operations_cost(
    a: Seq<document::DefinitionTree>,
    b: Seq<document::DefinitionTree>,
    model: CostModel,
    f: limits::Fragments,
    g: limits::Fragments,
    name: Seq<char>,
)
    requires
        f.dom().finite(),
        g.dom().finite(),
        f.contains_key(name),
        acyclic(f),
        fragments_inlined(f, g, name, f[name]),
        document_inlined(a, b, name, f[name]),
    ensures
        cost::operations_cost(a, model, f) == cost::operations_cost(b, model, g),
    decreases a.len(),
{
    if a.len() > 0 {
        assert(definition_inlined(a[a.len() - 1], b[a.len() - 1], name, f[name]));
        assert forall|i: int| 0 <= i < a.len() - 1 implies definition_inlined(
            #[trigger] a.drop_last()[i],
            b.drop_last()[i],
            name,
            f[name],
        ) by {
            assert(definition_inlined(a[i], b[i], name, f[name]));
        }
        lemma_inlined_operations_cost(a.drop_last(), b.drop_last(), model, f, g, name);
        if let Some(items) = limits::operation_items(a.last()) {
            lemma_reached(items, f);
            lemma_inlined_set_cost(
                items,
                limits::operation_items(b.last())->0,
                model,
                f,
                g,
                Set::empty(),
                reached(items, f),
                name,
            );
        }
    }
}

/// Where no fragment spreads itself, putting inline fragments in the place of spreads of a fragment
/// keeps the cost of the document.
pub proof fn law_inlining_spreads_keeps_the_cost(
    defs: Seq<document::DefinitionTree>,
    written_out: Seq<document::DefinitionTree>,
    name: Seq<char>,
    model: CostModel,
)
    requires
        acyclic(limits::fragments_of(defs)),
        limits::fragments_of(defs).contains_key(name),
        document_inlined(defs, written_out, name, limits::fragments_of(defs)[name]),
    ensures
        cost::document_cost(written_out, model) == cost::document_cost(defs, model),
{
    let f = limits::fragments_of(defs);
    let g = limits::fragments_of(written_out);
    limits::lemma_fragments_finite(defs);
    limits::lemma_fragments_finite(written_out);
    lemma_fragments_inlined(defs, written_out, name, f[name]);
    lemma_inlined_operations_cost(defs, written_out, model, f, g, name);
}

/// None of the definitions spreads the fragment.
pub open spec fn nobody_spreads(defs: Seq<document::DefinitionTree>, name: Seq<char>) -> bool {
    forall|i: int|
        0 <= i < defs.len() ==> !set_spreads(
            limits::definition_items(#[trigger] defs[i]),
        ).contains(name)
}

proof fn lemma_no_fragment_spreads(defs: Seq<document::DefinitionTree>, name: Seq<char>)
    requires
        nobody_spreads(defs, name),
    ensures
        forall|m: Seq<char>| #[trigger]
            limits::fragments_of(defs).contains_key(m) ==> !set_spreads(
                limits::fragments_of(defs)[m],
            ).contains(name),
    decreases defs.len(),
{
    if defs.len() > 0 {
        assert forall|i: int| 0 <= i < defs.len() - 1 implies !set_spreads(
            limits::definition_items(#[trigger] defs.drop_last()[i]),
        ).contains(name) by {
            assert(defs[i] == defs.drop_last()[i]);
        }
        lemma_no_fragment_spreads(defs.drop_last(), name);
        assert(!set_spreads(limits::definition_items(defs[defs.len() - 1])).contains(name));
        let rest = limits::fragments_of(defs.drop_last());
        let frags = limits::fragments_of(defs);
        assert forall|m: Seq<char>| #[trigger] frags.contains_key(m) implies !set_spreads(
            frags[m],
        ).contains(name) by {
            if rest.contains_key(m) {
                assert(!set_spreads(rest[m]).contains(name));
            }
        }
    }
}

proof fn lemma_added_fragment(
    before: Seq<document::DefinitionTree>,
    fragment: document::DefinitionTree,
    after: Seq<document::DefinitionTree>,
    name: Seq<char>,
    model: CostModel,
    frags: limits::Fragments,
)
    requires
        fragment matches document::DefinitionTree::Fragment { name: n, .. } && n == name,
    ensures
        agree(
            limits::fragments_of(before + after),
            limits::fragments_of(before + seq![fragment] + after),
            Set::full().remove(name),
        ),
        cost::operations_cost(before + seq![fragment] + after, model, frags)
            == cost::operations_cost(before + after, model, frags),
    decreases after.len(),
{
    let without = before + after;
    let with = before + seq![fragment] + after;
    if after.len() == 0 {
        assert(without =~= before);
        assert(with.drop_last() =~= before);
        assert(with.last() == fragment);
    } else {
        assert(without.drop_last() =~= before + after.drop_last());
        assert(with.drop_last() =~= before + seq![fragment] + after.drop_last());
        assert(with.last() == without.last());
        lemma_added_fragment(before, fragment, after.drop_last(), name, model, frags);
    }
}

proof fn lemma_same_operations_cost(
    defs: Seq<document::DefinitionTree>,
    model: CostModel,
    f: limits::Fragments,
    g: limits::Fragments,
    name: Seq<char>,
)
    requires
        f.dom().finite(),
        g.dom().finite(),
        nobody_spreads(defs, name),
        closed(Set::full().remove(name), f),
        agree(f, g, Set::full().remove(name)),
    ensures
        cost::operations_cost(defs, model, f) == cost::operations_cost(defs, model, g),
    decreases defs.len(),
{
    if defs.len() > 0 {
        assert forall|i: int| 0 <= i < defs.len() - 1 implies !set_spreads(
            limits::definition_items(#[trigger] defs.drop_last()[i]),
        ).contains(name) by {
            assert(defs[i] == defs.drop_last()[i]);
        }
        lemma_same_operations_cost(defs.drop_last(), model, f, g, name);
        assert(!set_spreads(limits::definition_items(defs[defs.len() - 1])).contains(name));
        if let Some(items) = limits::operation_items(defs.last()) {
            lemma_same_set_cost(
                items,
                model,
                f,
                g,
                Set::empty(),
                Set::empty(),
                Set::full().remove(name),
            );
        }
    }
}

/// A fragment that nobody spreads costs nothing, wherever in the document it is defined.
pub proof fn law_unspread_fragment_costs_nothing(
    before: Seq<document::DefinitionTree>,
    fragment: document::DefinitionTree,
    after: Seq<document::DefinitionTree>,
    model: CostModel,
)
    requires
        fragment matches document::DefinitionTree::Fragment { name, .. } && nobody_spreads(
            before + after,
            name,
        ),
    ensures
        cost::document_cost(before + seq![fragment] + after, model) == cost::document_cost(
            before + after,
            model,
        ),
{
    if let document::DefinitionTree::Fragment { name, .. } = fragment {
        let without = before + after;
        let with = before + seq![fragment] + after;
        let f = limits::fragments_of(without);
        let g = limits::fragments_of(with);
        limits::lemma_fragments_finite(without);
        limits::lemma_fragments_finite(with);
        lemma_no_fragment_spreads(without, name);
        lemma_added_fragment(before, fragment, after, name, model, g);
        lemma_same_operations_cost(without, model, f, g, name);
    }
}

} // verus!
