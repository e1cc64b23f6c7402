//! The shopping list: the ingredients of all dishes, merged by name and put
//! in order.
//!
//! Ingredients are merged where their names are equal character for
//! character. Nothing is added up: each contribution keeps its amount, its
//! measure and the dish it comes from, in the order in which the ingredients
//! were handed in.

use crate::ingredient::{ingredient_views, Ingredient, IngredientView};
use crate::text::{
    append, join, join_all, lemma_lex_irreflexive, lemma_lex_total, lemma_lex_transitive,
    lex_less, same_text, text_less, text_of, to_chars, views,
};
use vstd::prelude::*;

verus! {

/// What one dish adds to an entry of the list.
#[derive(Debug, Clone, PartialEq, Eq)]
pub struct Contribution {
    /// The amount, in decimal notation.
    pub amount: String,
    /// The unit of measure; may be empty.
    pub measure: String,
    /// The dish that asks for it.
    pub source_dish: String,
}

/// One line of the list: an ingredient and all that the dishes ask of it.
#[derive(Debug, Clone, PartialEq, Eq)]
pub struct AggregatedEntry {
    /// The ingredient's name.
    pub name: String,
    /// What each dish asks for, in the order of the input.
    pub contributions: Vec<Contribution>,
}

/// The mathematical content of a [`Contribution`].
pub struct ContributionView {
    pub amount: Seq<char>,
    pub measure: Seq<char>,
    pub source_dish: Seq<char>,
}

/// The mathematical content of an [`AggregatedEntry`].
pub struct EntryView {
    pub name: Seq<char>,
    pub contributions: Seq<ContributionView>,
}

impl View for Contribution {
    type V = ContributionView;

    open spec fn view(&self) -> ContributionView {
        ContributionView {
            amount: self.amount@,
            measure: self.measure@,
            source_dish: self.source_dish@,
        }
    }
}

/// The views of a vector of contributions.
pub open spec fn contribution_views(v: Seq<Contribution>) -> Seq<ContributionView> {
    Seq::new(v.len(), |i: int| v[i]@)
}

impl View for AggregatedEntry {
    type V = EntryView;

    open spec fn view(&self) -> EntryView {
        EntryView { name: self.name@, contributions: contribution_views(self.contributions@) }
    }
}

/// The views of a vector of entries.
pub open spec fn entry_views(v: Seq<AggregatedEntry>) -> Seq<EntryView> {
    Seq::new(v.len(), |i: int| v[i]@)
}

/// What an ingredient adds to the entry of its name.
pub open spec fn contribution_of(item: IngredientView) -> ContributionView {
    ContributionView { amount: item.amount, measure: item.measure, source_dish: item.source_dish }
}

/// What the ingredients named `name` among `items` add, in order.
pub open spec fn contributions_to(items: Seq<IngredientView>, name: Seq<char>) -> Seq<
    ContributionView,
>
    decreases items.len(),
{
    if items.len() == 0 {
        Seq::empty()
    } else if items.last().name == name {
        contributions_to(items.drop_last(), name).push(contribution_of(items.last()))
    } else {
        contributions_to(items.drop_last(), name)
    }
}

/// Whether the names of `entries` ascend strictly in dictionary order.
pub open spec fn names_ascend(entries: Seq<EntryView>) -> bool {
    forall|a: int, b: int|
        0 <= a < b < entries.len() ==> lex_less(
            #[trigger] entries[a].name,
            #[trigger] entries[b].name,
        )
}

/// Whether some entry bears the name `name`.
pub open spec fn has_entry(entries: Seq<EntryView>, name: Seq<char>) -> bool {
    exists|k: int| 0 <= k < entries.len() && #[trigger] entries[k].name == name
}

/// Whether `entries` is the shopping list of `items`: one entry for each name
/// that occurs, the names ascending in dictionary order, and in each entry
/// the contributions of all the ingredients of that name, in their order.
pub open spec fn is_aggregation(entries: Seq<EntryView>, items: Seq<IngredientView>) -> bool {
    &&& names_ascend(entries)
    &&& forall|k: int|
        0 <= k < entries.len() ==> (#[trigger] entries[k]).contributions.len() > 0
            && entries[k].contributions == contributions_to(items, entries[k].name)
    &&& forall|i: int| 0 <= i < items.len() ==> has_entry(entries, (#[trigger] items[i]).name)
}

/// One more ingredient adds its contribution to its own name and to no
/// other.
pub proof fn lemma_contributions_push(items: Seq<IngredientView>, item: IngredientView, name: Seq<char>)
    ensures
        contributions_to(items.push(item), name) == if item.name == name {
            contributions_to(items, name).push(contribution_of(item))
        } else {
            contributions_to(items, name)
        },
{
    assert(items.push(item).drop_last() == items);
}

/// A name has contributions exactly where an ingredient bears it.
pub proof fn lemma_contributions_occur(items: Seq<IngredientView>, name: Seq<char>)
    ensures
        contributions_to(items, name).len() > 0 <==> exists|i: int|
            0 <= i < items.len() && (#[trigger] items[i]).name == name,
    decreases items.len(),
{
    if items.len() > 0 {
        lemma_contributions_occur(items.drop_last(), name);
        let front = items.drop_last();
        if items.last().name == name {
            assert(items[items.len() - 1].name == name);
        } else if contributions_to(items, name).len() > 0 {
            let i = choose|i: int| 0 <= i < front.len() && (#[trigger] front[i]).name == name;
            assert(items[i].name == name);
        } else {
            assert forall|i: int| 0 <= i < items.len() implies (#[trigger] items[i]).name
                != name by {
                if i < front.len() {
                    assert(front[i] == items[i]);
                }
            }
        }
    }
}

/// Entries whose names ascend bear different names.
pub proof fn lemma_names_differ(entries: Seq<EntryView>, a: int, b: int)
    requires
        names_ascend(entries),
        0 <= a < entries.len(),
        0 <= b < entries.len(),
        a != b,
    ensures
        entries[a].name != entries[b].name,
{
    lemma_lex_irreflexive(entries[a].name);
    if a < b {
        assert(lex_less(entries[a].name, entries[b].name));
    } else {
        assert(lex_less(entries[b].name, entries[a].name));
    }
}

/// The list of `items` and one more ingredient whose name has an entry: the
/// contribution joins that entry.
pub proof fn lemma_extend_entry(
    entries: Seq<EntryView>,
    items: Seq<IngredientView>,
    item: IngredientView,
    k: int,
)
    requires
        is_aggregation(entries, items),
        0 <= k < entries.len(),
        entries[k].name == item.name,
    ensures
        is_aggregation(
            entries.update(
                k,
                EntryView {
                    name: item.name,
                    contributions: entries[k].contributions.push(contribution_of(item)),
                },
            ),
            items.push(item),
        ),
{
    let grown = entries.update(
        k,
        EntryView {
            name: item.name,
            contributions: entries[k].contributions.push(contribution_of(item)),
        },
    );
    let more = items.push(item);
    assert(names_ascend(grown)) by {
        assert forall|a: int, b: int| 0 <= a < b < grown.len() implies lex_less(
            #[trigger] grown[a].name,
            #[trigger] grown[b].name,
        ) by {
            assert(grown[a].name == entries[a].name);
            assert(grown[b].name == entries[b].name);
        }
    }
    assert forall|j: int| 0 <= j < grown.len() implies (#[trigger] grown[j]).contributions.len()
        > 0 && grown[j].contributions == contributions_to(more, grown[j].name) by {
        lemma_contributions_push(items, item, grown[j].name);
        if j != k {
            lemma_names_differ(entries, j, k);
            assert(grown[j] == entries[j]);
        }
    }
    assert forall|i: int| 0 <= i < more.len() implies has_entry(grown, (#[trigger] more[i]).name) by {
        if i < items.len() {
            assert(more[i] == items[i]);
            let w = choose|w: int| 0 <= w < entries.len() && #[trigger] entries[w].name == items[i].name;
            assert(grown[w].name == items[i].name);
        } else {
            assert(grown[k].name == item.name);
        }
    }
}

/// The list of `items` and one more ingredient whose name has no entry: a
/// new entry takes its place among the names.
pub proof fn lemma_insert_entry(
    entries: Seq<EntryView>,
    items: Seq<IngredientView>,
    item: IngredientView,
    k: int,
)
    requires
        is_aggregation(entries, items),
        0 <= k <= entries.len(),
        forall|j: int| 0 <= j < k ==> lex_less(#[trigger] entries[j].name, item.name),
        k < entries.len() ==> lex_less(item.name, entries[k].name),
    ensures
        is_aggregation(
            entries.insert(
                k,
                EntryView { name: item.name, contributions: seq![contribution_of(item)] },
            ),
            items.push(item),
        ),
{
    let fresh = EntryView { name: item.name, contributions: seq![contribution_of(item)] };
    let grown = entries.insert(k, fresh);
    let more = items.push(item);
    assert forall|j: int| k <= j < entries.len() implies lex_less(
        item.name,
        #[trigger] entries[j].name,
    ) by {
        if j > k {
            assert(lex_less(entries[k].name, entries[j].name));
            lemma_lex_transitive(item.name, entries[k].name, entries[j].name);
        }
    }
    lemma_lex_irreflexive(item.name);
    assert(names_ascend(grown)) by {
        assert forall|a: int, b: int| 0 <= a < b < grown.len() implies lex_less(
            #[trigger] grown[a].name,
            #[trigger] grown[b].name,
        ) by {
            if b < k {
                assert(grown[a] == entries[a] && grown[b] == entries[b]);
            } else if b == k {
                assert(grown[a] == entries[a]);
            } else if a < k {
                assert(grown[a] == entries[a] && grown[b] == entries[b - 1]);
            } else if a == k {
                assert(grown[b] == entries[b - 1]);
            } else {
                assert(grown[a] == entries[a - 1] && grown[b] == entries[b - 1]);
            }
        }
    }
    assert(contributions_to(items, item.name).len() == 0) by {
        lemma_contributions_occur(items, item.name);
        if contributions_to(items, item.name).len() > 0 {
            let i = choose|i: int| 0 <= i < items.len() && (#[trigger] items[i]).name == item.name;
            let w = choose|w: int| 0 <= w < entries.len() && #[trigger] entries[w].name == items[i].name;
            if w < k {
                assert(lex_less(entries[w].name, item.name));
            } else {
                assert(lex_less(item.name, entries[w].name));
            }
        }
    }
    assert forall|j: int| 0 <= j < grown.len() implies (#[trigger] grown[j]).contributions.len()
        > 0 && grown[j].contributions == contributions_to(more, grown[j].name) by {
        lemma_contributions_push(items, item, grown[j].name);
        if j < k {
            assert(grown[j] == entries[j]);
        } else if j == k {
            assert(grown[j].contributions =~= contributions_to(items, item.name).push(
                contribution_of(item),
            ));
        } else {
            assert(grown[j] == entries[j - 1]);
        }
    }
    assert forall|i: int| 0 <= i < more.len() implies has_entry(grown, (#[trigger] more[i]).name) by {
        if i < items.len() {
            assert(more[i] == items[i]);
            let w = choose|w: int| 0 <= w < entries.len() && #[trigger] entries[w].name == items[i].name;
            if w < k {
                assert(grown[w].name == items[i].name);
            } else {
                assert(grown[w + 1].name == items[i].name);
            }
        } else {
            assert(grown[k].name == item.name);
        }
    }
}

/// Merges `items` into the shopping list.
pub fn aggregate(items: &Vec<Ingredient>) -> (entries: Vec<AggregatedEntry>)
    ensures
        is_aggregation(entry_views(entries@), ingredient_views(items@)),
        entry_views(entries@) == aggregation_of(ingredient_views(items@)),
{
    let mut entries: Vec<AggregatedEntry> = Vec::new();
    let mut keys: Vec<Vec<char>> = Vec::new();
    let mut i: usize = 0;
    while i < items.len()
        invariant
            i <= items.len(),
            keys.len() == entries.len(),
            forall|j: int| 0 <= j < keys.len() ==> (#[trigger] keys@[j])@ == entries@[j].name@,
            is_aggregation(entry_views(entries@), ingredient_views(items@).take(i as int)),
        decreases items.len() - i,
    {
        let item = &items[i];
        let name = to_chars(item.name.as_str());
        let contribution = Contribution {
            amount: item.amount.clone(),
            measure: item.measure.clone(),
            source_dish: item.source_dish.clone(),
        };
        let ghost before = entry_views(entries@);
        let ghost seen = ingredient_views(items@).take(i as int);
        assert(ingredient_views(items@).take(i + 1) == seen.push(item@));
        let mut k: usize = 0;
        while k < keys.len() && text_less(&keys[k], &name)
            invariant
                k <= keys.len(),
                keys.len() == entries.len(),
                name@ == item.name@,
                forall|j: int| 0 <= j < keys.len() ==> (#[trigger] keys@[j])@ == entries@[j].name@,
                forall|j: int|
                    0 <= j < k ==> lex_less(#[trigger] entry_views(entries@)[j].name, item.name@),
            decreases keys.len() - k,
        {
            k += 1;
        }
        if k < keys.len() && same_text(&keys[k], &name) {
            let mut entry = entries.remove(k);
            let ghost old_entry = entry@;
            entry.contributions.push(contribution);
            assert(entry@.contributions == old_entry.contributions.push(contribution_of(item@)));
            entries.insert(k, entry);
            proof {
                lemma_extend_entry(before, seen, item@, k as int);
                assert(entry_views(entries@) =~= before.update(
                    k as int,
                    EntryView {
                        name: item@.name,
                        contributions: before[k as int].contributions.push(contribution_of(item@)),
                    },
                ));
            }
        } else {
            proof {
                if k < keys.len() {
                    lemma_lex_total(item@.name, before[k as int].name);
                }
                lemma_insert_entry(before, seen, item@, k as int);
            }
            let mut contributions: Vec<Contribution> = Vec::new();
            contributions.push(contribution);
            let entry = AggregatedEntry { name: item.name.clone(), contributions };
            assert(entry@.contributions =~= seq![contribution_of(item@)]);
            entries.insert(k, entry);
            keys.insert(k, name);
            assert(entry_views(entries@) =~= before.insert(
                k as int,
                EntryView { name: item@.name, contributions: seq![contribution_of(item@)] },
            ));
        }
        i += 1;
    }
    assert(ingredient_views(items@).take(i as int) == ingredient_views(items@));
    proof {
        lemma_aggregation_is(entry_views(entries@), ingredient_views(items@));
    }
    entries
}

/// Whether the texts of `names` ascend strictly in dictionary order.
pub open spec fn texts_ascend(names: Seq<Seq<char>>) -> bool {
    forall|a: int, b: int| 0 <= a < b < names.len() ==> lex_less(names[a], names[b])
}

/// Two ascending sequences that hold the same texts are one sequence.
pub proof fn lemma_ascending_unique(x: Seq<Seq<char>>, y: Seq<Seq<char>>)
    requires
        texts_ascend(x),
        texts_ascend(y),
        forall|t: Seq<char>| x.contains(t) <==> y.contains(t),
    ensures
        x == y,
    decreases x.len(),
{
    if x.len() == 0 {
        if y.len() > 0 {
            assert(y.contains(y[0]));
        }
        assert(x =~= y);
    } else {
        let top = x.last();
        assert(x.contains(top));
        assert(y.contains(top));
        let at = choose|at: int| 0 <= at < y.len() && y[at] == top;
        if at < y.len() - 1 {
            let other = y.last();
            assert(y.contains(other));
            assert(x.contains(other));
            let back = choose|back: int| 0 <= back < x.len() && x[back] == other;
            assert(lex_less(top, other));
            if back < x.len() - 1 {
                assert(lex_less(other, top));
                lemma_lex_transitive(top, other, top);
            }
            lemma_lex_irreflexive(top);
        }
        let xs = x.drop_last();
        let ys = y.drop_last();
        assert forall|t: Seq<char>| xs.contains(t) <==> ys.contains(t) by {
            lemma_lex_irreflexive(top);
            if xs.contains(t) {
                let i = choose|i: int| 0 <= i < xs.len() && xs[i] == t;
                assert(x[i] == t);
                assert(lex_less(x[i], x[x.len() - 1]));
                assert(x.contains(t));
                let j = choose|j: int| 0 <= j < y.len() && y[j] == t;
                assert(ys[j] == t);
            }
            if ys.contains(t) {
                let j = choose|j: int| 0 <= j < ys.len() && ys[j] == t;
                assert(y[j] == t);
                assert(lex_less(y[j], y[y.len() - 1]));
                assert(y.contains(t));
                let i = choose|i: int| 0 <= i < x.len() && x[i] == t;
                assert(xs[i] == t);
            }
        }
        assert(texts_ascend(xs)) by {
            assert forall|a: int, b: int| 0 <= a < b < xs.len() implies lex_less(xs[a], xs[b]) by {
                assert(lex_less(x[a], x[b]));
            }
        }
        assert(texts_ascend(ys)) by {
            assert forall|a: int, b: int| 0 <= a < b < ys.len() implies lex_less(ys[a], ys[b]) by {
                assert(lex_less(y[a], y[b]));
            }
        }
        lemma_ascending_unique(xs, ys);
        assert(x =~= xs.push(top));
        assert(y =~= ys.push(top));
    }
}

/// The names of `entries`, in order.
pub open spec fn entry_names(entries: Seq<EntryView>) -> Seq<Seq<char>> {
    Seq::new(entries.len(), |k: int| entries[k].name)
}

/// A set of ingredients has one shopping list and no other.
pub proof fn lemma_aggregation_unique(
    first: Seq<EntryView>,
    second: Seq<EntryView>,
    items: Seq<IngredientView>,
)
    requires
        is_aggregation(first, items),
        is_aggregation(second, items),
    ensures
        first == second,
{
    let x = entry_names(first);
    let y = entry_names(second);
    assert(texts_ascend(x)) by {
        assert forall|a: int, b: int| 0 <= a < b < x.len() implies lex_less(x[a], x[b]) by {
            assert(lex_less(first[a].name, first[b].name));
        }
    }
    assert(texts_ascend(y)) by {
        assert forall|a: int, b: int| 0 <= a < b < y.len() implies lex_less(y[a], y[b]) by {
            assert(lex_less(second[a].name, second[b].name));
        }
    }
    assert forall|t: Seq<char>| x.contains(t) <==> y.contains(t) by {
        lemma_contributions_occur(items, t);
        if x.contains(t) {
            let k = choose|k: int| 0 <= k < x.len() && x[k] == t;
            assert(first[k].contributions.len() > 0);
            let i = choose|i: int| 0 <= i < items.len() && (#[trigger] items[i]).name == t;
            assert(has_entry(second, items[i].name));
            let w = choose|w: int| 0 <= w < second.len() && #[trigger] second[w].name == t;
            assert(y[w] == t);
        }
        if y.contains(t) {
            let k = choose|k: int| 0 <= k < y.len() && y[k] == t;
            assert(second[k].contributions.len() > 0);
            let i = choose|i: int| 0 <= i < items.len() && (#[trigger] items[i]).name == t;
            assert(has_entry(first, items[i].name));
            let w = choose|w: int| 0 <= w < first.len() && #[trigger] first[w].name == t;
            assert(x[w] == t);
        }
    }
    lemma_ascending_unique(x, y);
    assert(x.len() == first.len() && y.len() == second.len());
    assert forall|k: int| 0 <= k < first.len() implies first[k] == second[k] by {
        assert(x[k] == y[k]);
        assert(first[k].contributions == contributions_to(items, first[k].name));
        assert(second[k].contributions == contributions_to(items, second[k].name));
    }
    assert(first =~= second);
}

/// Where `name` belongs among `entries`: the first place at or after `from`
/// whose name does not come before it.
pub open spec fn place_of(entries: Seq<EntryView>, name: Seq<char>, from: int) -> int
    decreases entries.len() - from,
{
    if 0 <= from < entries.len() && lex_less(entries[from].name, name) {
        place_of(entries, name, from + 1)
    } else {
        from
    }
}

/// All names between `from` and the place of `name` come before it, and the
/// name at its place does not.
pub proof fn lemma_place_of(entries: Seq<EntryView>, name: Seq<char>, from: int)
    requires
        0 <= from <= entries.len(),
    ensures
        from <= place_of(entries, name, from) <= entries.len(),
        forall|j: int|
            from <= j < place_of(entries, name, from) ==> lex_less(
                #[trigger] entries[j].name,
                name,
            ),
        place_of(entries, name, from) < entries.len() ==> !lex_less(
            entries[place_of(entries, name, from)].name,
            name,
        ),
    decreases entries.len() - from,
{
    if from < entries.len() && lex_less(entries[from].name, name) {
        lemma_place_of(entries, name, from + 1);
    }
}

/// The shopping list of `items`: the one sequence of entries that
/// [`is_aggregation`] holds of.
pub open spec fn aggregation_of(items: Seq<IngredientView>) -> Seq<EntryView> {
    choose|entries: Seq<EntryView>| is_aggregation(entries, items)
}

/// Every sequence of ingredients has a shopping list.
pub proof fn lemma_aggregation_exists(items: Seq<IngredientView>)
    ensures
        is_aggregation(aggregation_of(items), items),
    decreases items.len(),
{
    if items.len() == 0 {
        assert(is_aggregation(Seq::<EntryView>::empty(), items));
    } else {
        let front = items.drop_last();
        let item = items.last();
        lemma_aggregation_exists(front);
        let entries = aggregation_of(front);
        let k = place_of(entries, item.name, 0);
        lemma_place_of(entries, item.name, 0);
        assert(front.push(item) == items);
        if k < entries.len() && entries[k].name == item.name {
            lemma_extend_entry(entries, front, item, k);
        } else {
            if k < entries.len() {
                lemma_lex_total(item.name, entries[k].name);
            }
            lemma_insert_entry(entries, front, item, k);
        }
    }
}

/// The entries that [`is_aggregation`] holds of are the shopping list.
pub proof fn lemma_aggregation_is(entries: Seq<EntryView>, items: Seq<IngredientView>)
    requires
        is_aggregation(entries, items),
    ensures
        entries == aggregation_of(items),
{
    lemma_aggregation_exists(items);
    lemma_aggregation_unique(entries, aggregation_of(items), items);
}

/// The shopping list does not depend on the order in which the ingredients
/// came, as long as the ingredients of one name keep their order among
/// themselves: two inputs that hold, for every name, the same contributions
/// in the same order have the same list.
pub proof fn lemma_order_independent(items: Seq<IngredientView>, rearranged: Seq<IngredientView>)
    requires
        forall|name: Seq<char>|
            #[trigger] contributions_to(items, name) == contributions_to(rearranged, name),
    ensures
        aggregation_of(items) == aggregation_of(rearranged),
        shopping_list(aggregation_of(items)) == shopping_list(aggregation_of(rearranged)),
{
    let list = aggregation_of(items);
    let other = aggregation_of(rearranged);
    lemma_aggregation_exists(items);
    lemma_aggregation_exists(rearranged);
    assert forall|i: int| 0 <= i < rearranged.len() implies has_entry(
        list,
        (#[trigger] rearranged[i]).name,
    ) by {
        let name = rearranged[i].name;
        lemma_contributions_occur(rearranged, name);
        lemma_contributions_occur(items, name);
        assert(contributions_to(items, name) == contributions_to(rearranged, name));
        let w = choose|w: int| 0 <= w < items.len() && (#[trigger] items[w]).name == name;
        assert(has_entry(list, items[w].name));
    }
    assert forall|k: int| 0 <= k < list.len() implies (#[trigger] list[k]).contributions
        == contributions_to(rearranged, list[k].name) by {
        assert(contributions_to(items, list[k].name) == contributions_to(rearranged, list[k].name));
    }
    lemma_aggregation_unique(list, other, rearranged);
}

/// Conversely, two inputs that have the same shopping list hold, for every
/// name, the same contributions in the same order. So the list changes
/// exactly where ingredients of one name change their order or their
/// content.
pub proof fn lemma_same_list_same_contributions(
    items: Seq<IngredientView>,
    rearranged: Seq<IngredientView>,
    name: Seq<char>,
)
    requires
        aggregation_of(items) == aggregation_of(rearranged),
    ensures
        contributions_to(items, name) == contributions_to(rearranged, name),
{
    let list = aggregation_of(items);
    lemma_aggregation_exists(items);
    lemma_aggregation_exists(rearranged);
    lemma_contributions_occur(items, name);
    lemma_contributions_occur(rearranged, name);
    if contributions_to(items, name).len() > 0 {
        let i = choose|i: int| 0 <= i < items.len() && (#[trigger] items[i]).name == name;
        assert(has_entry(list, items[i].name));
        let k = choose|k: int| 0 <= k < list.len() && #[trigger] list[k].name == name;
        assert(list[k].contributions == contributions_to(items, name));
        assert(list[k].contributions == contributions_to(rearranged, name));
    } else if contributions_to(rearranged, name).len() > 0 {
        let i = choose|i: int|
            0 <= i < rearranged.len() && (#[trigger] rearranged[i]).name == name;
        assert(has_entry(list, rearranged[i].name));
        let k = choose|k: int| 0 <= k < list.len() && #[trigger] list[k].name == name;
        assert(list[k].contributions == contributions_to(items, name));
    } else {
        assert(contributions_to(items, name) =~= contributions_to(rearranged, name));
    }
}

/// What two runs of ingredients add to a name, one run after the other, is
/// what the first adds followed by what the second adds.
pub proof fn lemma_contributions_concat(
    first: Seq<IngredientView>,
    second: Seq<IngredientView>,
    name: Seq<char>,
)
    ensures
        contributions_to(first + second, name) == contributions_to(first, name) + contributions_to(
            second,
            name,
        ),
    decreases second.len(),
{
    if second.len() == 0 {
        assert(first + second =~= first);
        assert(contributions_to(first, name) + Seq::<ContributionView>::empty()
            =~= contributions_to(first, name));
    } else {
        let front = second.drop_last();
        lemma_contributions_concat(first, front, name);
        assert((first + second).drop_last() =~= first + front);
        assert((first + second).last() == second.last());
        if second.last().name == name {
            assert(contributions_to(first, name) + contributions_to(front, name).push(
                contribution_of(second.last()),
            ) =~= (contributions_to(first, name) + contributions_to(front, name)).push(
                contribution_of(second.last()),
            ));
        }
    }
}

/// Two dishes that stand side by side and share no ingredient name can
/// change places: the shopping list stays the same. So the list is the same
/// in whatever order the dishes come, as long as no two dishes that share an
/// ingredient name pass each other.
pub proof fn lemma_dishes_commute(
    before: Seq<IngredientView>,
    one: Seq<IngredientView>,
    other: Seq<IngredientView>,
    after: Seq<IngredientView>,
)
    requires
        forall|i: int, j: int|
            0 <= i < one.len() && 0 <= j < other.len() ==> (#[trigger] one[i]).name != (
            #[trigger] other[j]).name,
    ensures
        aggregation_of(before + one + other + after) == aggregation_of(
            before + other + one + after,
        ),
        shopping_list(aggregation_of(before + one + other + after)) == shopping_list(
            aggregation_of(before + other + one + after),
        ),
{
    let items = before + one + other + after;
    let rearranged = before + other + one + after;
    assert forall|name: Seq<char>| #[trigger]
        contributions_to(items, name) == contributions_to(rearranged, name) by {
        lemma_contributions_concat(before + one + other, after, name);
        lemma_contributions_concat(before + one, other, name);
        lemma_contributions_concat(before, one, name);
        lemma_contributions_concat(before + other + one, after, name);
        lemma_contributions_concat(before + other, one, name);
        lemma_contributions_concat(before, other, name);
        lemma_contributions_occur(one, name);
        lemma_contributions_occur(other, name);
        let a = contributions_to(one, name);
        let b = contributions_to(other, name);
        if a.len() > 0 && b.len() > 0 {
            let i = choose|i: int| 0 <= i < one.len() && (#[trigger] one[i]).name == name;
            let j = choose|j: int| 0 <= j < other.len() && (#[trigger] other[j]).name == name;
            assert(one[i].name != other[j].name);
        } else if a.len() == 0 {
            assert(a + b =~= b + a);
        } else {
            assert(a + b =~= b + a);
        }
        let head = contributions_to(before, name);
        let tail = contributions_to(after, name);
        assert(head + a + b + tail =~= head + (a + b) + tail);
        assert(head + b + a + tail =~= head + (b + a) + tail);
    }
    lemma_order_independent(items, rearranged);
}

/// What is written for each contribution: its amount and its measure, with
/// nothing in between.
pub open spec fn quantities(contributions: Seq<ContributionView>) -> Seq<Seq<char>> {
    Seq::new(contributions.len(), |i: int| contributions[i].amount + contributions[i].measure)
}

/// The dish of each contribution.
pub open spec fn sources(contributions: Seq<ContributionView>) -> Seq<Seq<char>> {
    Seq::new(contributions.len(), |i: int| contributions[i].source_dish)
}

/// The line of one entry: a list marker and the name, then in square
/// brackets the quantities, then in round brackets the dishes, each list
/// separated by a comma and a space.
pub open spec fn entry_line(entry: EntryView) -> Seq<char> {
    seq!['-', ' '] + entry.name + seq![' ', '['] + join(
        quantities(entry.contributions),
        seq![',', ' '],
    ) + seq![']', ' ', '('] + join(sources(entry.contributions), seq![',', ' ']) + seq![')']
}

/// The lines of all entries, in order.
pub open spec fn entry_lines(entries: Seq<EntryView>) -> Seq<Seq<char>> {
    Seq::new(entries.len(), |k: int| entry_line(entries[k]))
}

/// The list as text: one line for each entry, a line feed between each two.
pub open spec fn shopping_list(entries: Seq<EntryView>) -> Seq<char> {
    join(entry_lines(entries), seq!['\n'])
}

/// The line of one entry, as characters.
pub fn line_chars(entry: &AggregatedEntry) -> (out: Vec<char>)
    ensures
        out@ == entry_line(entry@),
{
    let mut amounts: Vec<Vec<char>> = Vec::new();
    let mut dishes: Vec<Vec<char>> = Vec::new();
    let mut i: usize = 0;
    while i < entry.contributions.len()
        invariant
            i <= entry.contributions.len(),
            amounts.len() == i,
            dishes.len() == i,
            forall|j: int|
                0 <= j < i ==> (#[trigger] amounts@[j])@ == entry.contributions@[j].amount@
                    + entry.contributions@[j].measure@,
            forall|j: int|
                0 <= j < i ==> (#[trigger] dishes@[j])@ == entry.contributions@[j].source_dish@,
        decreases entry.contributions.len() - i,
    {
        let contribution = &entry.contributions[i];
        let mut quantity = to_chars(contribution.amount.as_str());
        append(&mut quantity, &to_chars(contribution.measure.as_str()));
        amounts.push(quantity);
        dishes.push(to_chars(contribution.source_dish.as_str()));
        i += 1;
    }
    assert(views(amounts@) =~= quantities(entry@.contributions));
    assert(views(dishes@) =~= sources(entry@.contributions));
    let comma: Vec<char> = vec![',', ' '];
    let mut out: Vec<char> = vec!['-', ' '];
    append(&mut out, &to_chars(entry.name.as_str()));
    let open_square: Vec<char> = vec![' ', '['];
    append(&mut out, &open_square);
    append(&mut out, &join_all(&amounts, &comma));
    let open_round: Vec<char> = vec![']', ' ', '('];
    assert(open_round@ == seq![']', ' ', '(']);
    append(&mut out, &open_round);
    append(&mut out, &join_all(&dishes, &comma));
    out.push(')');
    out
}

/// The line of one entry.
pub fn render_entry(entry: &AggregatedEntry) -> (out: String)
    ensures
        out@ == entry_line(entry@),
{
    text_of(&line_chars(entry))
}

/// The list as text, one line for each entry.
pub fn render(entries: &Vec<AggregatedEntry>) -> (out: String)
    ensures
        out@ == shopping_list(entry_views(entries@)),
{
    let mut lines: Vec<Vec<char>> = Vec::new();
    let mut k: usize = 0;
    while k < entries.len()
        invariant
            k <= entries.len(),
            lines.len() == k,
            forall|j: int| 0 <= j < k ==> (#[trigger] lines@[j])@ == entry_line(entries@[j]@),
        decreases entries.len() - k,
    {
        lines.push(line_chars(&entries[k]));
        k += 1;
    }
    assert(views(lines@) =~= entry_lines(entry_views(entries@)));
    let feed: Vec<char> = vec!['\n'];
    assert(feed@ == seq!['\n']);
    text_of(&join_all(&lines, &feed))
}

/// The ingredients of all dishes, as they came.
#[derive(Debug, Clone, PartialEq, Eq)]
pub struct IngredientList {
    pub items: Vec<Ingredient>,
}

impl IngredientList {
    /// The shopping list of these ingredients.
    pub fn accumulate(&self) -> (entries: Vec<AggregatedEntry>)
        ensures
            is_aggregation(entry_views(entries@), ingredient_views(self.items@)),
            entry_views(entries@) == aggregation_of(ingredient_views(self.items@)),
    {
        aggregate(&self.items)
    }

    /// The shopping list of these ingredients as text, one line for each
    /// name.
    pub fn as_md_list(&self) -> (out: String)
        ensures
            out@ == shopping_list(aggregation_of(ingredient_views(self.items@))),
    {
        let entries = aggregate(&self.items);
        render(&entries)
    }
}

} // verus!
