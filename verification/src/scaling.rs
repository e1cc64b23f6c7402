//! Scaling: for how many a dish is cooked, and what that does to its
//! ingredients.
//!
//! The library decides the head count of each reference and checks the
//! recipe's own. Multiplying the amounts is the caller's part; the library
//! puts the new amounts in their places and leaves measure, name and dish
//! as they are.

use crate::error::{ParseError, ParseFault};
use crate::ingredient::{ingredient_views, Ingredient, IngredientView};
use crate::plan::{
    day_views, reference_views, slot_views, DayView, PlanView, ReferenceView, SlotView, WeekPlan,
};
use crate::recipe::RecipeDocument;
use crate::text::string_views;
use vstd::prelude::*;

verus! {

/// The head count that a reference is cooked for: its own where it has one,
/// else its day's, else the plan's.
pub open spec fn effective_headcount(explicit: Option<u64>, day: Option<u64>, default: u64) -> u64 {
    match explicit {
        Some(n) => n,
        None => match day {
            Some(n) => n,
            None => default,
        },
    }
}

/// The head count that a reference is cooked for.
pub fn requested_headcount(explicit: Option<u64>, day: Option<u64>, default: u64) -> (r: u64)
    ensures
        r == effective_headcount(explicit, day, default),
{
    match explicit {
        Some(n) => n,
        None => match day {
            Some(n) => n,
            None => default,
        },
    }
}

/// By how much the amounts of a recipe grow: `requested` for each
/// `declared`.
#[derive(Debug, Clone, Copy, PartialEq, Eq, Structural)]
pub struct Scale {
    /// The head count to cook for.
    pub requested: u64,
    /// The head count that the recipe is written for; never zero.
    pub declared: u64,
}

impl Scale {
    /// Whether the scale can be applied: the recipe is written for somebody.
    pub open spec fn well_formed(self) -> bool {
        self.declared > 0
    }

    /// Whether the scale leaves every amount as it is.
    pub open spec fn is_one_to_one(self) -> bool {
        self.requested == self.declared
    }
}

/// The scale for cooking `recipe` for `requested`. A recipe written for
/// nobody cannot be scaled.
pub fn scale_for(recipe: &RecipeDocument, requested: u64) -> (r: Result<Scale, ParseError>)
    ensures
        match r {
            Ok(scale) => scale.well_formed() && scale == (Scale {
                requested,
                declared: recipe.declared_participants,
            }),
            Err(e) => recipe.declared_participants == 0 && e@
                == (ParseFault::InvalidParticipantCount { path: recipe.path@ }),
        },
{
    if recipe.declared_participants == 0 {
        Err(ParseError::InvalidParticipantCount { path: recipe.path.clone() })
    } else {
        Ok(Scale { requested, declared: recipe.declared_participants })
    }
}

/// The ingredient with another amount.
pub open spec fn with_amount(item: IngredientView, amount: Seq<char>) -> IngredientView {
    IngredientView {
        amount,
        measure: item.measure,
        name: item.name,
        source_dish: item.source_dish,
    }
}

/// The scaled ingredients. One to one they are the ingredients themselves.
/// Otherwise each takes the amount that stands at its place in `amounts`,
/// which must hold one amount for each ingredient.
pub open spec fn rescaled(items: Seq<IngredientView>, scale: Scale, amounts: Seq<Seq<char>>)
    -> Option<Seq<IngredientView>> {
    if scale.is_one_to_one() {
        Some(items)
    } else if amounts.len() == items.len() {
        Some(Seq::new(items.len(), |i: int| with_amount(items[i], amounts[i])))
    } else {
        None
    }
}

/// Scales `items`. The caller has multiplied: `amounts` holds, for each
/// ingredient in order, its amount times `requested` over `declared`, in
/// decimal notation. One to one the amounts stay as they are and `amounts`
/// is not looked at; otherwise it must hold one amount for each ingredient.
pub fn rescale(items: Vec<Ingredient>, scale: Scale, amounts: Vec<String>) -> (r: Option<
    Vec<Ingredient>,
>)
    ensures
        match r {
            Some(scaled) => rescaled(ingredient_views(items@), scale, string_views(amounts@))
                == Some(ingredient_views(scaled@)),
            None => rescaled(ingredient_views(items@), scale, string_views(amounts@)).is_none(),
        },
{
    if scale.requested == scale.declared {
        return Some(items);
    }
    if amounts.len() != items.len() {
        return None;
    }
    let mut scaled: Vec<Ingredient> = Vec::new();
    let mut i: usize = 0;
    while i < items.len()
        invariant
            i <= items.len(),
            amounts.len() == items.len(),
            scaled.len() == i,
            forall|j: int|
                0 <= j < i ==> (#[trigger] scaled@[j])@ == with_amount(items@[j]@, amounts@[j]@),
        decreases items.len() - i,
    {
        let item = &items[i];
        scaled.push(
            Ingredient {
                amount: amounts[i].clone(),
                measure: item.measure.clone(),
                name: item.name.clone(),
                source_dish: item.source_dish.clone(),
            },
        );
        i += 1;
    }
    Some(scaled)
}

/// Cooking for as many as the recipe is written for changes nothing.
pub proof fn lemma_one_to_one_keeps_amounts(
    items: Seq<IngredientView>,
    scale: Scale,
    amounts: Seq<Seq<char>>,
)
    requires
        scale.requested == scale.declared,
    ensures
        rescaled(items, scale, amounts) == Some(items),
{
}

/// Scaling changes amounts only: measure, name and dish of each ingredient
/// stay, and so does the number of ingredients.
pub proof fn lemma_rescaled_keeps_rest(
    items: Seq<IngredientView>,
    scale: Scale,
    amounts: Seq<Seq<char>>,
)
    requires
        rescaled(items, scale, amounts).is_some(),
    ensures
        rescaled(items, scale, amounts).unwrap().len() == items.len(),
        forall|i: int|
            0 <= i < items.len() ==> {
                let scaled = #[trigger] rescaled(items, scale, amounts).unwrap()[i];
                scaled.measure == items[i].measure && scaled.name == items[i].name
                    && scaled.source_dish == items[i].source_dish
            },
{
}

/// A dish to cook, and for how many.
#[derive(Debug, Clone, PartialEq, Eq)]
pub struct DishRequest {
    pub dish_name: String,
    pub headcount: u64,
}

/// The mathematical content of a [`DishRequest`].
pub struct RequestView {
    pub dish_name: Seq<char>,
    pub headcount: u64,
}

impl View for DishRequest {
    type V = RequestView;

    open spec fn view(&self) -> RequestView {
        RequestView { dish_name: self.dish_name@, headcount: self.headcount }
    }
}

/// The views of a vector of requests.
pub open spec fn request_views(v: Seq<DishRequest>) -> Seq<RequestView> {
    Seq::new(v.len(), |i: int| v[i]@)
}

/// The request that a reference makes on a day of head count `day`, in a
/// plan of head count `default`.
pub open spec fn request_of(reference: ReferenceView, day: Option<u64>, default: u64)
    -> RequestView {
    RequestView {
        dish_name: reference.dish_name,
        headcount: effective_headcount(reference.explicit_headcount, day, default),
    }
}

/// The requests of the references of one slot, in order.
pub open spec fn slot_requests(references: Seq<ReferenceView>, day: Option<u64>, default: u64)
    -> Seq<RequestView> {
    Seq::new(references.len(), |i: int| request_of(references[i], day, default))
}

/// The requests of the slots of one day, slot after slot.
pub open spec fn day_requests(slots: Seq<SlotView>, day: Option<u64>, default: u64) -> Seq<
    RequestView,
>
    decreases slots.len(),
{
    if slots.len() == 0 {
        Seq::empty()
    } else {
        day_requests(slots.drop_last(), day, default) + slot_requests(
            slots.last().references,
            day,
            default,
        )
    }
}

/// The requests of some days, day after day.
pub open spec fn days_requests(days: Seq<DayView>, default: u64) -> Seq<RequestView>
    decreases days.len(),
{
    if days.len() == 0 {
        Seq::empty()
    } else {
        days_requests(days.drop_last(), default) + day_requests(
            days.last().slots,
            days.last().headcount,
            default,
        )
    }
}

/// All that a plan asks to be cooked, in the order written, each dish with
/// the head count that holds for it.
pub open spec fn plan_requests(plan: PlanView) -> Seq<RequestView> {
    days_requests(plan.days, plan.default_headcount)
}

/// All that `plan` asks to be cooked, in the order written, each dish with
/// the head count that holds for it.
pub fn dish_requests(plan: &WeekPlan) -> (out: Vec<DishRequest>)
    ensures
        request_views(out@) == plan_requests(plan@),
{
    let default = plan.default_headcount;
    let mut out: Vec<DishRequest> = Vec::new();
    let mut d: usize = 0;
    while d < plan.days.len()
        invariant
            d <= plan.days.len(),
            default == plan.default_headcount,
            request_views(out@) == days_requests(day_views(plan.days@).take(d as int), default),
        decreases plan.days.len() - d,
    {
        let day = &plan.days[d];
        let ghost done = request_views(out@);
        let ghost slots = slot_views(day.slots@);
        let mut s: usize = 0;
        while s < day.slots.len()
            invariant
                s <= day.slots.len(),
                slots == slot_views(day.slots@),
                request_views(out@) == done + day_requests(
                    slots.take(s as int),
                    day.headcount,
                    default,
                ),
            decreases day.slots.len() - s,
        {
            let slot = &day.slots[s];
            let ghost before = request_views(out@);
            let ghost references = reference_views(slot.references@);
            let mut r: usize = 0;
            while r < slot.references.len()
                invariant
                    r <= slot.references.len(),
                    references == reference_views(slot.references@),
                    request_views(out@) == before + slot_requests(
                        references,
                        day.headcount,
                        default,
                    ).take(r as int),
                decreases slot.references.len() - r,
            {
                let reference = &slot.references[r];
                let request = DishRequest {
                    dish_name: reference.dish_name.clone(),
                    headcount: requested_headcount(
                        reference.explicit_headcount,
                        day.headcount,
                        default,
                    ),
                };
                let ghost so_far = request_views(out@);
                out.push(request);
                assert(request_views(out@) =~= so_far.push(request@));
                r += 1;
            }
            assert(slots.take(s + 1).drop_last() =~= slots.take(s as int));
            s += 1;
        }
        assert(slots.take(s as int) =~= slots);
        assert(day_views(plan.days@).take(d + 1).drop_last() =~= day_views(plan.days@).take(
            d as int,
        ));
        d += 1;
    }
    assert(day_views(plan.days@).take(d as int) =~= day_views(plan.days@));
    out
}

} // verus!
