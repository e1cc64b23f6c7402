//! The week plan: days, their time slots, and the dishes that each slot
//! refers to.

use vstd::prelude::*;

verus! {

/// A dish named in the plan, and for how many it is cooked there.
#[derive(Debug, Clone, PartialEq, Eq)]
pub struct MealReference {
    /// The name of the dish, as written between the double brackets.
    pub dish_name: String,
    /// The head count written behind the reference, if any.
    pub explicit_headcount: Option<u64>,
}

/// One time slot of one day.
#[derive(Debug, Clone, PartialEq, Eq)]
pub struct MealSlot {
    /// What the slot is called.
    pub label: String,
    /// The dishes of the slot, in the order written.
    pub references: Vec<MealReference>,
    /// Whether the slot calls for a shopping trip.
    pub shopping_flag: bool,
}

/// One day of the plan.
#[derive(Debug, Clone, PartialEq, Eq)]
pub struct Day {
    /// The day's heading, without its head count.
    pub heading: String,
    /// The head count of the day, if the heading gives one.
    pub headcount: Option<u64>,
    /// The day's slots, in the order written.
    pub slots: Vec<MealSlot>,
}

/// A calendar date.
#[derive(Debug, Clone, Copy, PartialEq, Eq)]
pub struct PlanDate {
    pub year: i32,
    /// From 1 to 12.
    pub month: u32,
    /// From 1 to 31.
    pub day: u32,
}

/// A whole plan.
#[derive(Debug, Clone, PartialEq, Eq)]
pub struct WeekPlan {
    /// The first day of the plan.
    pub start_date: PlanDate,
    /// The head count of every day and dish that names none of its own.
    pub default_headcount: u64,
    /// The days, in the order written.
    pub days: Vec<Day>,
}

/// The mathematical content of a [`MealReference`].
pub struct ReferenceView {
    pub dish_name: Seq<char>,
    pub explicit_headcount: Option<u64>,
}

/// The mathematical content of a [`MealSlot`].
pub struct SlotView {
    pub label: Seq<char>,
    pub references: Seq<ReferenceView>,
    pub shopping_flag: bool,
}

/// The mathematical content of a [`Day`].
pub struct DayView {
    pub heading: Seq<char>,
    pub headcount: Option<u64>,
    pub slots: Seq<SlotView>,
}

/// The mathematical content of a [`WeekPlan`].
pub struct PlanView {
    pub start_date: PlanDate,
    pub default_headcount: u64,
    pub days: Seq<DayView>,
}

impl View for MealReference {
    type V = ReferenceView;

    open spec fn view(&self) -> ReferenceView {
        ReferenceView { dish_name: self.dish_name@, explicit_headcount: self.explicit_headcount }
    }
}

/// The views of a vector of references.
pub open spec fn reference_views(v: Seq<MealReference>) -> Seq<ReferenceView> {
    Seq::new(v.len(), |i: int| v[i]@)
}

impl View for MealSlot {
    type V = SlotView;

    open spec fn view(&self) -> SlotView {
        SlotView {
            label: self.label@,
            references: reference_views(self.references@),
            shopping_flag: self.shopping_flag,
        }
    }
}

/// The views of a vector of slots.
pub open spec fn slot_views(v: Seq<MealSlot>) -> Seq<SlotView> {
    Seq::new(v.len(), |i: int| v[i]@)
}

impl View for Day {
    type V = DayView;

    open spec fn view(&self) -> DayView {
        DayView { heading: self.heading@, headcount: self.headcount, slots: slot_views(self.slots@) }
    }
}

/// The views of a vector of days.
pub open spec fn day_views(v: Seq<Day>) -> Seq<DayView> {
    Seq::new(v.len(), |i: int| v[i]@)
}

impl View for WeekPlan {
    type V = PlanView;

    open spec fn view(&self) -> PlanView {
        PlanView {
            start_date: self.start_date,
            default_headcount: self.default_headcount,
            days: day_views(self.days@),
        }
    }
}

impl PlanDate {
    /// Whether month and day lie in the ranges of a calendar.
    pub open spec fn in_range(self) -> bool {
        1 <= self.month <= 12 && 1 <= self.day <= 31
    }
}

/// A copy of `reference`.
pub fn copy_reference(reference: &MealReference) -> (out: MealReference)
    ensures
        out@ == reference@,
{
    MealReference {
        dish_name: reference.dish_name.clone(),
        explicit_headcount: reference.explicit_headcount,
    }
}

/// A copy of `references`.
pub fn copy_references(references: &Vec<MealReference>) -> (out: Vec<MealReference>)
    ensures
        reference_views(out@) == reference_views(references@),
{
    let mut out: Vec<MealReference> = Vec::new();
    let mut i: usize = 0;
    while i < references.len()
        invariant
            i <= references.len(),
            out.len() == i,
            forall|j: int| 0 <= j < i ==> (#[trigger] out@[j])@ == references@[j]@,
        decreases references.len() - i,
    {
        out.push(copy_reference(&references[i]));
        i += 1;
    }
    out
}

} // verus!
