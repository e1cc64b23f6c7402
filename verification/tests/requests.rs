use mealplan::loader::{plan_from, Dialect};
use mealplan::plan::{Day, MealReference, MealSlot, PlanDate, WeekPlan};
use mealplan::scaling::{dish_requests, DishRequest};

fn reference(name: &str, headcount: Option<u64>) -> MealReference {
    MealReference { dish_name: name.to_string(), explicit_headcount: headcount }
}

fn request(name: &str, headcount: u64) -> DishRequest {
    DishRequest { dish_name: name.to_string(), headcount }
}

#[test]
fn requests_follow_the_plan_in_order() {
    let plan = WeekPlan {
        start_date: PlanDate { year: 2024, month: 5, day: 9 },
        default_headcount: 20,
        days: vec![
            Day {
                heading: "Freitag".to_string(),
                headcount: None,
                slots: vec![
                    MealSlot {
                        label: "Mittag".to_string(),
                        references: vec![reference("Linsendahl", None), reference("Naan", Some(18))],
                        shopping_flag: false,
                    },
                    MealSlot { label: "Abend".to_string(), references: vec![], shopping_flag: true },
                ],
            },
            Day { heading: "Ruhetag".to_string(), headcount: Some(3), slots: vec![] },
            Day {
                heading: "Samstag".to_string(),
                headcount: Some(12),
                slots: vec![MealSlot {
                    label: "Abend".to_string(),
                    references: vec![
                        reference("Curry", Some(4)),
                        reference("Reis", None),
                        reference("Curry", None),
                    ],
                    shopping_flag: false,
                }],
            },
        ],
    };
    assert_eq!(
        dish_requests(&plan),
        vec![
            request("Linsendahl", 20),
            request("Naan", 18),
            request("Curry", 4),
            request("Reis", 12),
            request("Curry", 12),
        ]
    );
}

#[test]
fn requests_of_an_empty_plan_are_none() {
    let plan = WeekPlan {
        start_date: PlanDate { year: 2024, month: 1, day: 1 },
        default_headcount: 1,
        days: vec![],
    };
    assert_eq!(dish_requests(&plan), vec![]);
}

#[test]
fn requests_of_a_table_go_day_by_day() {
    let text = "5\n-\n| | Mo (2) | Di |\n|-|-|-|\n| früh | [[A]] | [[B]](9) |\n| spät | [[C]] | [[D]] |\n";
    let date = PlanDate { year: 2024, month: 1, day: 1 };
    let plan = plan_from(text, Some(date), Dialect::Table).unwrap();
    assert_eq!(
        dish_requests(&plan),
        vec![request("A", 2), request("C", 2), request("B", 9), request("D", 5)]
    );
}
