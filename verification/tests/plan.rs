use mealplan::error::ParseError;
use mealplan::loader::{
    detect_dialect, load_plan, plan_from, read_start_date, start_date_text, Dialect,
    ListPlanLoader, MdPlanLoader,
};
use mealplan::plan::{Day, MealReference, MealSlot, PlanDate, WeekPlan};

const TABLE_PLAN: &str = "\
People: 14
Start: 2024-05-09
## Essensplan
| | Donnerstag (12) | Freitag |
| --- | --- | --- |
| **Mittag** | [[Curry]](8)<br>[[Reis]] | #Einkauf |
| Abend | | [[Suppe]] |

Bis bald.
";

const OUTLINE_PLAN: &str = "\
20
2023-10-06
# GG Essensplan
- [[Vor dem ersten Tag]]
## Freitag
- [[Linsendahl]]
\t- [[Naan-Brot]](18)
\t- [[Naan-Brot2]](2)

## Samstag (18)
\t- Baked beans #Einkauf
- [[Reis Bowl]]
\t- [[Sticky Tofu]](4) SOJA!
## Sonntag
";

fn reference(name: &str, headcount: Option<u64>) -> MealReference {
    MealReference { dish_name: name.to_string(), explicit_headcount: headcount }
}

fn slot(label: &str, references: Vec<MealReference>, shopping: bool) -> MealSlot {
    MealSlot { label: label.to_string(), references, shopping_flag: shopping }
}

fn day(heading: &str, headcount: Option<u64>, slots: Vec<MealSlot>) -> Day {
    Day { heading: heading.to_string(), headcount, slots }
}

#[test]
fn table_plan_is_read() {
    let plan = MdPlanLoader::load(TABLE_PLAN).unwrap();
    assert_eq!(
        plan,
        WeekPlan {
            start_date: PlanDate { year: 2024, month: 5, day: 9 },
            default_headcount: 14,
            days: vec![
                day(
                    "Donnerstag",
                    Some(12),
                    vec![
                        slot(
                            "Mittag",
                            vec![reference("Curry", Some(8)), reference("Reis", None)],
                            false
                        ),
                        slot("Abend", vec![], false),
                    ]
                ),
                day(
                    "Freitag",
                    None,
                    vec![
                        slot("Mittag", vec![], true),
                        slot("Abend", vec![reference("Suppe", None)], false),
                    ]
                ),
            ],
        }
    );
}

#[test]
fn outline_plan_is_read() {
    let plan = ListPlanLoader::load(OUTLINE_PLAN).unwrap();
    assert_eq!(
        plan,
        WeekPlan {
            start_date: PlanDate { year: 2023, month: 10, day: 6 },
            default_headcount: 20,
            days: vec![
                day(
                    "Freitag",
                    None,
                    vec![slot(
                        "[[Linsendahl]]",
                        vec![
                            reference("Linsendahl", None),
                            reference("Naan-Brot", Some(18)),
                            reference("Naan-Brot2", Some(2)),
                        ],
                        false
                    )]
                ),
                day(
                    "Samstag",
                    Some(18),
                    vec![
                        slot("Baked beans #Einkauf", vec![], true),
                        slot(
                            "[[Reis Bowl]]",
                            vec![reference("Reis Bowl", None), reference("Sticky Tofu", Some(4))],
                            false
                        ),
                    ]
                ),
                day("Sonntag", None, vec![]),
            ],
        }
    );
}

#[test]
fn both_dialects_give_the_same_plan() {
    let table = "3\n2024-01-02\n| | Mo (5) |\n|-|-|\n| Abend | [[Suppe]](2) [[Brot]] #Einkauf |\n";
    let outline = "3\n2024-01-02\n## Mo (5)\n- Abend\n  - [[Suppe]](2)\n  - [[Brot]] #Einkauf\n";
    assert_eq!(load_plan(table).unwrap(), load_plan(outline).unwrap());
}

#[test]
fn dialect_is_told_by_the_body() {
    assert_eq!(detect_dialect(TABLE_PLAN), Some(Dialect::Table));
    assert_eq!(detect_dialect(OUTLINE_PLAN), Some(Dialect::Outline));
    assert_eq!(detect_dialect("1\n2024-01-01\n# Titel\nText\n"), None);
    assert_eq!(detect_dialect("| a |\n## b\n"), None);
    assert_eq!(load_plan(TABLE_PLAN), MdPlanLoader::load(TABLE_PLAN));
    assert_eq!(load_plan(OUTLINE_PLAN), ListPlanLoader::load(OUTLINE_PLAN));
}

#[test]
fn plan_of_no_dialect_is_malformed() {
    assert_eq!(
        load_plan("1\n2024-01-01\n# Titel\nText\n"),
        Err(ParseError::PlanSyntaxError { line: 3, column: 1 })
    );
    assert_eq!(load_plan("1\n2024-01-01"), Err(ParseError::PlanSyntaxError { line: 2, column: 1 }));
}

#[test]
fn plan_without_headcount_is_malformed() {
    assert_eq!(
        MdPlanLoader::load("People: many\nStart: 2024-05-09\n| | a |\n|-|-|\n| b | c |\n"),
        Err(ParseError::PlanSyntaxError { line: 1, column: 1 })
    );
}

#[test]
fn plan_without_date_is_malformed() {
    assert_eq!(
        MdPlanLoader::load("People: 3\nStart: 2024-02-30\n| | a |\n|-|-|\n| b | c |\n"),
        Err(ParseError::PlanSyntaxError { line: 2, column: 1 })
    );
    assert_eq!(
        ListPlanLoader::load("People: 3\nStart: tomorrow\n## a\n"),
        Err(ParseError::PlanSyntaxError { line: 2, column: 1 })
    );
    assert_eq!(ListPlanLoader::load("3"), Err(ParseError::PlanSyntaxError { line: 1, column: 1 }));
}

#[test]
fn start_date_is_read_by_calendar() {
    assert_eq!(start_date_text("1\nStart:  2024-02-29 \nrest"), "2024-02-29");
    assert_eq!(start_date_text("1\n2024-02-29\r\nrest"), "2024-02-29");
    assert_eq!(start_date_text("1"), "");
    assert_eq!(
        read_start_date("1\nStart: 2024-02-29\n"),
        Some(PlanDate { year: 2024, month: 2, day: 29 })
    );
    assert_eq!(read_start_date("1\nStart: 2023-02-29\n"), None);
    assert_eq!(read_start_date("1\nStart: 2024-2-9\n"), Some(PlanDate { year: 2024, month: 2, day: 9 }));
    assert_eq!(read_start_date("1\n"), None);
}

#[test]
fn plan_takes_the_date_it_is_given() {
    let date = PlanDate { year: 1999, month: 12, day: 31 };
    let plan = plan_from("7\nweiß nicht\n## Tag\n- [[Brei]]\n", Some(date), Dialect::Outline).unwrap();
    assert_eq!(plan.start_date, date);
    assert_eq!(plan.default_headcount, 7);
    assert_eq!(
        plan.days,
        vec![day("Tag", None, vec![slot("[[Brei]]", vec![reference("Brei", None)], false)])]
    );
    assert_eq!(
        plan_from("7\nweiß nicht\n## Tag\n", None, Dialect::Outline),
        Err(ParseError::PlanSyntaxError { line: 2, column: 1 })
    );
}

#[test]
fn table_plan_without_table_is_malformed() {
    assert_eq!(
        MdPlanLoader::load("3\n2024-01-01\n## Tag\n- [[Brei]]\n"),
        Err(ParseError::PlanSyntaxError { line: 3, column: 1 })
    );
    assert_eq!(
        MdPlanLoader::load("3\n2024-01-01"),
        Err(ParseError::PlanSyntaxError { line: 2, column: 1 })
    );
}

#[test]
fn table_plan_with_bad_row_names_its_line() {
    let text = "3\n2024-01-01\n\n| | a | b |\n|-|-|-|\n| x | [[A]] | [[B]] |\n| y | [[C]] |\n";
    assert_eq!(MdPlanLoader::load(text), Err(ParseError::PlanSyntaxError { line: 7, column: 1 }));
}

#[test]
fn outline_with_unterminated_reference_is_malformed() {
    let text = "3\n2024-01-01\n## Tag\n- [[Brei]]\n  - und [[Mus\n";
    assert_eq!(ListPlanLoader::load(text), Err(ParseError::PlanSyntaxError { line: 5, column: 9 }));
}

#[test]
fn outline_passes_over_other_lines() {
    let text = "3\n2024-01-01\n- [[Vorher]]\n### Kein Tag\n## Tag\nText [[Nichts]]\n### Auch nicht\n";
    let plan = ListPlanLoader::load(text).unwrap();
    assert_eq!(plan.days, vec![day("Tag", None, vec![])]);
}
