use mealplan::error::ParseError;
use mealplan::plan::{Day, MealReference, MealSlot};
use mealplan::table::{header, header_row, table};

const WEEK: &str = "\
|                     | Donnerstag (14)                                                     | Freitag (14)               |
| ------------------- | ------------------------------------------------------------------- | -------------------------- |
| **Frühstück**       |                                                                     | [[Standartfrühstück]]      |
| **Mittagessen**     |                                                                     | [[Nudeln Mit Tomatensoße]] |
| **Kaffee & Kuchen** | #Einkauf                                                            | [[Blechkuchen]]            |
| **Abendessen**      | [[Maultaschen]]<br>[[Schmelzzwibeln]]<br>[[Kartoffel-Gurken-Salat]] | [[Curry]]                  |
";

fn reference(name: &str, headcount: Option<u64>) -> MealReference {
    MealReference { dish_name: name.to_string(), explicit_headcount: headcount }
}

fn slot(label: &str, references: Vec<MealReference>, shopping: bool) -> MealSlot {
    MealSlot { label: label.to_string(), references, shopping_flag: shopping }
}

#[test]
fn test_parse_table() {
    table(WEEK).unwrap();
}

#[test]
fn test_parse_table_header_row() {
    let header = "| Donnerstag | Montag |\n";
    assert_eq!(header_row(header).unwrap(), vec![None, None]);
    let header = "| Donnerstag | Montag (12) |\n";
    assert_eq!(header_row(header).unwrap(), vec![None, Some(12)]);
}

#[test]
fn test_parse_table_header_cell() {
    let cell = "Montag";
    let day = header(cell);
    assert_eq!(day.heading, "Montag");
    assert_eq!(day.headcount, None);
}

#[test]
fn header_row_with_corner_cell() {
    assert_eq!(header_row("| | Monday (12) | Tuesday |\n").unwrap(), vec![None, Some(12), None]);
}

#[test]
fn header_row_without_closing_bar_is_malformed() {
    assert_eq!(
        header_row("| Monday | Tuesday"),
        Err(ParseError::PlanSyntaxError { line: 1, column: 1 })
    );
}

#[test]
fn header_cell_with_headcount() {
    let day = header(" Donnerstag (14) ");
    assert_eq!(day.heading, "Donnerstag");
    assert_eq!(day.headcount, Some(14));
}

#[test]
fn header_cell_with_words_in_brackets() {
    let day = header(" Montag (frei) ");
    assert_eq!(day.heading, "Montag (frei)");
    assert_eq!(day.headcount, None);
}

#[test]
fn header_cell_with_too_large_headcount() {
    let day = header("Montag (99999999999999999999999)");
    assert_eq!(day.headcount, None);
}

#[test]
fn table_yields_days_by_column() {
    let days = table(WEEK).unwrap();
    let thursday = Day {
        heading: "Donnerstag".to_string(),
        headcount: Some(14),
        slots: vec![
            slot("Frühstück", vec![], false),
            slot("Mittagessen", vec![], false),
            slot("Kaffee & Kuchen", vec![], true),
            slot(
                "Abendessen",
                vec![
                    reference("Maultaschen", None),
                    reference("Schmelzzwibeln", None),
                    reference("Kartoffel-Gurken-Salat", None),
                ],
                false,
            ),
        ],
    };
    let friday = Day {
        heading: "Freitag".to_string(),
        headcount: Some(14),
        slots: vec![
            slot("Frühstück", vec![reference("Standartfrühstück", None)], false),
            slot("Mittagessen", vec![reference("Nudeln Mit Tomatensoße", None)], false),
            slot("Kaffee & Kuchen", vec![reference("Blechkuchen", None)], false),
            slot("Abendessen", vec![reference("Curry", None)], false),
        ],
    };
    assert_eq!(days, vec![thursday, friday]);
}

#[test]
fn table_reads_explicit_headcounts_and_plain_text() {
    let text = "| | Mo |\n|---|---|\n| Abend | vorher [[Suppe]](8) dann #Einkauf und [[Brot]] (3) |\n";
    let days = table(text).unwrap();
    assert_eq!(
        days,
        vec![Day {
            heading: "Mo".to_string(),
            headcount: None,
            slots: vec![slot(
                "Abend",
                vec![reference("Suppe", Some(8)), reference("Brot", None)],
                true
            )],
        }]
    );
}

#[test]
fn table_with_short_row_is_malformed() {
    let text = "| | Mo | Di |\n|---|---|---|\n| Abend | [[Suppe]] |\n";
    assert_eq!(table(text), Err(ParseError::PlanSyntaxError { line: 3, column: 1 }));
}

#[test]
fn table_with_unterminated_reference_is_malformed() {
    let text = "| | Mo |\n|---|---|\n| Abend | a [[Suppe |\n";
    assert_eq!(table(text), Err(ParseError::PlanSyntaxError { line: 3, column: 13 }));
}

#[test]
fn table_with_empty_reference_is_malformed() {
    let text = "| | Mo |\n|---|---|\n| Abend |[[]]|\n";
    assert_eq!(table(text), Err(ParseError::PlanSyntaxError { line: 3, column: 10 }));
}

#[test]
fn table_without_divider_is_malformed() {
    let text = "| | Mo |\n| Abend | [[Suppe]] |\n";
    assert_eq!(table(text), Err(ParseError::PlanSyntaxError { line: 2, column: 1 }));
}

#[test]
fn table_without_meal_rows_is_malformed() {
    let text = "| | Mo |\n|---|---|\n\nText\n";
    assert_eq!(table(text), Err(ParseError::PlanSyntaxError { line: 3, column: 1 }));
}

#[test]
fn table_ends_at_first_other_line() {
    let text = "| | Mo |\n|---|---|\n| Abend | [[Suppe]] |\nDanach [[Kein Gericht]]\n| x | y |";
    let days = table(text).unwrap();
    assert_eq!(days.len(), 1);
    assert_eq!(days[0].slots, vec![slot("Abend", vec![reference("Suppe", None)], false)]);
}
