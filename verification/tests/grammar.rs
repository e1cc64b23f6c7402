use mealplan::grammar::{read_cell, read_group, read_header, read_label};
use mealplan::plan::MealReference;

fn chars(s: &str) -> Vec<char> {
    s.chars().collect()
}

fn reference(name: &str, headcount: Option<u64>) -> MealReference {
    MealReference { dish_name: name.to_string(), explicit_headcount: headcount }
}

#[test]
fn cell_holds_references_in_order() {
    assert_eq!(
        read_cell(&chars("[[Maultaschen]]<br>[[Schmelzzwibeln]](3)<br>[[Salat]]")),
        Ok((
            vec![
                reference("Maultaschen", None),
                reference("Schmelzzwibeln", Some(3)),
                reference("Salat", None),
            ],
            false
        ))
    );
}

#[test]
fn cell_of_plain_text_holds_nothing() {
    assert_eq!(read_cell(&chars("")), Ok((vec![], false)));
    assert_eq!(read_cell(&chars("  Reste essen (12) ] ]] [ ")), Ok((vec![], false)));
    assert_eq!(read_cell(&chars("<br><br>")), Ok((vec![], false)));
}

#[test]
fn cell_with_marker_is_flagged() {
    assert_eq!(read_cell(&chars(" #Einkauf ")), Ok((vec![], true)));
    assert_eq!(read_cell(&chars("#Einkauf#Einkauf")), Ok((vec![], true)));
    assert_eq!(read_cell(&chars("#einkauf # Einkauf #Einkau")), Ok((vec![], false)));
    assert_eq!(
        read_cell(&chars("x#Einkauf[[A]]#Einkauf")),
        Ok((vec![reference("A", None)], true))
    );
}

#[test]
fn cell_reference_swallows_what_is_inside() {
    assert_eq!(
        read_cell(&chars("[[A #Einkauf <br> [[ B]]")),
        Ok((vec![reference("A #Einkauf <br> [[ B", None)], false))
    );
    assert_eq!(read_cell(&chars("[[A]]]](2)")), Ok((vec![reference("A", None)], false)));
    assert_eq!(read_cell(&chars("[[A]](2)(3)")), Ok((vec![reference("A", Some(2))], false)));
}

#[test]
fn cell_headcount_must_follow_at_once() {
    assert_eq!(read_cell(&chars("[[A]] (2)")), Ok((vec![reference("A", None)], false)));
    assert_eq!(read_cell(&chars("[[A]](2")), Ok((vec![reference("A", None)], false)));
    assert_eq!(read_cell(&chars("[[A]]()")), Ok((vec![reference("A", None)], false)));
    assert_eq!(read_cell(&chars("[[A]](2a)")), Ok((vec![reference("A", None)], false)));
    assert_eq!(
        read_cell(&chars("[[A]](99999999999999999999)")),
        Ok((vec![reference("A", None)], false))
    );
    assert_eq!(read_cell(&chars("[[A]](0)")), Ok((vec![reference("A", Some(0))], false)));
}

#[test]
fn cell_with_open_reference_is_malformed() {
    assert_eq!(read_cell(&chars("[[A")), Err(0));
    assert_eq!(read_cell(&chars("ab [[A]] [[B] ]")), Err(9));
    assert_eq!(read_cell(&chars("[[]]")), Err(0));
    assert_eq!(read_cell(&chars("x[[")), Err(1));
    assert_eq!(read_cell(&chars("[[]")), Err(0));
}

#[test]
fn group_is_digits_in_brackets() {
    assert_eq!(read_group(&chars("a(12)b"), 1), Some((12, 5)));
    assert_eq!(read_group(&chars("a(12)b"), 0), None);
    assert_eq!(read_group(&chars("(12"), 0), None);
    assert_eq!(read_group(&chars("()"), 0), None);
    assert_eq!(read_group(&chars("(1 2)"), 0), None);
    assert_eq!(read_group(&chars("(12)"), 4), None);
    assert_eq!(read_group(&chars("(12)"), 100), None);
}

#[test]
fn header_is_heading_and_headcount() {
    assert_eq!(read_header(&chars(" Donnerstag (14) ")), ("Donnerstag".to_string(), Some(14)));
    assert_eq!(read_header(&chars("Donnerstag(14)abend")), ("Donnerstag".to_string(), Some(14)));
    assert_eq!(read_header(&chars("(14)")), (String::new(), Some(14)));
    assert_eq!(read_header(&chars(" Tag (x) (14) ")), ("Tag (x) (14)".to_string(), None));
    assert_eq!(read_header(&chars("  ")), (String::new(), None));
    assert_eq!(read_header(&chars("")), (String::new(), None));
}

#[test]
fn label_loses_its_asterisks() {
    assert_eq!(read_label(&chars(" **Frühstück** ")), "Frühstück");
    assert_eq!(read_label(&chars(" Kaffee & Kuchen ")), "Kaffee & Kuchen");
    assert_eq!(read_label(&chars("****")), "");
    assert_eq!(read_label(&chars("***")), "***");
    assert_eq!(read_label(&chars("**a*")), "**a*");
    assert_eq!(read_label(&chars("** a **")), " a ");
    assert_eq!(read_label(&chars("")), "");
}
