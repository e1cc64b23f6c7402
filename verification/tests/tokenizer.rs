use mealplan::ingredient::{
    settle_all, tokenize, tokenize_all, IngredientLine, TokenizeError, TokenizeWarning,
};

fn measures() -> Vec<String> {
    vec!["g".to_string(), "kg".to_string(), "ml".to_string(), "l".to_string(), "EL".to_string()]
}

fn settle(line: &str) -> (f32, String, String, Option<TokenizeWarning>) {
    let parts: IngredientLine = tokenize(line, &measures()).unwrap();
    let parsed = parts
        .amount_token
        .as_ref()
        .and_then(|t| t.parse::<f32>().ok())
        .map(|x| x.to_string());
    let (ingredient, warning) = parts.settle(parsed, "Cake");
    assert_eq!(ingredient.source_dish, "Cake");
    (ingredient.amount.parse::<f32>().unwrap(), ingredient.measure, ingredient.name, warning)
}

#[test]
fn tokenize_amount_measure_name() {
    assert_eq!(settle("200 g Flour"), (200.0, "g".to_string(), "Flour".to_string(), None));
}

#[test]
fn tokenize_amount_and_name() {
    assert_eq!(settle("2 Eggs"), (2.0, String::new(), "Eggs".to_string(), None));
}

#[test]
fn tokenize_bare_name_counts_once() {
    assert_eq!(settle("Butter"), (1.0, String::new(), "Butter".to_string(), None));
}

#[test]
fn tokenize_unparsable_amount_warns() {
    assert_eq!(
        settle("xyz Milk"),
        (
            0.0,
            String::new(),
            "Milk".to_string(),
            Some(TokenizeWarning::UnparsableAmount { token: "xyz".to_string() })
        )
    );
}

#[test]
fn tokenize_empty_line_fails() {
    assert_eq!(tokenize("", &measures()), Err(TokenizeError::EmptyIngredientLine));
}

#[test]
fn tokenize_name_of_many_words() {
    let parts = tokenize("1 kg Brown  Sugar fine", &measures()).unwrap();
    assert_eq!(parts.amount_token, Some("1".to_string()));
    assert_eq!(parts.measure, "kg");
    assert_eq!(parts.name, "Brown  Sugar fine");
}

fn numbers(lines: &[IngredientLine]) -> Vec<Option<String>> {
    lines
        .iter()
        .map(|l| l.amount_token.as_ref().and_then(|t| t.parse::<f32>().ok()).map(|x| x.to_string()))
        .collect()
}

#[test]
fn tokenize_all_lines_of_a_dish() {
    let lines: Vec<String> =
        ["200 g Flour", "xyz Milk", "Butter", "0.50 l Cream", "?? Salt"].map(String::from).to_vec();
    let parts = tokenize_all(&lines, &measures()).unwrap();
    let parsed = numbers(&parts);
    let (ingredients, warnings) = settle_all(&parts, &parsed, "Cake").unwrap();
    let amounts: Vec<f32> = ingredients.iter().map(|i| i.amount.parse().unwrap()).collect();
    assert_eq!(amounts, vec![200.0, 0.0, 1.0, 0.5, 0.0]);
    let names: Vec<&str> = ingredients.iter().map(|i| i.name.as_str()).collect();
    assert_eq!(names, vec!["Flour", "Milk", "Butter", "Cream", "Salt"]);
    let measures: Vec<&str> = ingredients.iter().map(|i| i.measure.as_str()).collect();
    assert_eq!(measures, vec!["g", "", "", "l", ""]);
    assert!(ingredients.iter().all(|i| i.source_dish == "Cake"));
    assert_eq!(
        warnings,
        vec![
            TokenizeWarning::UnparsableAmount { token: "xyz".to_string() },
            TokenizeWarning::UnparsableAmount { token: "??".to_string() },
        ]
    );
}

#[test]
fn tokenize_all_fails_on_one_empty_line() {
    let lines: Vec<String> = ["200 g Flour", "", "Butter"].map(String::from).to_vec();
    assert_eq!(tokenize_all(&lines, &measures()), Err(TokenizeError::EmptyIngredientLine));
    assert_eq!(tokenize_all(&vec![], &measures()), Ok(vec![]));
}

#[test]
fn settle_all_wants_one_number_each() {
    let lines: Vec<String> = ["200 g Flour", "Butter"].map(String::from).to_vec();
    let parts = tokenize_all(&lines, &measures()).unwrap();
    assert_eq!(settle_all(&parts, &vec![None], "Cake"), None);
}

#[test]
fn tokenize_twice_gives_the_same() {
    for line in ["200 g Flour", "2 Eggs", "Butter", "xyz Milk", " a  b ", "1 g"] {
        assert_eq!(tokenize(line, &measures()), tokenize(line, &measures()));
    }
    let parts = tokenize("1 g", &measures()).unwrap();
    assert_eq!((parts.measure.as_str(), parts.name.as_str()), ("g", ""));
    let parts = tokenize(" a  b ", &measures()).unwrap();
    assert_eq!(parts.amount_token, Some(String::new()));
    assert_eq!((parts.measure.as_str(), parts.name.as_str()), ("", "a  b "));
}
