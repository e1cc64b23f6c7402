use mealplan::aggregate::{aggregate, render, render_entry, AggregatedEntry, Contribution};
use mealplan::ingredient::Ingredient;

fn ingredient(amount: &str, measure: &str, name: &str, dish: &str) -> Ingredient {
    Ingredient {
        amount: amount.to_string(),
        measure: measure.to_string(),
        name: name.to_string(),
        source_dish: dish.to_string(),
    }
}

fn contribution(amount: &str, measure: &str, dish: &str) -> Contribution {
    Contribution {
        amount: amount.to_string(),
        measure: measure.to_string(),
        source_dish: dish.to_string(),
    }
}

#[test]
fn aggregate_merges_same_name() {
    let items = vec![
        ingredient("200", "g", "Flour", "Cake"),
        ingredient("2", "", "Eggs", "Cake"),
        ingredient("1", "kg", "Flour", "Bread"),
    ];
    assert_eq!(
        aggregate(&items),
        vec![
            AggregatedEntry {
                name: "Eggs".to_string(),
                contributions: vec![contribution("2", "", "Cake")],
            },
            AggregatedEntry {
                name: "Flour".to_string(),
                contributions: vec![
                    contribution("200", "g", "Cake"),
                    contribution("1", "kg", "Bread"),
                ],
            },
        ]
    );
}

#[test]
fn aggregate_of_nothing_is_empty() {
    assert_eq!(aggregate(&vec![]), vec![]);
    assert_eq!(render(&vec![]), "");
}

#[test]
fn aggregate_tells_names_apart_by_case_and_space() {
    let items = vec![
        ingredient("1", "", "flour", "A"),
        ingredient("1", "", "Flour", "A"),
        ingredient("1", "", "Flour ", "A"),
        ingredient("1", "", "Äpfel", "A"),
        ingredient("1", "", "", "A"),
    ];
    let names: Vec<String> = aggregate(&items).into_iter().map(|e| e.name).collect();
    assert_eq!(names, vec!["", "Flour", "Flour ", "flour", "Äpfel"]);
}

#[test]
fn aggregate_orders_as_bytes_do() {
    let names = ["b", "a", "B", "ab", "", "é", "z", "aa", "a b", "𝄞", "\u{ffff}"];
    let items: Vec<Ingredient> = names.iter().map(|n| ingredient("1", "", n, "D")).collect();
    let got: Vec<String> = aggregate(&items).into_iter().map(|e| e.name).collect();
    let mut want: Vec<String> = names.iter().map(|n| n.to_string()).collect();
    want.sort();
    assert_eq!(got, want);
}

#[test]
fn render_writes_brackets() {
    let entry = AggregatedEntry {
        name: "Flour".to_string(),
        contributions: vec![contribution("200", "g", "Cake"), contribution("1.5", "kg", "Bread")],
    };
    assert_eq!(render_entry(&entry), "- Flour [200g, 1.5kg] (Cake, Bread)");
}

#[test]
fn render_writes_one_line_each() {
    let items = vec![
        ingredient("200", "g", "Flour", "Cake"),
        ingredient("2", "", "Eggs", "Cake"),
        ingredient("1", "kg", "Flour", "Bread"),
    ];
    assert_eq!(render(&aggregate(&items)), "- Eggs [2] (Cake)\n- Flour [200g, 1kg] (Cake, Bread)");
}

#[test]
fn list_is_the_same_in_any_order_of_dishes() {
    let cake = vec![ingredient("200", "g", "Flour", "Cake"), ingredient("2", "", "Eggs", "Cake")];
    let soup = vec![ingredient("1", "l", "Water", "Soup"), ingredient("1", "", "Onion", "Soup")];
    let salad = vec![ingredient("1", "", "Lettuce", "Salad"), ingredient("2", "EL", "Oil", "Salad")];
    let orders = [[0, 1, 2], [0, 2, 1], [1, 0, 2], [1, 2, 0], [2, 0, 1], [2, 1, 0]];
    let dishes = [cake, soup, salad];
    let first: Vec<Ingredient> = dishes.iter().flatten().cloned().collect();
    let want = render(&aggregate(&first));
    for order in orders {
        let items: Vec<Ingredient> = order.iter().flat_map(|&d| dishes[d].clone()).collect();
        assert_eq!(render(&aggregate(&items)), want);
    }
    assert_eq!(render(&aggregate(&first)), render(&aggregate(&first)));
}

#[test]
fn contributions_keep_the_order_of_the_dishes() {
    let cake = ingredient("200", "g", "Flour", "Cake");
    let bread = ingredient("1", "kg", "Flour", "Bread");
    assert_eq!(
        render(&aggregate(&vec![cake.clone(), bread.clone()])),
        "- Flour [200g, 1kg] (Cake, Bread)"
    );
    assert_eq!(render(&aggregate(&vec![bread, cake])), "- Flour [1kg, 200g] (Bread, Cake)");
}
