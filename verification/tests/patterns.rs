use mealplan::error::ParseError;
use mealplan::loader::{plan_from, Dialect};
use mealplan::plan::{PlanDate, WeekPlan};
use mealplan::recipe::{DishLoader, RecipeFormat};
use regex::Regex;

fn format() -> RecipeFormat {
    RecipeFormat {
        ingredients_keyword: "Zutaten".to_string(),
        instructions_marker: "## Zubereitung".to_string(),
        participant_words: vec![
            "Persons".to_string(),
            "Portionen".to_string(),
            "Personen".to_string(),
        ],
    }
}

const RECIPES: [&str; 6] = [
    "# Curry\n4 Personen\n## Zutaten\n- 200 g Reis\n- 1 Dosen Kokosmilch\n- Salz\n## Zubereitung\nKochen.\n",
    "## Zutaten für 12Portionen\n- 3 Eier\n- 0.5 l Milch\n",
    "7 8 9 \t Persons or 3 Personen\n# Zutaten\n- a\n- b c\n# Ende\n- d\n",
    "## Zutaten\n- 1 kg Mehl\n",
    "Personen 5\n12 Person\n## Zutaten\n- x\n",
    "1\n2  \n\n Portionen\n### Zutaten\n- 10 EL Öl\n#### Mehr\n- 2 TL Salz\n### Danach\n- nichts\n",
];

#[test]
fn declared_participants_are_the_first_match_of_the_pattern() {
    let pattern = Regex::new(r"(?<participants>\d+)\s*(Persons|Portionen|Personen)").unwrap();
    for text in RECIPES {
        let want = pattern
            .captures(text)
            .map(|c| c.name("participants").unwrap().as_str().parse::<u64>().unwrap());
        match DishLoader::load("p", text, &format()) {
            Ok(doc) => assert_eq!(Some(doc.declared_participants), want),
            Err(e) => {
                assert_eq!(e, ParseError::MissingParticipants { path: "p".to_string() });
                assert_eq!(want, None);
            }
        }
    }
}

#[test]
fn ingredient_lines_are_the_bullets_of_the_section() {
    let bullet = Regex::new(r"(?m)^[ \t]*-(?<ingredient>.*)$").unwrap();
    let sections = [
        "\n- 200 g Reis\n- 1 Dosen Kokosmilch\n- Salz\n",
        "\n- 3 Eier\n- 0.5 l Milch\n",
        "\n- a\n- b c\n",
        "\n- 10 EL Öl\n#### Mehr\n- 2 TL Salz\n",
    ];
    let texts = [RECIPES[0], RECIPES[1], RECIPES[2], RECIPES[5]];
    for (text, section) in texts.iter().zip(sections) {
        let want: Vec<String> = bullet
            .captures_iter(section)
            .map(|c| c.name("ingredient").unwrap().as_str().trim().to_string())
            .collect();
        let doc = DishLoader::load("p", text, &format()).unwrap();
        assert_eq!(doc.ingredient_lines, want);
    }
}

const OUTLINE: &str = "20\n2023-10-06\n
# GG Essensplan
## Freitag
- [[Linsendahl]]
\t- [[Naan-Brot]](18)
\t- [[Naan-Brot2]](2)

## Samstag
- [[Standartfrühstück]](18)
\t- [[Rustikales]]
\t- Baked beans
\t- [[Tofu Rührei]](8)
\t- [[Guacamole]](8)
- [[Reis Bowl]]
\t- [[Sticky Tofu]](4) SOJA!
\t- [[Gebratene Auberginen]](4) SOJA!
\t- [[Brokkoli im Teigmantel]](4)
- [[Erdnusssauce]](10) SOJA!
\t- [[Avocado Cashew Dressing]](10)
- [[Kürbis Gnocci]]
\t- [[Gurkensalat]](10)
\t- [[Gemischter Salat]](10)

## Sonntag
- [[Kaiserschmarn]](18)
- [[Kaiserschmarn(Vegan)]](2)
- [[Pizzaschnecken]]";

fn references(plan: &WeekPlan) -> Vec<(String, Option<u64>)> {
    let mut out = vec![];
    for day in &plan.days {
        for slot in &day.slots {
            for reference in &slot.references {
                out.push((reference.dish_name.clone(), reference.explicit_headcount));
            }
        }
    }
    out
}

#[test]
fn references_are_the_matches_of_the_pattern() {
    let pattern = Regex::new(r"\[\[(?<name>.*?)\]\](\((?<num>\d+)\))?").unwrap();
    let want: Vec<(String, Option<u64>)> = pattern
        .captures_iter(OUTLINE)
        .map(|c| {
            (
                c.name("name").unwrap().as_str().to_string(),
                c.name("num").map(|a| a.as_str().parse::<u64>().unwrap()),
            )
        })
        .collect();
    let date = PlanDate { year: 2023, month: 10, day: 6 };
    let plan = plan_from(OUTLINE, Some(date), Dialect::Outline).unwrap();
    assert_eq!(want.len(), 19);
    assert_eq!(references(&plan), want);
}
