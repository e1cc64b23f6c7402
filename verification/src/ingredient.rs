//! Ingredient lines: one bullet line of a recipe, taken apart into amount,
//! measure and name.
//!
//! The library carries an amount as a decimal numeral and never calculates
//! with it. Reading the amount token as a number is the caller's part: the
//! caller hands the outcome to [`IngredientLine::settle`], which applies the
//! defaults.

use crate::text::{
    all_chars, contains_text, join, join_from, split, split_at_char, string_views, text_of,
    to_chars,
};
use vstd::prelude::*;

verus! {

/// One ingredient of one dish.
#[derive(Debug, Clone, PartialEq, Eq)]
pub struct Ingredient {
    /// The amount, in decimal notation.
    pub amount: String,
    /// The unit of measure; empty where the line names none.
    pub measure: String,
    /// What to buy.
    pub name: String,
    /// The dish that asks for it.
    pub source_dish: String,
}

/// An ingredient line taken apart, its amount not yet read as a number.
#[derive(Debug, Clone, PartialEq, Eq)]
pub struct IngredientLine {
    /// The token that stands for the amount; `None` where the line is a bare
    /// name.
    pub amount_token: Option<String>,
    /// The unit of measure; empty where the line names none.
    pub measure: String,
    /// What to buy.
    pub name: String,
}

/// Why a line is no ingredient.
#[derive(Debug, Clone, Copy, PartialEq, Eq)]
pub enum TokenizeError {
    /// The line holds no token at all.
    EmptyIngredientLine,
}

/// What went wrong without stopping the run.
#[derive(Debug, Clone, PartialEq, Eq)]
pub enum TokenizeWarning {
    /// The amount token is no number; the amount was set to zero.
    UnparsableAmount { token: String },
}

/// The mathematical content of an [`Ingredient`].
pub struct IngredientView {
    pub amount: Seq<char>,
    pub measure: Seq<char>,
    pub name: Seq<char>,
    pub source_dish: Seq<char>,
}

/// The mathematical content of an [`IngredientLine`].
pub struct LineView {
    pub amount_token: Option<Seq<char>>,
    pub measure: Seq<char>,
    pub name: Seq<char>,
}

impl View for Ingredient {
    type V = IngredientView;

    open spec fn view(&self) -> IngredientView {
        IngredientView {
            amount: self.amount@,
            measure: self.measure@,
            name: self.name@,
            source_dish: self.source_dish@,
        }
    }
}

impl View for IngredientLine {
    type V = LineView;

    open spec fn view(&self) -> LineView {
        LineView {
            amount_token: match self.amount_token {
                Some(t) => Some(t@),
                None => None,
            },
            measure: self.measure@,
            name: self.name@,
        }
    }
}

/// The amount of a line that is a bare name.
pub open spec fn implied_amount() -> Seq<char> {
    seq!['1']
}

/// The amount of a line whose amount token is no number.
pub open spec fn fallback_amount() -> Seq<char> {
    seq!['0']
}

/// The tokens of a line: its pieces between single spaces. The empty line has
/// none.
pub open spec fn tokens_of(line: Seq<char>) -> Seq<Seq<char>> {
    if line.len() == 0 {
        Seq::empty()
    } else {
        split(line, ' ')
    }
}

/// A line taken apart. One token is a bare name. Of two or more the first is
/// the amount token; the second is the measure where the vocabulary holds it,
/// and the rest, joined by single spaces, is the name.
pub open spec fn line_parts(line: Seq<char>, measures: Seq<Seq<char>>) -> Option<LineView> {
    let t = tokens_of(line);
    if t.len() == 0 {
        None
    } else if t.len() == 1 {
        Some(LineView { amount_token: None, measure: Seq::empty(), name: t[0] })
    } else if measures.contains(t[1]) {
        Some(LineView { amount_token: Some(t[0]), measure: t[1], name: join(t.skip(2), seq![' ']) })
    } else {
        Some(
            LineView {
                amount_token: Some(t[0]),
                measure: Seq::empty(),
                name: join(t.skip(1), seq![' ']),
            },
        )
    }
}

/// The ingredient that a line taken apart stands for, given its amount token
/// read as a number (`parsed`, in decimal notation; `None` where the token is
/// no number).
pub open spec fn settled(line: LineView, parsed: Option<Seq<char>>, dish: Seq<char>)
    -> IngredientView {
    IngredientView {
        amount: match (line.amount_token, parsed) {
            (None, _) => implied_amount(),
            (Some(_), Some(n)) => n,
            (Some(_), None) => fallback_amount(),
        },
        measure: line.measure,
        name: line.name,
        source_dish: dish,
    }
}

/// The warning that goes with [`settled`]: one for an amount token that is
/// no number, none otherwise.
pub open spec fn settle_warning(line: LineView, parsed: Option<Seq<char>>) -> Option<Seq<char>> {
    match (line.amount_token, parsed) {
        (Some(t), None) => Some(t),
        _ => None,
    }
}

/// Takes one stripped bullet line apart.
pub fn tokenize(line: &str, measures: &Vec<String>) -> (r: Result<IngredientLine, TokenizeError>)
    ensures
        match r {
            Ok(parts) => line_parts(line@, string_views(measures@)) == Some(parts@),
            Err(e) => line_parts(line@, string_views(measures@)).is_none(),
        },
{
    let chars = to_chars(line);
    if chars.len() == 0 {
        return Err(TokenizeError::EmptyIngredientLine);
    }
    let tokens = split_at_char(&chars, ' ');
    if tokens.len() == 1 {
        return Ok(
            IngredientLine {
                amount_token: None,
                measure: String::new(),
                name: text_of(&tokens[0]),
            },
        );
    }
    let vocabulary = all_chars(measures);
    let space: Vec<char> = vec![' '];
    assert(space@ == seq![' ']);
    let amount_token = Some(text_of(&tokens[0]));
    if contains_text(&vocabulary, &tokens[1]) {
        Ok(
            IngredientLine {
                amount_token,
                measure: text_of(&tokens[1]),
                name: text_of(&join_from(&tokens, 2, &space)),
            },
        )
    } else {
        Ok(
            IngredientLine {
                amount_token,
                measure: String::new(),
                name: text_of(&join_from(&tokens, 1, &space)),
            },
        )
    }
}

impl IngredientLine {
    /// Makes the ingredient, given the amount token read as a number: `parsed`
    /// is that number in decimal notation, or `None` where the token is no
    /// number. A bare name counts once. A token that is no number counts as
    /// zero, and the warning says so.
    pub fn settle(&self, parsed: Option<String>, dish: &str) -> (r: (
        Ingredient,
        Option<TokenizeWarning>,
    ))
        ensures
            r.0@ == settled(self@, option_view(parsed), dish@),
            match r.1 {
                Some(TokenizeWarning::UnparsableAmount { token }) => settle_warning(
                    self@,
                    option_view(parsed),
                ) == Some(token@),
                None => settle_warning(self@, option_view(parsed)).is_none(),
            },
    {
        let source_dish = dish.to_owned();
        let measure = self.measure.clone();
        let name = self.name.clone();
        match &self.amount_token {
            None => {
                let one = "1".to_owned();
                proof {
                    reveal_strlit("1");
                    assert(one@ =~= implied_amount());
                }
                (Ingredient { amount: one, measure, name, source_dish }, None)
            },
            Some(token) => match parsed {
                Some(number) => (Ingredient { amount: number, measure, name, source_dish }, None),
                None => {
                    let zero = "0".to_owned();
                    proof {
                        reveal_strlit("0");
                        assert(zero@ =~= fallback_amount());
                    }
                    (
                        Ingredient { amount: zero, measure, name, source_dish },
                        Some(TokenizeWarning::UnparsableAmount { token: token.clone() }),
                    )
                },
            },
        }
    }
}

/// The views of a vector of lines taken apart.
pub open spec fn line_views(v: Seq<IngredientLine>) -> Seq<LineView> {
    Seq::new(v.len(), |i: int| v[i]@)
}

/// The views of a vector of optional strings.
pub open spec fn option_views(v: Seq<Option<String>>) -> Seq<Option<Seq<char>>> {
    Seq::new(v.len(), |i: int| option_view(v[i]))
}

/// The views of a vector of ingredients.
pub open spec fn ingredient_views(v: Seq<Ingredient>) -> Seq<IngredientView> {
    Seq::new(v.len(), |i: int| v[i]@)
}

/// The token that a warning is about.
pub open spec fn warning_token(warning: TokenizeWarning) -> Seq<char> {
    match warning {
        TokenizeWarning::UnparsableAmount { token } => token@,
    }
}

/// The tokens that some warnings are about, in order.
pub open spec fn warning_tokens(v: Seq<TokenizeWarning>) -> Seq<Seq<char>> {
    Seq::new(v.len(), |i: int| warning_token(v[i]))
}

/// All lines taken apart, in order; `None` where one of them holds no token.
pub open spec fn all_line_parts(lines: Seq<Seq<char>>, measures: Seq<Seq<char>>) -> Option<
    Seq<LineView>,
>
    decreases lines.len(),
{
    if lines.len() == 0 {
        Some(Seq::empty())
    } else {
        match (all_line_parts(lines.drop_last(), measures), line_parts(lines.last(), measures)) {
            (Some(front), Some(last)) => Some(front.push(last)),
            _ => None,
        }
    }
}

/// The ingredients of all lines, each settled with the number at its place.
pub open spec fn all_settled(
    lines: Seq<LineView>,
    parsed: Seq<Option<Seq<char>>>,
    dish: Seq<char>,
) -> Seq<IngredientView> {
    Seq::new(lines.len(), |i: int| settled(lines[i], parsed[i], dish))
}

/// The tokens that the first `n` lines warn about, in order.
pub open spec fn warnings_of(lines: Seq<LineView>, parsed: Seq<Option<Seq<char>>>, n: int) -> Seq<
    Seq<char>,
>
    decreases n,
{
    if n <= 0 {
        Seq::empty()
    } else {
        match settle_warning(lines[n - 1], parsed[n - 1]) {
            Some(token) => warnings_of(lines, parsed, n - 1).push(token),
            None => warnings_of(lines, parsed, n - 1),
        }
    }
}

/// Takes all the bullet lines of a recipe apart. One line without a token
/// fails them all.
pub fn tokenize_all(lines: &Vec<String>, measures: &Vec<String>) -> (r: Result<
    Vec<IngredientLine>,
    TokenizeError,
>)
    ensures
        match r {
            Ok(parts) => all_line_parts(string_views(lines@), string_views(measures@)) == Some(
                line_views(parts@),
            ),
            Err(e) => all_line_parts(string_views(lines@), string_views(measures@)).is_none(),
        },
{
    let mut parts: Vec<IngredientLine> = Vec::new();
    let mut i: usize = 0;
    assert(string_views(lines@).take(0) =~= Seq::empty());
    assert(line_views(parts@) =~= Seq::empty());
    while i < lines.len()
        invariant
            i <= lines.len(),
            all_line_parts(string_views(lines@).take(i as int), string_views(measures@)) == Some(
                line_views(parts@),
            ),
        decreases lines.len() - i,
    {
        let ghost seen = string_views(lines@).take(i + 1);
        assert(seen.drop_last() =~= string_views(lines@).take(i as int));
        assert(seen.last() == lines@[i as int]@);
        match tokenize(lines[i].as_str(), measures) {
            Ok(line) => {
                let ghost before = line_views(parts@);
                parts.push(line);
                assert(line_views(parts@) =~= before.push(line@));
            },
            Err(e) => {
                proof {
                    lemma_all_line_parts_fail(
                        string_views(lines@),
                        string_views(measures@),
                        i + 1,
                    );
                }
                return Err(e);
            },
        }
        i += 1;
    }
    assert(string_views(lines@).take(i as int) =~= string_views(lines@));
    Ok(parts)
}

/// Where the first `n` lines cannot all be taken apart, neither can all.
pub proof fn lemma_all_line_parts_fail(lines: Seq<Seq<char>>, measures: Seq<Seq<char>>, n: int)
    requires
        0 <= n <= lines.len(),
        all_line_parts(lines.take(n), measures).is_none(),
    ensures
        all_line_parts(lines, measures).is_none(),
    decreases lines.len() - n,
{
    if n < lines.len() {
        assert(lines.take(n + 1).drop_last() =~= lines.take(n));
        lemma_all_line_parts_fail(lines, measures, n + 1);
    } else {
        assert(lines.take(n) =~= lines);
    }
}

/// Makes the ingredients of one dish, given each amount token read as a
/// number: `parsed` holds, for each line in order, what [`IngredientLine::settle`]
/// takes. `None` where `parsed` does not hold one entry for each line.
pub fn settle_all(lines: &Vec<IngredientLine>, parsed: &Vec<Option<String>>, dish: &str) -> (r:
    Option<(Vec<Ingredient>, Vec<TokenizeWarning>)>)
    ensures
        match r {
            Some((ingredients, warnings)) => parsed.len() == lines.len() && ingredient_views(
                ingredients@,
            ) == all_settled(line_views(lines@), option_views(parsed@), dish@) && warning_tokens(
                warnings@,
            ) == warnings_of(line_views(lines@), option_views(parsed@), lines.len() as int),
            None => parsed.len() != lines.len(),
        },
{
    if parsed.len() != lines.len() {
        return None;
    }
    let mut ingredients: Vec<Ingredient> = Vec::new();
    let mut warnings: Vec<TokenizeWarning> = Vec::new();
    let mut i: usize = 0;
    assert(warning_tokens(warnings@) =~= Seq::empty());
    while i < lines.len()
        invariant
            i <= lines.len(),
            parsed.len() == lines.len(),
            ingredients.len() == i,
            forall|j: int|
                0 <= j < i ==> (#[trigger] ingredients@[j])@ == settled(
                    lines@[j]@,
                    option_view(parsed@[j]),
                    dish@,
                ),
            warning_tokens(warnings@) == warnings_of(
                line_views(lines@),
                option_views(parsed@),
                i as int,
            ),
        decreases lines.len() - i,
    {
        let number = match &parsed[i] {
            Some(n) => Some(n.clone()),
            None => None,
        };
        assert(option_view(number) == option_view(parsed@[i as int]));
        let (ingredient, warning) = lines[i].settle(number, dish);
        ingredients.push(ingredient);
        match warning {
            Some(w) => {
                let ghost before = warning_tokens(warnings@);
                warnings.push(w);
                assert(warning_tokens(warnings@) =~= before.push(warning_token(w)));
            },
            None => {},
        }
        i += 1;
    }
    assert(ingredient_views(ingredients@) =~= all_settled(
        line_views(lines@),
        option_views(parsed@),
        dish@,
    ));
    Some((ingredients, warnings))
}

/// The view of an optional string.
pub open spec fn option_view(s: Option<String>) -> Option<Seq<char>> {
    match s {
        Some(t) => Some(t@),
        None => None,
    }
}

} // verus!
