//! Recipe documents: the declared head count, the ingredient lines and the
//! instructions of one recipe.

use crate::error::{ParseError, ParseFault};
use crate::text::{
    all_chars, char_is_digit, digits_end, find, find_from, heading_level, heading_level_of,
    is_digit, matches_at, numeral, occurs_at, parse_numeral, skip_digits, skip_spaces, slice,
    spaces_end, split, split_at_char, string_views, text_of, to_chars, trim, trim_bounds, views,
};
use vstd::prelude::*;

verus! {

/// The words by which a recipe document is read.
#[derive(Debug, Clone, PartialEq, Eq)]
pub struct RecipeFormat {
    /// The word that marks the heading of the ingredients section.
    pub ingredients_keyword: String,
    /// The marker after which the instructions stand.
    pub instructions_marker: String,
    /// The words that may follow the number in a head count declaration.
    pub participant_words: Vec<String>,
}

/// What a recipe document says.
#[derive(Debug, Clone, PartialEq, Eq)]
pub struct RecipeDocument {
    /// Where the document was found.
    pub path: String,
    /// The head count that the amounts are written for.
    pub declared_participants: u64,
    /// The bullet lines of the ingredients section, in document order, each
    /// without its marker and the white space around it.
    pub ingredient_lines: Vec<String>,
    /// All that follows the instructions marker, as it stands.
    pub trailing_instructions: Option<String>,
}

/// The mathematical content of a [`RecipeFormat`].
pub struct RecipeFormatView {
    pub ingredients_keyword: Seq<char>,
    pub instructions_marker: Seq<char>,
    pub participant_words: Seq<Seq<char>>,
}

/// The mathematical content of a [`RecipeDocument`].
pub struct RecipeView {
    pub path: Seq<char>,
    pub declared_participants: u64,
    pub ingredient_lines: Seq<Seq<char>>,
    pub trailing_instructions: Option<Seq<char>>,
}

impl View for RecipeFormat {
    type V = RecipeFormatView;

    open spec fn view(&self) -> RecipeFormatView {
        RecipeFormatView {
            ingredients_keyword: self.ingredients_keyword@,
            instructions_marker: self.instructions_marker@,
            participant_words: string_views(self.participant_words@),
        }
    }
}

impl View for RecipeDocument {
    type V = RecipeView;

    open spec fn view(&self) -> RecipeView {
        RecipeView {
            path: self.path@,
            declared_participants: self.declared_participants,
            ingredient_lines: string_views(self.ingredient_lines@),
            trailing_instructions: match self.trailing_instructions {
                Some(t) => Some(t@),
                None => None,
            },
        }
    }
}

/// Whether `line` is a heading that holds `keyword`.
pub open spec fn is_section_heading(line: Seq<char>, keyword: Seq<char>) -> bool {
    heading_level(line) >= 1 && find_from(line, keyword, 0).is_some()
}

/// The first line at or after `from` that is a heading holding `keyword`.
pub open spec fn section_start(lines: Seq<Seq<char>>, keyword: Seq<char>, from: int) -> Option<int>
    decreases lines.len() - from,
{
    if from < 0 || from >= lines.len() {
        None
    } else if is_section_heading(lines[from], keyword) {
        Some(from)
    } else {
        section_start(lines, keyword, from + 1)
    }
}

/// The first line at or after `from` that is a heading of level `level` or
/// above it (of as few `#` or fewer); the number of lines where there is none.
pub open spec fn section_end(lines: Seq<Seq<char>>, level: nat, from: int) -> int
    decreases lines.len() - from,
{
    if from < 0 || from >= lines.len() {
        lines.len() as int
    } else if 1 <= heading_level(lines[from]) <= level {
        from
    } else {
        section_end(lines, level, from + 1)
    }
}

/// What a bullet line lists: where the first character after any leading
/// white space is `-`, all that follows it, trimmed.
pub open spec fn bullet_text(line: Seq<char>) -> Option<Seq<char>> {
    let a = spaces_end(line, 0);
    if 0 <= a < line.len() && line[a] == '-' {
        Some(trim(line.subrange(a + 1, line.len() as int)))
    } else {
        None
    }
}

/// What the bullet lines among `lines` list, in order.
pub open spec fn bullets(lines: Seq<Seq<char>>) -> Seq<Seq<char>>
    decreases lines.len(),
{
    if lines.len() == 0 {
        Seq::empty()
    } else {
        match bullet_text(lines.last()) {
            Some(t) => bullets(lines.drop_last()).push(t),
            None => bullets(lines.drop_last()),
        }
    }
}

/// Whether one of `words` stands in `s` at position `p`.
pub open spec fn word_at(s: Seq<char>, words: Seq<Seq<char>>, p: int) -> bool {
    exists|k: int| 0 <= k < words.len() && occurs_at(s, #[trigger] words[k], p)
}

/// Whether a head count declaration begins at `i`: the whole run of digits
/// that begins there, then all the white space that follows it, then one of
/// `words`.
pub open spec fn declaration_at(s: Seq<char>, words: Seq<Seq<char>>, i: int) -> bool {
    0 <= i < s.len() && is_digit(s[i]) && word_at(s, words, spaces_end(s, digits_end(s, i)))
}

/// The first position at or after `from` at which a head count declaration
/// begins.
pub open spec fn first_declaration(s: Seq<char>, words: Seq<Seq<char>>, from: int) -> Option<int>
    decreases s.len() - from,
{
    if from < 0 || from >= s.len() {
        None
    } else if declaration_at(s, words, from) {
        Some(from)
    } else {
        first_declaration(s, words, from + 1)
    }
}

/// All that follows the first occurrence of `marker`.
pub open spec fn instructions_of(text: Seq<char>, marker: Seq<char>) -> Option<Seq<char>> {
    match find_from(text, marker, 0) {
        Some(p) => Some(text.subrange(p + marker.len(), text.len() as int)),
        None => None,
    }
}

/// The head count that the document declares: the number of its first
/// declaration. `None` where it declares none; `Some(None)` where the number
/// does not fit in 64 bits.
pub open spec fn declared_count(text: Seq<char>, words: Seq<Seq<char>>) -> Option<Option<u64>> {
    match first_declaration(text, words, 0) {
        Some(at) => Some(numeral(text.subrange(at, digits_end(text, at)))),
        None => None,
    }
}

/// The ingredient lines of the document: the bullet lines below the first
/// heading that holds `keyword`, down to the next heading of that level or
/// above it. `None` where no heading holds `keyword`.
pub open spec fn ingredient_lines_of(text: Seq<char>, keyword: Seq<char>) -> Option<Seq<Seq<char>>> {
    let lines = split(text, '\n');
    match section_start(lines, keyword, 0) {
        Some(start) => Some(
            bullets(
                lines.subrange(
                    start + 1,
                    section_end(lines, heading_level(lines[start]), start + 1),
                ),
            ),
        ),
        None => None,
    }
}

/// What the document `text` says, read by `format`.
///
/// A document that declares no head count is refused first; then one whose
/// head count cannot be counted; then one without an ingredients section.
pub open spec fn recipe_of(path: Seq<char>, text: Seq<char>, format: RecipeFormatView) -> Result<
    RecipeView,
    ParseFault,
> {
    match declared_count(text, format.participant_words) {
        None => Err(ParseFault::MissingParticipants { path }),
        Some(None) => Err(ParseFault::InvalidParticipantCount { path }),
        Some(Some(count)) => match ingredient_lines_of(text, format.ingredients_keyword) {
            None => Err(ParseFault::MissingIngredientsSection { path }),
            Some(ingredient_lines) => Ok(
                RecipeView {
                    path,
                    declared_participants: count,
                    ingredient_lines,
                    trailing_instructions: instructions_of(text, format.instructions_marker),
                },
            ),
        },
    }
}

/// A document that declares no head count is refused for that, whatever
/// else it holds, and the error names the document.
pub proof fn lemma_missing_participants(path: Seq<char>, text: Seq<char>, format: RecipeFormatView)
    requires
        forall|i: int| !declaration_at(text, format.participant_words, i),
    ensures
        recipe_of(path, text, format) == Err::<RecipeView, ParseFault>(
            ParseFault::MissingParticipants { path },
        ),
{
    lemma_no_declaration(text, format.participant_words, 0);
}

/// Where no declaration begins at or after `from`, none is found.
pub proof fn lemma_no_declaration(text: Seq<char>, words: Seq<Seq<char>>, from: int)
    requires
        forall|i: int| from <= i ==> !declaration_at(text, words, i),
    ensures
        first_declaration(text, words, from).is_none(),
    decreases text.len() - from,
{
    if 0 <= from < text.len() {
        lemma_no_declaration(text, words, from + 1);
    }
}

/// What a bullet line lists.
pub fn bullet_of(line: &Vec<char>) -> (r: Option<Vec<char>>)
    ensures
        match r {
            Some(t) => bullet_text(line@) == Some(t@),
            None => bullet_text(line@).is_none(),
        },
{
    let a = skip_spaces(line, 0);
    if a < line.len() && line[a] == '-' {
        let rest = slice(line, a + 1, line.len());
        let (lo, hi) = trim_bounds(&rest, 0, rest.len());
        assert(rest@.subrange(0, rest.len() as int) == rest@);
        Some(slice(&rest, lo, hi))
    } else {
        None
    }
}

/// The first line at or after `from` that is a heading holding `keyword`.
pub fn find_section(lines: &Vec<Vec<char>>, keyword: &Vec<char>, from: usize) -> (r: Option<usize>)
    ensures
        match r {
            Some(i) => i < lines.len() && section_start(views(lines@), keyword@, from as int)
                == Some(i as int),
            None => section_start(views(lines@), keyword@, from as int).is_none(),
        },
{
    let mut i: usize = from;
    while i < lines.len()
        invariant
            from <= i,
            section_start(views(lines@), keyword@, from as int) == section_start(
                views(lines@),
                keyword@,
                i as int,
            ),
        decreases lines.len() - i,
    {
        let line = &lines[i];
        if heading_level_of(line) >= 1 && find(line, keyword, 0).is_some() {
            return Some(i);
        }
        i += 1;
    }
    None
}

/// The first line at or after `from` that is a heading of level `level` or
/// above it; the number of lines where there is none.
pub(crate) fn find_section_end(lines: &Vec<Vec<char>>, level: usize, from: usize) -> (r: usize)
    requires
        from <= lines.len(),
    ensures
        from <= r <= lines.len(),
        r == section_end(views(lines@), level as nat, from as int),
{
    let mut i: usize = from;
    while i < lines.len()
        invariant
            from <= i <= lines.len(),
            section_end(views(lines@), level as nat, from as int) == section_end(
                views(lines@),
                level as nat,
                i as int,
            ),
        decreases lines.len() - i,
    {
        let line = &lines[i];
        let found = heading_level_of(line);
        if 1 <= found && found <= level {
            return i;
        }
        i += 1;
    }
    i
}

/// What the bullet lines among `lines[lo..hi]` list, in order.
pub(crate) fn collect_bullets(lines: &Vec<Vec<char>>, lo: usize, hi: usize) -> (out: Vec<String>)
    requires
        lo <= hi <= lines.len(),
    ensures
        string_views(out@) == bullets(views(lines@).subrange(lo as int, hi as int)),
{
    let mut out: Vec<String> = Vec::new();
    let mut i: usize = lo;
    while i < hi
        invariant
            lo <= i <= hi <= lines.len(),
            string_views(out@) == bullets(views(lines@).subrange(lo as int, i as int)),
        decreases hi - i,
    {
        let ghost seen = views(lines@).subrange(lo as int, i + 1);
        assert(seen.drop_last() == views(lines@).subrange(lo as int, i as int));
        match bullet_of(&lines[i]) {
            Some(t) => {
                out.push(text_of(&t));
            },
            None => {},
        }
        i += 1;
    }
    out
}

/// Whether one of `words` stands in `s` at position `p`.
pub fn has_word_at(s: &Vec<char>, words: &Vec<Vec<char>>, p: usize) -> (r: bool)
    ensures
        r == word_at(s@, views(words@), p as int),
{
    let mut k: usize = 0;
    while k < words.len()
        invariant
            k <= words.len(),
            forall|j: int| 0 <= j < k ==> !occurs_at(s@, #[trigger] views(words@)[j], p as int),
        decreases words.len() - k,
    {
        assert(views(words@)[k as int] == words@[k as int]@);
        if matches_at(s, &words[k], p) {
            return true;
        }
        k += 1;
    }
    false
}

/// The first position at which a head count declaration begins.
pub fn find_declaration(s: &Vec<char>, words: &Vec<Vec<char>>) -> (r: Option<usize>)
    ensures
        match r {
            Some(i) => i < s.len() && first_declaration(s@, views(words@), 0) == Some(i as int),
            None => first_declaration(s@, views(words@), 0).is_none(),
        },
{
    let mut i: usize = 0;
    while i < s.len()
        invariant
            first_declaration(s@, views(words@), 0) == first_declaration(
                s@,
                views(words@),
                i as int,
            ),
        decreases s.len() - i,
    {
        if char_is_digit(s[i]) {
            let e = skip_digits(s, i);
            let f = skip_spaces(s, e);
            if has_word_at(s, words, f) {
                return Some(i);
            }
        }
        i += 1;
    }
    None
}

/// Reads recipe documents.
pub struct DishLoader {}

impl DishLoader {
    /// Reads the recipe document `text`, found at `path`.
    ///
    /// Fails with `MissingParticipants` where the document declares no head
    /// count, else with `InvalidParticipantCount` where the declared number
    /// does not fit in 64 bits, else with `MissingIngredientsSection` where
    /// no heading holds the keyword.
    pub fn load(path: &str, text: &str, format: &RecipeFormat) -> (r: Result<
        RecipeDocument,
        ParseError,
    >)
        ensures
            match r {
                Ok(doc) => recipe_of(path@, text@, format@) == Ok::<RecipeView, ParseFault>(doc@),
                Err(e) => recipe_of(path@, text@, format@) == Err::<RecipeView, ParseFault>(e@),
            },
    {
        let chars = to_chars(text);
        let words = all_chars(&format.participant_words);
        let at = match find_declaration(&chars, &words) {
            Some(at) => at,
            None => {
                return Err(ParseError::MissingParticipants { path: path.to_owned() });
            },
        };
        let digits = slice(&chars, at, skip_digits(&chars, at));
        let count = match parse_numeral(&digits) {
            Some(count) => count,
            None => {
                return Err(ParseError::InvalidParticipantCount { path: path.to_owned() });
            },
        };
        let lines = split_at_char(&chars, '\n');
        let keyword = to_chars(format.ingredients_keyword.as_str());
        let start = match find_section(&lines, &keyword, 0) {
            Some(start) => start,
            None => {
                return Err(ParseError::MissingIngredientsSection { path: path.to_owned() });
            },
        };
        let level = heading_level_of(&lines[start]);
        let end = find_section_end(&lines, level, start + 1);
        let ingredient_lines = collect_bullets(&lines, start + 1, end);
        let marker = to_chars(format.instructions_marker.as_str());
        let trailing_instructions = match find(&chars, &marker, 0) {
            Some(p) => {
                proof {
                    crate::text::lemma_find_from(chars@, marker@, 0);
                }
                Some(text_of(&slice(&chars, p + marker.len(), chars.len())))
            },
            None => None,
        };
        Ok(
            RecipeDocument {
                path: path.to_owned(),
                declared_participants: count,
                ingredient_lines,
                trailing_instructions,
            },
        )
    }
}

} // verus!
