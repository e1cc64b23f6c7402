//! Character sequences: the small vocabulary of searching, trimming, splitting
//! and joining that the document formats are written in.
//!
//! Every contract here speaks of `Seq<char>`, the view of `str`, `String` and
//! `Vec<char>` alike. Positions count characters, never bytes.

use vstd::prelude::*;

verus! {

/// `String::push` appends one character at the end and changes nothing else.
pub assume_specification[ String::push ](s: &mut String, ch: char)
    ensures
        final(s)@ == old(s)@.push(ch),
;

/// The characters of `s`, in order.
pub fn to_chars(s: &str) -> (out: Vec<char>)
    ensures
        out@ == s@,
{
    let mut out: Vec<char> = Vec::new();
    for c in it: s.chars()
        invariant
            out@ == it.seq().take(it.index()),
    {
        out.push(c);
    }
    out
}

/// The characters `s[lo..hi]` as an owned string.
pub(crate) fn to_text(s: &Vec<char>, lo: usize, hi: usize) -> (out: String)
    requires
        lo <= hi <= s.len(),
    ensures
        out@ == s@.subrange(lo as int, hi as int),
{
    let mut out = String::new();
    let mut i: usize = lo;
    while i < hi
        invariant
            lo <= i <= hi <= s.len(),
            out@ == s@.subrange(lo as int, i as int),
        decreases hi - i,
    {
        out.push(s[i]);
        i += 1;
    }
    out
}

/// Space, tab, carriage return, line feed, vertical tab and form feed.
pub open spec fn is_space(c: char) -> bool {
    c == ' ' || c == '\t' || c == '\r' || c == '\n' || c == '\x0b' || c == '\x0c'
}

/// `s` without its leading white space.
pub open spec fn trim_start(s: Seq<char>) -> Seq<char>
    decreases s.len(),
{
    if s.len() > 0 && is_space(s[0]) {
        trim_start(s.skip(1))
    } else {
        s
    }
}

/// `s` without its trailing white space.
pub open spec fn trim_end(s: Seq<char>) -> Seq<char>
    decreases s.len(),
{
    if s.len() > 0 && is_space(s.last()) {
        trim_end(s.drop_last())
    } else {
        s
    }
}

/// `s` without white space at either end.
pub open spec fn trim(s: Seq<char>) -> Seq<char> {
    trim_end(trim_start(s))
}

/// Whether `c` is white space.
pub fn char_is_space(c: char) -> (r: bool)
    ensures
        r == is_space(c),
{
    c == ' ' || c == '\t' || c == '\r' || c == '\n' || c == '\x0b' || c == '\x0c'
}

/// The bounds of `s[lo..hi]` once trimmed.
pub(crate) fn trim_bounds(s: &Vec<char>, lo: usize, hi: usize) -> (r: (usize, usize))
    requires
        lo <= hi <= s.len(),
    ensures
        lo <= r.0 <= r.1 <= hi,
        s@.subrange(r.0 as int, r.1 as int) == trim(s@.subrange(lo as int, hi as int)),
{
    let mut a: usize = lo;
    while a < hi && char_is_space(s[a])
        invariant
            lo <= a <= hi <= s.len(),
            trim_start(s@.subrange(lo as int, hi as int)) == trim_start(
                s@.subrange(a as int, hi as int),
            ),
        decreases hi - a,
    {
        assert(s@.subrange(a as int, hi as int).skip(1) == s@.subrange(a + 1, hi as int));
        a += 1;
    }
    let mut b: usize = hi;
    while a < b && char_is_space(s[b - 1])
        invariant
            a <= b <= hi <= s.len(),
            trim_end(s@.subrange(a as int, hi as int)) == trim_end(s@.subrange(a as int, b as int)),
        decreases b - a,
    {
        assert(s@.subrange(a as int, b as int).drop_last() == s@.subrange(a as int, b - 1));
        b -= 1;
    }
    (a, b)
}

/// Whether `pat` stands in `s` at position `i`.
pub open spec fn occurs_at(s: Seq<char>, pat: Seq<char>, i: int) -> bool {
    0 <= i && i + pat.len() <= s.len() && s.subrange(i, i + pat.len()) == pat
}

/// The first position at or after `from` at which `pat` stands in `s`.
pub open spec fn find_from(s: Seq<char>, pat: Seq<char>, from: int) -> Option<int>
    decreases s.len() - from,
{
    if from < 0 || from + pat.len() > s.len() {
        None
    } else if occurs_at(s, pat, from) {
        Some(from)
    } else if from >= s.len() {
        None
    } else {
        find_from(s, pat, from + 1)
    }
}

/// What `find_from` finds is an occurrence, and the earliest one; where it
/// finds nothing there is none.
pub proof fn lemma_find_from(s: Seq<char>, pat: Seq<char>, from: int)
    requires
        0 <= from,
    ensures
        match find_from(s, pat, from) {
            Some(i) => from <= i && occurs_at(s, pat, i) && forall|j: int|
                from <= j < i ==> !occurs_at(s, pat, j),
            None => forall|j: int| from <= j ==> !occurs_at(s, pat, j),
        },
    decreases s.len() - from,
{
    if from + pat.len() <= s.len() && !occurs_at(s, pat, from) {
        if from >= s.len() {
            assert(s.subrange(from, from + pat.len()) =~= pat);
        } else {
            lemma_find_from(s, pat, from + 1);
        }
    }
}

/// Whether `pat` stands in `s` at position `i`.
pub fn matches_at(s: &Vec<char>, pat: &Vec<char>, i: usize) -> (r: bool)
    ensures
        r == occurs_at(s@, pat@, i as int),
{
    if pat.len() > s.len() || i > s.len() - pat.len() {
        return false;
    }
    let mut k: usize = 0;
    while k < pat.len()
        invariant
            k <= pat.len(),
            i + pat.len() <= s.len(),
            s@.subrange(i as int, i + k) == pat@.take(k as int),
        decreases pat.len() - k,
    {
        if s[i + k] != pat[k] {
            return false;
        }
        k += 1;
    }
    assert(pat@.take(k as int) == pat@);
    true
}

/// The first position at or after `from` at which `pat` stands in `s`.
pub fn find(s: &Vec<char>, pat: &Vec<char>, from: usize) -> (r: Option<usize>)
    ensures
        match r {
            Some(i) => find_from(s@, pat@, from as int) == Some(i as int),
            None => find_from(s@, pat@, from as int).is_none(),
        },
{
    if pat.len() > s.len() || from > s.len() - pat.len() {
        return None;
    }
    let last: usize = s.len() - pat.len();
    let mut i: usize = from;
    loop
        invariant
            from <= i <= last,
            last == s.len() - pat.len(),
            find_from(s@, pat@, from as int) == find_from(s@, pat@, i as int),
        decreases last - i,
    {
        if matches_at(s, pat, i) {
            return Some(i);
        }
        if i == last {
            assert(find_from(s@, pat@, i + 1).is_none());
            return None;
        }
        i += 1;
    }
}

/// The first position at or after `from` that holds `c`; the length of `s`
/// where there is none.
pub open spec fn index_of(s: Seq<char>, c: char, from: int) -> int
    decreases s.len() - from,
{
    if from < 0 || from >= s.len() {
        s.len() as int
    } else if s[from] == c {
        from
    } else {
        index_of(s, c, from + 1)
    }
}

/// The first position in `from..hi` that holds `c`, or `hi`.
pub(crate) fn scan_to(s: &Vec<char>, c: char, from: usize, hi: usize) -> (r: usize)
    requires
        from <= hi <= s.len(),
    ensures
        from <= r <= hi,
        r == index_of(s@.take(hi as int), c, from as int),
        r < hi ==> s@[r as int] == c,
        forall|j: int| from <= j < r ==> s@[j] != c,
{
    let mut i: usize = from;
    while i < hi && s[i] != c
        invariant
            from <= i <= hi <= s.len(),
            index_of(s@.take(hi as int), c, from as int) == index_of(
                s@.take(hi as int),
                c,
                i as int,
            ),
            forall|j: int| from <= j < i ==> s@[j] != c,
        decreases hi - i,
    {
        i += 1;
    }
    i
}

/// The pieces of `s` from position `from` on, cut at every `sep`. There is
/// always at least one piece; two separators side by side hold an empty one.
pub open spec fn split_from(s: Seq<char>, sep: char, from: int) -> Seq<Seq<char>>
    decreases s.len() - from,
{
    let e = index_of(s, sep, from);
    if 0 <= from <= e < s.len() {
        seq![s.subrange(from, e)] + split_from(s, sep, e + 1)
    } else {
        seq![s.subrange(from, s.len() as int)]
    }
}

/// The pieces of `s`, cut at every `sep`.
pub open spec fn split(s: Seq<char>, sep: char) -> Seq<Seq<char>> {
    split_from(s, sep, 0)
}

/// The views of a vector of character vectors.
pub open spec fn views(v: Seq<Vec<char>>) -> Seq<Seq<char>> {
    Seq::new(v.len(), |i: int| v[i]@)
}

/// The characters `s[lo..hi]` as a vector of their own.
pub(crate) fn slice(s: &Vec<char>, lo: usize, hi: usize) -> (out: Vec<char>)
    requires
        lo <= hi <= s.len(),
    ensures
        out@ == s@.subrange(lo as int, hi as int),
{
    let mut out: Vec<char> = Vec::new();
    let mut i: usize = lo;
    while i < hi
        invariant
            lo <= i <= hi <= s.len(),
            out@ == s@.subrange(lo as int, i as int),
        decreases hi - i,
    {
        out.push(s[i]);
        i += 1;
    }
    out
}

/// Where piece `k` of a split begins in the text that was split: behind all
/// the pieces before it and their separators.
pub open spec fn piece_offset(parts: Seq<Seq<char>>, k: int) -> int
    decreases k,
{
    if k <= 0 {
        0
    } else {
        piece_offset(parts, k - 1) + parts[k - 1].len() + 1
    }
}

/// Where a piece begins depends on the pieces before it alone.
pub proof fn lemma_piece_offset_prefix(parts: Seq<Seq<char>>, more: Seq<Seq<char>>, k: int)
    requires
        0 <= k <= parts.len() <= more.len(),
        forall|i: int| 0 <= i < parts.len() ==> parts[i] == more[i],
    ensures
        piece_offset(parts, k) == piece_offset(more, k),
    decreases k,
{
    if k > 0 {
        lemma_piece_offset_prefix(parts, more, k - 1);
    }
}

/// The pieces of `s`, cut at every `sep`. Each piece lies inside `s`, at its
/// offset.
pub fn split_at_char(s: &Vec<char>, sep: char) -> (parts: Vec<Vec<char>>)
    ensures
        views(parts@) == split(s@, sep),
        parts.len() >= 1,
        forall|k: int|
            0 <= k < parts.len() ==> piece_offset(views(parts@), k) + (#[trigger] parts@[k]).len()
                <= s.len(),
{
    let mut parts: Vec<Vec<char>> = Vec::new();
    let mut start: usize = 0;
    loop
        invariant
            start <= s.len(),
            split(s@, sep) == views(parts@) + split_from(s@, sep, start as int),
            piece_offset(views(parts@), parts.len() as int) == start,
            forall|k: int|
                0 <= k < parts.len() ==> piece_offset(views(parts@), k) + (
                #[trigger] parts@[k]).len() <= s.len(),
        decreases s.len() - start,
    {
        let e = scan_to(s, sep, start, s.len());
        assert(s@.take(s.len() as int) == s@);
        let piece = slice(s, start, e);
        let ghost before = views(parts@);
        parts.push(piece);
        proof {
            assert forall|k: int| 0 <= k < parts.len() implies piece_offset(views(parts@), k) + (
            #[trigger] parts@[k]).len() <= s.len() by {
                lemma_piece_offset_prefix(before, views(parts@), k);
            }
            lemma_piece_offset_prefix(before, views(parts@), parts.len() - 1);
        }
        if e == s.len() {
            return parts;
        }
        start = e + 1;
    }
}

/// The parts in order, with `sep` between each two.
pub open spec fn join(parts: Seq<Seq<char>>, sep: Seq<char>) -> Seq<char>
    decreases parts.len(),
{
    if parts.len() == 0 {
        Seq::empty()
    } else if parts.len() == 1 {
        parts[0]
    } else {
        join(parts.drop_last(), sep) + sep + parts.last()
    }
}

/// Appends the characters of `piece` to `out`.
pub fn append(out: &mut Vec<char>, piece: &Vec<char>)
    ensures
        final(out)@ == old(out)@ + piece@,
{
    let mut i: usize = 0;
    let ghost head = out@;
    while i < piece.len()
        invariant
            i <= piece.len(),
            out@ == head + piece@.take(i as int),
        decreases piece.len() - i,
    {
        out.push(piece[i]);
        i += 1;
    }
}

/// The parts `parts[from..]` in order, with `sep` between each two.
pub(crate) fn join_from(parts: &Vec<Vec<char>>, from: usize, sep: &Vec<char>) -> (out: Vec<char>)
    requires
        from <= parts.len(),
    ensures
        out@ == join(views(parts@).skip(from as int), sep@),
{
    let mut out: Vec<char> = Vec::new();
    let mut k: usize = from;
    let ghost all = views(parts@).skip(from as int);
    while k < parts.len()
        invariant
            from <= k <= parts.len(),
            all == views(parts@).skip(from as int),
            out@ == join(all.take(k - from), sep@),
        decreases parts.len() - k,
    {
        if k > from {
            append(&mut out, sep);
        }
        append(&mut out, &parts[k]);
        proof {
            let next = all.take(k - from + 1);
            assert(next.drop_last() == all.take(k - from));
            if k > from {
                assert(out@ == join(next.drop_last(), sep@) + sep@ + next.last());
            } else {
                assert(next.drop_last().len() == 0);
            }
        }
        k += 1;
    }
    assert(all.take(k - from) == all);
    out
}

/// The parts in order, with `sep` between each two.
pub fn join_all(parts: &Vec<Vec<char>>, sep: &Vec<char>) -> (out: Vec<char>)
    ensures
        out@ == join(views(parts@), sep@),
{
    assert(views(parts@).skip(0) == views(parts@));
    join_from(parts, 0, sep)
}

/// Whether `a` and `b` hold the same characters.
pub fn same_text(a: &Vec<char>, b: &Vec<char>) -> (r: bool)
    ensures
        r == (a@ == b@),
{
    if a.len() != b.len() {
        return false;
    }
    let r = matches_at(a, b, 0);
    assert(a@.subrange(0, a.len() as int) == a@);
    r
}

/// Whether one of `list` holds the same characters as `item`.
pub fn contains_text(list: &Vec<Vec<char>>, item: &Vec<char>) -> (r: bool)
    ensures
        r == views(list@).contains(item@),
{
    let mut k: usize = 0;
    while k < list.len()
        invariant
            k <= list.len(),
            forall|j: int| 0 <= j < k ==> views(list@)[j] != item@,
        decreases list.len() - k,
    {
        if same_text(&list[k], item) {
            assert(views(list@)[k as int] == item@);
            return true;
        }
        k += 1;
    }
    false
}

/// One of the ten decimal digits.
pub open spec fn is_digit(c: char) -> bool {
    '0' <= c && c <= '9'
}

/// Whether `s` is made of decimal digits only.
pub open spec fn all_digits(s: Seq<char>) -> bool {
    forall|i: int| 0 <= i < s.len() ==> is_digit(#[trigger] s[i])
}

/// The number that a digit stands for.
pub open spec fn digit_value(c: char) -> nat {
    (c as u32 - '0' as u32) as nat
}

/// The number that a run of digits denotes in base ten; zero for none.
pub open spec fn decimal_value(s: Seq<char>) -> nat
    decreases s.len(),
{
    if s.len() == 0 {
        0
    } else {
        decimal_value(s.drop_last()) * 10 + digit_value(s.last())
    }
}

/// What a numeral denotes: a number where `s` is one digit or more and its
/// value fits in 64 bits, nothing otherwise.
pub open spec fn numeral(s: Seq<char>) -> Option<u64> {
    if s.len() > 0 && all_digits(s) && decimal_value(s) <= u64::MAX {
        Some(decimal_value(s) as u64)
    } else {
        None
    }
}

/// A longer run of digits denotes no less than any run it starts with.
pub proof fn lemma_decimal_value_grows(s: Seq<char>, k: int)
    requires
        0 <= k <= s.len(),
    ensures
        decimal_value(s.take(k)) <= decimal_value(s),
    decreases s.len() - k,
{
    if k < s.len() {
        lemma_decimal_value_grows(s, k + 1);
        assert(s.take(k + 1).drop_last() == s.take(k));
    } else {
        assert(s.take(k) == s);
    }
}

/// Whether `c` is a decimal digit.
pub fn char_is_digit(c: char) -> (r: bool)
    ensures
        r == is_digit(c),
{
    '0' <= c && c <= '9'
}

/// Reads `s` as a numeral.
pub fn parse_numeral(s: &Vec<char>) -> (r: Option<u64>)
    ensures
        r == numeral(s@),
{
    if s.len() == 0 {
        return None;
    }
    let mut value: u64 = 0;
    let mut i: usize = 0;
    while i < s.len()
        invariant
            i <= s.len(),
            all_digits(s@.take(i as int)),
            value == decimal_value(s@.take(i as int)),
        decreases s.len() - i,
    {
        let c = s[i];
        if !char_is_digit(c) {
            return None;
        }
        let d: u64 = (c as u32 - '0' as u32) as u64;
        proof {
            assert(s@.take(i + 1).drop_last() == s@.take(i as int));
            lemma_decimal_value_grows(s@, i + 1);
        }
        if value > (u64::MAX - d) / 10 {
            return None;
        }
        value = value * 10 + d;
        i += 1;
    }
    assert(s@.take(i as int) == s@);
    Some(value)
}

/// The end of the run of digits that begins at `from`.
pub open spec fn digits_end(s: Seq<char>, from: int) -> int
    decreases s.len() - from,
{
    if 0 <= from < s.len() && is_digit(s[from]) {
        digits_end(s, from + 1)
    } else {
        from
    }
}

/// The end of the run of white space that begins at `from`.
pub open spec fn spaces_end(s: Seq<char>, from: int) -> int
    decreases s.len() - from,
{
    if 0 <= from < s.len() && is_space(s[from]) {
        spaces_end(s, from + 1)
    } else {
        from
    }
}

/// The end of the run of digits that begins at `from`.
pub(crate) fn skip_digits(s: &Vec<char>, from: usize) -> (r: usize)
    requires
        from <= s.len(),
    ensures
        from <= r <= s.len(),
        r == digits_end(s@, from as int),
        all_digits(s@.subrange(from as int, r as int)),
{
    let mut i: usize = from;
    while i < s.len() && char_is_digit(s[i])
        invariant
            from <= i <= s.len(),
            digits_end(s@, from as int) == digits_end(s@, i as int),
            all_digits(s@.subrange(from as int, i as int)),
        decreases s.len() - i,
    {
        i += 1;
    }
    i
}

/// The end of the run of white space that begins at `from`.
pub(crate) fn skip_spaces(s: &Vec<char>, from: usize) -> (r: usize)
    requires
        from <= s.len(),
    ensures
        from <= r <= s.len(),
        r == spaces_end(s@, from as int),
{
    let mut i: usize = from;
    while i < s.len() && char_is_space(s[i])
        invariant
            from <= i <= s.len(),
            spaces_end(s@, from as int) == spaces_end(s@, i as int),
        decreases s.len() - i,
    {
        i += 1;
    }
    i
}

/// The views of a vector of strings.
pub open spec fn string_views(v: Seq<String>) -> Seq<Seq<char>> {
    Seq::new(v.len(), |i: int| v[i]@)
}

/// Each string of `v` as a vector of characters.
pub fn all_chars(v: &Vec<String>) -> (out: Vec<Vec<char>>)
    ensures
        views(out@) == string_views(v@),
{
    let mut out: Vec<Vec<char>> = Vec::new();
    let mut k: usize = 0;
    while k < v.len()
        invariant
            k <= v.len(),
            out.len() == k,
            forall|j: int| 0 <= j < k ==> out@[j]@ == v@[j]@,
        decreases v.len() - k,
    {
        out.push(to_chars(v[k].as_str()));
        k += 1;
    }
    out
}

/// The characters of `s` as an owned string.
pub fn text_of(s: &Vec<char>) -> (out: String)
    ensures
        out@ == s@,
{
    to_text(s, 0, s.len())
}

/// The end of the run of `c` that begins at `from`.
pub open spec fn run_end(s: Seq<char>, c: char, from: int) -> int
    decreases s.len() - from,
{
    if 0 <= from < s.len() && s[from] == c {
        run_end(s, c, from + 1)
    } else {
        from
    }
}

/// The end of the run of `c` that begins at `from`.
pub(crate) fn skip_run(s: &Vec<char>, c: char, from: usize) -> (r: usize)
    requires
        from <= s.len(),
    ensures
        from <= r <= s.len(),
        r == run_end(s@, c, from as int),
{
    let mut i: usize = from;
    while i < s.len() && s[i] == c
        invariant
            from <= i <= s.len(),
            run_end(s@, c, from as int) == run_end(s@, c, i as int),
        decreases s.len() - i,
    {
        i += 1;
    }
    i
}

/// Whether `a` comes before `b` in dictionary order, character by character.
/// Capitals and small letters differ. This is also the order of the two
/// texts' bytes in UTF-8.
pub open spec fn lex_less(a: Seq<char>, b: Seq<char>) -> bool
    decreases a.len(),
{
    if b.len() == 0 {
        false
    } else if a.len() == 0 {
        true
    } else if a[0] != b[0] {
        a[0] < b[0]
    } else {
        lex_less(a.skip(1), b.skip(1))
    }
}

/// Nothing comes before itself.
pub proof fn lemma_lex_irreflexive(a: Seq<char>)
    ensures
        !lex_less(a, a),
    decreases a.len(),
{
    if a.len() > 0 {
        lemma_lex_irreflexive(a.skip(1));
    }
}

/// What comes before something that comes before `c` comes before `c`.
pub proof fn lemma_lex_transitive(a: Seq<char>, b: Seq<char>, c: Seq<char>)
    requires
        lex_less(a, b),
        lex_less(b, c),
    ensures
        lex_less(a, c),
    decreases a.len(),
{
    if a.len() > 0 && a[0] == b[0] && b[0] == c[0] {
        lemma_lex_transitive(a.skip(1), b.skip(1), c.skip(1));
    }
}

/// Of two different texts one comes before the other.
pub proof fn lemma_lex_total(a: Seq<char>, b: Seq<char>)
    ensures
        a == b || lex_less(a, b) || lex_less(b, a),
    decreases a.len(),
{
    if a.len() > 0 && b.len() > 0 && a[0] == b[0] {
        lemma_lex_total(a.skip(1), b.skip(1));
        if a.skip(1) == b.skip(1) {
            assert(a =~= seq![a[0]] + a.skip(1));
            assert(b =~= seq![b[0]] + b.skip(1));
        }
    } else if a.len() == 0 && b.len() == 0 {
        assert(a =~= b);
    }
}

/// Whether `a` comes before `b` in dictionary order.
pub fn text_less(a: &Vec<char>, b: &Vec<char>) -> (r: bool)
    ensures
        r == lex_less(a@, b@),
{
    let mut i: usize = 0;
    assert(a@.skip(0) == a@ && b@.skip(0) == b@);
    loop
        invariant
            i <= a.len(),
            i <= b.len(),
            lex_less(a@, b@) == lex_less(a@.skip(i as int), b@.skip(i as int)),
        decreases a.len() - i,
    {
        if i == b.len() {
            return false;
        }
        if i == a.len() {
            return true;
        }
        if a[i] != b[i] {
            return a[i] < b[i];
        }
        assert(a@.skip(i as int).skip(1) == a@.skip(i + 1));
        assert(b@.skip(i as int).skip(1) == b@.skip(i + 1));
        i += 1;
    }
}

/// The length of `s` once its trailing white space is taken off.
pub fn trim_end_bound(s: &Vec<char>) -> (r: usize)
    ensures
        r <= s.len(),
        s@.take(r as int) == trim_end(s@),
{
    let mut b: usize = s.len();
    assert(s@.take(s.len() as int) == s@);
    while b > 0 && char_is_space(s[b - 1])
        invariant
            b <= s.len(),
            trim_end(s@) == trim_end(s@.take(b as int)),
        decreases b,
    {
        assert(s@.take(b as int).drop_last() == s@.take(b - 1));
        b -= 1;
    }
    b
}

/// The level of a heading line: the number of `#` that it begins with, where
/// white space or the end of the line follows them. Zero for any other line.
pub open spec fn heading_level(line: Seq<char>) -> nat {
    let k = run_end(line, '#', 0);
    if k >= 1 && (k >= line.len() || is_space(line[k])) {
        k as nat
    } else {
        0
    }
}

/// The level of a heading line, zero for any other line.
pub fn heading_level_of(line: &Vec<char>) -> (r: usize)
    ensures
        r == heading_level(line@),
        r <= line.len(),
{
    let k = skip_run(line, '#', 0);
    if k >= 1 && (k >= line.len() || char_is_space(line[k])) {
        k
    } else {
        0
    }
}

} // verus!
