//! The grammar of one catalogue line, as spec functions over character sequences.
use vstd::prelude::*;
use crate::text::{ends_with, find_from, rfind, skip_from, starts_with};

verus! {

/// The first tab-separated field: everything before the first tab.
pub open spec fn first_field(line: Seq<char>) -> Seq<char> {
    line.subrange(0, find_from(line, '\t', 0))
}

/// The second field: after the run of tabs that ends the first, up to the next tab.
pub open spec fn second_field(line: Seq<char>) -> Seq<char> {
    let start = skip_from(line, '\t', find_from(line, '\t', 0));
    line.subrange(start, find_from(line, '\t', start))
}

/// A line holds at least two fields exactly when it holds a tab.
pub open spec fn has_two_fields(line: Seq<char>) -> bool {
    line.contains('\t')
}

pub open spec fn suspend_marks() -> Seq<Seq<char>> {
    seq![
        seq![' ', '{', '{', 'S', 'U', 'S', 'P', 'E', 'N', 'D', '}', '}'],
        seq![' ', '{', '{', 'S', 'U', 'S', 'P', 'N', 'E', 'D', '}', '}'],
        seq![' ', '{', '{', 'S', 'U', 'S', 'P', 'E', 'N', 'D', 'E', 'D', '}', '}'],
        seq![' ', '{', '{', 'S', 'U', 'S', 'P', 'N', 'E', 'D', 'E', 'D', '}', '}'],
    ]
}

/// The title ends with a space and a double-braced suspension marker.
pub open spec fn is_suspended(title: Seq<char>) -> bool {
    exists|k: int| 0 <= k < suspend_marks().len() && ends_with(title, #[trigger] suspend_marks()[k])
}

pub open spec fn is_digit(c: char) -> bool {
    '0' <= c && c <= '9'
}

pub open spec fn digit_value(c: char) -> int {
    c as int - '0' as int
}

/// Four decimal digits stand in `s` from index `i`.
pub open spec fn four_digits_at(s: Seq<char>, i: int) -> bool {
    0 <= i && i + 4 <= s.len() && is_digit(s[i]) && is_digit(s[i + 1]) && is_digit(s[i + 2])
        && is_digit(s[i + 3])
}

/// The number that four digits from index `i` write.
pub open spec fn four_digit_value(s: Seq<char>, i: int) -> int {
    1000 * digit_value(s[i]) + 100 * digit_value(s[i + 1]) + 10 * digit_value(s[i + 2])
        + digit_value(s[i + 3])
}

/// `YYYY`
pub open spec fn is_single_year(y: Seq<char>) -> bool {
    y.len() == 4 && four_digits_at(y, 0)
}

/// `YYYY-????`
pub open spec fn is_open_range(y: Seq<char>) -> bool {
    y.len() == 9 && four_digits_at(y, 0) && y[4] == '-' && y.subrange(5, 9) == seq!['?', '?', '?', '?']
}

/// `YYYY-YYYY`
pub open spec fn is_closed_range(y: Seq<char>) -> bool {
    y.len() == 9 && four_digits_at(y, 0) && y[4] == '-' && four_digits_at(y, 5)
}

/// The first and last year that a year field denotes, with `now` as the end of an
/// open range: -1 for an empty field, 0 for one of no known shape.
pub open spec fn year_bounds(y: Seq<char>, now: int) -> (int, int) {
    if y.len() == 0 {
        (-1, -1)
    } else if is_single_year(y) {
        (four_digit_value(y, 0), four_digit_value(y, 0))
    } else if is_open_range(y) {
        (four_digit_value(y, 0), now)
    } else if is_closed_range(y) {
        (four_digit_value(y, 0), four_digit_value(y, 5))
    } else {
        (0, 0)
    }
}

/// Every year from `lo` to `hi`, both included, in increasing order.
pub open spec fn year_range(lo: int, hi: int) -> Seq<i32> {
    Seq::new(if lo <= hi { (hi - lo + 1) as nat } else { 0 }, |i: int| (lo + i) as i32)
}

/// The years that a year field covers.
pub open spec fn years_of(y: Seq<char>, now: int) -> Seq<i32> {
    year_range(year_bounds(y, now).0, year_bounds(y, now).1)
}

/// The index of the last `") {"` in a title: where the parent title ends and the
/// braced episode part begins; -1 where there is none.
pub open spec fn episode_split(t: Seq<char>) -> int {
    rfind(t, seq![')', ' ', '{'])
}

pub open spec fn is_episode(t: Seq<char>) -> bool {
    episode_split(t) >= 0
}

/// The parent title: up to and including the closing parenthesis before the braces.
pub open spec fn parent_title(t: Seq<char>) -> Seq<char> {
    t.subrange(0, episode_split(t) + 1)
}

/// What stands inside the braces: after the opening one, before the last character.
pub open spec fn episode_data(t: Seq<char>) -> Seq<char> {
    let p = episode_split(t);
    if p + 3 <= t.len() - 1 {
        t.subrange(p + 3, t.len() - 1)
    } else {
        Seq::empty()
    }
}

/// Where the `(#` of an episode number starts in the episode data, or -1.
pub open spec fn number_mark(d: Seq<char>) -> int {
    let m = rfind(d, seq![' ', '(', '#']);
    if m >= 0 {
        m + 1
    } else if starts_with(d, seq!['(', '#']) {
        0
    } else {
        -1
    }
}

/// The text between `(#` and the final character of the episode data.
pub open spec fn number_text(d: Seq<char>) -> Seq<char> {
    let pos = number_mark(d);
    if 0 <= pos && pos + 2 <= d.len() - 1 {
        d.subrange(pos + 2, d.len() - 1)
    } else {
        Seq::empty()
    }
}

/// The index of the one dot in `s`, when `s` holds exactly one.
pub open spec fn single_dot(s: Seq<char>) -> int {
    let k = find_from(s, '.', 0);
    if k < s.len() && find_from(s, '.', k + 1) == s.len() {
        k
    } else {
        -1
    }
}

/// The episode data carries a season and episode number, `(#S.E)`.
pub open spec fn has_numbers(d: Seq<char>) -> bool {
    number_mark(d) >= 0 && single_dot(number_text(d)) >= 0
}

pub open spec fn episode_name(d: Seq<char>) -> Seq<char> {
    if has_numbers(d) {
        if number_mark(d) > 0 {
            d.subrange(0, number_mark(d) - 1)
        } else {
            Seq::empty()
        }
    } else {
        d
    }
}

pub open spec fn episode_season(d: Seq<char>) -> Seq<char> {
    if has_numbers(d) {
        number_text(d).subrange(0, single_dot(number_text(d)))
    } else {
        Seq::empty()
    }
}

pub open spec fn episode_number(d: Seq<char>) -> Seq<char> {
    if has_numbers(d) {
        let s = number_text(d);
        s.subrange(single_dot(s) + 1, s.len() as int)
    } else {
        Seq::empty()
    }
}

/// The title that the category step reads: the parent title of an episode, else
/// the whole title.
pub open spec fn after_episode(t: Seq<char>) -> Seq<char> {
    if is_episode(t) {
        parent_title(t)
    } else {
        t
    }
}

/// `TVS` for a quoted title, else the code of a trailing `(TV)`, `(V)` or `(VG)`, else empty.
pub open spec fn category(r: Seq<char>) -> Seq<char> {
    if starts_with(r, seq!['"']) {
        seq!['T', 'V', 'S']
    } else if ends_with(r, seq!['(', 'T', 'V', ')']) {
        seq!['T', 'V']
    } else if ends_with(r, seq!['(', 'V', ')']) {
        seq!['V']
    } else if ends_with(r, seq!['(', 'V', 'G', ')']) {
        seq!['V', 'G']
    } else {
        Seq::empty()
    }
}

/// `r` without a trailing category marker and the character before it.
pub open spec fn after_category(r: Seq<char>) -> Seq<char> {
    if starts_with(r, seq!['"']) || category(r).len() == 0 {
        r
    } else {
        let cut = category(r).len() + 3;
        r.subrange(0, if cut <= r.len() { r.len() - cut } else { 0 })
    }
}

pub open spec fn is_roman(c: char) -> bool {
    c == 'I' || c == 'V' || c == 'X'
}

/// How many roman-numeral characters stand just before index `k` of `s`.
pub open spec fn roman_run(s: Seq<char>, k: int) -> int
    decreases k,
{
    if k <= 0 || k > s.len() || !is_roman(s[k - 1]) {
        0
    } else {
        1 + roman_run(s, k - 1)
    }
}

/// The four characters from index `i` hold no line break.
pub open spec fn four_plain_at(s: Seq<char>, i: int) -> bool {
    0 <= i && i + 4 <= s.len() && forall|j: int| i <= j < i + 4 ==> s[j] != '\n'
}

/// `r` ends with `(YYYY/CODE)`, CODE being roman numerals; the year is any four
/// characters but line breaks.
pub open spec fn has_coded_year(r: Seq<char>) -> bool {
    let n = r.len() as int;
    let run = roman_run(r, n - 1);
    let slash = n - 2 - run;
    n >= 1 && r[n - 1] == ')' && run >= 1 && slash >= 5 && r[slash] == '/' && r[slash - 5] == '('
        && four_plain_at(r, slash - 4)
}

/// `r` ends with `(YYYY)`, the year being any four characters but line breaks.
pub open spec fn has_plain_year(r: Seq<char>) -> bool {
    let n = r.len() as int;
    n >= 6 && r[n - 1] == ')' && r[n - 6] == '(' && four_plain_at(r, n - 5)
}

/// The year marker at the end of `r`, without its parentheses; empty when there is none.
pub open spec fn title_year(r: Seq<char>) -> Seq<char> {
    let n = r.len() as int;
    if has_coded_year(r) {
        r.subrange(n - 2 - roman_run(r, n - 1) - 4, n - 1)
    } else if has_plain_year(r) {
        r.subrange(n - 5, n - 1)
    } else {
        Seq::empty()
    }
}

/// `r` without its year marker and three more characters: the parentheses and the
/// separator before them.
pub open spec fn after_title_year(r: Seq<char>) -> Seq<char> {
    let cut = title_year(r).len() + 3;
    r.subrange(0, if cut <= r.len() { r.len() - cut } else { 0 })
}

/// The display title of a full title: episode, category and year suffixes stripped.
pub open spec fn display_title(t: Seq<char>) -> Seq<char> {
    after_title_year(after_category(after_episode(t)))
}

/// The decimal digit characters, by value.
pub open spec fn digit_chars() -> Seq<char> {
    seq!['0', '1', '2', '3', '4', '5', '6', '7', '8', '9']
}

/// A year from 0 to 9999 written with four digits.
pub open spec fn four_digit_text(n: int) -> Seq<char> {
    seq![
        digit_chars()[n / 1000],
        digit_chars()[(n / 100) % 10],
        digit_chars()[(n / 10) % 10],
        digit_chars()[n % 10],
    ]
}

/// The year field that writes the range from `lo` to `hi`: empty for the
/// sentinel year -1, `YYYY` for a single year, `YYYY-????` for an open range,
/// `YYYY-YYYY` otherwise.
pub open spec fn year_text(lo: int, hi: int, open: bool) -> Seq<char> {
    if lo == -1 {
        Seq::empty()
    } else if open {
        four_digit_text(lo) + seq!['-', '?', '?', '?', '?']
    } else if lo == hi {
        four_digit_text(lo)
    } else {
        four_digit_text(lo) + seq!['-'] + four_digit_text(hi)
    }
}

proof fn lemma_digit_char(d: int)
    requires
        0 <= d < 10,
    ensures
        is_digit(digit_chars()[d]),
        digit_value(digit_chars()[d]) == d,
{
    assert(digit_chars()[0] == '0');
    assert(digit_chars()[1] == '1');
    assert(digit_chars()[2] == '2');
    assert(digit_chars()[3] == '3');
    assert(digit_chars()[4] == '4');
    assert(digit_chars()[5] == '5');
    assert(digit_chars()[6] == '6');
    assert(digit_chars()[7] == '7');
    assert(digit_chars()[8] == '8');
    assert(digit_chars()[9] == '9');
}

proof fn lemma_four_digit_text(s: Seq<char>, i: int, n: int)
    requires
        0 <= n <= 9999,
        0 <= i,
        i + 4 <= s.len(),
        s.subrange(i, i + 4) == four_digit_text(n),
    ensures
        four_digits_at(s, i),
        four_digit_value(s, i) == n,
{
    assert(s[i] == s.subrange(i, i + 4)[0]);
    assert(s[i + 1] == s.subrange(i, i + 4)[1]);
    assert(s[i + 2] == s.subrange(i, i + 4)[2]);
    assert(s[i + 3] == s.subrange(i, i + 4)[3]);
    lemma_digit_char(n / 1000);
    lemma_digit_char((n / 100) % 10);
    lemma_digit_char((n / 10) % 10);
    lemma_digit_char(n % 10);
    assert(1000 * (n / 1000) + 100 * ((n / 100) % 10) + 10 * ((n / 10) % 10) + n % 10 == n)
        by (nonlinear_arith)
        requires
            0 <= n <= 9999,
    ;
}

/// A year field that covers at least one year is written again, from its first
/// and last year and whether it is open, as a field that denotes the same first
/// and last year, is open exactly when the given field is, and so covers the same
/// years. An empty field (the sentinel -1) is written as an empty field, and one
/// of no recognised shape (the fallback 0) as `0000`.
pub proof fn lemma_year_field_round_trip(y: Seq<char>, now: i32)
    requires
        years_of(y, now as int).len() > 0,
    ensures
        ({
            let ys = years_of(y, now as int);
            let f = year_text(ys[0] as int, ys[ys.len() - 1] as int, is_open_range(y));
            &&& year_bounds(f, now as int) == year_bounds(y, now as int)
            &&& is_open_range(f) == is_open_range(y)
            &&& years_of(f, now as int) == ys
        }),
{
    let (lo, hi) = year_bounds(y, now as int);
    let ys = years_of(y, now as int);
    assert(lo <= hi);
    if y.len() == 0 {
        assert(ys =~= seq![-1i32]);
        assert(year_text(-1, -1, false) =~= Seq::<char>::empty());
    } else if !(is_single_year(y) || is_open_range(y) || is_closed_range(y)) {
        assert(ys =~= seq![0i32]);
        let f0 = year_text(0, 0, false);
        assert(f0.subrange(0, 4) =~= four_digit_text(0));
        lemma_four_digit_text(f0, 0, 0);
        assert(is_single_year(f0));
        assert(!is_open_range(f0));
    } else {
        lemma_recognised_round_trip(y, now);
    }
}

proof fn lemma_recognised_round_trip(y: Seq<char>, now: i32)
    requires
        is_single_year(y) || is_open_range(y) || is_closed_range(y),
        years_of(y, now as int).len() > 0,
    ensures
        ({
            let ys = years_of(y, now as int);
            let f = year_text(ys[0] as int, ys[ys.len() - 1] as int, is_open_range(y));
            &&& year_bounds(f, now as int) == year_bounds(y, now as int)
            &&& is_open_range(f) == is_open_range(y)
            &&& years_of(f, now as int) == ys
        }),
{
    let (lo, hi) = year_bounds(y, now as int);
    let ys = years_of(y, now as int);
    let open = is_open_range(y);
    assert(lo <= hi);
    assert(0 <= lo <= 9999) by {
        lemma_digit_bounds(y, 0);
    }
    assert(ys[0] as int == lo);
    assert(hi <= i32::MAX);
    assert(ys[ys.len() - 1] as int == hi) by {
        assert(ys.len() == hi - lo + 1);
    }
    let f = year_text(lo, hi, open);
    if open {
        assert(f.subrange(0, 4) =~= four_digit_text(lo));
        lemma_four_digit_text(f, 0, lo);
        assert(f.subrange(5, 9) =~= seq!['?', '?', '?', '?']);
        assert(is_open_range(f));
        assert(!is_single_year(f));
    } else if lo == hi {
        assert(f.subrange(0, 4) =~= four_digit_text(lo));
        lemma_four_digit_text(f, 0, lo);
        assert(is_single_year(f));
        assert(!is_open_range(f));
    } else {
        assert(is_closed_range(y));
        lemma_digit_bounds(y, 5);
        assert(f.subrange(0, 4) =~= four_digit_text(lo));
        assert(f.subrange(5, 9) =~= four_digit_text(hi));
        lemma_four_digit_text(f, 0, lo);
        lemma_four_digit_text(f, 5, hi);
        assert(f[4] == '-');
        assert(is_closed_range(f));
        assert(!is_single_year(f));
        if is_open_range(f) {
            assert(f.subrange(5, 9)[0] == '?');
        }
    }
}

proof fn lemma_digit_bounds(s: Seq<char>, i: int)
    requires
        four_digits_at(s, i),
    ensures
        0 <= four_digit_value(s, i) <= 9999,
{
}

} // verus!
