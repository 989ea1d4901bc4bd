//! Decomposition of one catalogue line into a movie record.
use vstd::prelude::*;
use crate::fields::{
    after_category, after_episode, after_title_year, category, digit_chars, digit_value, display_title, episode_data,
    episode_name, episode_number, episode_season, episode_split, first_field, four_digit_value,
    four_digits_at, has_coded_year, has_plain_year, has_two_fields, is_closed_range,
    is_digit, is_episode, is_open_range, is_roman, is_suspended, number_mark,
    number_text, parent_title, roman_run, second_field, single_dot, suspend_marks, title_year,
    four_digit_text, year_bounds, year_range, year_text, years_of,
};
use crate::id_handler::IdHandler;
use crate::text::{
    chars_of, ends_with_chars, find_char_from, lemma_find_from_range, lemma_rfind_below_range,
    lemma_skip_from_range, rfind_chars, skip_char_from, slice, starts_with_chars, string_of,
};

verus! {

/// One catalogue line, taken apart.
#[derive(Debug)]
pub struct Movie {
    pub id: i32,
    pub full_title: String,
    pub full_year: String,
    pub title: String,
    pub title_year: String,
    pub title_category: String,
    pub years: Vec<i32>,
    pub year_open_end: bool,
    pub is_episode: bool,
    pub episode_name: String,
    pub episode_season: String,
    pub episode_episode: String,
    pub episode_parent_title: String,
    pub suspended: bool,
}

/// Relies on chrono's `Local::now` and `Datelike::year`: the year of the local
/// calendar at the time of the call.
#[verifier::external_body]
fn current_year() -> (r: i32) {
    chrono::Datelike::year(&chrono::Local::now())
}

/// The first field of a line that holds a tab.
fn extract_full_title(line: &Vec<char>) -> (r: Vec<char>)
    requires
        has_two_fields(line@),
    ensures
        r@ == first_field(line@),
{
    proof {
        lemma_find_from_range(line@, '\t', 0);
    }
    let end = find_char_from(line, '\t', 0);
    slice(line, 0, end)
}

/// The second field of a line that holds a tab.
fn extract_full_year(line: &Vec<char>) -> (r: Vec<char>)
    requires
        has_two_fields(line@),
    ensures
        r@ == second_field(line@),
{
    proof {
        lemma_find_from_range(line@, '\t', 0);
    }
    let tab = find_char_from(line, '\t', 0);
    proof {
        lemma_skip_from_range(line@, '\t', tab as int);
    }
    let start = skip_char_from(line, '\t', tab);
    proof {
        lemma_find_from_range(line@, '\t', start as int);
    }
    let end = find_char_from(line, '\t', start);
    slice(line, start, end)
}

/// Whether a full title carries a suspension marker.
fn extract_suspended(title: &Vec<char>) -> (r: bool)
    ensures
        r == is_suspended(title@),
{
    let marks: Vec<Vec<char>> = vec![
        vec![' ', '{', '{', 'S', 'U', 'S', 'P', 'E', 'N', 'D', '}', '}'],
        vec![' ', '{', '{', 'S', 'U', 'S', 'P', 'N', 'E', 'D', '}', '}'],
        vec![' ', '{', '{', 'S', 'U', 'S', 'P', 'E', 'N', 'D', 'E', 'D', '}', '}'],
        vec![' ', '{', '{', 'S', 'U', 'S', 'P', 'N', 'E', 'D', 'E', 'D', '}', '}'],
    ];
    assert(marks@.len() == 4);
    assert(marks@[0]@ =~= suspend_marks()[0]);
    assert(marks@[1]@ =~= suspend_marks()[1]);
    assert(marks@[2]@ =~= suspend_marks()[2]);
    assert(marks@[3]@ =~= suspend_marks()[3]);
    let mut k: usize = 0;
    while k < marks.len()
        invariant
            marks@.len() == 4,
            k <= 4,
            forall|j: int| 0 <= j < 4 ==> #[trigger] marks@[j]@ == suspend_marks()[j],
            forall|j: int| 0 <= j < k ==> !crate::text::ends_with(title@, #[trigger] suspend_marks()[j]),
        decreases 4 - k,
    {
        if ends_with_chars(title, &marks[k]) {
            assert(crate::text::ends_with(title@, suspend_marks()[k as int]));
            return true;
        }
        k = k + 1;
    }
    false
}

fn is_digit_char(c: char) -> (r: bool)
    ensures
        r == is_digit(c),
{
    '0' <= c && c <= '9'
}

/// The value of the four digits that stand in `y` from index `i`.
fn four_digit_number(y: &Vec<char>, i: usize) -> (r: i32)
    requires
        four_digits_at(y@, i as int),
    ensures
        r as int == four_digit_value(y@, i as int),
{
    let n = y.len();
    assert(i + 4 <= n);
    let d0 = digit_of(y[i]);
    let d1 = digit_of(y[i + 1]);
    let d2 = digit_of(y[i + 2]);
    let d3 = digit_of(y[i + 3]);
    1000 * d0 + 100 * d1 + 10 * d2 + d3
}

fn digit_of(c: char) -> (r: i32)
    requires
        is_digit(c),
    ensures
        r as int == digit_value(c),
        0 <= r <= 9,
{
    (c as u32 - '0' as u32) as i32
}

fn four_digits(y: &Vec<char>, i: usize) -> (r: bool)
    requires
        i + 4 <= y.len(),
    ensures
        r == four_digits_at(y@, i as int),
{
    is_digit_char(y[i]) && is_digit_char(y[i + 1]) && is_digit_char(y[i + 2]) && is_digit_char(
        y[i + 3],
    )
}

/// Every year from `lo` to `hi`, both included.
fn year_span(lo: i32, hi: i32) -> (r: Vec<i32>)
    ensures
        r@ == year_range(lo as int, hi as int),
{
    let mut r: Vec<i32> = Vec::new();
    if lo > hi {
        assert(r@ =~= year_range(lo as int, hi as int));
        return r;
    }
    let mut y: i64 = lo as i64;
    while y <= hi as i64
        invariant
            lo <= hi,
            lo as int <= y as int <= hi as int + 1,
            r@ =~= Seq::new((y - lo) as nat, |i: int| (lo + i) as i32),
        decreases hi as int + 1 - y as int,
    {
        r.push(y as i32);
        y = y + 1;
        assert(r@ =~= Seq::new((y - lo) as nat, |i: int| (lo + i) as i32));
    }
    assert(r@ =~= year_range(lo as int, hi as int));
    r
}

/// The years that a year field covers, and whether it is an open range ending at `now`.
fn extract_year(full_year: &Vec<char>, now: i32) -> (r: (Vec<i32>, bool))
    ensures
        r.0@ == years_of(full_year@, now as int),
        r.1 == is_open_range(full_year@),
{
    let n = full_year.len();
    let mut start: i32 = 0;
    let mut end: i32 = 0;
    let mut open_end = false;
    if n == 0 {
        start = -1;
        end = -1;
    } else if n == 4 && four_digits(full_year, 0) {
        start = four_digit_number(full_year, 0);
        end = start;
    } else if n == 9 && four_digits(full_year, 0) && full_year[4] == '-' {
        if full_year[5] == '?' && full_year[6] == '?' && full_year[7] == '?' && full_year[8] == '?' {
            assert(full_year@.subrange(5, 9) =~= seq!['?', '?', '?', '?']);
            start = four_digit_number(full_year, 0);
            end = now;
            open_end = true;
        } else if four_digits(full_year, 5) {
            start = four_digit_number(full_year, 0);
            end = four_digit_number(full_year, 5);
        }
    }
    proof {
        if is_open_range(full_year@) {
            assert(full_year@.subrange(5, 9)[0] == '?');
            assert(full_year@.subrange(5, 9)[1] == '?');
            assert(full_year@.subrange(5, 9)[2] == '?');
            assert(full_year@.subrange(5, 9)[3] == '?');
        }
        if is_closed_range(full_year@) && is_open_range(full_year@) {
            assert(full_year@.subrange(5, 9)[0] == '?');
        }
    }
    assert(start as int == year_bounds(full_year@, now as int).0);
    assert(end as int == year_bounds(full_year@, now as int).1);
    (year_span(start, end), open_end)
}

/// The years that the year field `full_year` covers, `now` being the current
/// year, and whether the field is an open range.
pub fn parse_year_field(full_year: &str, now: i32) -> (r: (Vec<i32>, bool))
    ensures
        r.0@ == years_of(full_year@, now as int),
        r.1 == is_open_range(full_year@),
{
    let chars = chars_of(full_year);
    extract_year(&chars, now)
}

/// Pushes the four digits of `n` onto `v`.
fn push_four_digits(v: &mut Vec<char>, n: i32)
    requires
        0 <= n <= 9999,
    ensures
        final(v)@ == old(v)@ + four_digit_text(n as int),
{
    let digits = vec!['0', '1', '2', '3', '4', '5', '6', '7', '8', '9'];
    assert(digits@ =~= digit_chars());
    v.push(digits[(n / 1000) as usize]);
    v.push(digits[((n / 100) % 10) as usize]);
    v.push(digits[((n / 10) % 10) as usize]);
    v.push(digits[(n % 10) as usize]);
    assert(final(v)@ =~= old(v)@ + four_digit_text(n as int));
}

/// The year field that writes the years from `lo` to `hi`: empty for the
/// sentinel -1, else `YYYY`, `YYYY-????` or `YYYY-YYYY`.
pub fn format_year_field(lo: i32, hi: i32, open: bool) -> (r: String)
    requires
        lo == -1 || 0 <= lo <= 9999,
        lo != -1 && !open && lo != hi ==> 0 <= hi <= 9999,
    ensures
        r@ == year_text(lo as int, hi as int, open),
{
    let mut v: Vec<char> = Vec::new();
    if lo != -1 {
        push_four_digits(&mut v, lo);
        if open {
            v.push('-');
            v.push('?');
            v.push('?');
            v.push('?');
            v.push('?');
        } else if lo != hi {
            v.push('-');
            push_four_digits(&mut v, hi);
        }
    }
    assert(v@ =~= year_text(lo as int, hi as int, open));
    string_of(&v)
}

/// The parts of a full title that an episode bracket carries.
struct EpisodeParts {
    is_episode: bool,
    name: Vec<char>,
    season: Vec<char>,
    number: Vec<char>,
    parent: Vec<char>,
}

/// Season and episode number of the episode data `d`, with the episode name.
fn extract_numbers(d: &Vec<char>) -> (r: (Vec<char>, Vec<char>, Vec<char>))
    ensures
        r.0@ == episode_name(d@),
        r.1@ == episode_season(d@),
        r.2@ == episode_number(d@),
{
    let spaced = vec![' ', '(', '#'];
    let bare = vec!['(', '#'];
    assert(spaced@ =~= seq![' ', '(', '#']);
    assert(bare@ =~= seq!['(', '#']);
    let mark: Option<usize> = match rfind_chars(d, &spaced) {
        Some(m) => {
            proof {
                lemma_rfind_below_range(d@, seq![' ', '(', '#'], d@.len() + 1int);
            }
            assert(m + 3 <= d.len());
            Some(m + 1)
        },
        None => {
            if starts_with_chars(d, &bare) {
                Some(0)
            } else {
                None
            }
        },
    };
    let ghost pos = number_mark(d@);
    match mark {
        None => {
            assert(pos == -1);
            (d.clone(), Vec::new(), Vec::new())
        },
        Some(p) => {
            assert(p as int == pos);
            let text: Vec<char> = if d.len() >= 1 && p + 2 <= d.len() - 1 {
                slice(d, p + 2, d.len() - 1)
            } else {
                Vec::new()
            };
            assert(text@ =~= number_text(d@));
            proof {
                lemma_find_from_range(text@, '.', 0);
            }
            let k = find_char_from(&text, '.', 0);
            let mut one_dot = false;
            if k < text.len() {
                proof {
                    lemma_find_from_range(text@, '.', k + 1);
                }
                one_dot = find_char_from(&text, '.', k + 1) == text.len();
            }
            assert(one_dot == (single_dot(text@) >= 0));
            if one_dot {
                let name: Vec<char> = if p > 0 {
                    slice(d, 0, p - 1)
                } else {
                    Vec::new()
                };
                assert(name@ =~= episode_name(d@));
                let season = slice(&text, 0, k);
                let number = slice(&text, k + 1, text.len());
                (name, season, number)
            } else {
                (d.clone(), Vec::new(), Vec::new())
            }
        },
    }
}

/// The episode bracket of a full title, when it has one.
fn extract_episode(title: &Vec<char>) -> (r: EpisodeParts)
    ensures
        r.is_episode == is_episode(title@),
        r.parent@ == (if is_episode(title@) { parent_title(title@) } else { Seq::empty() }),
        r.name@ == (if is_episode(title@) { episode_name(episode_data(title@)) } else { Seq::empty() }),
        r.season@ == (if is_episode(title@) { episode_season(episode_data(title@)) } else { Seq::empty() }),
        r.number@ == (if is_episode(title@) { episode_number(episode_data(title@)) } else { Seq::empty() }),
{
    let pat = vec![')', ' ', '{'];
    assert(pat@ =~= seq![')', ' ', '{']);
    match rfind_chars(title, &pat) {
        None => EpisodeParts {
            is_episode: false,
            name: Vec::new(),
            season: Vec::new(),
            number: Vec::new(),
            parent: Vec::new(),
        },
        Some(p) => {
            proof {
                lemma_rfind_below_range(title@, seq![')', ' ', '{'], title@.len() + 1int);
            }
            assert(p as int == episode_split(title@));
            assert(p + 3 <= title.len());
            let data: Vec<char> = if p + 3 < title.len() {
                slice(title, p + 3, title.len() - 1)
            } else {
                Vec::new()
            };
            assert(data@ =~= episode_data(title@));
            let (name, season, number) = extract_numbers(&data);
            let parent = slice(title, 0, p + 1);
            EpisodeParts { is_episode: true, name, season, number, parent }
        },
    }
}

/// The category of `r`, and `r` without its category marker.
fn extract_title_category(r: &Vec<char>) -> (out: (Vec<char>, Vec<char>))
    ensures
        out.0@ == category(r@),
        out.1@ == after_category(r@),
{
    let quote = vec!['"'];
    let tv = vec!['(', 'T', 'V', ')'];
    let v = vec!['(', 'V', ')'];
    let vg = vec!['(', 'V', 'G', ')'];
    assert(quote@ =~= seq!['"']);
    assert(tv@ =~= seq!['(', 'T', 'V', ')']);
    assert(v@ =~= seq!['(', 'V', ')']);
    assert(vg@ =~= seq!['(', 'V', 'G', ')']);
    if starts_with_chars(r, &quote) {
        let cat = vec!['T', 'V', 'S'];
        assert(cat@ =~= category(r@));
        return (cat, r.clone());
    }
    let cat: Vec<char> = if ends_with_chars(r, &tv) {
        vec!['T', 'V']
    } else if ends_with_chars(r, &v) {
        vec!['V']
    } else if ends_with_chars(r, &vg) {
        vec!['V', 'G']
    } else {
        Vec::new()
    };
    assert(cat@ =~= category(r@));
    if cat.len() == 0 {
        return (cat, r.clone());
    }
    let cut = cat.len() + 3;
    let keep: usize = if cut <= r.len() {
        r.len() - cut
    } else {
        0
    };
    let rest = slice(r, 0, keep);
    (cat, rest)
}

fn is_roman_char(c: char) -> (r: bool)
    ensures
        r == is_roman(c),
{
    c == 'I' || c == 'V' || c == 'X'
}

/// The year marker at the end of `r`, and `r` without it.
fn extract_title_year(r: &Vec<char>) -> (out: (Vec<char>, Vec<char>))
    ensures
        out.0@ == title_year(r@),
        out.1@ == after_title_year(r@),
{
    let n = r.len();
    let mut ty: Vec<char> = Vec::new();
    if n >= 1 && r[n - 1] == ')' {
        let mut k: usize = n - 1;
        while k > 0 && is_roman_char(r[k - 1])
            invariant
                k <= n - 1,
                n == r@.len(),
                roman_run(r@, n - 1) == (n - 1 - k) + roman_run(r@, k as int),
            decreases k,
        {
            k = k - 1;
        }
        assert(roman_run(r@, k as int) == 0);
        let run = n - 1 - k;
        assert(run as int == roman_run(r@, n - 1));
        let coded = run >= 1 && k >= 6 && r[k - 1] == '/' && r[k - 6] == '(' && r[k - 5] != '\n'
            && r[k - 4] != '\n' && r[k - 3] != '\n' && r[k - 2] != '\n';
        proof {
            let slash = n - 2 - run;
            assert(slash == k - 1);
            if has_coded_year(r@) {
                assert(r@[slash - 4] != '\n');
                assert(r@[slash - 3] != '\n');
                assert(r@[slash - 2] != '\n');
                assert(r@[slash - 1] != '\n');
            }
        }
        assert(coded == has_coded_year(r@));
        if coded {
            ty = slice(r, k - 5, n - 1);
        } else if n >= 6 && r[n - 6] == '(' && r[n - 5] != '\n' && r[n - 4] != '\n' && r[n - 3]
            != '\n' && r[n - 2] != '\n' {
            ty = slice(r, n - 5, n - 1);
        }
        proof {
            if !coded && has_plain_year(r@) {
                assert(r@[n - 5] != '\n');
                assert(r@[n - 4] != '\n');
                assert(r@[n - 3] != '\n');
                assert(r@[n - 2] != '\n');
            }
        }
    }
    assert(ty@ =~= title_year(r@));
    let keep: usize = if n >= 3 && ty.len() <= n - 3 {
        n - 3 - ty.len()
    } else {
        0
    };
    let rest = slice(r, 0, keep);
    (ty, rest)
}

/// A line that lacks the tab separating its title field from its year field.
#[derive(Debug, Clone, Copy, PartialEq, Eq)]
pub enum ParseError {
    MalformedRecord,
}

impl Movie {
    /// `self` holds what `line` says, `now` being the current year. A suspended
    /// title leaves every field at its default and marks the record suspended; the
    /// identifier is left aside here, as it depends on the registry.
    pub open spec fn decomposes(&self, line: Seq<char>, now: int) -> bool {
        let t = first_field(line);
        let y = second_field(line);
        if is_suspended(t) {
            &&& self.suspended
            &&& self.id == -1
            &&& self.full_title@ == Seq::<char>::empty()
            &&& self.full_year@ == Seq::<char>::empty()
            &&& self.title@ == Seq::<char>::empty()
            &&& self.title_year@ == Seq::<char>::empty()
            &&& self.title_category@ == Seq::<char>::empty()
            &&& self.years@ == Seq::<i32>::empty()
            &&& !self.year_open_end
            &&& !self.is_episode
            &&& self.episode_name@ == Seq::<char>::empty()
            &&& self.episode_season@ == Seq::<char>::empty()
            &&& self.episode_episode@ == Seq::<char>::empty()
            &&& self.episode_parent_title@ == Seq::<char>::empty()
        } else {
            &&& !self.suspended
            &&& self.full_title@ == t
            &&& self.full_year@ == y
            &&& self.years@ == years_of(y, now)
            &&& self.year_open_end == is_open_range(y)
            &&& self.is_episode == is_episode(t)
            &&& self.episode_parent_title@ == (if is_episode(t) { parent_title(t) } else { Seq::empty() })
            &&& self.episode_name@ == (if is_episode(t) { episode_name(episode_data(t)) } else { Seq::empty() })
            &&& self.episode_season@ == (if is_episode(t) { episode_season(episode_data(t)) } else { Seq::empty() })
            &&& self.episode_episode@ == (if is_episode(t) { episode_number(episode_data(t)) } else { Seq::empty() })
            &&& self.title_category@ == category(after_episode(t))
            &&& self.title_year@ == title_year(after_category(after_episode(t)))
            &&& self.title@ == display_title(t)
        }
    }

    /// What the registry must allow for `line`: a fresh identifier is needed only
    /// for a title that is not suspended and not yet registered.
    pub open spec fn registry_ready(ids: IdHandler, line: Seq<char>) -> bool {
        &&& ids.wf()
        &&& !is_suspended(first_field(line)) && !ids@.contains_key(first_field(line))
            ==> ids.id_max() < i32::MAX
    }

    /// The registry after `line` has been decomposed: unchanged for a suspended
    /// title, else the title's identifier has been assigned and is the record's.
    pub open spec fn registry_after(ids: IdHandler, line: Seq<char>, next: IdHandler, id: i32) -> bool {
        &&& next.wf()
        &&& if is_suspended(first_field(line)) {
            next == ids
        } else {
            ids.assigns(first_field(line), next, id)
        }
    }

    /// Decomposes `line` with `now` as the current year, and assigns the full
    /// title its identifier.
    pub fn new_at(id_handler: &mut IdHandler, line: &str, now: i32) -> (r: Movie)
        requires
            has_two_fields(line@),
            Movie::registry_ready(*old(id_handler), line@),
        ensures
            r.decomposes(line@, now as int),
            Movie::registry_after(*old(id_handler), line@, *final(id_handler), r.id),
    {
        let chars = chars_of(line);
        let full_title = extract_full_title(&chars);
        if extract_suspended(&full_title) {
            let empty: Vec<char> = Vec::new();
            return Movie {
                id: -1,
                full_title: string_of(&empty),
                full_year: string_of(&empty),
                title: string_of(&empty),
                title_year: string_of(&empty),
                title_category: string_of(&empty),
                years: Vec::new(),
                year_open_end: false,
                is_episode: false,
                episode_name: string_of(&empty),
                episode_season: string_of(&empty),
                episode_episode: string_of(&empty),
                episode_parent_title: string_of(&empty),
                suspended: true,
            };
        }
        let full_year = extract_full_year(&chars);
        let (years, year_open_end) = extract_year(&full_year, now);
        let episode = extract_episode(&full_title);
        let remaining: Vec<char> = if episode.is_episode {
            slice(&episode.parent, 0, episode.parent.len())
        } else {
            slice(&full_title, 0, full_title.len())
        };
        assert(remaining@ =~= after_episode(full_title@));
        let (category_code, remaining) = extract_title_category(&remaining);
        let (year_code, remaining) = extract_title_year(&remaining);
        let full_title = string_of(&full_title);
        let id = id_handler.find_or_generate_movie_id(&full_title);
        Movie {
            id,
            full_title,
            full_year: string_of(&full_year),
            title: string_of(&remaining),
            title_year: string_of(&year_code),
            title_category: string_of(&category_code),
            years,
            year_open_end,
            is_episode: episode.is_episode,
            episode_name: string_of(&episode.name),
            episode_season: string_of(&episode.season),
            episode_episode: string_of(&episode.number),
            episode_parent_title: string_of(&episode.parent),
            suspended: false,
        }
    }

    /// Decomposes `line`, an open year range ending at the current year of the
    /// local clock, and assigns the full title its identifier.
    pub fn new(id_handler: &mut IdHandler, line: &str) -> (r: Movie)
        requires
            has_two_fields(line@),
            Movie::registry_ready(*old(id_handler), line@),
        ensures
            exists|now: i32| r.decomposes(line@, now as int),
            Movie::registry_after(*old(id_handler), line@, *final(id_handler), r.id),
    {
        let now = current_year();
        Movie::new_at(id_handler, line, now)
    }

    /// Like `new`, but a line without a tab is refused rather than ruled out.
    pub fn parse(id_handler: &mut IdHandler, line: &str) -> (r: Result<Movie, ParseError>)
        requires
            has_two_fields(line@) ==> Movie::registry_ready(*old(id_handler), line@),
        ensures
            has_two_fields(line@) <==> r is Ok,
            !has_two_fields(line@) ==> *final(id_handler) == *old(id_handler),
            r is Ok ==> exists|now: i32| r->Ok_0.decomposes(line@, now as int),
            r is Ok ==> Movie::registry_after(*old(id_handler), line@, *final(id_handler), r->Ok_0.id),
    {
        if Movie::holds_two_fields(line) {
            let m = Movie::new(id_handler, line);
            let r = Ok(m);
            proof {
                let now = choose|now: i32| m.decomposes(line@, now as int);
                assert(r->Ok_0.decomposes(line@, now as int));
            }
            r
        } else {
            Err(ParseError::MalformedRecord)
        }
    }

    /// Whether `line` holds a tab, and so a title field and a year field.
    pub fn holds_two_fields(line: &str) -> (r: bool)
        ensures
            r == has_two_fields(line@),
    {
        let chars = chars_of(line);
        let mut i: usize = 0;
        while i < chars.len()
            invariant
                i <= chars.len(),
                chars@ == line@,
                forall|j: int| 0 <= j < i ==> chars@[j] != '\t',
            decreases chars.len() - i,
        {
            if chars[i] == '\t' {
                assert(line@[i as int] == '\t');
                return true;
            }
            i = i + 1;
        }
        false
    }
}

/// What to do with a line of the catalogue file.
#[derive(Debug, Clone, Copy, PartialEq, Eq)]
pub enum LineKind {
    /// Outside the record block, or one of the header lines that open it.
    Skip,
    /// A record to decompose.
    Record,
    /// The line that closes the record block: nothing after it is read.
    End,
}

/// The header line after which the record block of the catalogue begins.
pub open spec fn trigger_line() -> Seq<char> {
    seq!['M', 'O', 'V', 'I', 'E', 'S', ' ', 'L', 'I', 'S', 'T']
}

/// Eighty dashes: the line that closes the record block.
pub open spec fn end_line() -> Seq<char> {
    Seq::new(80, |i: int| '-')
}

/// Finds the record block in the lines of the catalogue file: it starts on the
/// third line after the `MOVIES LIST` header and ends at a line of eighty dashes.
pub struct Movies {
    triggered: bool,
    trigger_skip: u32,
}

impl Movies {
    /// Whether the header has been seen.
    pub closed spec fn triggered(&self) -> bool {
        self.triggered
    }

    /// How many lines after the header are still to be passed over, counting the
    /// line that ends the count.
    pub closed spec fn skip_left(&self) -> int {
        self.trigger_skip as int
    }

    pub open spec fn wf(&self) -> bool {
        self.skip_left() <= 3
    }

    /// A scanner that has not yet met the header.
    pub fn new() -> (r: Movies)
        ensures
            r.wf(),
            !r.triggered(),
            r.skip_left() == 3,
    {
        Movies { triggered: false, trigger_skip: 3 }
    }

    /// Classifies the next line of the file.
    pub fn classify_line(&mut self, line: &str) -> (r: LineKind)
        requires
            old(self).wf(),
        ensures
            final(self).wf(),
            !old(self).triggered() ==> {
                &&& r == LineKind::Skip
                &&& final(self).triggered() == (line@ == trigger_line())
                &&& final(self).skip_left() == old(self).skip_left()
            },
            old(self).triggered() ==> {
                &&& final(self).triggered()
                &&& final(self).skip_left() == if old(self).skip_left() > 0 {
                    old(self).skip_left() - 1
                } else {
                    0
                }
                &&& r == if final(self).skip_left() > 0 {
                    LineKind::Skip
                } else if line@ == end_line() {
                    LineKind::End
                } else {
                    LineKind::Record
                }
            },
    {
        let chars = chars_of(line);
        if !self.triggered {
            let trigger = vec!['M', 'O', 'V', 'I', 'E', 'S', ' ', 'L', 'I', 'S', 'T'];
            assert(trigger@ =~= trigger_line());
            self.triggered = same_chars(&chars, &trigger);
            return LineKind::Skip;
        }
        if self.trigger_skip > 0 {
            self.trigger_skip = self.trigger_skip - 1;
        }
        if self.trigger_skip > 0 {
            return LineKind::Skip;
        }
        let mut dashes: Vec<char> = Vec::new();
        let mut i: usize = 0;
        while i < 80
            invariant
                i <= 80,
                dashes@ =~= Seq::new(i as nat, |j: int| '-'),
            decreases 80 - i,
        {
            dashes.push('-');
            i = i + 1;
        }
        if same_chars(&chars, &dashes) {
            LineKind::End
        } else {
            LineKind::Record
        }
    }
}

fn same_chars(a: &Vec<char>, b: &Vec<char>) -> (r: bool)
    ensures
        r == (a@ == b@),
{
    if a.len() != b.len() {
        return false;
    }
    let mut i: usize = 0;
    while i < a.len()
        invariant
            a.len() == b.len(),
            i <= a.len(),
            forall|j: int| 0 <= j < i ==> a@[j] == b@[j],
        decreases a.len() - i,
    {
        if a[i] != b[i] {
            return false;
        }
        i = i + 1;
    }
    assert(a@ =~= b@);
    true
}

} // verus!
