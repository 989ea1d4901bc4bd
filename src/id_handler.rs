//! The identifier registry: a stable integer identifier for each distinct title.
use vstd::prelude::*;
use crate::fields::{digit_value, first_field, has_two_fields, is_digit};
use crate::text::{
    chars_of, find_char_from, find_from, lemma_find_from_before, lemma_find_from_hit,
    lemma_find_from_range, slice, string_of,
};

verus! {

/// Maps titles to identifiers. Titles are kept in insertion order beside their
/// identifiers; no title occurs twice, no identifier is shared by two titles, and
/// none exceeds the high-water mark `movie_id_max`. A lookup scans the titles, so
/// it takes time linear in their number, and a run over a whole catalogue
/// quadratic time.
pub struct IdHandler {
    movie_titles: Vec<String>,
    movie_ids: Vec<i32>,
    movie_id_max: i32,
}

/// The index at which `t` stands in `ts`, when it stands there.
pub open spec fn index_in(ts: Seq<Seq<char>>, t: Seq<char>) -> int {
    choose|i: int| 0 <= i < ts.len() && ts[i] == t
}

impl View for IdHandler {
    type V = Map<Seq<char>, i32>;

    closed spec fn view(&self) -> Map<Seq<char>, i32> {
        Map::new(
            |t: Seq<char>| self.titles().contains(t),
            |t: Seq<char>| self.movie_ids@[index_in(self.titles(), t)],
        )
    }
}

impl IdHandler {
    /// The titles held, in the order in which they were first registered.
    pub closed spec fn titles(&self) -> Seq<Seq<char>> {
        self.movie_titles@.map_values(|s: String| s@)
    }

    /// The high-water mark: the largest identifier handed out or seeded so far.
    pub closed spec fn id_max(&self) -> int {
        self.movie_id_max as int
    }

    pub closed spec fn wf(&self) -> bool {
        &&& self.keys_wf()
        &&& forall|i: int, j: int|
            0 <= i < self.movie_ids.len() && 0 <= j < self.movie_ids.len() && i != j
                ==> #[trigger] self.movie_ids@[i] != #[trigger] self.movie_ids@[j]
    }

    /// What the registry promises its users: identifiers are pairwise distinct
    /// and none exceeds the high-water mark.
    pub open spec fn consistent(&self) -> bool {
        &&& forall|t: Seq<char>| #[trigger] self@.contains_key(t) ==> self@[t] <= self.id_max()
        &&& forall|t1: Seq<char>, t2: Seq<char>|
            #[trigger] self@.contains_key(t1) && #[trigger] self@.contains_key(t2) && t1 != t2
                ==> self@[t1] != self@[t2]
    }

    /// `id` is what assigning `title` to `self` yields, and `next` the registry after it:
    /// a title seen before keeps its identifier and changes nothing; a new one gets the
    /// identifier just above the high-water mark, which moves up to it.
    pub open spec fn assigns(&self, title: Seq<char>, next: IdHandler, id: i32) -> bool {
        if self@.contains_key(title) {
            id == self@[title] && next@ == self@ && next.id_max() == self.id_max()
        } else {
            id == self.id_max() + 1 && next@ == self@.insert(title, id) && next.id_max() == id
        }
    }

    proof fn lemma_view_at(&self, i: int)
        requires
            self.wf(),
            0 <= i < self.movie_titles.len(),
        ensures
            self@.contains_key(self.movie_titles@[i]@),
            self@[self.movie_titles@[i]@] == self.movie_ids@[i],
    {
        let t = self.movie_titles@[i]@;
        assert(self.titles()[i] == t);
        let k = index_in(self.titles(), t);
        assert(self.titles()[k] == t);
        assert(self.movie_titles@[k]@ == t);
    }

    /// A well-formed registry keeps its promise to its users.
    pub proof fn lemma_consistent(&self)
        requires
            self.wf(),
        ensures
            self.consistent(),
    {
        assert forall|t: Seq<char>| #[trigger] self@.contains_key(t) implies self@[t] <= self.id_max() by {
            let k = index_in(self.titles(), t);
            assert(self.titles()[k] == t);
        }
        assert forall|t1: Seq<char>, t2: Seq<char>|
            #[trigger] self@.contains_key(t1) && #[trigger] self@.contains_key(t2) && t1 != t2
                implies self@[t1] != self@[t2] by {
            let k1 = index_in(self.titles(), t1);
            let k2 = index_in(self.titles(), t2);
            assert(self.titles()[k1] == t1);
            assert(self.titles()[k2] == t2);
        }
    }

    /// An empty registry: no title registered, high-water mark zero.
    pub fn new() -> (r: IdHandler)
        ensures
            r.wf(),
            r.consistent(),
            r@ == Map::<Seq<char>, i32>::empty(),
            r.id_max() == 0,
    {
        let r = IdHandler { movie_titles: Vec::new(), movie_ids: Vec::new(), movie_id_max: 0 };
        assert(r@ =~= Map::<Seq<char>, i32>::empty());
        proof {
            r.lemma_consistent();
        }
        r
    }

    /// The highest identifier handed out or seeded so far.
    pub fn max_id(&self) -> (r: i32)
        ensures
            r as int == self.id_max(),
    {
        self.movie_id_max
    }

    /// The index of `title` among the registered titles, if it is there.
    fn position(&self, title: &String) -> (r: Option<usize>)
        requires
            self.keys_wf(),
        ensures
            match r {
                Some(i) => i < self.movie_titles.len() && self.movie_titles@[i as int]@ == title@,
                None => !self@.contains_key(title@),
            },
    {
        let mut i: usize = 0;
        while i < self.movie_titles.len()
            invariant
                self.keys_wf(),
                i <= self.movie_titles.len(),
                forall|j: int| 0 <= j < i ==> #[trigger] self.movie_titles@[j]@ != title@,
            decreases self.movie_titles.len() - i,
        {
            if self.movie_titles[i] == *title {
                return Some(i);
            }
            i = i + 1;
        }
        proof {
            if self@.contains_key(title@) {
                let k = index_in(self.titles(), title@);
                assert(self.titles()[k] == title@);
                assert(self.movie_titles@[k]@ == title@);
            }
        }
        None
    }

    /// No title holds `id`.
    pub open spec fn id_free(&self, id: i32) -> bool {
        forall|t: Seq<char>| #[trigger] self@.contains_key(t) ==> self@[t] != id
    }

    /// Registers `key`, a new title, with `id`, an identifier no title holds.
    fn push_entry(&mut self, key: String, id: i32)
        requires
            old(self).wf(),
            !old(self)@.contains_key(key@),
            old(self).id_free(id),
            id <= old(self).id_max(),
        ensures
            final(self).wf(),
            final(self)@ == old(self)@.insert(key@, id),
            final(self).id_max() == old(self).id_max(),
    {
        let ghost prev = *self;
        proof {
            assert forall|j: int| 0 <= j < prev.movie_ids.len() implies #[trigger] prev.movie_ids@[j] != id by {
                prev.lemma_view_at(j);
            }
        }
        self.movie_titles.push(key);
        self.movie_ids.push(id);
        proof {
            let n = prev.movie_titles.len() as int;
            assert forall|j: int| 0 <= j < n implies #[trigger] prev.movie_titles@[j]@ != key@ by {
                assert(prev.titles()[j] == prev.movie_titles@[j]@);
            }
            assert(self.movie_titles@ == prev.movie_titles@.push(key));
            assert(self.movie_ids@ == prev.movie_ids@.push(id));
            assert(self.titles() =~= prev.titles().push(key@));
            assert forall|t: Seq<char>| #[trigger] self@.contains_key(t) <==> prev@.insert(key@, id).contains_key(t) by {
                if t == key@ {
                    assert(self.titles()[n] == t);
                } else if self@.contains_key(t) {
                    let k = index_in(self.titles(), t);
                    assert(self.titles()[k] == t);
                    assert(prev.titles()[k] == t);
                } else if prev@.contains_key(t) {
                    let k = index_in(prev.titles(), t);
                    assert(prev.titles()[k] == t);
                    assert(self.titles()[k] == t);
                }
            }
            assert forall|t: Seq<char>| #[trigger] self@.contains_key(t) implies self@[t] == prev@.insert(key@, id)[t] by {
                let k = index_in(self.titles(), t);
                assert(self.titles()[k] == t);
                if t != key@ {
                    assert(k != n);
                    prev.lemma_view_at(k);
                } else {
                    if k != n {
                        assert(self.movie_titles@[k]@ == self.movie_titles@[n]@);
                    }
                }
            }
            assert(self@ =~= prev@.insert(key@, id));
        }
    }

    /// Gives the title at index `i` the identifier `id`, which no other title holds.
    fn set_entry_id(&mut self, i: usize, id: i32)
        requires
            old(self).wf(),
            i < old(self).movie_titles.len(),
            id <= old(self).id_max(),
            forall|j: int| 0 <= j < old(self).movie_ids.len() && j != i ==> #[trigger] old(self).movie_ids@[j] != id,
        ensures
            final(self).wf(),
            final(self)@ == old(self)@.insert(old(self).movie_titles@[i as int]@, id),
            final(self).id_max() == old(self).id_max(),
    {
        let ghost prev = *self;
        let ghost key = prev.movie_titles@[i as int]@;
        self.movie_ids.set(i, id);
        proof {
            assert forall|j: int| 0 <= j < self.movie_ids.len() implies #[trigger] self.movie_ids@[j]
                == if j == i as int { id } else { prev.movie_ids@[j] } by {}
            assert(self.titles() =~= prev.titles());
            assert forall|t: Seq<char>| #[trigger] self@.contains_key(t) <==> prev@.insert(key, id).contains_key(t) by {
                if t == key {
                    assert(self.titles()[i as int] == t);
                }
            }
            assert forall|t: Seq<char>| #[trigger] self@.contains_key(t) implies self@[t] == prev@.insert(key, id)[t] by {
                let k = index_in(self.titles(), t);
                assert(self.titles()[k] == t);
                if t == key {
                    assert(self.movie_titles@[k]@ == self.movie_titles@[i as int]@);
                } else {
                    prev.lemma_view_at(k);
                }
            }
            assert(self@ =~= prev@.insert(key, id));
        }
    }

    /// Hands `key` a fresh identifier, one above the high-water mark, and moves the
    /// mark up to it. A title registered before loses its old identifier.
    pub fn new_movie_id(&mut self, key: String) -> (r: i32)
        requires
            old(self).wf(),
            old(self).id_max() < i32::MAX,
        ensures
            final(self).wf(),
            final(self).consistent(),
            r == old(self).id_max() + 1,
            final(self)@ == old(self)@.insert(key@, r),
            final(self).id_max() == r,
    {
        let new_id = self.movie_id_max + 1;
        let ghost prev = *self;
        match self.position(&key) {
            Some(i) => {
                self.movie_id_max = new_id;
                assert(self@ == prev@);
                self.set_entry_id(i, new_id);
            },
            None => {
                self.movie_id_max = new_id;
                proof {
                    prev.lemma_consistent();
                    assert(self@ == prev@);
                }
                self.push_entry(key, new_id);
            },
        }
        proof {
            self.lemma_consistent();
        }
        new_id
    }

    /// The identifier of `title`: the one it already has, or else a fresh one.
    pub fn find_or_generate_movie_id(&mut self, title: &String) -> (r: i32)
        requires
            old(self).wf(),
            !old(self)@.contains_key(title@) ==> old(self).id_max() < i32::MAX,
        ensures
            final(self).wf(),
            final(self).consistent(),
            old(self).assigns(title@, *final(self), r),
    {
        match self.position(title) {
            Some(i) => {
                proof {
                    self.lemma_view_at(i as int);
                    self.lemma_consistent();
                }
                self.movie_ids[i]
            },
            None => self.new_movie_id(title.clone()),
        }
    }
}

/// Assigning a title twice yields the same identifier both times, and assigning
/// two different titles yields two different identifiers.
pub proof fn lemma_assign_idempotent_and_unique(
    h0: IdHandler,
    t1: Seq<char>,
    h1: IdHandler,
    i1: i32,
    t2: Seq<char>,
    h2: IdHandler,
    i2: i32,
)
    requires
        h0.wf(),
        h0.assigns(t1, h1, i1),
        h1.assigns(t2, h2, i2),
    ensures
        t1 == t2 ==> i1 == i2,
        t1 != t2 ==> i1 != i2,
{
    h0.lemma_consistent();
}

/// The dictionary entries as identifiers and title sequences.
pub open spec fn entry_seq(entries: Seq<(i32, String)>) -> Seq<(i32, Seq<char>)> {
    entries.map_values(|e: (i32, String)| (e.0, e.1@))
}

/// The dictionary that `entries` define, read in order: each title maps to the
/// identifier of its last entry.
pub open spec fn dictionary(entries: Seq<(i32, Seq<char>)>) -> Map<Seq<char>, i32>
    decreases entries.len(),
{
    if entries.len() == 0 {
        Map::empty()
    } else {
        dictionary(entries.drop_last()).insert(entries.last().1, entries.last().0)
    }
}

/// No two titles of `m` share an identifier.
pub open spec fn ids_distinct(m: Map<Seq<char>, i32>) -> bool {
    forall|t1: Seq<char>, t2: Seq<char>|
        #[trigger] m.contains_key(t1) && #[trigger] m.contains_key(t2) && t1 != t2 ==> m[t1] != m[t2]
}

/// The largest of `mark` and the identifiers of `entries`.
pub open spec fn seeded_mark(mark: int, entries: Seq<(i32, Seq<char>)>) -> int
    decreases entries.len(),
{
    if entries.len() == 0 {
        mark
    } else {
        let m0 = seeded_mark(mark, entries.drop_last());
        if entries.last().0 > m0 {
            entries.last().0 as int
        } else {
            m0
        }
    }
}

/// The dictionary gives one identifier to two titles.
#[derive(Debug, Clone, Copy, PartialEq, Eq)]
pub enum SeedError {
    SharedIdentifier,
}

impl IdHandler {
    /// Titles are distinct and stand beside their identifiers; identifiers may repeat.
    closed spec fn keys_wf(&self) -> bool {
        &&& self.movie_titles.len() == self.movie_ids.len()
        &&& forall|i: int, j: int|
            0 <= i < self.movie_titles.len() && 0 <= j < self.movie_titles.len() && i != j
                ==> #[trigger] self.movie_titles@[i]@ != #[trigger] self.movie_titles@[j]@
        &&& forall|i: int| 0 <= i < self.movie_ids.len() ==> #[trigger] self.movie_ids@[i] <= self.movie_id_max
    }

    proof fn lemma_keys_view_at(&self, i: int)
        requires
            self.keys_wf(),
            0 <= i < self.movie_titles.len(),
        ensures
            self@.contains_key(self.movie_titles@[i]@),
            self@[self.movie_titles@[i]@] == self.movie_ids@[i],
    {
        let t = self.movie_titles@[i]@;
        assert(self.titles()[i] == t);
        let k = index_in(self.titles(), t);
        assert(self.titles()[k] == t);
        assert(self.movie_titles@[k]@ == t);
    }

    /// Sets the identifier of `key` to `id`, registering `key` if it is new; other
    /// titles holding `id` are not looked at.
    fn upsert(&mut self, key: &String, id: i32)
        requires
            old(self).keys_wf(),
            id <= old(self).movie_id_max,
        ensures
            final(self).keys_wf(),
            final(self)@ == old(self)@.insert(key@, id),
            final(self).movie_id_max == old(self).movie_id_max,
    {
        let ghost prev = *self;
        let found = self.position(key);
        if let Some(i) = found {
            self.movie_ids.set(i, id);
            proof {
                assert forall|j: int| 0 <= j < self.movie_ids.len() implies #[trigger] self.movie_ids@[j]
                    == if j == i as int { id } else { prev.movie_ids@[j] } by {}
                assert(self.titles() =~= prev.titles());
                assert forall|t: Seq<char>| #[trigger] self@.contains_key(t) <==> prev@.insert(key@, id).contains_key(t) by {
                    if t == key@ {
                        assert(self.titles()[i as int] == t);
                    }
                }
                assert forall|t: Seq<char>| #[trigger] self@.contains_key(t) implies self@[t] == prev@.insert(key@, id)[t] by {
                    let k = index_in(self.titles(), t);
                    assert(self.titles()[k] == t);
                    if t == key@ {
                        assert(self.movie_titles@[k]@ == self.movie_titles@[i as int]@);
                    } else {
                        prev.lemma_keys_view_at(k);
                    }
                }
                assert(self@ =~= prev@.insert(key@, id));
            }
        } else {
            proof {
                assert forall|j: int| 0 <= j < prev.movie_titles.len() implies #[trigger] prev.movie_titles@[j]@ != key@ by {
                    assert(prev.titles()[j] == prev.movie_titles@[j]@);
                }
            }
            self.movie_titles.push(key.clone());
            self.movie_ids.push(id);
            proof {
                let n = prev.movie_titles.len() as int;
                assert(self.movie_titles@ == prev.movie_titles@.push(*key));
                assert(self.movie_ids@ == prev.movie_ids@.push(id));
                assert(self.titles() =~= prev.titles().push(key@));
                assert forall|t: Seq<char>| #[trigger] self@.contains_key(t) <==> prev@.insert(key@, id).contains_key(t) by {
                    if t == key@ {
                        assert(self.titles()[n] == t);
                    } else if self@.contains_key(t) {
                        let k = index_in(self.titles(), t);
                        assert(self.titles()[k] == t);
                        assert(prev.titles()[k] == t);
                    } else if prev@.contains_key(t) {
                        let k = index_in(prev.titles(), t);
                        assert(prev.titles()[k] == t);
                        assert(self.titles()[k] == t);
                    }
                }
                assert forall|t: Seq<char>| #[trigger] self@.contains_key(t) implies self@[t] == prev@.insert(key@, id)[t] by {
                    let k = index_in(self.titles(), t);
                    assert(self.titles()[k] == t);
                    if t != key@ {
                        assert(k != n);
                        prev.lemma_keys_view_at(k);
                    } else if k != n {
                        assert(self.movie_titles@[k]@ == self.movie_titles@[n]@);
                    }
                }
                assert(self@ =~= prev@.insert(key@, id));
            }
        }
    }

    /// Replaces the registry's titles with the dictionary that `entries` define,
    /// a later entry for a title replacing an earlier one, and raises the
    /// high-water mark to at least `starting_mark` and every identifier given, so
    /// that identifiers handed out later never collide with seeded ones. Where the
    /// dictionary gives one identifier to two titles it is refused and the
    /// registry left as it was.
    pub fn generate_movie_ids(&mut self, entries: &Vec<(i32, String)>, starting_mark: i32) -> (r: Result<(), SeedError>)
        requires
            old(self).wf(),
        ensures
            final(self).wf(),
            final(self).consistent(),
            r is Ok <==> ids_distinct(dictionary(entry_seq(entries@))),
            r is Ok ==> final(self)@ == dictionary(entry_seq(entries@)),
            r is Ok ==> final(self).id_max() == seeded_mark(
                if starting_mark > old(self).id_max() { starting_mark as int } else { old(self).id_max() },
                entry_seq(entries@),
            ),
            r is Err ==> *final(self) == *old(self),
    {
        let mark0: i32 = if starting_mark > self.movie_id_max {
            starting_mark
        } else {
            self.movie_id_max
        };
        let ghost es = entry_seq(entries@);
        let mut d = IdHandler { movie_titles: Vec::new(), movie_ids: Vec::new(), movie_id_max: mark0 };
        assert(d@ =~= Map::<Seq<char>, i32>::empty());
        let mut i: usize = 0;
        while i < entries.len()
            invariant
                self.wf(),
                *self == *old(self),
                d.keys_wf(),
                i <= entries.len(),
                es == entry_seq(entries@),
                d@ == dictionary(es.subrange(0, i as int)),
                d.id_max() == seeded_mark(mark0 as int, es.subrange(0, i as int)),
            decreases entries.len() - i,
        {
            assert(es.subrange(0, i + 1).drop_last() =~= es.subrange(0, i as int));
            assert(es.subrange(0, i + 1).last() == (entries@[i as int].0, entries@[i as int].1@));
            let id = entries[i].0;
            if id > d.movie_id_max {
                d.movie_id_max = id;
            }
            d.upsert(&entries[i].1, id);
            i = i + 1;
        }
        assert(es.subrange(0, entries.len() as int) =~= es);
        let n = d.movie_ids.len();
        let mut j: usize = 0;
        while j < n
            invariant
                self.wf(),
                *self == *old(self),
                d.keys_wf(),
                es == entry_seq(entries@),
                d@ == dictionary(es),
                n == d.movie_ids.len(),
                j <= n,
                forall|a: int, b: int| 0 <= a < j && 0 <= b < n && a != b ==> #[trigger] d.movie_ids@[a] != #[trigger] d.movie_ids@[b],
            decreases n - j,
        {
            let mut k: usize = 0;
            while k < n
                invariant
                    self.wf(),
                    *self == *old(self),
                    d.keys_wf(),
                    es == entry_seq(entries@),
                    d@ == dictionary(es),
                    n == d.movie_ids.len(),
                    j < n,
                    k <= n,
                    forall|b: int| 0 <= b < k && b != j ==> #[trigger] d.movie_ids@[b] != d.movie_ids@[j as int],
                decreases n - k,
            {
                if k != j && d.movie_ids[k] == d.movie_ids[j] {
                    proof {
                        d.lemma_keys_view_at(j as int);
                        d.lemma_keys_view_at(k as int);
                        let t1 = d.movie_titles@[j as int]@;
                        let t2 = d.movie_titles@[k as int]@;
                        assert(d@.contains_key(t1) && d@.contains_key(t2) && t1 != t2 && d@[t1] == d@[t2]);
                        assert(!ids_distinct(d@));
                    }
                    proof {
                        self.lemma_consistent();
                    }
                    return Err(SeedError::SharedIdentifier);
                }
                k = k + 1;
            }
            j = j + 1;
        }
        assert(d.wf());
        proof {
            d.lemma_consistent();
        }
        *self = d;
        Ok(())
    }
}

/// The digits of `s` read as a decimal number.
pub open spec fn digits_value(s: Seq<char>) -> int
    decreases s.len(),
{
    if s.len() == 0 {
        0
    } else {
        10 * digits_value(s.drop_last()) + digit_value(s.last())
    }
}

pub open spec fn all_digits(s: Seq<char>) -> bool {
    s.len() > 0 && forall|i: int| 0 <= i < s.len() ==> is_digit(#[trigger] s[i])
}

/// The integer that `s` writes: digits, with an optional leading `+` or `-`.
pub open spec fn integer_value(s: Seq<char>) -> Option<int> {
    if s.len() > 0 && s[0] == '-' && all_digits(s.drop_first()) {
        Some(-digits_value(s.drop_first()))
    } else if s.len() > 0 && s[0] == '+' && all_digits(s.drop_first()) {
        Some(digits_value(s.drop_first()))
    } else if all_digits(s) {
        Some(digits_value(s))
    } else {
        None
    }
}

/// The identifier and title of a dictionary line `integer<TAB>title`: the title
/// runs to the next tab or the end of the line. None for a line without a tab, or
/// whose first field is not an integer that fits in an `i32`.
pub open spec fn id_line(line: Seq<char>) -> Option<(i32, Seq<char>)> {
    let tab = find_from(line, '\t', 0);
    let v = integer_value(first_field(line));
    if has_two_fields(line) && v is Some && i32::MIN <= v->0 <= i32::MAX {
        Some((v->0 as i32, line.subrange(tab + 1, find_from(line, '\t', tab + 1))))
    } else {
        None
    }
}

proof fn lemma_digits_value_nonneg(s: Seq<char>)
    requires
        forall|i: int| 0 <= i < s.len() ==> is_digit(#[trigger] s[i]),
    ensures
        digits_value(s) >= 0,
    decreases s.len(),
{
    if s.len() > 0 {
        lemma_digits_value_nonneg(s.drop_last());
        assert(is_digit(s[s.len() - 1]));
    }
}

proof fn lemma_digits_value_prefix(s: Seq<char>, k: int)
    requires
        0 <= k <= s.len(),
        forall|i: int| 0 <= i < s.len() ==> is_digit(#[trigger] s[i]),
    ensures
        digits_value(s.subrange(0, k)) <= digits_value(s),
    decreases s.len(),
{
    if k < s.len() {
        assert(s.drop_last().subrange(0, k) =~= s.subrange(0, k));
        lemma_digits_value_prefix(s.drop_last(), k);
        lemma_digits_value_nonneg(s.drop_last());
        assert(is_digit(s[s.len() - 1]));
    } else {
        assert(s.subrange(0, k) =~= s);
    }
}

/// The decimal value of `s` from index `start` on, when every character there is
/// a digit, there is at least one, and the value is at most 2^31.
fn digits_number(s: &Vec<char>, start: usize) -> (r: Option<u32>)
    requires
        start <= s.len(),
    ensures
        ({
            let t = s@.subrange(start as int, s@.len() as int);
            match r {
                Some(v) => all_digits(t) && v as int == digits_value(t) && v <= 0x8000_0000,
                None => !all_digits(t) || digits_value(t) > 0x8000_0000,
            }
        }),
{
    let ghost t = s@.subrange(start as int, s@.len() as int);
    if start == s.len() {
        return None;
    }
    let mut acc: u64 = 0;
    let mut i: usize = start;
    while i < s.len()
        invariant
            start <= i <= s.len(),
            t == s@.subrange(start as int, s@.len() as int),
            forall|j: int| start <= j < i ==> is_digit(#[trigger] s@[j]),
            acc as int == digits_value(s@.subrange(start as int, i as int)),
            acc <= 0x8000_0000,
        decreases s.len() - i,
    {
        let c = s[i];
        if !('0' <= c && c <= '9') {
            assert(!is_digit(t[i - start]));
            return None;
        }
        let d = (c as u32 - '0' as u32) as u64;
        assert(s@.subrange(start as int, i + 1).drop_last() =~= s@.subrange(start as int, i as int));
        acc = acc * 10 + d;
        i = i + 1;
        if acc > 0x8000_0000 {
            proof {
                if all_digits(t) {
                    assert(t.subrange(0, i - start) =~= s@.subrange(start as int, i as int));
                    lemma_digits_value_prefix(t, i - start);
                }
            }
            return None;
        }
    }
    assert(s@.subrange(start as int, i as int) =~= t);
    Some(acc as u32)
}

/// The integer that `s` writes, when it writes one that fits in an `i32`.
fn parse_integer(s: &Vec<char>) -> (r: Option<i32>)
    ensures
        match integer_value(s@) {
            Some(v) => if i32::MIN <= v <= i32::MAX { r == Some(v as i32) } else { r is None },
            None => r is None,
        },
{
    let n = s.len();
    let signed = n > 0 && (s[0] == '-' || s[0] == '+');
    let start: usize = if signed { 1 } else { 0 };
    let ghost t = s@.subrange(start as int, n as int);
    proof {
        if signed {
            assert(t =~= s@.drop_first());
        } else {
            assert(t =~= s@);
            if n > 0 && all_digits(s@) {
                assert(is_digit(s@[0]));
            }
        }
        if all_digits(t) {
            lemma_digits_value_nonneg(t);
        }
    }
    match digits_number(s, start) {
        None => {
            None
        },
        Some(v) => {
            if signed && s[0] == '-' {
                Some((0 - v as i64) as i32)
            } else if v <= 0x7fff_ffff {
                Some(v as i32)
            } else {
                None
            }
        },
    }
}

/// Reads a dictionary line `integer<TAB>title`.
pub fn parse_id_line(line: &str) -> (r: Option<(i32, String)>)
    ensures
        match r {
            Some(entry) => id_line(line@) == Some((entry.0, entry.1@)),
            None => id_line(line@) is None,
        },
{
    let chars = chars_of(line);
    proof {
        lemma_find_from_range(chars@, '\t', 0);
    }
    let tab = find_char_from(&chars, '\t', 0);
    if tab == chars.len() {
        proof {
            if has_two_fields(line@) {
                let k = choose|k: int| 0 <= k < line@.len() && line@[k] == '\t';
                lemma_find_from_before(chars@, '\t', 0, k);
            }
        }
        return None;
    }
    proof {
        lemma_find_from_hit(chars@, '\t', 0);
        assert(line@[tab as int] == '\t');
    }
    assert(has_two_fields(line@));
    let head = slice(&chars, 0, tab);
    match parse_integer(&head) {
        None => None,
        Some(id) => {
            proof {
                lemma_find_from_range(chars@, '\t', tab + 1);
            }
            let end = find_char_from(&chars, '\t', tab + 1);
            let title = slice(&chars, tab + 1, end);
            Some((id, string_of(&title)))
        },
    }
}

} // verus!
