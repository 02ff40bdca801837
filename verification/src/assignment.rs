use vstd::prelude::*;
use crate::decimal::{decimal, decimal_string, lemma_nat_digits_read_back, lemma_parse_i64_decimal,
    nat_digits, parse_i64, parse_i64_chars};
use crate::model::{AvailabilitySlot, Slot, Teacher, Violation};
use crate::availability::{free_keys, free_slot_keys, full_name, teacher_name};
use crate::decimal::count_string;
use crate::teachers::{decode_branches, json_string_list};
use crate::text::{chars_of, concat, is_ascii_digit, lemma_first_index_is, split_once,
    split_once_chars, str_eq, string_of, texts_of};

verus! {

// ---------------------------------------------------------------------------
// Cell keys `{day}-{hour}`
// ---------------------------------------------------------------------------

/// The key of a grid cell: the day, a hyphen, the hour.
pub open spec fn slot_key(day: int, hour: int) -> Seq<char> {
    decimal(day) + "-"@ + decimal(hour)
}

/// `format!("{day}-{hour}")`.
pub fn slot_key_of(day: i64, hour: i64) -> (k: String)
    ensures
        k@ == slot_key(day as int, hour as int),
{
    let d = decimal_string(day);
    let with_dash = concat(d.as_str(), "-");
    let h = decimal_string(hour);
    let k = concat(with_dash.as_str(), h.as_str());
    proof {
        reveal_strlit("-");
    }
    k
}

/// What a cell key reads as: the text before the first hyphen is the day,
/// the text after it the hour, both as `i64`.
pub open spec fn slot_of_key(key: Seq<char>) -> Option<Slot> {
    match split_once(key, '-') {
        Some((d, h)) => match (parse_i64(d), parse_i64(h)) {
            (Some(day), Some(hour)) => Some(Slot { day, hour }),
            _ => None,
        },
        None => None,
    }
}

/// Reads a `{day}-{hour}` key; a malformed key gives `None`.
pub fn parse_slot_key(key: &str) -> (r: Option<Slot>)
    ensures
        r == slot_of_key(key@),
{
    let cs = chars_of(key);
    match split_once_chars(&cs, '-') {
        Some((d, h)) => match (parse_i64_chars(&d), parse_i64_chars(&h)) {
            (Some(day), Some(hour)) => Some(Slot::new(day, hour)),
            _ => None,
        },
        None => None,
    }
}

/// A key written for a cell reads back as that cell, for every day that is
/// not negative (a negative day would put its minus sign before the
/// separating hyphen).
pub proof fn lemma_slot_key_round_trip(day: i64, hour: i64)
    requires
        day >= 0,
    ensures
        slot_of_key(slot_key(day as int, hour as int)) == Some(Slot { day, hour }),
{
    let d = decimal(day as int);
    let h = decimal(hour as int);
    let k = slot_key(day as int, hour as int);
    reveal_strlit("-");
    lemma_nat_digits_read_back(day as nat);
    assert(d == nat_digits(day as nat));
    assert forall|j: int| 0 <= j < d.len() implies k[j] != '-' by {
        assert(k[j] == d[j]);
        assert(is_ascii_digit(d[j]));
    }
    assert(k[d.len() as int] == '-');
    lemma_first_index_is(k, '-', d.len() as int);
    assert(k.take(d.len() as int) =~= d);
    assert(k.skip(d.len() as int + 1) =~= h);
    lemma_parse_i64_decimal(day);
    lemma_parse_i64_decimal(hour);
}

// ---------------------------------------------------------------------------
// Cells occupied by placed visits
// ---------------------------------------------------------------------------

/// The cells of one teacher: cell key to the company whose visit covers it.
/// No key occurs twice.
#[derive(Debug, Clone)]
pub struct CellMap {
    entries: Vec<(String, i64)>,
}

/// Some entry has this key.
pub open spec fn has_key(s: Seq<(String, i64)>, key: Seq<char>) -> bool {
    exists|i: int| 0 <= i < s.len() && #[trigger] s[i].0@ == key
}

/// The entries as a map (meaningful when no key occurs twice).
pub open spec fn entry_map(s: Seq<(String, i64)>) -> Map<Seq<char>, i64> {
    Map::new(
        |key: Seq<char>| has_key(s, key),
        |key: Seq<char>| s[choose|i: int| 0 <= i < s.len() && #[trigger] s[i].0@ == key].1,
    )
}

/// No key occurs twice.
pub open spec fn distinct_keys(s: Seq<(String, i64)>) -> bool {
    forall|i: int, j: int| 0 <= i < j < s.len() ==> (#[trigger] s[i]).0@ != (#[trigger] s[j]).0@
}

proof fn lemma_entry_map_at(s: Seq<(String, i64)>, i: int)
    requires
        distinct_keys(s),
        0 <= i < s.len(),
    ensures
        entry_map(s).dom().contains(s[i].0@),
        entry_map(s)[s[i].0@] == s[i].1,
{
    let key = s[i].0@;
    assert(has_key(s, key));
    let j = choose|j: int| 0 <= j < s.len() && #[trigger] s[j].0@ == key;
    if j < i {
        assert(s[j].0@ != s[i].0@);
    } else if i < j {
        assert(s[i].0@ != s[j].0@);
    }
}

proof fn lemma_entry_map_len(s: Seq<(String, i64)>)
    requires
        distinct_keys(s),
    ensures
        entry_map(s).dom().finite(),
        entry_map(s).dom().len() == s.len(),
{
    let keys = Seq::new(s.len(), |i: int| s[i].0@);
    assert(keys.no_duplicates()) by {
        assert forall|i: int, j: int| 0 <= i < keys.len() && 0 <= j < keys.len() && i != j implies keys[i] != keys[j] by {
            if i < j {
                assert(s[i].0@ != s[j].0@);
            } else {
                assert(s[j].0@ != s[i].0@);
            }
        }
    }
    keys.unique_seq_to_set();
    assert(entry_map(s).dom() =~= keys.to_set()) by {
        assert forall|key: Seq<char>| entry_map(s).dom().contains(key) implies keys.to_set().contains(key) by {
            let i = choose|i: int| 0 <= i < s.len() && #[trigger] s[i].0@ == key;
            assert(keys[i] == key);
        }
        assert forall|key: Seq<char>| keys.to_set().contains(key) implies entry_map(s).dom().contains(key) by {
            let i = choose|i: int| 0 <= i < keys.len() && keys[i] == key;
            assert(s[i].0@ == key);
        }
    }
}

impl View for CellMap {
    type V = Map<Seq<char>, i64>;

    closed spec fn view(&self) -> Map<Seq<char>, i64> {
        entry_map(self.entries@)
    }
}

impl CellMap {
    /// No key occurs twice.
    pub closed spec fn wf(&self) -> bool {
        distinct_keys(self.entries@)
    }

    pub fn new() -> (m: CellMap)
        ensures
            m.wf(),
            m@ == Map::<Seq<char>, i64>::empty(),
    {
        let m = CellMap { entries: Vec::new() };
        assert(m@ =~= Map::<Seq<char>, i64>::empty());
        m
    }

    /// A copy with the same cells.
    pub fn copy(&self) -> (r: CellMap)
        ensures
            r@ == self@,
            r.wf() == self.wf(),
    {
        let mut entries: Vec<(String, i64)> = Vec::new();
        let mut i: usize = 0;
        while i < self.entries.len()
            invariant
                i <= self.entries@.len(),
                entries@ == self.entries@.take(i as int),
            decreases self.entries@.len() - i,
        {
            let e = &self.entries[i];
            entries.push((e.0.clone(), e.1));
            i += 1;
            assert(entries@ =~= self.entries@.take(i as int));
        }
        assert(self.entries@.take(self.entries@.len() as int) =~= self.entries@);
        CellMap { entries }
    }

    /// Number of cells.
    pub fn len(&self) -> (n: usize)
        requires
            self.wf(),
        ensures
            self@.dom().finite(),
            n == self@.dom().len(),
    {
        proof {
            lemma_entry_map_len(self.entries@);
        }
        self.entries.len()
    }

    /// The company of a cell, if the cell is occupied.
    pub fn get(&self, key: &str) -> (r: Option<i64>)
        requires
            self.wf(),
        ensures
            r == (if self@.dom().contains(key@) {
                Some(self@[key@])
            } else {
                None
            }),
    {
        let mut i: usize = 0;
        while i < self.entries.len()
            invariant
                i <= self.entries@.len(),
                distinct_keys(self.entries@),
                forall|k: int| 0 <= k < i ==> (#[trigger] self.entries@[k]).0@ != key@,
            decreases self.entries@.len() - i,
        {
            if str_eq(self.entries[i].0.as_str(), key) {
                proof {
                    lemma_entry_map_at(self.entries@, i as int);
                }
                return Some(self.entries[i].1);
            }
            i += 1;
        }
        None
    }

    /// The cells as (key, company) pairs.
    pub fn pairs(&self) -> (r: &Vec<(String, i64)>)
        requires
            self.wf(),
        ensures
            distinct_keys(r@),
            entry_map(r@) == self@,
    {
        &self.entries
    }

    /// Sets the company of a cell, replacing an earlier one.
    pub fn insert(&mut self, key: String, company: i64)
        requires
            old(self).wf(),
        ensures
            final(self).wf(),
            final(self)@ == old(self)@.insert(key@, company),
    {
        let ghost before = self.entries@;
        let mut i: usize = 0;
        while i < self.entries.len()
            invariant
                i <= self.entries@.len(),
                self.entries@ == before,
                old(self).entries@ == before,
                distinct_keys(before),
                forall|k: int| 0 <= k < i ==> (#[trigger] self.entries@[k]).0@ != key@,
            decreases self.entries@.len() - i,
        {
            if str_eq(self.entries[i].0.as_str(), key.as_str()) {
                let ghost k = key@;
                self.entries.set(i, (key, company));
                proof {
                    let after = self.entries@;
                    assert(after == before.update(i as int, after[i as int]));
                    assert(distinct_keys(after)) by {
                        assert forall|a: int, b: int| 0 <= a < b < after.len() implies (#[trigger] after[a]).0@ != (#[trigger] after[b]).0@ by {
                            assert(after[a].0@ == before[a].0@);
                            assert(after[b].0@ == before[b].0@);
                            assert(before[a].0@ != before[b].0@);
                        }
                    }
                    assert(entry_map(after) =~= entry_map(before).insert(k, company)) by {
                        assert forall|q: Seq<char>| #[trigger] entry_map(after).dom().contains(q) <==> entry_map(before).insert(k, company).dom().contains(q) by {
                            if has_key(after, q) {
                                let j = choose|j: int| 0 <= j < after.len() && #[trigger] after[j].0@ == q;
                                assert(before[j].0@ == q);
                            }
                            if has_key(before, q) {
                                let j = choose|j: int| 0 <= j < before.len() && #[trigger] before[j].0@ == q;
                                assert(after[j].0@ == q);
                            }
                            if q == k {
                                assert(after[i as int].0@ == q);
                            }
                        }
                        assert forall|q: Seq<char>| entry_map(after).dom().contains(q) implies entry_map(after)[q] == entry_map(before).insert(k, company)[q] by {
                            let j = choose|j: int| 0 <= j < after.len() && #[trigger] after[j].0@ == q;
                            lemma_entry_map_at(after, j);
                            if j != i {
                                lemma_entry_map_at(before, j);
                            }
                        }
                    }
                    assert(self@ == entry_map(after));
                    assert(old(self)@ == entry_map(before));
                }
                return;
            }
            i += 1;
        }
        let ghost k = key@;
        self.entries.push((key, company));
        proof {
            let after = self.entries@;
            assert(after == before.push((after.last().0, company)));
            assert(distinct_keys(after)) by {
                assert forall|a: int, b: int| 0 <= a < b < after.len() implies (#[trigger] after[a]).0@ != (#[trigger] after[b]).0@ by {
                    if b < before.len() {
                        assert(before[a].0@ != before[b].0@);
                    } else {
                        assert(after[a] == before[a]);
                    }
                }
            }
            assert(entry_map(after) =~= entry_map(before).insert(k, company)) by {
                assert forall|q: Seq<char>| #[trigger] entry_map(after).dom().contains(q) <==> entry_map(before).insert(k, company).dom().contains(q) by {
                    if has_key(after, q) {
                        let j = choose|j: int| 0 <= j < after.len() && #[trigger] after[j].0@ == q;
                        if j < before.len() {
                            assert(before[j].0@ == q);
                        }
                    }
                    if has_key(before, q) {
                        let j = choose|j: int| 0 <= j < before.len() && #[trigger] before[j].0@ == q;
                        assert(after[j].0@ == q);
                    }
                    if q == k {
                        assert(after[before.len() as int].0@ == q);
                    }
                }
                assert forall|q: Seq<char>| entry_map(after).dom().contains(q) implies entry_map(after)[q] == entry_map(before).insert(k, company)[q] by {
                    let j = choose|j: int| 0 <= j < after.len() && #[trigger] after[j].0@ == q;
                    lemma_entry_map_at(after, j);
                    if j < before.len() {
                        lemma_entry_map_at(before, j);
                    }
                }
            }
        }
    }
}

/// A placed visit: teacher, day, first hour, last hour (inclusive), company.
pub type Placement = (i64, i64, i64, i64, i64);

/// `key` is the key of a cell of `day` whose hour lies in `start..=end`.
pub open spec fn in_block(key: Seq<char>, day: int, start: int, end: int) -> bool {
    exists|h: int| start <= h <= end && key == #[trigger] slot_key(day, h)
}

/// `cells` with every cell of the block `day, start..=end` set to `company`.
pub open spec fn with_block(cells: Map<Seq<char>, i64>, day: int, start: int, end: int, company: i64) -> Map<
    Seq<char>,
    i64,
> {
    Map::new(
        |key: Seq<char>| cells.dom().contains(key) || in_block(key, day, start, end),
        |key: Seq<char>|
            if in_block(key, day, start, end) {
                company
            } else {
                cells[key]
            },
    )
}

/// The occupied cells of every teacher after placing `ps` in order: each
/// placement opens an entry for its teacher and sets all cells of its block
/// to its company, a later block overriding an earlier one on a shared cell.
pub open spec fn occupied_by(ps: Seq<Placement>) -> Map<i64, Map<Seq<char>, i64>>
    decreases ps.len(),
{
    if ps.len() == 0 {
        Map::empty()
    } else {
        let before = occupied_by(ps.drop_last());
        let p = ps.last();
        let cells = if before.dom().contains(p.0) {
            before[p.0]
        } else {
            Map::empty()
        };
        before.insert(p.0, with_block(cells, p.1 as int, p.2 as int, p.3 as int, p.4))
    }
}

/// The occupied cells of all teachers; no teacher occurs twice.
#[derive(Debug, Clone)]
pub struct OccupiedCells {
    teachers: Vec<(i64, CellMap)>,
}

/// Some entry is for this teacher.
pub open spec fn has_teacher(s: Seq<(i64, CellMap)>, t: i64) -> bool {
    exists|i: int| 0 <= i < s.len() && #[trigger] s[i].0 == t
}

pub open spec fn teacher_map(s: Seq<(i64, CellMap)>) -> Map<i64, Map<Seq<char>, i64>> {
    Map::new(
        |t: i64| has_teacher(s, t),
        |t: i64| s[choose|i: int| 0 <= i < s.len() && #[trigger] s[i].0 == t].1@,
    )
}

pub open spec fn teachers_wf(s: Seq<(i64, CellMap)>) -> bool {
    &&& forall|i: int, j: int| 0 <= i < j < s.len() ==> (#[trigger] s[i]).0 != (#[trigger] s[j]).0
    &&& forall|i: int| 0 <= i < s.len() ==> (#[trigger] s[i]).1.wf()
}

proof fn lemma_teacher_map_at(s: Seq<(i64, CellMap)>, i: int)
    requires
        teachers_wf(s),
        0 <= i < s.len(),
    ensures
        teacher_map(s).dom().contains(s[i].0),
        teacher_map(s)[s[i].0] == s[i].1@,
{
    let t = s[i].0;
    assert(has_teacher(s, t));
    let j = choose|j: int| 0 <= j < s.len() && #[trigger] s[j].0 == t;
    if j < i {
        assert(s[j].0 != s[i].0);
    } else if i < j {
        assert(s[i].0 != s[j].0);
    }
}

proof fn lemma_teacher_map_len(s: Seq<(i64, CellMap)>)
    requires
        teachers_wf(s),
    ensures
        teacher_map(s).dom().finite(),
        teacher_map(s).dom().len() == s.len(),
{
    let ids = Seq::new(s.len(), |i: int| s[i].0);
    assert(ids.no_duplicates()) by {
        assert forall|i: int, j: int| 0 <= i < ids.len() && 0 <= j < ids.len() && i != j implies ids[i] != ids[j] by {
            if i < j {
                assert(s[i].0 != s[j].0);
            } else {
                assert(s[j].0 != s[i].0);
            }
        }
    }
    ids.unique_seq_to_set();
    assert(teacher_map(s).dom() =~= ids.to_set()) by {
        assert forall|t: i64| teacher_map(s).dom().contains(t) implies ids.to_set().contains(t) by {
            let i = choose|i: int| 0 <= i < s.len() && #[trigger] s[i].0 == t;
            assert(ids[i] == t);
        }
        assert forall|t: i64| ids.to_set().contains(t) implies teacher_map(s).dom().contains(t) by {
            let i = choose|i: int| 0 <= i < ids.len() && ids[i] == t;
            assert(s[i].0 == t);
        }
    }
}

impl View for OccupiedCells {
    type V = Map<i64, Map<Seq<char>, i64>>;

    closed spec fn view(&self) -> Map<i64, Map<Seq<char>, i64>> {
        teacher_map(self.teachers@)
    }
}

impl OccupiedCells {
    /// No teacher occurs twice and every cell map is well formed.
    pub closed spec fn wf(&self) -> bool {
        teachers_wf(self.teachers@)
    }

    pub fn new() -> (o: OccupiedCells)
        ensures
            o.wf(),
            o@ == Map::<i64, Map<Seq<char>, i64>>::empty(),
    {
        let o = OccupiedCells { teachers: Vec::new() };
        assert(o@ =~= Map::<i64, Map<Seq<char>, i64>>::empty());
        o
    }

    /// Number of teachers with an entry.
    pub fn len(&self) -> (n: usize)
        requires
            self.wf(),
        ensures
            self@.dom().finite(),
            n == self@.dom().len(),
    {
        proof {
            lemma_teacher_map_len(self.teachers@);
        }
        self.teachers.len()
    }

    /// No teacher has an entry.
    pub fn is_empty(&self) -> (b: bool)
        requires
            self.wf(),
        ensures
            b == (self@.dom() =~= Set::<i64>::empty()),
    {
        proof {
            lemma_teacher_map_len(self.teachers@);
            if self.teachers@.len() > 0 {
                lemma_teacher_map_at(self.teachers@, 0);
                assert(self@.dom().contains(self.teachers@[0].0));
            }
        }
        self.teachers.len() == 0
    }

    fn position(&self, teacher: i64) -> (r: Option<usize>)
        requires
            self.wf(),
        ensures
            match r {
                Some(i) => i < self.teachers@.len() && self.teachers@[i as int].0 == teacher,
                None => !has_teacher(self.teachers@, teacher),
            },
    {
        let mut i: usize = 0;
        while i < self.teachers.len()
            invariant
                i <= self.teachers@.len(),
                forall|k: int| 0 <= k < i ==> (#[trigger] self.teachers@[k]).0 != teacher,
            decreases self.teachers@.len() - i,
        {
            if self.teachers[i].0 == teacher {
                return Some(i);
            }
            i += 1;
        }
        None
    }

    /// The cells of a teacher, if the teacher has an entry.
    pub fn get(&self, teacher: i64) -> (r: Option<&CellMap>)
        requires
            self.wf(),
        ensures
            match r {
                Some(c) => self@.dom().contains(teacher) && c.wf() && c@ == self@[teacher],
                None => !self@.dom().contains(teacher),
            },
    {
        match self.position(teacher) {
            Some(i) => {
                proof {
                    lemma_teacher_map_at(self.teachers@, i as int);
                }
                Some(&self.teachers[i].1)
            },
            None => None,
        }
    }

    /// The teacher ids in the order their entries were opened.
    pub fn teacher_ids(&self) -> (r: Vec<i64>)
        requires
            self.wf(),
        ensures
            r@.len() == self@.dom().len(),
            forall|t: i64| self@.dom().contains(t) <==> r@.contains(t),
            r@.no_duplicates(),
    {
        let mut out: Vec<i64> = Vec::new();
        let mut i: usize = 0;
        while i < self.teachers.len()
            invariant
                i <= self.teachers@.len(),
                teachers_wf(self.teachers@),
                out@ == Seq::new(i as nat, |k: int| self.teachers@[k].0),
            decreases self.teachers@.len() - i,
        {
            out.push(self.teachers[i].0);
            i += 1;
            assert(out@ =~= Seq::new(i as nat, |k: int| self.teachers@[k].0));
        }
        proof {
            lemma_teacher_map_len(self.teachers@);
            assert forall|t: i64| self@.dom().contains(t) <==> out@.contains(t) by {
                if self@.dom().contains(t) {
                    let k = choose|k: int| 0 <= k < self.teachers@.len() && #[trigger] self.teachers@[k].0 == t;
                    assert(out@[k] == t);
                }
                if out@.contains(t) {
                    let k = choose|k: int| 0 <= k < out@.len() && out@[k] == t;
                    assert(self.teachers@[k].0 == t);
                }
            }
        }
        out
    }

    /// Removes the entry of `teacher` and hands out its cells (none if the
    /// teacher had no entry).
    fn take_entry(&mut self, teacher: i64) -> (cells: CellMap)
        requires
            old(self).wf(),
        ensures
            final(self).wf(),
            final(self)@ == old(self)@.remove(teacher),
            cells.wf(),
            cells@ == (if old(self)@.dom().contains(teacher) {
                old(self)@[teacher]
            } else {
                Map::<Seq<char>, i64>::empty()
            }),
    {
        let ghost before = self.teachers@;
        match self.position(teacher) {
            Some(i) => {
                proof {
                    lemma_teacher_map_at(before, i as int);
                }
                let entry = self.teachers.remove(i);
                proof {
                    let r = self.teachers@;
                    assert(r == before.remove(i as int));
                    assert forall|k: int| 0 <= k < r.len() implies #[trigger] r[k] == (if k < i {
                        before[k]
                    } else {
                        before[k + 1]
                    }) by {}
                    assert(teachers_wf(r)) by {
                        assert forall|a: int, b: int| 0 <= a < b < r.len() implies (#[trigger] r[a]).0 != (#[trigger] r[b]).0 by {
                            let a2 = if a < i { a } else { a + 1 };
                            let b2 = if b < i { b } else { b + 1 };
                            assert(r[a] == before[a2]);
                            assert(r[b] == before[b2]);
                            assert(before[a2].0 != before[b2].0);
                        }
                        assert forall|a: int| 0 <= a < r.len() implies (#[trigger] r[a]).1.wf() by {
                            let a2 = if a < i { a } else { a + 1 };
                            assert(r[a] == before[a2]);
                        }
                    }
                    let target = teacher_map(before).remove(teacher);
                    assert forall|t: i64| #[trigger] teacher_map(r).dom().contains(t) <==> target.dom().contains(t) by {
                        if has_teacher(r, t) {
                            let k = choose|k: int| 0 <= k < r.len() && #[trigger] r[k].0 == t;
                            let k2 = if k < i { k } else { k + 1 };
                            assert(before[k2] == r[k]);
                            if k2 < i {
                                assert(before[k2].0 != before[i as int].0);
                            } else {
                                assert(before[i as int].0 != before[k2].0);
                            }
                        }
                        if has_teacher(before, t) && t != teacher {
                            let j = choose|j: int| 0 <= j < before.len() && #[trigger] before[j].0 == t;
                            if j < i {
                                assert(r[j] == before[j]);
                            } else {
                                assert(j != i);
                                assert(r[j - 1] == before[j]);
                            }
                        }
                    }
                    assert forall|t: i64| teacher_map(r).dom().contains(t) implies teacher_map(r)[t] == target[t] by {
                        let k = choose|k: int| 0 <= k < r.len() && #[trigger] r[k].0 == t;
                        let k2 = if k < i { k } else { k + 1 };
                        assert(before[k2] == r[k]);
                        lemma_teacher_map_at(r, k);
                        lemma_teacher_map_at(before, k2);
                    }
                    assert(teacher_map(r) =~= target);
                }
                entry.1
            },
            None => {
                assert(teacher_map(before) =~= teacher_map(before).remove(teacher));
                let cells = CellMap::new();
                cells
            },
        }
    }

    /// Adds an entry for a teacher that has none.
    fn put_entry(&mut self, teacher: i64, cells: CellMap)
        requires
            old(self).wf(),
            !old(self)@.dom().contains(teacher),
            cells.wf(),
        ensures
            final(self).wf(),
            final(self)@ == old(self)@.insert(teacher, cells@),
    {
        let ghost before = self.teachers@;
        let ghost cv = cells@;
        self.teachers.push((teacher, cells));
        proof {
            let after = self.teachers@;
            assert(after == before.push((teacher, after.last().1)));
            assert(teachers_wf(after)) by {
                assert forall|a: int, b: int| 0 <= a < b < after.len() implies (#[trigger] after[a]).0 != (#[trigger] after[b]).0 by {
                    if b < before.len() {
                        assert(after[a] == before[a]);
                        assert(after[b] == before[b]);
                    } else {
                        assert(after[a] == before[a]);
                        if before[a].0 == teacher {
                            assert(has_teacher(before, teacher));
                        }
                    }
                }
                assert forall|a: int| 0 <= a < after.len() implies (#[trigger] after[a]).1.wf() by {
                    if a < before.len() {
                        assert(after[a] == before[a]);
                    }
                }
            }
            let target = teacher_map(before).insert(teacher, cv);
            assert forall|t: i64| #[trigger] teacher_map(after).dom().contains(t) <==> target.dom().contains(t) by {
                if has_teacher(after, t) && t != teacher {
                    let k = choose|k: int| 0 <= k < after.len() && #[trigger] after[k].0 == t;
                    assert(after[k] == before[k]);
                }
                if has_teacher(before, t) {
                    let k = choose|k: int| 0 <= k < before.len() && #[trigger] before[k].0 == t;
                    assert(after[k] == before[k]);
                }
                if t == teacher {
                    assert(after[before.len() as int].0 == t);
                }
            }
            assert forall|t: i64| teacher_map(after).dom().contains(t) implies teacher_map(after)[t] == target[t] by {
                let k = choose|k: int| 0 <= k < after.len() && #[trigger] after[k].0 == t;
                lemma_teacher_map_at(after, k);
                if k < before.len() {
                    assert(after[k] == before[k]);
                    lemma_teacher_map_at(before, k);
                    if t == teacher {
                        assert(has_teacher(before, teacher));
                    }
                }
            }
            assert(teacher_map(after) =~= target);
        }
    }

    /// Sets every cell of `day, start..=end` of `teacher` to `company`,
    /// opening an entry for the teacher if there is none.
    fn add_block(&mut self, teacher: i64, day: i64, start: i64, end: i64, company: i64)
        requires
            old(self).wf(),
        ensures
            final(self).wf(),
            final(self)@ == old(self)@.insert(
                teacher,
                with_block(
                    if old(self)@.dom().contains(teacher) {
                        old(self)@[teacher]
                    } else {
                        Map::empty()
                    },
                    day as int,
                    start as int,
                    end as int,
                    company,
                ),
            ),
    {
        let ghost old_cells = if old(self)@.dom().contains(teacher) {
            old(self)@[teacher]
        } else {
            Map::<Seq<char>, i64>::empty()
        };
        let mut cells = self.take_entry(teacher);
        if start <= end {
            let mut h = start;
            loop
                invariant_except_break
                    start <= h <= end,
                    cells@ == with_block(old_cells, day as int, start as int, h - 1, company),
                invariant
                    cells.wf(),
                ensures
                    cells@ == with_block(old_cells, day as int, start as int, end as int, company),
                decreases end - h,
            {
                let key = slot_key_of(day, h);
                cells.insert(key, company);
                proof {
                    assert(cells@ =~= with_block(old_cells, day as int, start as int, h as int, company)) by {
                        assert forall|k: Seq<char>| #[trigger] in_block(k, day as int, start as int, h as int) <==> (in_block(k, day as int, start as int, h - 1) || k == slot_key(day as int, h as int)) by {
                            if in_block(k, day as int, start as int, h as int) {
                                let w = choose|w: int| start <= w <= h && k == #[trigger] slot_key(day as int, w);
                                if w < h {
                                    assert(in_block(k, day as int, start as int, h - 1));
                                }
                            }
                            if in_block(k, day as int, start as int, h - 1) {
                                let w = choose|w: int| start <= w <= h - 1 && k == #[trigger] slot_key(day as int, w);
                                assert(start <= w <= h);
                            }
                            if k == slot_key(day as int, h as int) {
                                assert(start <= h <= h);
                            }
                        }
                    }
                }
                if h == end {
                    break;
                }
                h = h + 1;
            }
        } else {
            assert(cells@ =~= with_block(old_cells, day as int, start as int, end as int, company)) by {
                assert forall|k: Seq<char>| !in_block(k, day as int, start as int, end as int) by {}
            }
        }
        self.put_entry(teacher, cells);
        assert(self@ =~= old(self)@.insert(teacher, with_block(old_cells, day as int, start as int, end as int, company)));
    }
}

/// Teachers are kept apart: a teacher has an entry exactly when one of the
/// placements is its own, and a cell of its entry is occupied exactly when
/// the block of one of its own placements covers it.
pub proof fn lemma_occupied_cells_are_own_blocks(ps: Seq<Placement>, t: i64)
    ensures
        occupied_by(ps).dom().contains(t) <==> exists|i: int| 0 <= i < ps.len() && #[trigger] ps[i].0 == t,
        occupied_by(ps).dom().contains(t) ==> forall|key: Seq<char>|
            #[trigger] occupied_by(ps)[t].dom().contains(key) <==> exists|i: int|
                0 <= i < ps.len() && #[trigger] ps[i].0 == t && in_block(key, ps[i].1 as int, ps[i].2 as int, ps[i].3 as int),
    decreases ps.len(),
{
    if ps.len() > 0 {
        let rest = ps.drop_last();
        let p = ps.last();
        lemma_occupied_cells_are_own_blocks(rest, t);
        let before = occupied_by(rest);
        assert forall|i: int| 0 <= i < rest.len() implies rest[i] == ps[i] by {}
        if exists|i: int| 0 <= i < ps.len() && #[trigger] ps[i].0 == t {
            let i = choose|i: int| 0 <= i < ps.len() && #[trigger] ps[i].0 == t;
            if i < rest.len() {
                assert(rest[i].0 == t);
            }
        }
        if exists|i: int| 0 <= i < rest.len() && #[trigger] rest[i].0 == t {
            let i = choose|i: int| 0 <= i < rest.len() && #[trigger] rest[i].0 == t;
            assert(ps[i].0 == t);
        }
        if occupied_by(ps).dom().contains(t) {
            assert forall|key: Seq<char>| #[trigger] occupied_by(ps)[t].dom().contains(key) <==> exists|i: int|
                0 <= i < ps.len() && #[trigger] ps[i].0 == t && in_block(key, ps[i].1 as int, ps[i].2 as int, ps[i].3 as int) by {
                if exists|i: int| 0 <= i < ps.len() && #[trigger] ps[i].0 == t && in_block(key, ps[i].1 as int, ps[i].2 as int, ps[i].3 as int) {
                    let i = choose|i: int| 0 <= i < ps.len() && #[trigger] ps[i].0 == t && in_block(key, ps[i].1 as int, ps[i].2 as int, ps[i].3 as int);
                    if i < rest.len() {
                        assert(rest[i].0 == t);
                    }
                }
                if p.0 == t && before.dom().contains(t) && before[t].dom().contains(key) {
                    let i = choose|i: int| 0 <= i < rest.len() && #[trigger] rest[i].0 == t && in_block(key, rest[i].1 as int, rest[i].2 as int, rest[i].3 as int);
                    assert(ps[i] == rest[i]);
                }
                if p.0 != t && before[t].dom().contains(key) {
                    let i = choose|i: int| 0 <= i < rest.len() && #[trigger] rest[i].0 == t && in_block(key, rest[i].1 as int, rest[i].2 as int, rest[i].3 as int);
                    assert(ps[i] == rest[i]);
                }
                if p.0 == t && in_block(key, p.1 as int, p.2 as int, p.3 as int) {
                    assert(ps[ps.len() - 1] == p);
                }
            }
        }
    }
}

/// The cells each placed visit occupies, per teacher: a visit covers every
/// hour from its first to its last, and a cell key maps to the company of
/// the last visit covering it.
pub fn occupied_cells_by_teacher(placements: &[Placement]) -> (r: OccupiedCells)
    ensures
        r.wf(),
        r@ == occupied_by(placements@),
{
    let mut result = OccupiedCells::new();
    let mut i: usize = 0;
    assert(placements@.take(0) =~= Seq::<Placement>::empty());
    while i < placements.len()
        invariant
            i <= placements@.len(),
            result.wf(),
            result@ == occupied_by(placements@.take(i as int)),
        decreases placements@.len() - i,
    {
        let (teacher, day, start, end, company) = placements[i];
        result.add_block(teacher, day, start, end, company);
        proof {
            let t = placements@.take(i + 1);
            assert(t.drop_last() =~= placements@.take(i as int));
            assert(t.last() == placements@[i as int]);
        }
        i += 1;
    }
    assert(placements@.take(placements@.len() as int) =~= placements@);
    result
}

// ---------------------------------------------------------------------------
// Warnings
// ---------------------------------------------------------------------------

/// The warning text of a violation: its message, the legal basis in
/// parentheses when there is one, and a full stop.
pub open spec fn warning_text(v: Violation) -> Seq<char> {
    match v.legal_basis {
        Some(basis) => v.message@ + " ("@ + basis@ + ")."@,
        None => v.message@ + "."@,
    }
}

/// The plain warning line shown on the board for a violation.
pub fn violation_to_warning(violation: &Violation) -> (w: String)
    ensures
        w@ == warning_text(*violation),
{
    match &violation.legal_basis {
        Some(basis) => {
            let a = concat(violation.message.as_str(), " (");
            let b = concat(a.as_str(), basis.as_str());
            concat(b.as_str(), ").")
        },
        None => concat(violation.message.as_str(), "."),
    }
}

// ---------------------------------------------------------------------------
// Teachers on the assignment board
// ---------------------------------------------------------------------------

/// No more than eight extra-lesson hours on one day (OÖKY MADDE 88).
pub const MAX_HOURS_PER_DAY: i64 = 8;

/// A teacher on the assignment board with its weekly grid.
#[derive(Debug, Clone)]
pub struct BoardTeacher {
    pub teacher_id: i64,
    pub teacher_name: String,
    pub branches: Vec<String>,
    /// Coordination capacity (MADDE 15/2 ceiling less chief and other extra hours).
    pub capacity: i64,
    /// Σ awarded hours of the companies assigned to the teacher.
    pub assigned_hours: i64,
    pub company_count: i64,
    /// Free hours as `{day}-{hour}` keys.
    pub free_slots: Vec<String>,
    /// Awarded hours per weekday (1-5) that has any, by increasing day.
    pub hours_per_day: Vec<(i64, i64)>,
    /// The days above the daily limit.
    pub days_over_cap: Vec<i64>,
    pub is_over_capacity: bool,
    /// Occupied cells: cell key to the company whose visit covers it.
    pub occupied_by: CellMap,
}

/// The value of the last pair with `key` first (a map collected from the
/// pairs keeps the last value of a key).
pub open spec fn last_value(pairs: Seq<(i64, i64)>, key: i64) -> Option<i64>
    decreases pairs.len(),
{
    if pairs.len() == 0 {
        None
    } else if pairs.last().0 == key {
        Some(pairs.last().1)
    } else {
        last_value(pairs.drop_last(), key)
    }
}

/// The hours of `teacher` on `day`, from the last matching row.
pub open spec fn day_value(rows: Seq<(i64, i64, i64)>, teacher: i64, day: i64) -> Option<i64>
    decreases rows.len(),
{
    if rows.len() == 0 {
        None
    } else if rows.last().0 == teacher && rows.last().1 == day {
        Some(rows.last().2)
    } else {
        day_value(rows.drop_last(), teacher, day)
    }
}

/// The (day, hours) pairs of days `1..=upto` that have hours, by day.
pub open spec fn days_with_hours(rows: Seq<(i64, i64, i64)>, teacher: i64, upto: int) -> Seq<(i64, i64)>
    decreases upto,
{
    if upto <= 0 {
        Seq::empty()
    } else {
        let rest = days_with_hours(rows, teacher, upto - 1);
        match day_value(rows, teacher, upto as i64) {
            Some(h) => rest.push((upto as i64, h)),
            None => rest,
        }
    }
}

/// The days of `per_day` whose hours pass the daily limit, in order.
pub open spec fn days_over(per_day: Seq<(i64, i64)>) -> Seq<i64>
    decreases per_day.len(),
{
    if per_day.len() == 0 {
        Seq::empty()
    } else {
        let rest = days_over(per_day.drop_last());
        if per_day.last().1 > MAX_HOURS_PER_DAY {
            rest.push(per_day.last().0)
        } else {
            rest
        }
    }
}

/// Companies on the board assigned to `teacher`.
pub open spec fn assigned_count(assigned_teachers: Seq<Option<i64>>, teacher: i64) -> int
    decreases assigned_teachers.len(),
{
    if assigned_teachers.len() == 0 {
        0
    } else {
        assigned_count(assigned_teachers.drop_last(), teacher) + if assigned_teachers.last() == Some(teacher) {
            1int
        } else {
            0int
        }
    }
}

fn lookup_last(pairs: &Vec<(i64, i64)>, key: i64) -> (r: Option<i64>)
    ensures
        r == last_value(pairs@, key),
{
    let mut i = pairs.len();
    assert(pairs@.take(i as int) =~= pairs@);
    while i > 0
        invariant
            i <= pairs@.len(),
            last_value(pairs@, key) == last_value(pairs@.take(i as int), key),
        decreases i,
    {
        proof {
            let t = pairs@.take(i as int);
            assert(t.last() == pairs@[i - 1]);
            assert(t.drop_last() =~= pairs@.take(i - 1));
        }
        if pairs[i - 1].0 == key {
            return Some(pairs[i - 1].1);
        }
        i -= 1;
    }
    None
}

fn lookup_day(rows: &Vec<(i64, i64, i64)>, teacher: i64, day: i64) -> (r: Option<i64>)
    ensures
        r == day_value(rows@, teacher, day),
{
    let mut i = rows.len();
    assert(rows@.take(i as int) =~= rows@);
    while i > 0
        invariant
            i <= rows@.len(),
            day_value(rows@, teacher, day) == day_value(rows@.take(i as int), teacher, day),
        decreases i,
    {
        proof {
            let t = rows@.take(i as int);
            assert(t.last() == rows@[i - 1]);
            assert(t.drop_last() =~= rows@.take(i - 1));
        }
        if rows[i - 1].0 == teacher && rows[i - 1].1 == day {
            return Some(rows[i - 1].2);
        }
        i -= 1;
    }
    None
}

/// The awarded hours of a teacher per weekday, Monday to Friday, leaving
/// out days without hours.
pub fn hours_per_day_of(rows: &Vec<(i64, i64, i64)>, teacher: i64) -> (r: Vec<(i64, i64)>)
    ensures
        r@ == days_with_hours(rows@, teacher, 5),
{
    let mut out: Vec<(i64, i64)> = Vec::new();
    let mut day: i64 = 1;
    while day <= 5
        invariant
            1 <= day <= 6,
            out@ == days_with_hours(rows@, teacher, day - 1),
        decreases 6 - day,
    {
        match lookup_day(rows, teacher, day) {
            Some(h) => out.push((day, h)),
            None => {},
        }
        day += 1;
    }
    out
}

/// The days whose hours pass the daily limit.
pub fn days_over_cap_of(per_day: &Vec<(i64, i64)>) -> (r: Vec<i64>)
    ensures
        r@ == days_over(per_day@),
{
    let mut out: Vec<i64> = Vec::new();
    let mut i: usize = 0;
    while i < per_day.len()
        invariant
            i <= per_day@.len(),
            out@ == days_over(per_day@.take(i as int)),
        decreases per_day@.len() - i,
    {
        proof {
            let t = per_day@.take(i + 1);
            assert(t.drop_last() =~= per_day@.take(i as int));
            assert(t.last() == per_day@[i as int]);
        }
        if per_day[i].1 > MAX_HOURS_PER_DAY {
            out.push(per_day[i].0);
        }
        i += 1;
    }
    assert(per_day@.take(per_day@.len() as int) =~= per_day@);
    out
}

fn copy_cells(c: &CellMap) -> (r: CellMap)
    requires
        c.wf(),
    ensures
        r.wf(),
        r@ == c@,
{
    let pairs = c.pairs();
    let mut out = CellMap::new();
    let mut i: usize = 0;
    while i < pairs.len()
        invariant
            i <= pairs@.len(),
            distinct_keys(pairs@),
            out.wf(),
            out@ == entry_map(pairs@.take(i as int)),
        decreases pairs@.len() - i,
    {
        let ghost before = out@;
        out.insert(pairs[i].0.clone(), pairs[i].1);
        proof {
            let t0 = pairs@.take(i as int);
            let t1 = pairs@.take(i + 1);
            assert(distinct_keys(t1)) by {
                assert forall|a: int, b: int| 0 <= a < b < t1.len() implies (#[trigger] t1[a]).0@ != (#[trigger] t1[b]).0@ by {
                    assert(t1[a] == pairs@[a]);
                    assert(t1[b] == pairs@[b]);
                }
            }
            assert(distinct_keys(t0)) by {
                assert forall|a: int, b: int| 0 <= a < b < t0.len() implies (#[trigger] t0[a]).0@ != (#[trigger] t0[b]).0@ by {
                    assert(t0[a] == pairs@[a]);
                    assert(t0[b] == pairs@[b]);
                }
            }
            assert(entry_map(t1) =~= entry_map(t0).insert(pairs@[i as int].0@, pairs@[i as int].1)) by {
                assert forall|q: Seq<char>| #[trigger] entry_map(t1).dom().contains(q) <==> entry_map(t0).insert(pairs@[i as int].0@, pairs@[i as int].1).dom().contains(q) by {
                    if has_key(t1, q) {
                        let j = choose|j: int| 0 <= j < t1.len() && #[trigger] t1[j].0@ == q;
                        if j < i {
                            assert(t0[j].0@ == q);
                        }
                    }
                    if has_key(t0, q) {
                        let j = choose|j: int| 0 <= j < t0.len() && #[trigger] t0[j].0@ == q;
                        assert(t1[j].0@ == q);
                    }
                    if q == pairs@[i as int].0@ {
                        assert(t1[i as int].0@ == q);
                    }
                }
                assert forall|q: Seq<char>| entry_map(t1).dom().contains(q) implies entry_map(t1)[q] == entry_map(t0).insert(pairs@[i as int].0@, pairs@[i as int].1)[q] by {
                    let j = choose|j: int| 0 <= j < t1.len() && #[trigger] t1[j].0@ == q;
                    lemma_entry_map_at(t1, j);
                    if j < i {
                        assert(t0[j] == t1[j]);
                        lemma_entry_map_at(t0, j);
                        assert(t1[j].0@ != t1[i as int].0@);
                    }
                }
            }
        }
        i += 1;
    }
    assert(pairs@.take(pairs@.len() as int) =~= pairs@);
    out
}

/// The board row of a teacher. `capacity` is its coordination capacity,
/// `hours_by_teacher` the awarded hours per teacher, `per_day` the awarded
/// hours per teacher and day, `assigned_teachers` the coordinator of every
/// company on the board, `slots` the free hours and `occupied` the occupied
/// cells of all teachers.
pub fn board_teacher(
    teacher: &Teacher,
    capacity: i64,
    hours_by_teacher: &Vec<(i64, i64)>,
    per_day: &Vec<(i64, i64, i64)>,
    assigned_teachers: &Vec<Option<i64>>,
    slots: &Vec<AvailabilitySlot>,
    occupied: &OccupiedCells,
) -> (b: BoardTeacher)
    requires
        occupied.wf(),
        assigned_teachers@.len() <= i64::MAX,
    ensures
        b.teacher_id == teacher.id,
        b.teacher_name@ == full_name(teacher.first_name@, teacher.last_name@),
        match json_string_list(teacher.branches@) {
            Some(items) => texts_of(b.branches@) == items,
            None => b.branches@.len() == 0,
        },
        b.capacity == capacity,
        b.assigned_hours == (match last_value(hours_by_teacher@, teacher.id) {
            Some(h) => h,
            None => 0,
        }),
        b.company_count == assigned_count(assigned_teachers@, teacher.id),
        texts_of(b.free_slots@) == free_keys(slots@, teacher.id),
        b.hours_per_day@ == days_with_hours(per_day@, teacher.id, 5),
        b.days_over_cap@ == days_over(b.hours_per_day@),
        b.is_over_capacity == (b.assigned_hours > capacity),
        b.occupied_by.wf(),
        b.occupied_by@ == (if occupied@.dom().contains(teacher.id) {
            occupied@[teacher.id]
        } else {
            Map::<Seq<char>, i64>::empty()
        }),
{
    let assigned_hours = match lookup_last(hours_by_teacher, teacher.id) {
        Some(h) => h,
        None => 0,
    };
    let hours_per_day = hours_per_day_of(per_day, teacher.id);
    let days_over_cap = days_over_cap_of(&hours_per_day);
    let mut company_count: i64 = 0;
    let mut i: usize = 0;
    while i < assigned_teachers.len()
        invariant
            i <= assigned_teachers@.len() <= i64::MAX,
            company_count == assigned_count(assigned_teachers@.take(i as int), teacher.id),
            0 <= company_count <= i,
        decreases assigned_teachers@.len() - i,
    {
        proof {
            let t = assigned_teachers@.take(i + 1);
            assert(t.drop_last() =~= assigned_teachers@.take(i as int));
            assert(t.last() == assigned_teachers@[i as int]);
        }
        if assigned_teachers[i] == Some(teacher.id) {
            company_count = company_count + 1;
        }
        i += 1;
    }
    assert(assigned_teachers@.take(assigned_teachers@.len() as int) =~= assigned_teachers@);
    let occupied_by = match occupied.get(teacher.id) {
        Some(cells) => copy_cells(cells),
        None => CellMap::new(),
    };
    BoardTeacher {
        teacher_id: teacher.id,
        teacher_name: teacher_name(teacher),
        branches: decode_branches(teacher.branches.as_str()),
        capacity,
        assigned_hours,
        company_count,
        free_slots: free_slot_keys(teacher.id, slots),
        hours_per_day,
        days_over_cap,
        is_over_capacity: assigned_hours > capacity,
        occupied_by,
    }
}

/// The warnings of the assignment board that it derives itself, in order:
/// no active teacher, no teacher with free hours, no class days, companies
/// without an award. These are all the warnings the board itself derives;
/// it checks neither the pool against the awards nor each teacher's totals.
pub open spec fn board_warning_texts(teacher_count: int, all_without_free_slots: bool, class_days_empty: bool, missing_hours: int) -> Seq<Seq<char>> {
    (if teacher_count == 0 {
        seq!["Aktif öğretmen yok. Dağıtım yapabilmek için Öğretmenler ekranından öğretmen ekleyin."@]
    } else {
        Seq::empty()
    }) + (if teacher_count > 0 && all_without_free_slots {
        seq![
            "Hiçbir öğretmenin boş saati girilmemiş. Müsaitlik Takvimi ekranından haftalık programı girin."@,
        ]
    } else {
        Seq::empty()
    }) + (if class_days_empty {
        seq!["Sınıfların işletme günleri tanımlanmamış. Müsaitlik Takvimi ekranından girin."@]
    } else {
        Seq::empty()
    }) + (if missing_hours > 0 {
        seq![
            crate::decimal::decimal(missing_hours)
                + " işletmenin saat takdiri girilmemiş. Dağıtımdan ÖNCE İşletme Saat Ayarları ekranından takdir edin."@,
        ]
    } else {
        Seq::empty()
    })
}

/// The board's own warnings from its teachers, whether any class has
/// workplace days, and the number of companies without an award.
pub fn board_warnings(teachers: &Vec<BoardTeacher>, class_days_empty: bool, missing_hours: u64) -> (w: Vec<String>)
    ensures
        texts_of(w@) == board_warning_texts(
            teachers@.len() as int,
            forall|i: int| 0 <= i < teachers@.len() ==> (#[trigger] teachers@[i]).free_slots@.len() == 0,
            class_days_empty,
            missing_hours as int,
        ),
{
    let mut all_without = true;
    let mut i: usize = 0;
    while i < teachers.len()
        invariant
            i <= teachers@.len(),
            all_without == forall|k: int| 0 <= k < i ==> (#[trigger] teachers@[k]).free_slots@.len() == 0,
        decreases teachers@.len() - i,
    {
        if teachers[i].free_slots.len() != 0 {
            all_without = false;
        }
        i += 1;
    }
    let mut out: Vec<String> = Vec::new();
    if teachers.len() == 0 {
        out.push(string_of("Aktif öğretmen yok. Dağıtım yapabilmek için Öğretmenler ekranından öğretmen ekleyin."));
    }
    if teachers.len() > 0 && all_without {
        out.push(
            string_of("Hiçbir öğretmenin boş saati girilmemiş. Müsaitlik Takvimi ekranından haftalık programı girin."),
        );
    }
    if class_days_empty {
        out.push(string_of("Sınıfların işletme günleri tanımlanmamış. Müsaitlik Takvimi ekranından girin."));
    }
    if missing_hours > 0 {
        let n = count_string(missing_hours);
        out.push(
            concat(
                n.as_str(),
                " işletmenin saat takdiri girilmemiş. Dağıtımdan ÖNCE İşletme Saat Ayarları ekranından takdir edin.",
            ),
        );
    }
    assert(texts_of(out@) =~= board_warning_texts(
        teachers@.len() as int,
        forall|i: int| 0 <= i < teachers@.len() ==> (#[trigger] teachers@[i]).free_slots@.len() == 0,
        class_days_empty,
        missing_hours as int,
    ));
    out
}

} // verus!
