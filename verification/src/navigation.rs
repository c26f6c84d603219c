//! Entries organised by day for browsing: the tree of entries by year, month and day,
//! and the browsing state over it (the selected day, the expanded year and
//! month).
use vstd::prelude::*;
use std::collections::BTreeMap;
use crate::sorted::{
    in_order, lemma_in_order, lemma_sorted_unique, listing, num_lt, sorted_by, strict_total, walk_keys,
    walk_of,
};
use crate::data::{date_before, date_lt, lemma_date_lt_total, Date, Entry};

verus! {

/// Month and day keys, month first.
pub open spec fn pair_lt() -> spec_fn((u32, u32), (u32, u32)) -> bool {
    |a: (u32, u32), b: (u32, u32)| a.0 < b.0 || (a.0 == b.0 && a.1 < b.1)
}

/// Year, month and day keys, year first.
pub open spec fn key_lt() -> spec_fn((u32, u32, u32), (u32, u32, u32)) -> bool {
    |a: (u32, u32, u32), b: (u32, u32, u32)|
        a.0 < b.0 || (a.0 == b.0 && (a.1 < b.1 || (a.1 == b.1 && a.2 < b.2)))
}

/// Days of the calendar, earliest first.
pub open spec fn day_lt() -> spec_fn(Date, Date) -> bool {
    |a: Date, b: Date| date_lt(a, b)
}

/// The orders of keys and days are strict and total.
pub proof fn lemma_orders_total()
    ensures
        strict_total(num_lt()),
        strict_total(pair_lt()),
        strict_total(key_lt()),
        strict_total(day_lt()),
{
    assert forall|x: (u32, u32), y: (u32, u32)| x != y implies #[trigger] pair_lt()(x, y) || pair_lt()(y, x) by {
        if x.0 == y.0 && x.1 == y.1 {
            assert(x == y);
        }
    }
    assert forall|x: (u32, u32, u32), y: (u32, u32, u32)| x != y implies #[trigger] key_lt()(x, y) || key_lt()(y, x) by {
        if x.0 == y.0 && x.1 == y.1 && x.2 == y.2 {
            assert(x == y);
        }
    }
    assert forall|x: Date, y: Date| x != y implies #[trigger] day_lt()(x, y) || day_lt()(y, x) by {
        lemma_date_lt_total(x, y);
    }
}

/// The entries of one month, by day.
#[derive(Debug, Clone)]
pub struct Month {
    pub month: u32,
    pub entries: BTreeMap<u32, Entry>,
}

impl Month {
    /// An empty month.
    pub fn new(month: u32) -> (m: Month)
        ensures
            m.month == month,
            m.entries@ == Map::<u32, Entry>::empty(),
    {
        Month { month, entries: BTreeMap::new() }
    }

    /// Puts an entry under its day, replacing the entry of that day.
    pub fn add_entry(&mut self, entry: Entry)
        ensures
            final(self).month == old(self).month,
            final(self).entries@ == old(self).entries@.insert(entry.date.day, entry),
    {
        let day = entry.date.day;
        let _ = self.entries.insert(day, entry);
    }

    /// The entry of day `day`, if there is one.
    pub fn get_entry(&self, day: u32) -> (r: Option<&Entry>)
        ensures
            match r {
                Some(e) => self.entries@.contains_key(day) && self.entries@[day] == *e,
                None => !self.entries@.contains_key(day),
            },
    {
        self.entries.get(&day)
    }

    /// Whether the month holds no entry.
    pub fn is_empty(&self) -> (r: bool)
        ensures
            r == (self.entries@.len() == 0),
    {
        proof {
            assert(self.entries@.dom().finite());
            if self.entries@.len() == 0 {
                assert(self.entries@.dom() =~= Set::<u32>::empty());
                assert(self.entries@ =~= Map::<u32, Entry>::empty());
            }
        }
        self.entries.is_empty()
    }
}

/// The entries of one year, by month and day.
#[derive(Debug, Clone)]
pub struct Year {
    pub year: u32,
    pub months: BTreeMap<u32, Month>,
}

impl View for Year {
    type V = Map<(u32, u32), Entry>;

    /// The entries of the year, keyed by month and day.
    open spec fn view(&self) -> Map<(u32, u32), Entry> {
        Map::new(
            |k: (u32, u32)| self.months@.contains_key(k.0) && self.months@[k.0].entries@.contains_key(k.1),
            |k: (u32, u32)| self.months@[k.0].entries@[k.1],
        )
    }
}

impl Year {
    /// An empty year.
    pub fn new(year: u32) -> (y: Year)
        ensures
            y.year == year,
            y.months@ == Map::<u32, Month>::empty(),
            y@ == Map::<(u32, u32), Entry>::empty(),
    {
        let y = Year { year, months: BTreeMap::new() };
        proof {
            assert(y@ =~= Map::<(u32, u32), Entry>::empty());
        }
        y
    }

    /// Puts an entry into the month of its date, which is made when missing.
    pub fn add_entry(&mut self, entry: Entry)
        ensures
            final(self).year == old(self).year,
            final(self).months@.dom() == old(self).months@.dom().insert(entry.date.month),
            forall|k: u32|
                k != entry.date.month && #[trigger] old(self).months@.contains_key(k)
                    ==> final(self).months@[k] == old(self).months@[k],
            final(self).months@[entry.date.month].month == (if old(self).months@.contains_key(
                entry.date.month,
            ) {
                old(self).months@[entry.date.month].month
            } else {
                entry.date.month
            }),
            final(self)@ == old(self)@.insert((entry.date.month, entry.date.day), entry),
    {
        let m = entry.date.month;
        let ghost e = entry;
        let mut month = match self.months.remove(&m) {
            Some(mo) => mo,
            None => Month::new(m),
        };
        month.add_entry(entry);
        let _ = self.months.insert(m, month);
        proof {
            assert(self.months@.dom() =~= old(self).months@.dom().insert(m));
            assert(self@ =~= old(self)@.insert((m, e.date.day), e));
        }
    }

    /// All entries of the year, by month and then day.
    pub fn get_all_entries(&self) -> (r: Vec<&Entry>)
        ensures
            r@.map_values(|e: &Entry| *e) == listing(self@, pair_lt()),
            sorted_by(in_order(self@.dom(), pair_lt()), pair_lt()),
            forall|k: (u32, u32)| in_order(self@.dom(), pair_lt()).contains(k) <==> self@.contains_key(k),
    {
        let months = walk_keys(&self.months);
        let mut r: Vec<&Entry> = Vec::new();
        let ghost mut ks: Seq<(u32, u32)> = Seq::empty();
        let mut i: usize = 0;
        proof {
            assert forall|k: (u32, u32)|
                #[trigger] self@.contains_key(k) && (0 == months@.len() || k.0 < *months@[0].0)
                    implies ks.contains(k) by {
                assert(self.months@.contains_key(k.0));
                assert(months@.contains((&k.0, &self.months@[k.0])));
                let w = choose|w: int| 0 <= w < months@.len() && months@[w] == (&k.0, &self.months@[k.0]);
                assert(months@.map_values(|kv: (&u32, &Month)| *kv.0)[w] == k.0);
                assert(months@.map_values(|kv: (&u32, &Month)| *kv.0)[0] == *months@[0].0);
                if w > 0 {
                    assert(num_lt()(*months@[0].0, k.0));
                }
            }
        }
        while i < months.len()
            invariant
                walk_of(months@, self.months@),
                i <= months@.len(),
                ks.len() == r@.len(),
                forall|t: int|
                    0 <= t < ks.len() ==> self@.contains_key(#[trigger] ks[t]) && self@[ks[t]]
                        == *r@[t],
                sorted_by(ks, pair_lt()),
                forall|t: int, u: int|
                    0 <= t < ks.len() && i <= u < months@.len() ==> (#[trigger] ks[t]).0
                        < *(#[trigger] months@[u]).0,
                forall|k: (u32, u32)|
                    #[trigger] self@.contains_key(k) && (i == months@.len() || k.0 < *months@[i as int].0)
                        ==> ks.contains(k),
            decreases months@.len() - i,
        {
            let (mk, month) = months[i];
            let days = walk_keys(&month.entries);
            let mut j: usize = 0;
            proof {
                assert forall|d: u32|
                    #[trigger] month.entries@.contains_key(d) && (0 == days@.len() || d < *days@[0].0)
                        implies ks.contains((*mk, d)) by {
                    assert(days@.contains((&d, &month.entries@[d])));
                    let w = choose|w: int| 0 <= w < days@.len() && days@[w] == (&d, &month.entries@[d]);
                    assert(days@.map_values(|kv: (&u32, &Entry)| *kv.0)[w] == d);
                    assert(days@.map_values(|kv: (&u32, &Entry)| *kv.0)[0] == *days@[0].0);
                    if w > 0 {
                        assert(num_lt()(*days@[0].0, d));
                    }
                }
            }
            while j < days.len()
                invariant
                    walk_of(months@, self.months@),
                    walk_of(days@, month.entries@),
                    i < months@.len(),
                    months@[i as int] == (mk, month),
                    j <= days@.len(),
                    ks.len() == r@.len(),
                    forall|t: int|
                        0 <= t < ks.len() ==> self@.contains_key(#[trigger] ks[t]) && self@[ks[t]]
                            == *r@[t],
                    sorted_by(ks, pair_lt()),
                    forall|t: int, u: int|
                        0 <= t < ks.len() && i < u < months@.len() ==> (#[trigger] ks[t]).0
                            < *(#[trigger] months@[u]).0,
                    forall|t: int, v: int|
                        0 <= t < ks.len() && j <= v < days@.len() ==> pair_lt()(
                            #[trigger] ks[t],
                            (*mk, *(#[trigger] days@[v]).0),
                        ),
                    forall|k: (u32, u32)|
                        #[trigger] self@.contains_key(k) && k.0 < *mk ==> ks.contains(k),
                    forall|d: u32|
                        #[trigger] month.entries@.contains_key(d) && (j == days@.len() || d
                            < *days@[j as int].0) ==> ks.contains((*mk, d)),
                decreases days@.len() - j,
            {
                let (dk, e) = days[j];
                proof {
                    assert(self.months@.contains_key(*mk));
                    assert(month.entries@.contains_key(*dk));
                    assert(self@.contains_key((*mk, *dk)));
                    let ks0 = ks;
                    ks = ks.push((*mk, *dk));
                    assert forall|x: (u32, u32)| ks0.contains(x) implies ks.contains(x) by {
                        let w = choose|w: int| 0 <= w < ks0.len() && ks0[w] == x;
                        assert(ks[w] == x);
                    }
                    assert(ks[ks.len() - 1] == (*mk, *dk));
                    assert forall|t: int, u: int|
                        0 <= t < ks.len() && i < u < months@.len() implies (#[trigger] ks[t]).0
                            < *(#[trigger] months@[u]).0 by {
                        if t == ks.len() - 1 {
                            assert(months@.map_values(|kv: (&u32, &Month)| *kv.0)[u] == *months@[u].0);
                            assert(months@.map_values(|kv: (&u32, &Month)| *kv.0)[i as int] == *mk);
                            assert(num_lt()(*mk, *months@[u].0));
                        } else {
                            assert(ks[t] == ks0[t]);
                        }
                    }
                    assert forall|d: u32|
                        #[trigger] month.entries@.contains_key(d) && (j + 1 == days@.len() || d
                            < *days@[j + 1].0) implies ks.contains((*mk, d)) by {
                        if d == *dk {
                        } else if j + 1 < days@.len() && d >= *dk {
                            assert(month.entries@.contains_key(d));
                            assert(days@.contains((&d, &month.entries@[d])));
                            let w = choose|w: int| 0 <= w < days@.len() && days@[w] == (&d, &month.entries@[d]);
                            assert(days@.map_values(|kv: (&u32, &Entry)| *kv.0)[w] == d);
                            assert(days@.map_values(|kv: (&u32, &Entry)| *kv.0)[j as int] == *dk);
                            assert(days@.map_values(|kv: (&u32, &Entry)| *kv.0)[j + 1] == *days@[j + 1].0);
                            if w <= j {
                                if w < j {
                                    assert(num_lt()(d, *dk));
                                }
                            } else if w > j + 1 {
                                assert(num_lt()(*days@[j + 1].0, d));
                            }
                        } else if j + 1 == days@.len() && d > *dk {
                            assert(days@.contains((&d, &month.entries@[d])));
                            let w = choose|w: int| 0 <= w < days@.len() && days@[w] == (&d, &month.entries@[d]);
                            assert(days@.map_values(|kv: (&u32, &Entry)| *kv.0)[w] == d);
                            assert(days@.map_values(|kv: (&u32, &Entry)| *kv.0)[j as int] == *dk);
                            if w < j {
                                assert(num_lt()(d, *dk));
                            }
                        }
                    }
                    assert forall|t: int, v: int|
                        0 <= t < ks.len() && j + 1 <= v < days@.len() implies pair_lt()(
                            #[trigger] ks[t],
                            (*mk, *(#[trigger] days@[v]).0),
                        ) by {
                        assert(days@.map_values(|kv: (&u32, &Entry)| *kv.0)[v] == *days@[v].0);
                        assert(days@.map_values(|kv: (&u32, &Entry)| *kv.0)[j as int] == *dk);
                        assert(num_lt()(*dk, *days@[v].0));
                    }
                }
                r.push(e);
                j = j + 1;
            }
            proof {
                assert forall|k: (u32, u32)|
                    #[trigger] self@.contains_key(k) && (i + 1 == months@.len() || k.0 < *months@[i + 1].0)
                        implies ks.contains(k) by {
                    if k.0 < *mk {
                    } else if k.0 == *mk {
                        assert(month.entries@.contains_key(k.1));
                    } else {
                        assert(self.months@.contains_key(k.0));
                        assert(months@.contains((&k.0, &self.months@[k.0])));
                        let w = choose|w: int| 0 <= w < months@.len() && months@[w] == (&k.0, &self.months@[k.0]);
                        assert(months@.map_values(|kv: (&u32, &Month)| *kv.0)[w] == k.0);
                        assert(months@.map_values(|kv: (&u32, &Month)| *kv.0)[i as int] == *mk);
                        if w < i {
                            assert(num_lt()(k.0, *mk));
                        } else if i + 1 < months@.len() {
                            assert(months@.map_values(|kv: (&u32, &Month)| *kv.0)[i + 1] == *months@[i + 1].0);
                            if w > i + 1 {
                                assert(num_lt()(*months@[i + 1].0, k.0));
                            }
                        }
                    }
                }
                assert forall|t: int, u: int|
                    0 <= t < ks.len() && i + 1 <= u < months@.len() implies (#[trigger] ks[t]).0
                        < *(#[trigger] months@[u]).0 by {
                    assert(months@.map_values(|kv: (&u32, &Month)| *kv.0)[u] == *months@[u].0);
                    assert(months@.map_values(|kv: (&u32, &Month)| *kv.0)[i as int] == *mk);
                    assert(num_lt()(*mk, *months@[u].0));
                }
            }
            i = i + 1;
        }
        proof {
            lemma_orders_total();
            assert forall|k: (u32, u32)| ks.contains(k) <==> self@.dom().contains(k) by {
                if ks.contains(k) {
                    let w = choose|w: int| 0 <= w < ks.len() && ks[w] == k;
                    assert(self@.contains_key(ks[w]));
                }
                if self@.dom().contains(k) {
                    assert(self@.contains_key(k));
                }
            }
            lemma_in_order(ks, self@.dom(), pair_lt());
            assert(r@.map_values(|e: &Entry| *e) =~= listing(self@, pair_lt()));
        }
        r
    }

    /// Whether the year holds no month.
    pub fn is_empty(&self) -> (r: bool)
        ensures
            r == (self.months@.len() == 0),
    {
        proof {
            if self.months@.len() == 0 {
                assert(self.months@.dom() =~= Set::<u32>::empty());
                assert(self.months@ =~= Map::<u32, Month>::empty());
            }
        }
        self.months.is_empty()
    }
}

/// The days come in strictly increasing order.
pub open spec fn dates_increasing(ds: Seq<Date>) -> bool {
    forall|i: int, j: int| 0 <= i < j < ds.len() ==> date_lt(#[trigger] ds[i], #[trigger] ds[j])
}

/// The values of `xs` come in strictly decreasing order.
pub open spec fn decreasing(xs: Seq<u32>) -> bool {
    forall|i: int, j: int| 0 <= i < j < xs.len() ==> #[trigger] xs[i] > #[trigger] xs[j]
}

/// The key under which the tree keeps the entry of day `d`: its year (as a `u32`),
/// its month and its day.
pub open spec fn day_key(d: Date) -> (u32, u32, u32) {
    (d.year as u32, d.month, d.day)
}

/// Different days have different keys.
pub proof fn lemma_day_key_injective(a: Date, b: Date)
    ensures
        day_key(a) == day_key(b) ==> a == b,
{
    let x = a.year;
    let y = b.year;
    assert(x as u32 == y as u32 ==> x == y) by (bit_vector);
}

/// The keys of `m`, largest first.
fn keys_newest_first<V>(m: &BTreeMap<u32, V>) -> (ks: Vec<u32>)
    ensures
        decreasing(ks@),
        forall|k: u32| ks@.contains(k) <==> m@.contains_key(k),
{
    let all = walk_keys(m);
    let n = all.len();
    let mut ks: Vec<u32> = Vec::new();
    let mut i: usize = n;
    while i > 0
        invariant
            walk_of(all@, m@),
            n == all@.len(),
            i <= n,
            ks@.len() == n - i,
            forall|t: int| 0 <= t < ks@.len() ==> #[trigger] ks@[t] == *all@[n - 1 - t].0,
        decreases i,
    {
        i = i - 1;
        ks.push(*all[i].0);
    }
    proof {
        let keys = all@.map_values(|kv: (&u32, &V)| *kv.0);
        assert forall|t1: int, t2: int| 0 <= t1 < t2 < ks@.len() implies #[trigger] ks@[t1]
            > #[trigger] ks@[t2] by {
            assert(keys[n - 1 - t1] == ks@[t1]);
            assert(keys[n - 1 - t2] == ks@[t2]);
            assert(num_lt()(keys[n - 1 - t2], keys[n - 1 - t1]));
        }
        assert forall|k: u32| ks@.contains(k) <==> m@.contains_key(k) by {
            if ks@.contains(k) {
                let t = choose|t: int| 0 <= t < ks@.len() && ks@[t] == k;
                assert(m@.contains_key(*all@[n - 1 - t].0));
            }
            if m@.contains_key(k) {
                assert(all@.contains((&k, &m@[k])));
                let u = choose|u: int| 0 <= u < all@.len() && all@[u] == (&k, &m@[k]);
                assert(ks@[n - 1 - u] == k);
            }
        }
    }
    ks
}

/// All entries, by year, month and day.
#[derive(Debug, Clone)]
pub struct EntryTree {
    pub years: BTreeMap<u32, Year>,
}

impl View for EntryTree {
    type V = Map<(u32, u32, u32), Entry>;

    /// The entries of the tree, keyed by year, month and day.
    open spec fn view(&self) -> Map<(u32, u32, u32), Entry> {
        Map::new(
            |k: (u32, u32, u32)| self.years@.contains_key(k.0) && self.years@[k.0]@.contains_key((k.1, k.2)),
            |k: (u32, u32, u32)| self.years@[k.0]@[(k.1, k.2)],
        )
    }
}

impl EntryTree {
    /// Each year and month carries its own key, and each entry lies under the key of
    /// its day.
    pub open spec fn wf(&self) -> bool {
        &&& forall|y: u32| #[trigger] self.years@.contains_key(y) ==> self.years@[y].year == y
        &&& forall|y: u32, m: u32|
            self.years@.contains_key(y) && #[trigger] self.years@[y].months@.contains_key(m)
                ==> self.years@[y].months@[m].month == m
        &&& forall|k: (u32, u32, u32)| #[trigger] self@.contains_key(k) ==> day_key(self@[k].date) == k
    }

    /// The days that hold entries.
    pub open spec fn dates(&self) -> Set<Date> {
        Set::new(|d: Date| self@.contains_key(day_key(d)) && self@[day_key(d)].date == d)
    }

    /// An empty tree.
    pub fn new() -> (t: EntryTree)
        ensures
            t.wf(),
            t.years@ == Map::<u32, Year>::empty(),
            t@ == Map::<(u32, u32, u32), Entry>::empty(),
    {
        let t = EntryTree { years: BTreeMap::new() };
        proof {
            assert(t@ =~= Map::<(u32, u32, u32), Entry>::empty());
        }
        t
    }

    /// Puts an entry under its day, replacing the entry of that day; its year and
    /// month are made when missing.
    pub fn add_entry(&mut self, entry: Entry)
        ensures
            final(self)@ == old(self)@.insert(day_key(entry.date), entry),
            final(self).years@.dom() == old(self).years@.dom().insert(day_key(entry.date).0),
            old(self).wf() ==> final(self).wf(),
    {
        let y = entry.date.year as u32;
        let ghost e = entry;
        let mut year = match self.years.remove(&y) {
            Some(yr) => yr,
            None => Year::new(y),
        };
        let ghost before = year;
        year.add_entry(entry);
        let ghost after = year;
        let _ = self.years.insert(y, year);
        proof {
            assert(self.years@.dom() =~= old(self).years@.dom().insert(y));
            assert(self.years@[y] == after);
            assert(self@ =~= old(self)@.insert(day_key(e.date), e));
            if old(self).wf() {
                assert forall|y2: u32, m: u32|
                    self.years@.contains_key(y2) && #[trigger] self.years@[y2].months@.contains_key(m)
                        implies self.years@[y2].months@[m].month == m by {
                    if y2 == y && m != e.date.month {
                        assert(before.months@.contains_key(m));
                    }
                }
                assert forall|k: (u32, u32, u32)| #[trigger] self@.contains_key(k) implies day_key(
                    self@[k].date,
                ) == k by {
                    if k != day_key(e.date) {
                        assert(old(self)@.contains_key(k));
                    }
                }
            }
        }
    }

    /// The entry of day `date`, if there is one.
    pub fn get_entry(&self, date: &Date) -> (r: Option<&Entry>)
        ensures
            match r {
                Some(e) => self@.contains_key(day_key(*date)) && self@[day_key(*date)] == *e && (
                self.wf() ==> e.date == *date),
                None => !self@.contains_key(day_key(*date)),
            },
    {
        let r = match self.years.get(&(date.year as u32)) {
            Some(year) => match year.months.get(&date.month) {
                Some(month) => month.entries.get(&date.day),
                None => None,
            },
            None => None,
        };
        proof {
            if let Some(e) = r {
                if self.wf() {
                    lemma_day_key_injective(e.date, *date);
                }
            }
        }
        r
    }

    /// All entries, by year, month and day.
    pub fn get_all_entries(&self) -> (r: Vec<&Entry>)
        ensures
            r@.map_values(|e: &Entry| *e) == listing(self@, key_lt()),
            sorted_by(in_order(self@.dom(), key_lt()), key_lt()),
            forall|k: (u32, u32, u32)| in_order(self@.dom(), key_lt()).contains(k) <==> self@.contains_key(k),
    {
        let years = walk_keys(&self.years);
        let mut r: Vec<&Entry> = Vec::new();
        let ghost mut ks: Seq<(u32, u32, u32)> = Seq::empty();
        let mut i: usize = 0;
        proof {
            assert forall|k: (u32, u32, u32)|
                #[trigger] self@.contains_key(k) && (0 == years@.len() || k.0 < *years@[0].0)
                    implies ks.contains(k) by {
                assert(self.years@.contains_key(k.0));
                assert(years@.contains((&k.0, &self.years@[k.0])));
                let w = choose|w: int| 0 <= w < years@.len() && years@[w] == (&k.0, &self.years@[k.0]);
                assert(years@.map_values(|kv: (&u32, &Year)| *kv.0)[w] == k.0);
                assert(years@.map_values(|kv: (&u32, &Year)| *kv.0)[0] == *years@[0].0);
                if w > 0 {
                    assert(num_lt()(*years@[0].0, k.0));
                }
            }
        }
        while i < years.len()
            invariant
                walk_of(years@, self.years@),
                i <= years@.len(),
                ks.len() == r@.len(),
                forall|t: int|
                    0 <= t < ks.len() ==> self@.contains_key(#[trigger] ks[t]) && self@[ks[t]]
                        == *r@[t],
                sorted_by(ks, key_lt()),
                forall|t: int, u: int|
                    0 <= t < ks.len() && i <= u < years@.len() ==> (#[trigger] ks[t]).0
                        < *(#[trigger] years@[u]).0,
                forall|k: (u32, u32, u32)|
                    #[trigger] self@.contains_key(k) && (i == years@.len() || k.0 < *years@[i as int].0)
                        ==> ks.contains(k),
            decreases years@.len() - i,
        {
            let (yk, year) = years[i];
            let mut es = year.get_all_entries();
            let ghost ps = in_order(year@.dom(), pair_lt());
            let ghost ks0 = ks;
            let ghost r0 = r@;
            let ghost add = ps.map_values(|p: (u32, u32)| (*yk, p.0, p.1));
            let ghost es0 = es@;
            proof {
                assert(es0.map_values(|e: &Entry| *e).len() == es0.len());
                assert(self.years@.contains_key(*yk));
                assert(self.years@[*yk] == *year);
                assert(es@.map_values(|e: &Entry| *e) == ps.map_values(|k: (u32, u32)| year@[k]));
                ks = ks + add;
            }
            r.append(&mut es);
            proof {
                lemma_orders_total();
                assert forall|t: int|
                    0 <= t < ks.len() implies self@.contains_key(#[trigger] ks[t]) && self@[ks[t]]
                        == *r@[t] by {
                    if t < ks0.len() {
                        assert(ks[t] == ks0[t]);
                        assert(r@[t] == r0[t]);
                    } else {
                        let q = t - ks0.len();
                        assert(ps.contains(ps[q]));
                        assert(year@.contains_key(ps[q]));
                        assert(ks[t] == (*yk, ps[q].0, ps[q].1));
                        assert(es0.map_values(|e: &Entry| *e)[q] == year@[ps[q]]);
                        assert(r@[t] == es0[q]);
                    }
                }
                assert forall|t1: int, t2: int| 0 <= t1 < t2 < ks.len() implies key_lt()(
                    #[trigger] ks[t1],
                    #[trigger] ks[t2],
                ) by {
                    if t2 < ks0.len() {
                        assert(ks[t1] == ks0[t1] && ks[t2] == ks0[t2]);
                    } else if t1 < ks0.len() {
                        assert(ks[t1] == ks0[t1]);
                        assert(ks0[t1].0 < *years@[i as int].0);
                    } else {
                        assert(pair_lt()(ps[t1 - ks0.len()], ps[t2 - ks0.len()]));
                    }
                }
                assert forall|t: int, u: int|
                    0 <= t < ks.len() && i + 1 <= u < years@.len() implies (#[trigger] ks[t]).0
                        < *(#[trigger] years@[u]).0 by {
                    assert(years@.map_values(|kv: (&u32, &Year)| *kv.0)[u] == *years@[u].0);
                    assert(years@.map_values(|kv: (&u32, &Year)| *kv.0)[i as int] == *yk);
                    assert(num_lt()(*yk, *years@[u].0));
                    if t < ks0.len() {
                        assert(ks[t] == ks0[t]);
                    }
                }
                assert forall|k: (u32, u32, u32)|
                    #[trigger] self@.contains_key(k) && (i + 1 == years@.len() || k.0 < *years@[i
                        + 1].0) implies ks.contains(k) by {
                    if k.0 < *yk {
                        assert(ks0.contains(k));
                        let w = choose|w: int| 0 <= w < ks0.len() && ks0[w] == k;
                        assert(ks[w] == k);
                    } else if k.0 == *yk {
                        assert(year@.contains_key((k.1, k.2)));
                        assert(ps.contains((k.1, k.2)));
                        let w = choose|w: int| 0 <= w < ps.len() && ps[w] == (k.1, k.2);
                        assert(ks[ks0.len() + w] == k);
                    } else {
                        assert(self.years@.contains_key(k.0));
                        assert(years@.contains((&k.0, &self.years@[k.0])));
                        let w = choose|w: int| 0 <= w < years@.len() && years@[w] == (&k.0, &self.years@[k.0]);
                        assert(years@.map_values(|kv: (&u32, &Year)| *kv.0)[w] == k.0);
                        assert(years@.map_values(|kv: (&u32, &Year)| *kv.0)[i as int] == *yk);
                        if w < i {
                            assert(num_lt()(k.0, *yk));
                        } else if i + 1 < years@.len() {
                            assert(years@.map_values(|kv: (&u32, &Year)| *kv.0)[i + 1] == *years@[i + 1].0);
                            if w > i + 1 {
                                assert(num_lt()(*years@[i + 1].0, k.0));
                            }
                        }
                    }
                }
            }
            i = i + 1;
        }
        proof {
            lemma_orders_total();
            assert forall|k: (u32, u32, u32)| ks.contains(k) <==> self@.dom().contains(k) by {
                if ks.contains(k) {
                    let w = choose|w: int| 0 <= w < ks.len() && ks[w] == k;
                    assert(self@.contains_key(ks[w]));
                }
                if self@.dom().contains(k) {
                    assert(self@.contains_key(k));
                }
            }
            lemma_in_order(ks, self@.dom(), key_lt());
            assert(r@.map_values(|e: &Entry| *e) =~= listing(self@, key_lt()));
        }
        r
    }

    /// The days of all entries, earliest first.
    pub fn get_all_dates(&self) -> (ds: Vec<Date>)
        requires
            self.wf(),
        ensures
            ds@ == in_order(self.dates(), day_lt()),
            dates_increasing(ds@),
            forall|d: Date| ds@.contains(d) <==> self.dates().contains(d),
    {
        let es = self.get_all_entries();
        let ghost ks = in_order(self@.dom(), key_lt());
        let mut ds: Vec<Date> = Vec::new();
        let mut i: usize = 0;
        proof {
            assert(es@.map_values(|e: &Entry| *e).len() == es@.len());
            assert(listing(self@, key_lt()).len() == ks.len());
        }
        while i < es.len()
            invariant
                self.wf(),
                ks == in_order(self@.dom(), key_lt()),
                sorted_by(ks, key_lt()),
                ks.len() == es@.len(),
                es@.map_values(|e: &Entry| *e) == listing(self@, key_lt()),
                forall|k: (u32, u32, u32)| ks.contains(k) <==> self@.contains_key(k),
                i <= es@.len(),
                dates_increasing(ds@),
                forall|d: Date| ds@.contains(d) <==> exists|t: int| 0 <= t < i && (#[trigger] es@[t]).date == d,
            decreases es@.len() - i,
        {
            let d = es[i].date;
            proof {
                assert(ks.contains(ks[i as int]));
                assert(es@.map_values(|e: &Entry| *e)[i as int] == self@[ks[i as int]]);
                assert forall|t: int| 0 <= t < i implies (#[trigger] es@[t]).date != d by {
                    assert(ks.contains(ks[t]));
                    assert(es@.map_values(|e: &Entry| *e)[t] == self@[ks[t]]);
                    assert(day_key(es@[t].date) == ks[t]);
                    assert(day_key(es@[i as int].date) == ks[i as int]);
                    assert(key_lt()(ks[t], ks[i as int]));
                }
                assert(!ds@.contains(d));
            }
            insert_date_sorted(&mut ds, d);
            proof {
                assert forall|x: Date| ds@.contains(x) <==> exists|t: int| 0 <= t < i + 1 && (#[trigger] es@[t]).date == x by {
                    if x == d {
                        assert(es@[i as int].date == x);
                    }
                    if exists|t: int| 0 <= t < i + 1 && (#[trigger] es@[t]).date == x {
                        let t = choose|t: int| 0 <= t < i + 1 && (#[trigger] es@[t]).date == x;
                        if t < i {
                            assert(exists|t: int| 0 <= t < i && (#[trigger] es@[t]).date == x);
                        }
                    }
                }
            }
            i = i + 1;
        }
        proof {
            assert forall|x: Date| ds@.contains(x) <==> self.dates().contains(x) by {
                if ds@.contains(x) {
                    let t = choose|t: int| 0 <= t < i && (#[trigger] es@[t]).date == x;
                    assert(ks.contains(ks[t]));
                    assert(es@.map_values(|e: &Entry| *e)[t] == self@[ks[t]]);
                    assert(day_key(es@[t].date) == ks[t]);
                }
                if self.dates().contains(x) {
                    assert(self@.contains_key(day_key(x)));
                    assert(ks.contains(day_key(x)));
                    let t = choose|t: int| 0 <= t < ks.len() && ks[t] == day_key(x);
                    assert(es@.map_values(|e: &Entry| *e)[t] == self@[ks[t]]);
                    assert(es@[t].date == x);
                }
            }
            lemma_orders_total();
            assert(sorted_by(ds@, day_lt()));
            lemma_in_order(ds@, self.dates(), day_lt());
        }
        ds
    }

    /// Whether the tree holds no year.
    pub fn is_empty(&self) -> (r: bool)
        ensures
            r == (self.years@.len() == 0),
    {
        proof {
            if self.years@.len() == 0 {
                assert(self.years@.dom() =~= Set::<u32>::empty());
                assert(self.years@ =~= Map::<u32, Year>::empty());
            }
        }
        self.years.is_empty()
    }

    /// The latest day that holds an entry.
    pub fn get_latest_date(&self) -> (r: Option<Date>)
        requires
            self.wf(),
        ensures
            r == (if in_order(self.dates(), day_lt()).len() == 0 {
                None
            } else {
                Some(in_order(self.dates(), day_lt()).last())
            }),
    {
        let ds = self.get_all_dates();
        if ds.len() == 0 {
            None
        } else {
            Some(ds[ds.len() - 1])
        }
    }

    /// The earliest day that holds an entry.
    pub fn get_earliest_date(&self) -> (r: Option<Date>)
        requires
            self.wf(),
        ensures
            r == (if in_order(self.dates(), day_lt()).len() == 0 {
                None
            } else {
                Some(in_order(self.dates(), day_lt())[0])
            }),
    {
        let ds = self.get_all_dates();
        if ds.len() == 0 {
            None
        } else {
            Some(ds[0])
        }
    }

    /// The years of the tree, newest first.
    pub fn get_years(&self) -> (ys: Vec<u32>)
        ensures
            decreasing(ys@),
            forall|y: u32| ys@.contains(y) <==> self.years@.contains_key(y),
    {
        keys_newest_first(&self.years)
    }

    /// The months of year `year`, latest first; none when the year is missing.
    pub fn get_months_for_year(&self, year: u32) -> (ms: Vec<u32>)
        ensures
            decreasing(ms@),
            forall|m: u32|
                ms@.contains(m) <==> (self.years@.contains_key(year)
                    && self.years@[year].months@.contains_key(m)),
    {
        match self.years.get(&year) {
            Some(y) => keys_newest_first(&y.months),
            None => Vec::new(),
        }
    }

    /// The days of month `month` of year `year`, latest first; none when the month is
    /// missing.
    pub fn get_days_for_month(&self, year: u32, month: u32) -> (ds: Vec<u32>)
        ensures
            decreasing(ds@),
            forall|d: u32|
                ds@.contains(d) <==> self@.contains_key((year, month, d)),
    {
        match self.years.get(&year) {
            Some(y) => match y.months.get(&month) {
                Some(m) => keys_newest_first(&m.entries),
                None => Vec::new(),
            },
            None => Vec::new(),
        }
    }
}

/// Puts a day into a list of days in order, where it is not yet.
fn insert_date_sorted(ds: &mut Vec<Date>, d: Date)
    requires
        dates_increasing(old(ds)@),
        !old(ds)@.contains(d),
    ensures
        dates_increasing(final(ds)@),
        forall|x: Date| final(ds)@.contains(x) <==> old(ds)@.contains(x) || x == d,
{
    let n = ds.len();
    let mut j: usize = 0;
    while j < n && date_before(ds[j], d)
        invariant
            n == ds@.len(),
            j <= n,
            forall|t: int| 0 <= t < j ==> date_lt(#[trigger] ds@[t], d),
        decreases n - j,
    {
        j = j + 1;
    }
    let ghost before = ds@;
    proof {
        if j < n {
            lemma_date_lt_total(ds@[j as int], d);
            assert(ds@[j as int] != d);
        }
    }
    ds.insert(j, d);
    proof {
        assert(ds@ =~= before.take(j as int) + seq![d] + before.skip(j as int));
        assert forall|t1: int, t2: int| 0 <= t1 < t2 < ds@.len() implies date_lt(
            #[trigger] ds@[t1],
            #[trigger] ds@[t2],
        ) by {
            if t2 < j {
            } else if t2 == j {
            } else if t1 < j {
                assert(date_lt(before[t1], d));
                lemma_date_lt_total(before[t1], before[t2 - 1]);
            } else if t1 == j {
                assert(date_lt(d, before[j as int]) || j as int == t2 - 1);
                if t2 - 1 > j {
                    assert(date_lt(before[j as int], before[t2 - 1]));
                }
            } else {
                assert(date_lt(before[t1 - 1], before[t2 - 1]));
            }
        }
        assert forall|x: Date| ds@.contains(x) <==> before.contains(x) || x == d by {
            if ds@.contains(x) {
                let t = choose|t: int| 0 <= t < ds@.len() && ds@[t] == x;
                if t < j {
                    assert(before[t] == x);
                } else if t > j {
                    assert(before[t - 1] == x);
                }
            }
            if before.contains(x) {
                let t = choose|t: int| 0 <= t < before.len() && before[t] == x;
                if t < j {
                    assert(ds@[t] == x);
                } else {
                    assert(ds@[t + 1] == x);
                }
            }
            if x == d {
                assert(ds@[j as int] == d);
            }
        }
    }
}

/// After adding an entry, the tree gives it back for its day.
pub proof fn law_lookup_after_insert(t: Map<(u32, u32, u32), Entry>, e: Entry)
    ensures
        t.insert(day_key(e.date), e).contains_key(day_key(e.date)),
        t.insert(day_key(e.date), e)[day_key(e.date)] == e,
{
}

/// Adding an entry leaves the entries of the other days as they were.
pub proof fn law_lookup_other_after_insert(t: Map<(u32, u32, u32), Entry>, e: Entry, d: Date)
    requires
        d != e.date,
    ensures
        t.insert(day_key(e.date), e).contains_key(day_key(d)) == t.contains_key(day_key(d)),
        t.contains_key(day_key(d)) ==> t.insert(day_key(e.date), e)[day_key(d)] == t[day_key(d)],
{
    lemma_day_key_injective(d, e.date);
}

/// The first place of day `d` in `ds`, or -1 when it is not there.
pub open spec fn position(ds: Seq<Date>, d: Date) -> int
    decreases ds.len(),
{
    if ds.len() == 0 {
        -1
    } else if ds.last() == d && position(ds.drop_last(), d) == -1 {
        ds.len() - 1
    } else {
        position(ds.drop_last(), d)
    }
}

/// Where `d` is found it is at its place, and nowhere before it.
pub proof fn lemma_position(ds: Seq<Date>, d: Date)
    ensures
        -1 <= position(ds, d) < ds.len(),
        position(ds, d) >= 0 ==> ds[position(ds, d)] == d,
        position(ds, d) >= 0 ==> forall|k: int| 0 <= k < position(ds, d) ==> ds[k] != d,
        position(ds, d) == -1 ==> forall|k: int| 0 <= k < ds.len() ==> ds[k] != d,
    decreases ds.len(),
{
    if ds.len() > 0 {
        let pre = ds.drop_last();
        lemma_position(pre, d);
        assert forall|k: int| 0 <= k < pre.len() implies pre[k] == ds[k] by {}
    }
}

/// The selection after moving to the next day: the first day when nothing is
/// selected, the following day when there is one, otherwise unchanged.
pub open spec fn next_selection(ds: Seq<Date>, sel: Option<Date>) -> Option<Date> {
    if ds.len() == 0 {
        sel
    } else {
        match sel {
            None => Some(ds[0]),
            Some(cur) => {
                let p = position(ds, cur);
                if p >= 0 && p + 1 < ds.len() {
                    Some(ds[p + 1])
                } else {
                    sel
                }
            },
        }
    }
}

/// The selection after moving to the previous day: the last day when nothing is
/// selected, the day before when there is one, otherwise unchanged.
pub open spec fn prev_selection(ds: Seq<Date>, sel: Option<Date>) -> Option<Date> {
    if ds.len() == 0 {
        sel
    } else {
        match sel {
            None => Some(ds.last()),
            Some(cur) => {
                let p = position(ds, cur);
                if p > 0 {
                    Some(ds[p - 1])
                } else {
                    sel
                }
            },
        }
    }
}

/// The expanded year and month after toggling year `y`: a year already expanded
/// folds (with its month), any other year opens with no month open.
pub open spec fn toggle_year_result(ey: Option<u32>, y: u32) -> (Option<u32>, Option<u32>) {
    if ey == Some(y) {
        (None, None)
    } else {
        (Some(y), None)
    }
}

/// The expanded month after toggling month `m`, which needs an expanded year.
pub open spec fn toggle_month_result(ey: Option<u32>, em: Option<u32>, m: u32) -> Option<u32> {
    if ey is Some {
        if em == Some(m) {
            None
        } else {
            Some(m)
        }
    } else {
        em
    }
}

/// Finds the place of `d` in a list of days.
fn find_position(ds: &Vec<Date>, d: Date) -> (p: Option<usize>)
    ensures
        match p {
            Some(i) => i as int == position(ds@, d) && i < ds@.len(),
            None => position(ds@, d) == -1,
        },
{
    proof {
        lemma_position(ds@, d);
    }
    let n = ds.len();
    let mut i: usize = 0;
    while i < n
        invariant
            n == ds@.len(),
            i <= n,
            forall|k: int| 0 <= k < i ==> ds@[k] != d,
            -1 <= position(ds@, d) < ds@.len(),
            position(ds@, d) >= 0 ==> ds@[position(ds@, d)] == d,
            position(ds@, d) >= 0 ==> forall|k: int| 0 <= k < position(ds@, d) ==> ds@[k] != d,
            position(ds@, d) == -1 ==> forall|k: int| 0 <= k < ds@.len() ==> ds@[k] != d,
        decreases n - i,
    {
        if ds[i] == d {
            return Some(i);
        }
        i = i + 1;
    }
    None
}

/// The browsing state: the tree of entries, the selected day, and the expanded year
/// and month.
pub struct NavigationState {
    pub tree: EntryTree,
    pub selected_date: Option<Date>,
    pub expanded_year: Option<u32>,
    pub expanded_month: Option<u32>,
}

impl NavigationState {
    /// A month is expanded only within an expanded year.
    pub open spec fn expansion_consistent(&self) -> bool {
        self.expanded_month is Some ==> self.expanded_year is Some
    }

    /// An empty tree, nothing selected, nothing expanded.
    pub fn new() -> (s: NavigationState)
        ensures
            s.expansion_consistent(),
            s.tree.wf(),
            s.tree.years@ == Map::<u32, Year>::empty(),
            s.tree@ == Map::<(u32, u32, u32), Entry>::empty(),
            s.selected_date is None,
            s.expanded_year is None,
            s.expanded_month is None,
    {
        NavigationState {
            tree: EntryTree::new(),
            selected_date: None,
            expanded_year: None,
            expanded_month: None,
        }
    }

    /// Selects a day.
    pub fn select_date(&mut self, date: Date)
        ensures
            old(self).expansion_consistent() ==> final(self).expansion_consistent(),
            final(self).selected_date == Some(date),
            final(self).tree == old(self).tree,
            final(self).expanded_year == old(self).expanded_year,
            final(self).expanded_month == old(self).expanded_month,
    {
        self.selected_date = Some(date);
    }

    /// Clears the selection.
    pub fn clear_selection(&mut self)
        ensures
            old(self).expansion_consistent() ==> final(self).expansion_consistent(),
            final(self).selected_date is None,
            final(self).tree == old(self).tree,
            final(self).expanded_year == old(self).expanded_year,
            final(self).expanded_month == old(self).expanded_month,
    {
        self.selected_date = None;
    }

    /// The selected day.
    pub fn get_selected_date(&self) -> (r: Option<Date>)
        ensures
            r == self.selected_date,
    {
        self.selected_date
    }

    /// Moves the selection to the next day that has an entry.
    pub fn select_next(&mut self)
        requires
            old(self).tree.wf(),
        ensures
            old(self).expansion_consistent() ==> final(self).expansion_consistent(),
            final(self).selected_date == next_selection(
                in_order(old(self).tree.dates(), day_lt()),
                old(self).selected_date,
            ),
            final(self).tree == old(self).tree,
            final(self).expanded_year == old(self).expanded_year,
            final(self).expanded_month == old(self).expanded_month,
    {
        let dates = self.tree.get_all_dates();
        if dates.len() == 0 {
            return;
        }
        match self.selected_date {
            None => self.selected_date = Some(dates[0]),
            Some(current) => {
                if let Some(pos) = find_position(&dates, current) {
                    if pos + 1 < dates.len() {
                        self.selected_date = Some(dates[pos + 1]);
                    }
                }
            },
        }
    }

    /// Moves the selection to the previous day that has an entry.
    pub fn select_prev(&mut self)
        requires
            old(self).tree.wf(),
        ensures
            old(self).expansion_consistent() ==> final(self).expansion_consistent(),
            final(self).selected_date == prev_selection(
                in_order(old(self).tree.dates(), day_lt()),
                old(self).selected_date,
            ),
            final(self).tree == old(self).tree,
            final(self).expanded_year == old(self).expanded_year,
            final(self).expanded_month == old(self).expanded_month,
    {
        let dates = self.tree.get_all_dates();
        if dates.len() == 0 {
            return;
        }
        match self.selected_date {
            None => self.selected_date = Some(dates[dates.len() - 1]),
            Some(current) => {
                if let Some(pos) = find_position(&dates, current) {
                    if pos > 0 {
                        self.selected_date = Some(dates[pos - 1]);
                    }
                }
            },
        }
    }

    /// Expands a year, folding any other year and any month.
    pub fn expand_year(&mut self, year: u32)
        ensures
            final(self).expansion_consistent(),
            final(self).expanded_year == Some(year),
            final(self).expanded_month is None,
            final(self).tree == old(self).tree,
            final(self).selected_date == old(self).selected_date,
    {
        self.expanded_year = Some(year);
        self.expanded_month = None;
    }

    /// Expands a month of the expanded year; without an expanded year nothing changes.
    pub fn expand_month(&mut self, month: u32)
        ensures
            old(self).expansion_consistent() ==> final(self).expansion_consistent(),
            final(self).expanded_month == (if old(self).expanded_year is Some {
                Some(month)
            } else {
                old(self).expanded_month
            }),
            final(self).expanded_year == old(self).expanded_year,
            final(self).tree == old(self).tree,
            final(self).selected_date == old(self).selected_date,
    {
        if self.expanded_year.is_some() {
            self.expanded_month = Some(month);
        }
    }

    /// Folds the expanded year and its month.
    pub fn collapse_year(&mut self)
        ensures
            final(self).expansion_consistent(),
            final(self).expanded_year is None,
            final(self).expanded_month is None,
            final(self).tree == old(self).tree,
            final(self).selected_date == old(self).selected_date,
    {
        self.expanded_year = None;
        self.expanded_month = None;
    }

    /// Folds the expanded month, keeping the year expanded.
    pub fn collapse_month(&mut self)
        ensures
            final(self).expansion_consistent(),
            final(self).expanded_month is None,
            final(self).expanded_year == old(self).expanded_year,
            final(self).tree == old(self).tree,
            final(self).selected_date == old(self).selected_date,
    {
        self.expanded_month = None;
    }

    /// Folds the year when it is the expanded one, otherwise expands it.
    pub fn toggle_year(&mut self, year: u32)
        ensures
            final(self).expansion_consistent(),
            (final(self).expanded_year, final(self).expanded_month) == toggle_year_result(
                old(self).expanded_year,
                year,
            ),
            final(self).tree == old(self).tree,
            final(self).selected_date == old(self).selected_date,
    {
        if self.expanded_year == Some(year) {
            self.collapse_year();
        } else {
            self.expand_year(year);
        }
    }

    /// Folds the month when it is the expanded one, otherwise expands it; without an
    /// expanded year nothing changes.
    pub fn toggle_month(&mut self, month: u32)
        ensures
            old(self).expansion_consistent() ==> final(self).expansion_consistent(),
            final(self).expanded_month == toggle_month_result(
                old(self).expanded_year,
                old(self).expanded_month,
                month,
            ),
            final(self).expanded_year == old(self).expanded_year,
            final(self).tree == old(self).tree,
            final(self).selected_date == old(self).selected_date,
    {
        if self.expanded_year.is_some() {
            if self.expanded_month == Some(month) {
                self.collapse_month();
            } else {
                self.expand_month(month);
            }
        }
    }

    /// Whether `year` is the expanded year.
    pub fn is_year_expanded(&self, year: u32) -> (r: bool)
        ensures
            r == (self.expanded_year == Some(year)),
    {
        self.expanded_year == Some(year)
    }

    /// Whether `month` is the expanded month.
    pub fn is_month_expanded(&self, month: u32) -> (r: bool)
        ensures
            r == (self.expanded_month == Some(month)),
    {
        self.expanded_month == Some(month)
    }

    /// The expanded year.
    pub fn get_expanded_year(&self) -> (r: Option<u32>)
        ensures
            r == self.expanded_year,
    {
        self.expanded_year
    }

    /// The expanded month.
    pub fn get_expanded_month(&self) -> (r: Option<u32>)
        ensures
            r == self.expanded_month,
    {
        self.expanded_month
    }

    /// Adds an entry; when `select` is set, selects its day and expands its year and
    /// month to show it.
    pub fn add_entry(&mut self, entry: Entry, select: bool)
        ensures
            old(self).expansion_consistent() ==> final(self).expansion_consistent(),
            old(self).tree.wf() ==> final(self).tree.wf(),
            final(self).tree@ == old(self).tree@.insert(day_key(entry.date), entry),
            select ==> final(self).selected_date == Some(entry.date) && final(self).expanded_year
                == Some(entry.date.year as u32) && final(self).expanded_month == Some(
                entry.date.month,
            ),
            !select ==> final(self).selected_date == old(self).selected_date
                && final(self).expanded_year == old(self).expanded_year
                && final(self).expanded_month == old(self).expanded_month,
    {
        let date = entry.date;
        self.tree.add_entry(entry);
        if select {
            self.selected_date = Some(date);
            self.expand_year(date.year as u32);
            self.expand_month(date.month);
        }
    }

    /// The years that hold entries, newest first.
    pub fn get_years(&self) -> (ys: Vec<u32>)
        ensures
            decreasing(ys@),
            forall|y: u32| ys@.contains(y) <==> self.tree.years@.contains_key(y),
    {
        self.tree.get_years()
    }

    /// The months of the expanded year that hold entries, latest first; none when no
    /// year is expanded.
    pub fn get_months_for_expanded_year(&self) -> (ms: Vec<u32>)
        ensures
            decreasing(ms@),
            forall|m: u32|
                ms@.contains(m) <==> (self.expanded_year matches Some(y)
                    && self.tree.years@.contains_key(y) && self.tree.years@[y].months@.contains_key(m)),
    {
        match self.expanded_year {
            Some(year) => self.tree.get_months_for_year(year),
            None => Vec::new(),
        }
    }

    /// The days of the expanded month that hold entries, latest first; none unless a
    /// year and a month are expanded.
    pub fn get_days_for_expanded_month(&self) -> (ds: Vec<u32>)
        ensures
            decreasing(ds@),
            forall|d: u32|
                ds@.contains(d) <==> (self.expanded_year matches Some(y)
                    && self.expanded_month matches Some(m) && self.tree@.contains_key((y, m, d))),
    {
        match (self.expanded_year, self.expanded_month) {
            (Some(year), Some(month)) => self.tree.get_days_for_month(year, month),
            _ => Vec::new(),
        }
    }

    /// The entry of the selected day, if a day is selected and has one.
    pub fn get_selected_entry(&self) -> (r: Option<&Entry>)
        ensures
            match r {
                Some(e) => self.selected_date matches Some(d) && self.tree@.contains_key(day_key(d))
                    && self.tree@[day_key(d)] == *e && (self.tree.wf() ==> e.date == d),
                None => self.selected_date matches Some(d) ==> !self.tree@.contains_key(day_key(d)),
            },
    {
        match self.selected_date {
            Some(date) => self.tree.get_entry(&date),
            None => None,
        }
    }
}

/// In a list of distinct days in order, moving to the next day and back returns to
/// the day selected before, whenever there was a next day to move to.
pub proof fn law_next_then_prev_returns(ds: Seq<Date>, cur: Date)
    requires
        dates_increasing(ds),
        0 <= position(ds, cur),
        position(ds, cur) + 1 < ds.len(),
    ensures
        prev_selection(ds, next_selection(ds, Some(cur))) == Some(cur),
{
    lemma_position(ds, cur);
    let p = position(ds, cur);
    let nxt = ds[p + 1];
    lemma_position(ds, nxt);
    let q = position(ds, nxt);
    if q < p + 1 {
        assert(date_lt(ds[q], ds[p + 1]));
        lemma_date_lt_total(nxt, nxt);
    } else if q > p + 1 {
        assert(ds[p + 1] != nxt);
    }
}

/// Toggling a year twice, when no other year is expanded, leaves the expanded year as
/// it was, with no month expanded.
pub proof fn law_toggle_year_twice(ey: Option<u32>, y: u32)
    requires
        ey is None || ey == Some(y),
    ensures
        toggle_year_result(toggle_year_result(ey, y).0, y) == (ey, None::<u32>),
{
}

} // verus!
