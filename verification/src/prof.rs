//! How long parts of a run take, and how often they run.
use vstd::prelude::*;

use crate::seqs::{viewed, viewing};
use crate::text::{begins, same, starts};

verus! {

broadcast use viewing;

/// The time that the parts of one name took, in nanoseconds, and how many there were.
#[derive(Debug, Clone, PartialEq, Eq)]
pub struct Entry {
    /// The name.
    pub name: String,
    /// The time.
    pub total: u64,
    /// How many.
    pub count: u64,
}

/// An entry as a mathematical value.
#[verifier::ext_equal]
pub struct EntryView {
    /// The name.
    pub name: Seq<char>,
    /// The time.
    pub total: u64,
    /// How many.
    pub count: u64,
}

impl View for Entry {
    type V = EntryView;

    open spec fn view(&self) -> EntryView {
        EntryView { name: self.name@, total: self.total, count: self.count }
    }
}

/// What is known of a run. Where it is off, nothing is noted.
#[derive(Debug, Clone)]
pub struct Profile {
    /// Whether anything is noted.
    pub enabled: bool,
    /// The times, in order of first appearance.
    pub entries: Vec<Entry>,
    /// The counters, in order of first appearance; each has its number as its count.
    pub counters: Vec<Entry>,
}

/// A part of a run that has started.
#[derive(Debug, Clone, PartialEq, Eq)]
pub struct Span {
    /// The name.
    pub name: String,
    /// When it started; `None` where nothing is noted.
    pub start: Option<u64>,
}

/// The sum of two numbers, or the largest number.
pub open spec fn sum(a: u64, b: u64) -> u64 {
    if a + b <= u64::MAX {
        (a + b) as u64
    } else {
        u64::MAX
    }
}

/// The sum of two numbers, or the largest number.
fn plus(a: u64, b: u64) -> (r: u64)
    ensures
        r == sum(a, b),
{
    if a <= u64::MAX - b {
        a + b
    } else {
        u64::MAX
    }
}

/// The first entry from `i` on with the given name.
pub open spec fn entry_named(list: Seq<EntryView>, name: Seq<char>, i: int) -> Option<int>
    decreases list.len() - i,
{
    if i < 0 || i >= list.len() {
        None
    } else if list[i].name == name {
        Some(i)
    } else {
        entry_named(list, name, i + 1)
    }
}

/// Entries with a time and a number added to the one of the given name.
pub open spec fn noted(list: Seq<EntryView>, name: Seq<char>, time: u64, n: u64) -> Seq<EntryView> {
    match entry_named(list, name, 0) {
        Some(i) => list.update(
            i,
            EntryView { name, total: sum(list[i].total, time), count: sum(list[i].count, n) },
        ),
        None => list.push(EntryView { name, total: time, count: n }),
    }
}

/// Adds a time and a number to the entry of the given name.
fn note(list: &mut Vec<Entry>, name: &str, time: u64, n: u64)
    ensures
        viewed(final(list)@) == noted(viewed(old(list)@), name@, time, n),
{
    let ghost start = viewed(list@);
    let mut i: usize = 0;
    while i < list.len()
        invariant
            i <= list@.len(),
            start == viewed(list@),
            start == viewed(old(list)@),
            entry_named(start, name@, i as int) == entry_named(start, name@, 0),
        decreases list@.len() - i,
    {
        assert(start[i as int] == list@[i as int]@);
        if same(list[i].name.as_str(), name) {
            list[i].total = plus(list[i].total, time);
            list[i].count = plus(list[i].count, n);
            assert(viewed(list@) =~= noted(start, name@, time, n));
            return;
        }
        i = i + 1;
    }
    list.push(Entry { name: name.to_owned(), total: time, count: n });
}

impl Span {
    /// A part of a run that starts now. Without a time nothing is noted of it.
    pub fn new(name: &str, now: Option<u64>) -> (r: Self)
        ensures
            r.name@ == name@,
            r.start == now,
    {
        Span { name: name.to_owned(), start: now }
    }
}

impl Profile {
    /// A run of which nothing is known.
    pub fn new(enabled: bool) -> (r: Self)
        ensures
            r.enabled == enabled,
            r.entries@.len() == 0,
            r.counters@.len() == 0,
    {
        Profile { enabled, entries: Vec::new(), counters: Vec::new() }
    }

    /// Ends a part of a run: the time since it started is added to those of its name.
    pub fn end(&mut self, span: &Span, now: u64)
        ensures
            final(self).enabled == old(self).enabled,
            final(self).counters == old(self).counters,
            viewed(final(self).entries@) == match span.start {
                Some(t) => noted(
                    viewed(old(self).entries@),
                    span.name@,
                    if now >= t {
                        (now - t) as u64
                    } else {
                        0
                    },
                    1,
                ),
                None => viewed(old(self).entries@),
            },
    {
        if let Some(t) = span.start {
            let time: u64 = if now >= t {
                now - t
            } else {
                0
            };
            note(&mut self.entries, span.name.as_str(), time, 1);
        }
    }
}

/// Adds to the counter of the given name, where anything is noted.
pub fn count(profile: &mut Profile, name: &str, n: u64)
    ensures
        final(profile).enabled == old(profile).enabled,
        final(profile).entries == old(profile).entries,
        viewed(final(profile).counters@) == if old(profile).enabled {
            noted(viewed(old(profile).counters@), name@, 0, n)
        } else {
            viewed(old(profile).counters@)
        },
{
    if profile.enabled {
        note(&mut profile.counters, name, 0, n);
    }
}

/// Of entries by falling time: the entries with one more in its place, behind those of its time.
pub open spec fn with_entry(list: Seq<EntryView>, e: EntryView) -> Seq<EntryView>
    decreases list.len(),
{
    if list.len() == 0 || list.last().total >= e.total {
        list.push(e)
    } else {
        with_entry(list.drop_last(), e).push(list.last())
    }
}

/// The first `n` entries by falling time.
pub open spec fn by_time(list: Seq<EntryView>, n: int) -> Seq<EntryView>
    decreases n,
{
    if n <= 0 {
        Seq::empty()
    } else {
        with_entry(by_time(list, n - 1), list[n - 1])
    }
}

/// The time of those of the first `n` entries that are no part of others: names of parts start with
/// two blanks.
pub open spec fn top_time(list: Seq<EntryView>, n: int) -> u64
    decreases n,
{
    if n <= 0 {
        0
    } else if begins(list[n - 1].name, "  "@) {
        top_time(list, n - 1)
    } else {
        sum(top_time(list, n - 1), list[n - 1].total)
    }
}

/// What is told of a run.
#[derive(Debug, Clone)]
pub struct Report {
    /// The times, the longest first.
    pub rows: Vec<Entry>,
    /// The time of all that is no part of others.
    pub total: u64,
    /// The counters.
    pub counters: Vec<Entry>,
}

proof fn entry_goes(list: Seq<EntryView>, e: EntryView, k: int)
    requires
        0 <= k <= list.len(),
        k > 0 ==> list[k - 1].total >= e.total,
        forall|i: int| k <= i < list.len() ==> (#[trigger] list[i]).total < e.total,
    ensures
        with_entry(list, e) == list.insert(k, e),
    decreases list.len(),
{
    if k == list.len() {
        assert(list.insert(k, e) =~= list.push(e));
    } else {
        assert(list.last() == list[list.len() - 1]);
        entry_goes(list.drop_last(), e, k);
        assert(list.insert(k, e) =~= list.drop_last().insert(k, e).push(list.last()));
    }
}

/// Puts an entry in its place.
fn put_entry(list: &mut Vec<Entry>, e: &Entry)
    ensures
        viewed(final(list)@) == with_entry(viewed(old(list)@), e@),
{
    let ghost s = viewed(list@);
    let mut k: usize = list.len();
    while k > 0 && list[k - 1].total < e.total
        invariant
            k <= list@.len(),
            s == viewed(list@),
            forall|i: int| k <= i < s.len() ==> (#[trigger] s[i]).total < e.total,
        decreases k,
    {
        assert(s[k - 1] == list@[k - 1]@);
        k = k - 1;
    }
    proof {
        if k > 0 {
            assert(s[k - 1] == list@[k - 1]@);
        }
        entry_goes(s, e@, k as int);
    }
    list.insert(k, Entry { name: e.name.clone(), total: e.total, count: e.count });
    assert(viewed(list@) =~= s.insert(k as int, e@));
}

/// Tells of a run and forgets its times and counters. Where nothing was noted or no time is known, nothing is
/// told.
pub fn dump(profile: &mut Profile) -> (r: Option<Report>)
    ensures
        final(profile).enabled == old(profile).enabled,
        match r {
            None => (!old(profile).enabled || old(profile).entries@.len() == 0)
                && *final(profile) == *old(profile),
            Some(t) => {
                let list = viewed(old(profile).entries@);
                &&& old(profile).enabled
                &&& list.len() > 0
                &&& viewed(t.rows@) == by_time(list, list.len() as int)
                &&& t.total == top_time(list, list.len() as int)
                &&& viewed(t.counters@) == viewed(old(profile).counters@)
                &&& final(profile).entries@.len() == 0
                &&& final(profile).counters@.len() == 0
            },
        },
{
    if !profile.enabled || profile.entries.len() == 0 {
        return None;
    }
    let ghost list = viewed(profile.entries@);
    let mut rows: Vec<Entry> = Vec::new();
    let mut total: u64 = 0;
    let mut k: usize = 0;
    while k < profile.entries.len()
        invariant
            k <= profile.entries@.len(),
            *profile == *old(profile),
            list == viewed(profile.entries@),
            viewed(rows@) == by_time(list, k as int),
            total == top_time(list, k as int),
        decreases profile.entries@.len() - k,
    {
        assert(list[k as int] == profile.entries@[k as int]@);
        put_entry(&mut rows, &profile.entries[k]);
        if !starts(profile.entries[k].name.as_str(), "  ") {
            total = plus(total, profile.entries[k].total);
        }
        k = k + 1;
    }
    let mut counters: Vec<Entry> = Vec::new();
    let mut c: usize = 0;
    while c < profile.counters.len()
        invariant
            c <= profile.counters@.len(),
            *profile == *old(profile),
            viewed(counters@) == viewed(profile.counters@).take(c as int),
        decreases profile.counters@.len() - c,
    {
        let e: &Entry = &profile.counters[c];
        counters.push(Entry { name: e.name.clone(), total: e.total, count: e.count });
        assert(viewed(counters@) =~= viewed(profile.counters@).take(c + 1));
        c = c + 1;
    }
    assert(viewed(counters@) =~= viewed(profile.counters@));
    profile.entries = Vec::new();
    profile.counters = Vec::new();
    Some(Report { rows, total, counters })
}

} // verus!
