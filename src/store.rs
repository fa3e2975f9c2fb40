//! The record store: one birthday record per (user, community) pair, and
//! one announcement channel per community.

use crate::date::{chrono_date_exists, is_valid_ymd, make_date, PLACEHOLDER_YEAR, year_or_placeholder, Civil, InvalidDate};
use std::collections::HashMap;
use vstd::prelude::*;

verus! {

broadcast use vstd::std_specs::hash::group_hash_axioms;

/// One person's birthday within one community.
pub struct BirthdayEntry {
    pub user_id: u64,
    pub guild_id: u64,
    /// Display name, refreshed on each upsert.
    pub name: String,
    pub day: u32,
    pub month: u32,
    /// Birth year, where the person gave one.
    pub year: Option<i32>,
    /// Declared offset of the person's local time from UTC, in hours.
    pub utc_offset: i32,
    /// UTC year of the last announcement of this birthday.
    pub last_announced_year: Option<i32>,
}

/// What a `BirthdayEntry` holds, with the name as a sequence of characters.
pub struct EntryView {
    pub user_id: u64,
    pub guild_id: u64,
    pub name: Seq<char>,
    pub day: u32,
    pub month: u32,
    pub year: Option<i32>,
    pub utc_offset: i32,
    pub last_announced_year: Option<i32>,
}

impl View for BirthdayEntry {
    type V = EntryView;

    open spec fn view(&self) -> EntryView {
        EntryView {
            user_id: self.user_id,
            guild_id: self.guild_id,
            name: self.name@,
            day: self.day,
            month: self.month,
            year: self.year,
            utc_offset: self.utc_offset,
            last_announced_year: self.last_announced_year,
        }
    }
}

impl EntryView {
    /// The birth date, in the placeholder year where no year was given.
    pub open spec fn birth_date(self) -> Civil {
        (year_or_placeholder(self.year) as int, self.month as int, self.day as int)
    }

    pub open spec fn wf(self) -> bool {
        is_valid_ymd(self.birth_date().0, self.birth_date().1, self.birth_date().2)
    }

    pub open spec fn is_for(self, user_id: u64, guild_id: u64) -> bool {
        self.user_id == user_id && self.guild_id == guild_id
    }
}

/// No two records share a (user, community) pair.
pub open spec fn unique_pairs(s: Seq<EntryView>) -> bool {
    forall|i: int, j: int|
        0 <= i < s.len() && 0 <= j < s.len() && i != j && #[trigger] s[i].is_for(
            s[j].user_id,
            s[j].guild_id,
        ) ==> false
}

pub open spec fn records_wf(s: Seq<EntryView>) -> bool {
    &&& unique_pairs(s)
    &&& forall|i: int| 0 <= i < s.len() ==> #[trigger] s[i].wf()
}

pub open spec fn has_record(s: Seq<EntryView>, user_id: u64, guild_id: u64) -> bool {
    exists|i: int| 0 <= i < s.len() && #[trigger] s[i].is_for(user_id, guild_id)
}

pub open spec fn record_index(s: Seq<EntryView>, user_id: u64, guild_id: u64) -> int {
    choose|i: int| 0 <= i < s.len() && #[trigger] s[i].is_for(user_id, guild_id)
}

/// The record for a pair, if there is one.
pub open spec fn lookup(s: Seq<EntryView>, user_id: u64, guild_id: u64) -> Option<EntryView> {
    if has_record(s, user_id, guild_id) {
        Some(s[record_index(s, user_id, guild_id)])
    } else {
        None
    }
}

/// `e` replaces the record of its pair in place, or is added at the end.
pub open spec fn upsert(s: Seq<EntryView>, e: EntryView) -> Seq<EntryView> {
    if has_record(s, e.user_id, e.guild_id) {
        s.update(record_index(s, e.user_id, e.guild_id), e)
    } else {
        s.push(e)
    }
}

/// An upsert keeps the records well formed.
pub proof fn lemma_upsert_wf(s: Seq<EntryView>, e: EntryView)
    requires
        records_wf(s),
        e.wf(),
    ensures
        records_wf(upsert(s, e)),
{
    let t = upsert(s, e);
    if has_record(s, e.user_id, e.guild_id) {
        let k = record_index(s, e.user_id, e.guild_id);
        assert forall|i: int, j: int|
            0 <= i < t.len() && 0 <= j < t.len() && i != j && #[trigger] t[i].is_for(
                t[j].user_id,
                t[j].guild_id,
            ) implies false by {
            if i == k {
                assert(s[j].is_for(s[k].user_id, s[k].guild_id));
            } else if j == k {
                assert(s[i].is_for(s[k].user_id, s[k].guild_id));
            } else {
                assert(s[i].is_for(s[j].user_id, s[j].guild_id));
            }
        }
    } else {
        assert forall|i: int, j: int|
            0 <= i < t.len() && 0 <= j < t.len() && i != j && #[trigger] t[i].is_for(
                t[j].user_id,
                t[j].guild_id,
            ) implies false by {
            if i == s.len() {
                assert(s[j].is_for(e.user_id, e.guild_id));
            } else if j == s.len() {
                assert(s[i].is_for(e.user_id, e.guild_id));
            } else {
                assert(s[i].is_for(s[j].user_id, s[j].guild_id));
            }
        }
    }
    assert forall|i: int| 0 <= i < t.len() implies #[trigger] t[i].wf() by {
        if i < s.len() {
            assert(s[i].wf());
        }
    }
}

/// The record that an upsert of these values stores.
pub open spec fn new_record(
    user_id: u64,
    guild_id: u64,
    name: Seq<char>,
    day: u32,
    month: u32,
    year: Option<i32>,
    utc_offset: i32,
) -> EntryView {
    EntryView {
        user_id,
        guild_id,
        name,
        day,
        month,
        year,
        utc_offset,
        last_announced_year: None,
    }
}

/// Every record, and the announcement channel of each community.
pub struct BirthdayList {
    pub entries: Vec<BirthdayEntry>,
    pub server_channels: HashMap<u64, u64>,
}

impl BirthdayList {
    pub open spec fn records(&self) -> Seq<EntryView> {
        self.entries@.map_values(|e: BirthdayEntry| e@)
    }

    pub open spec fn channels(&self) -> Map<u64, u64> {
        self.server_channels@
    }

    pub open spec fn wf(&self) -> bool {
        records_wf(self.records())
    }

    /// A store with no record and no channel.
    pub fn new() -> (r: BirthdayList)
        ensures
            r.wf(),
            r.records() == Seq::<EntryView>::empty(),
            r.channels() == Map::<u64, u64>::empty(),
    {
        let r = BirthdayList { entries: Vec::new(), server_channels: HashMap::new() };
        assert(r.records() =~= Seq::<EntryView>::empty());
        r
    }

    /// Whether every record is a valid date and no pair has two records.
    pub fn is_well_formed(&self) -> (r: bool)
        ensures
            r == self.wf(),
    {
        let ghost s = self.records();
        let mut i: usize = 0;
        while i < self.entries.len()
            invariant
                s == self.records(),
                0 <= i <= s.len(),
                forall|k: int| 0 <= k < i ==> #[trigger] s[k].wf(),
                forall|a: int, b: int|
                    0 <= a < i && 0 <= b < i && a != b ==> !#[trigger] s[a].is_for(
                        s[b].user_id,
                        s[b].guild_id,
                    ),
            decreases s.len() - i,
        {
            let year = match self.entries[i].year {
                Some(y) => y,
                None => PLACEHOLDER_YEAR,
            };
            if !chrono_date_exists(year, self.entries[i].month, self.entries[i].day) {
                assert(!s[i as int].wf());
                return false;
            }
            let mut j: usize = 0;
            while j < i
                invariant
                    s == self.records(),
                    0 <= j <= i < s.len(),
                    forall|b: int| 0 <= b < j ==> !#[trigger] s[i as int].is_for(
                        s[b].user_id,
                        s[b].guild_id,
                    ),
                decreases i - j,
            {
                if self.entries[i].user_id == self.entries[j].user_id
                    && self.entries[i].guild_id == self.entries[j].guild_id {
                    assert(s[i as int].is_for(s[j as int].user_id, s[j as int].guild_id));
                    return false;
                }
                j = j + 1;
            }
            assert forall|a: int, b: int|
                0 <= a < i + 1 && 0 <= b < i + 1 && a != b implies !#[trigger] s[a].is_for(
                s[b].user_id,
                s[b].guild_id,
            ) by {
                if a == i {
                } else if b == i {
                    if s[a].is_for(s[b].user_id, s[b].guild_id) {
                        assert(s[b].is_for(s[a].user_id, s[a].guild_id));
                    }
                }
            }
            i = i + 1;
        }
        true
    }

    /// Position of the record for the pair, if any.
    fn find(&self, user_id: u64, guild_id: u64) -> (r: Option<usize>)
        requires
            self.wf(),
        ensures
            match r {
                Some(i) => has_record(self.records(), user_id, guild_id) && i == record_index(
                    self.records(),
                    user_id,
                    guild_id,
                ),
                None => !has_record(self.records(), user_id, guild_id),
            },
    {
        let ghost s = self.records();
        let mut i: usize = 0;
        while i < self.entries.len()
            invariant
                s == self.records(),
                records_wf(s),
                0 <= i <= s.len(),
                forall|k: int| 0 <= k < i ==> !(#[trigger] s[k].is_for(user_id, guild_id)),
            decreases s.len() - i,
        {
            if self.entries[i].user_id == user_id && self.entries[i].guild_id == guild_id {
                assert(s[i as int].is_for(user_id, guild_id));
                let ghost j = record_index(s, user_id, guild_id);
                assert(s[j].is_for(user_id, guild_id));
                assert(s[j].is_for(s[i as int].user_id, s[i as int].guild_id));
                return Some(i);
            }
            i = i + 1;
        }
        None
    }

    /// The record for the pair, if there is one.
    pub fn get_birthday(&self, user_id: u64, guild_id: u64) -> (r: Option<&BirthdayEntry>)
        requires
            self.wf(),
        ensures
            match r {
                Some(e) => lookup(self.records(), user_id, guild_id) == Some(e@),
                None => lookup(self.records(), user_id, guild_id) is None,
            },
    {
        match self.find(user_id, guild_id) {
            Some(i) => Some(&self.entries[i]),
            None => None,
        }
    }

    /// Stores the birthday of `user_id` in `guild_id`: it replaces the pair's
    /// record in place, or is added, with no announcement recorded yet.
    /// Fails, leaving the store as it was, where day, month and year (or the
    /// placeholder year) do not form a day of the calendar.
    pub fn append_birthday(
        &mut self,
        user_id: u64,
        guild_id: u64,
        name: String,
        day: u32,
        month: u32,
        year: Option<i32>,
        utc_offset: i32,
    ) -> (r: Result<(), InvalidDate>)
        requires
            old(self).wf(),
        ensures
            final(self).wf(),
            final(self).channels() == old(self).channels(),
            match r {
                Ok(()) => {
                    &&& is_valid_ymd(year_or_placeholder(year) as int, month as int, day as int)
                    &&& final(self).records() == upsert(
                        old(self).records(),
                        new_record(user_id, guild_id, name@, day, month, year, utc_offset),
                    )
                },
                Err(_) => {
                    &&& !is_valid_ymd(year_or_placeholder(year) as int, month as int, day as int)
                    &&& final(self).records() == old(self).records()
                },
            },
    {
        if make_date(day, month, year).is_err() {
            return Err(InvalidDate);
        }
        let ghost s = self.records();
        let entry = BirthdayEntry {
            user_id,
            guild_id,
            name,
            day,
            month,
            year,
            utc_offset,
            last_announced_year: None,
        };
        let ghost e = entry@;
        match self.find(user_id, guild_id) {
            Some(i) => {
                self.entries.set(i, entry);
                assert(self.records() =~= s.update(i as int, e));
            },
            None => {
                self.entries.push(entry);
                assert(self.records() =~= s.push(e));
            },
        }
        assert(upsert(s, e) == self.records());
        proof {
            lemma_upsert_wf(s, e);
        }
        Ok(())
    }

    /// Makes `channel_id` the announcement channel of `guild_id`, replacing
    /// any earlier one.
    pub fn set_announcement_channel(&mut self, guild_id: u64, channel_id: u64)
        requires
            old(self).wf(),
        ensures
            final(self).wf(),
            final(self).records() == old(self).records(),
            final(self).channels() == old(self).channels().insert(guild_id, channel_id),
    {
        self.server_channels.insert(guild_id, channel_id);
    }
}

/// How a snapshot read from the durable file was taken.
#[derive(Clone, Copy, Debug, PartialEq, Eq, Structural)]
pub enum LoadStatus {
    /// The document parsed into a well-formed store.
    Loaded,
    /// The document did not parse, or broke the store's rules: the session
    /// goes on with an empty store, and the file is to be backed up.
    Corrupted,
}

/// The store to work with after reading the durable document: the parsed
/// store where there is one and it is well formed, else an empty store.
pub fn recover_snapshot(parsed: Option<BirthdayList>) -> (r: (BirthdayList, LoadStatus))
    ensures
        r.0.wf(),
        match parsed {
            Some(p) if p.wf() => {
                &&& r.1 == LoadStatus::Loaded
                &&& r.0.records() == p.records()
                &&& r.0.channels() == p.channels()
            },
            _ => {
                &&& r.1 == LoadStatus::Corrupted
                &&& r.0.records() == Seq::<EntryView>::empty()
                &&& r.0.channels() == Map::<u64, u64>::empty()
            },
        },
{
    match parsed {
        Some(p) => {
            if p.is_well_formed() {
                (p, LoadStatus::Loaded)
            } else {
                (BirthdayList::new(), LoadStatus::Corrupted)
            }
        },
        None => (BirthdayList::new(), LoadStatus::Corrupted),
    }
}

} // verus!
