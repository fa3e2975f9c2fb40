//! One sweep of the announcement scheduler over the store.

use crate::date::{effective_day, effective_local_day, year_in_range, Date, PLACEHOLDER_YEAR};
use crate::store::{records_wf, BirthdayList, EntryView};
use vstd::prelude::*;

verus! {

broadcast use vstd::std_specs::hash::group_hash_axioms;

/// A birthday to post: whose, under which name, in which channel.
pub struct Announcement {
    pub user_id: u64,
    pub name: String,
    pub channel_id: u64,
}

pub struct AnnouncementView {
    pub user_id: u64,
    pub name: Seq<char>,
    pub channel_id: u64,
}

impl View for Announcement {
    type V = AnnouncementView;

    open spec fn view(&self) -> AnnouncementView {
        AnnouncementView { user_id: self.user_id, name: self.name@, channel_id: self.channel_id }
    }
}

/// The record's birthday starts, in its owner's time, on the UTC day
/// `today`, and it has not been announced in `today`'s year.
pub open spec fn is_due(e: EntryView, today: Date) -> bool {
    let eff = effective_day(e.birth_date(), e.utc_offset as int);
    &&& year_in_range(eff.0)
    &&& eff.1 == today.month as int
    &&& eff.2 == today.day as int
    &&& e.last_announced_year != Some(today.year)
}

/// The record after a sweep on `today`: a due record is marked as announced
/// in `today`'s year, with or without a channel to post in.
pub open spec fn mark(e: EntryView, today: Date) -> EntryView {
    if is_due(e, today) {
        EntryView { last_announced_year: Some(today.year), ..e }
    } else {
        e
    }
}

pub open spec fn swept(s: Seq<EntryView>, today: Date) -> Seq<EntryView> {
    s.map_values(|e: EntryView| mark(e, today))
}

/// The announcements of a sweep on `today`, in the order of the records:
/// one for each due record whose community has a channel.
pub open spec fn announcements_of(
    s: Seq<EntryView>,
    channels: Map<u64, u64>,
    today: Date,
) -> Seq<AnnouncementView>
    decreases s.len(),
{
    if s.len() == 0 {
        Seq::empty()
    } else {
        let rest = announcements_of(s.drop_last(), channels, today);
        let e = s.last();
        if is_due(e, today) && channels.contains_key(e.guild_id) {
            rest.push(
                AnnouncementView {
                    user_id: e.user_id,
                    name: e.name,
                    channel_id: channels[e.guild_id],
                },
            )
        } else {
            rest
        }
    }
}

impl BirthdayList {
    /// One sweep on the UTC day `today`: marks every due record as announced
    /// this year and returns the announcements to post.
    pub fn check_for_announcements(&mut self, today: Date) -> (r: Vec<Announcement>)
        requires
            old(self).wf(),
            today.wf(),
        ensures
            final(self).wf(),
            final(self).channels() == old(self).channels(),
            final(self).records() == swept(old(self).records(), today),
            r@.map_values(|a: Announcement| a@) == announcements_of(
                old(self).records(),
                old(self).channels(),
                today,
            ),
    {
        let ghost s = self.records();
        let mut out: Vec<Announcement> = Vec::new();
        let mut i: usize = 0;
        while i < self.entries.len()
            invariant
                records_wf(s),
                today.wf(),
                self.entries@.len() == s.len(),
                self.channels() == old(self).channels(),
                s == old(self).records(),
                0 <= i <= s.len(),
                forall|k: int| 0 <= k < i ==> #[trigger] self.records()[k] == mark(s[k], today),
                forall|k: int| i <= k < s.len() ==> #[trigger] self.records()[k] == s[k],
                out@.map_values(|a: Announcement| a@) == announcements_of(
                    s.take(i as int),
                    self.channels(),
                    today,
                ),
            decreases s.len() - i,
        {
            assert(self.records()[i as int] == s[i as int]);
            assert(s[i as int].wf());
            let ghost e = s[i as int];
            let year = match self.entries[i].year {
                Some(y) => y,
                None => PLACEHOLDER_YEAR,
            };
            let birth = Date { year, month: self.entries[i].month, day: self.entries[i].day };
            let due = match effective_local_day(birth, self.entries[i].utc_offset) {
                Some(d) => d.month == today.month && d.day == today.day && match self.entries[i].last_announced_year {
                    Some(y) => y != today.year,
                    None => true,
                },
                None => false,
            };
            assert(due == is_due(e, today));
            assert(s.take(i + 1).drop_last() =~= s.take(i as int));
            let ghost before = out@.map_values(|a: Announcement| a@);
            if due {
                match self.server_channels.get(&self.entries[i].guild_id) {
                    Some(ch) => {
                        let a = Announcement {
                            user_id: self.entries[i].user_id,
                            name: self.entries[i].name.clone(),
                            channel_id: *ch,
                        };
                        out.push(a);
                        assert(out@.map_values(|a: Announcement| a@) =~= before.push(a@));
                    },
                    None => {},
                }
                let ghost cur = self.records();
                self.entries[i].last_announced_year = Some(today.year);
                assert(self.records() =~= cur.update(i as int, mark(e, today)));
            }
            i = i + 1;
        }
        assert(s.take(s.len() as int) =~= s);
        assert(self.records() =~= swept(s, today));
        assert forall|k: int| 0 <= k < s.len() implies #[trigger] self.records()[k].wf() by {
            assert(s[k].wf());
        }
        assert forall|a: int, b: int|
            0 <= a < s.len() && 0 <= b < s.len() && a != b && #[trigger] self.records()[a].is_for(
                self.records()[b].user_id,
                self.records()[b].guild_id,
            ) implies false by {
            assert(s[a].is_for(s[b].user_id, s[b].guild_id));
        }
        out
    }
}

} // verus!
