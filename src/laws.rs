//! Properties of the store and the scheduler, stated over their models.

use crate::date::{
    effective_day, is_calendar_date, is_leap_year, is_valid_ymd, year_in_range, year_or_placeholder, Date,
    PLACEHOLDER_YEAR,
};
use crate::scheduler::{is_due, mark, swept};
use crate::store::{has_record, lookup, record_index, records_wf, upsert, EntryView};
use vstd::prelude::*;

verus! {

/// A day and month that form a date in any year form a valid birthday when
/// no year is given: the placeholder year has every day, 29 February too.
pub proof fn lemma_valid_pairs_accepted(day: u32, month: u32)
    requires
        exists|y: int| is_calendar_date(y, month as int, day as int),
    ensures
        is_valid_ymd(year_or_placeholder(None) as int, month as int, day as int),
{
    let y = choose|y: int| is_calendar_date(y, month as int, day as int);
    assert(is_leap_year(PLACEHOLDER_YEAR as int));
}

/// 30 February is rejected, whatever the year.
pub proof fn lemma_february_thirtieth_rejected(year: Option<i32>)
    ensures
        !is_valid_ymd(year_or_placeholder(year) as int, 2, 30),
{
}

/// After an upsert, the pair's record is the one stored, and every other
/// pair reads as before.
pub proof fn lemma_lookup_after_upsert(s: Seq<EntryView>, e: EntryView, user_id: u64, guild_id: u64)
    requires
        records_wf(s),
        e.wf(),
    ensures
        lookup(upsert(s, e), e.user_id, e.guild_id) == Some(e),
        !e.is_for(user_id, guild_id) ==> lookup(upsert(s, e), user_id, guild_id) == lookup(
            s,
            user_id,
            guild_id,
        ),
{
    crate::store::lemma_upsert_wf(s, e);
    let t = upsert(s, e);
    let n = if has_record(s, e.user_id, e.guild_id) {
        record_index(s, e.user_id, e.guild_id)
    } else {
        s.len() as int
    };
    assert(t[n] == e);
    assert(t[n].is_for(e.user_id, e.guild_id));
    let j = record_index(t, e.user_id, e.guild_id);
    assert(t[j].is_for(t[n].user_id, t[n].guild_id));
    assert(j == n);
    if !e.is_for(user_id, guild_id) {
        if has_record(s, user_id, guild_id) {
            let a = record_index(s, user_id, guild_id);
            assert(a != n);
            assert(t[a] == s[a]);
            assert(t[a].is_for(user_id, guild_id));
            let b = record_index(t, user_id, guild_id);
            assert(t[b].is_for(t[a].user_id, t[a].guild_id));
            assert(b == a);
        } else {
            if has_record(t, user_id, guild_id) {
                let b = record_index(t, user_id, guild_id);
                assert(b != n);
                assert(s[b].is_for(user_id, guild_id));
            }
        }
    }
}

/// Two upserts for one pair leave exactly one record for it: the latest.
pub proof fn lemma_upsert_twice_keeps_one(s: Seq<EntryView>, e1: EntryView, e2: EntryView)
    requires
        records_wf(s),
        e1.wf(),
        e2.wf(),
        e1.user_id == e2.user_id,
        e1.guild_id == e2.guild_id,
    ensures
        ({
            let t = upsert(upsert(s, e1), e2);
            &&& lookup(t, e2.user_id, e2.guild_id) == Some(e2)
            &&& exists|i: int|
                0 <= i < t.len() && t[i] == e2 && forall|j: int|
                    0 <= j < t.len() && j != i ==> !(#[trigger] t[j].is_for(
                        e2.user_id,
                        e2.guild_id,
                    ))
        }),
{
    crate::store::lemma_upsert_wf(s, e1);
    let s1 = upsert(s, e1);
    lemma_lookup_after_upsert(s1, e2, e2.user_id, e2.guild_id);
    crate::store::lemma_upsert_wf(s1, e2);
    let t = upsert(s1, e2);
    let i = record_index(t, e2.user_id, e2.guild_id);
    assert forall|j: int| 0 <= j < t.len() && j != i implies !(#[trigger] t[j].is_for(
        e2.user_id,
        e2.guild_id,
    )) by {
        if t[j].is_for(e2.user_id, e2.guild_id) {
            assert(t[j].is_for(t[i].user_id, t[i].guild_id));
        }
    }
}

/// Upserts for two different pairs (another user, or the same user in
/// another community) both persist, whichever comes first.
pub proof fn lemma_upserts_of_distinct_pairs_persist(
    s: Seq<EntryView>,
    e1: EntryView,
    e2: EntryView,
)
    requires
        records_wf(s),
        e1.wf(),
        e2.wf(),
        !e1.is_for(e2.user_id, e2.guild_id),
    ensures
        lookup(upsert(upsert(s, e1), e2), e1.user_id, e1.guild_id) == Some(e1),
        lookup(upsert(upsert(s, e1), e2), e2.user_id, e2.guild_id) == Some(e2),
        lookup(upsert(upsert(s, e2), e1), e1.user_id, e1.guild_id) == Some(e1),
        lookup(upsert(upsert(s, e2), e1), e2.user_id, e2.guild_id) == Some(e2),
{
    crate::store::lemma_upsert_wf(s, e1);
    crate::store::lemma_upsert_wf(s, e2);
    lemma_lookup_after_upsert(s, e1, e2.user_id, e2.guild_id);
    lemma_lookup_after_upsert(s, e2, e1.user_id, e1.guild_id);
    lemma_lookup_after_upsert(upsert(s, e1), e2, e1.user_id, e1.guild_id);
    lemma_lookup_after_upsert(upsert(s, e2), e1, e2.user_id, e2.guild_id);
}

/// With a zero offset a record is due exactly on its own month and day,
/// unless it was already announced in that year.
pub proof fn lemma_zero_offset_due_on_own_day(e: EntryView, today: Date)
    requires
        e.wf(),
        e.utc_offset == 0,
    ensures
        is_due(e, today) <==> (e.month == today.month && e.day == today.day
            && e.last_announced_year != Some(today.year)),
{
    assert(effective_day(e.birth_date(), 0) == e.birth_date());
}

/// A record announced by a sweep is not due in any later sweep of the same
/// year, and such a sweep leaves it as it is.
pub proof fn lemma_announced_once_per_year(s: Seq<EntryView>, first: Date, later: Date, i: int)
    requires
        0 <= i < s.len(),
        is_due(s[i], first),
        later.year == first.year,
    ensures
        swept(s, first)[i].last_announced_year == Some(first.year),
        !is_due(swept(s, first)[i], later),
        swept(swept(s, first), later)[i] == swept(s, first)[i],
{
}

/// A record last announced in an earlier year is due again on its day of a
/// later year: only the year of the last announcement holds it back.
pub proof fn lemma_due_again_next_year(e: EntryView, today: Date)
    requires
        e.last_announced_year matches Some(y) && y != today.year,
    ensures
        is_due(e, today) == is_due(EntryView { last_announced_year: None, ..e }, today),
        is_due(mark(e, today), today) == false,
{
}

} // verus!
