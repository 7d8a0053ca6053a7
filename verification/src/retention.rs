//! Cohort retention: users are grouped by the day of their first-ever
//! session event; each cohort within the trailing 60 days is reported with
//! its size and the share of its members active again exactly 1, 7 and 30
//! days later.
//!
//! Percentages are carried as tenths of a percent (so one decimal place is
//! exact: 100.0% is 1000), rounded half up; a zero denominator would yield
//! no percentage at all (`None`) rather than an error, though a reported
//! cohort always has at least one member. Rows are descending by cohort
//! day and capped at the 30 most recent cohorts.

use vstd::prelude::*;

use crate::counts::cohort_size;
use crate::counts::cohort_upto;
use crate::counts::first_open_is;
use crate::counts::is_open_for;
use crate::counts::is_open_on;
use crate::counts::lemma_cohort_upto_pos;
use crate::counts::lemma_retained_le_cohort;
use crate::counts::lemma_seen_tracks_step;
use crate::counts::retained_count;
use crate::counts::retained_upto;
use crate::counts::user_opened_before;
use crate::counts::user_opened_on;
use crate::counts::user_opened_upto;
use crate::series::contains_str;
use crate::series::open_date_bounds;
use crate::store::Event;
use crate::store::EventStore;
use crate::store::EventView;
use crate::store::SECONDS_PER_DAY;
use crate::strcmp::str_eq;

verus! {

/// One cohort row: the cohort day, the cohort's size, and the retention
/// shares at one, seven and thirty days, in tenths of a percent.
pub struct RetentionData {
    pub cohort_date: i64,
    pub day0: u64,
    pub day1: Option<u64>,
    pub day7: Option<u64>,
    pub day30: Option<u64>,
}

/// `round(n * 100 / d, 1)` expressed in tenths of a percent: the nearest
/// multiple of one tenth, halves rounding up.
pub open spec fn pct_tenths(n: nat, d: nat) -> nat {
    (n * 2000 + d) / (2 * d)
}

/// The retention share of the day-`c` cohort at offset `off`, in tenths of
/// a percent.
pub open spec fn retention_pct(s: Seq<EventView>, app: Seq<char>, c: int, off: int) -> nat {
    pct_tenths(retained_count(s, app, c, off), cohort_size(s, app, c))
}

/// The row for cohort day `c` carries the cohort's true size (positive)
/// and its three retention shares.
pub open spec fn row_correct(row: RetentionData, s: Seq<EventView>, app: Seq<char>) -> bool {
    let c = row.cohort_date as int;
    &&& (row.day0 as nat) == cohort_size(s, app, c)
    &&& row.day0 > 0
    &&& row.day1 == Some((retention_pct(s, app, c, 1) as u64))
    &&& row.day7 == Some((retention_pct(s, app, c, 7) as u64))
    &&& row.day30 == Some((retention_pct(s, app, c, 30) as u64))
}

/// `r` is exactly the retention table of `app` as of `today`: one correct
/// row per cohort day within the trailing 60 days (boundary included),
/// descending by day, capped at the 30 most recent cohort days — a
/// qualifying day is either present or beyond a full table's horizon.
pub open spec fn is_retention_table(
    r: Seq<RetentionData>,
    s: Seq<EventView>,
    app: Seq<char>,
    today: int,
) -> bool {
    &&& r.len() <= 30
    &&& forall|k: int| 0 <= k < r.len() ==> today - 60 <= (#[trigger] r[k]).cohort_date as int
    &&& forall|k: int| 0 <= k < r.len() ==> row_correct(#[trigger] r[k], s, app)
    &&& forall|k1: int, k2: int|
        0 <= k1 < k2 < r.len() ==> (#[trigger] r[k1]).cohort_date > (#[trigger] r[k2]).cohort_date
    &&& forall|c: int|
        today - 60 <= c && #[trigger] cohort_size(s, app, c) > 0 ==> (exists|k: int|
            0 <= k < r.len() && (#[trigger] r[k]).cohort_date as int == c) || (r.len() == 30 && c
            < r[r.len() - 1].cohort_date as int)
}

/// A day with no session event of the app has an empty cohort.
proof fn lemma_cohort_empty_off_dates(s: Seq<EventView>, app: Seq<char>, c: int)
    requires
        forall|i: int|
            0 <= i < s.len() && is_open_for(#[trigger] s[i], app) ==> s[i].event_date != c,
    ensures
        cohort_size(s, app, c) == 0,
{
    lemma_cohort_upto_pos(s, app, c, s.len() as int);
    if cohort_size(s, app, c) > 0 {
        let i = choose|i: int|
            0 <= i < s.len() && is_open_for(#[trigger] s[i], app) && first_open_is(
                s,
                app,
                s[i].user_id,
                c,
            );
        let j = choose|j: int|
            0 <= j < s.len() && is_open_on(#[trigger] s[j], app, c) && s[j].user_id == s[i].user_id;
        assert(is_open_for(s[j], app) && s[j].event_date == c);
    }
}

/// Whether `u` has a session event of `app_id` on day `d`.
fn opened_on(events: &Vec<Event>, app_id: &str, u: &str, d: i64) -> (r: bool)
    ensures
        r == user_opened_on(events.deep_view(), app_id@, u@, d as int),
{
    let ghost sv = events.deep_view();
    let mut i: usize = 0;
    while i < events.len()
        invariant
            i <= events.len(),
            sv == events.deep_view(),
            forall|k: int|
                0 <= k < i ==> !(is_open_on(#[trigger] sv[k], app_id@, d as int) && sv[k].user_id
                    == u@),
        decreases events.len() - i,
    {
        let e = &events[i];
        if str_eq(e.app_id.as_str(), app_id) && str_eq(e.event.as_str(), "open") && e.event_date
            == d && str_eq(e.user_id.as_str(), u) {
            assert(is_open_on(sv[i as int], app_id@, d as int) && sv[i as int].user_id == u@);
            return true;
        }
        i += 1;
    }
    false
}

/// Whether `u` has a session event of `app_id` on some day before `c`.
fn opened_before(events: &Vec<Event>, app_id: &str, u: &str, c: i64) -> (r: bool)
    ensures
        r == user_opened_before(events.deep_view(), app_id@, u@, c as int),
{
    let ghost sv = events.deep_view();
    let mut i: usize = 0;
    while i < events.len()
        invariant
            i <= events.len(),
            sv == events.deep_view(),
            forall|k: int|
                0 <= k < i ==> !(is_open_for(#[trigger] sv[k], app_id@) && sv[k].user_id == u@
                    && sv[k].event_date < c),
        decreases events.len() - i,
    {
        let e = &events[i];
        if str_eq(e.app_id.as_str(), app_id) && str_eq(e.event.as_str(), "open") && e.event_date
            < c && str_eq(e.user_id.as_str(), u) {
            assert(is_open_for(sv[i as int], app_id@) && sv[i as int].user_id == u@ && sv[
                i as int
            ].event_date < c);
            return true;
        }
        i += 1;
    }
    false
}

/// The size of the cohort of day `c`: distinct users whose first session
/// for `app_id` fell on `c`.
pub fn count_cohort(events: &Vec<Event>, app_id: &str, c: i64) -> (n: u64)
    ensures
        n as nat == cohort_size(events.deep_view(), app_id@, c as int),
{
    let ghost sv = events.deep_view();
    let ghost app = app_id@;
    let mut seen: Vec<String> = Vec::new();
    let mut n: u64 = 0;
    let mut i: usize = 0;
    while i < events.len()
        invariant
            i <= events.len(),
            sv == events.deep_view(),
            app == app_id@,
            n <= i,
            n as nat == cohort_upto(sv, app, c as int, i as int),
            forall|u: Seq<char>|
                #![trigger seen.deep_view().contains(u)]
                #![trigger user_opened_upto(sv, app, u, i as int)]
                seen.deep_view().contains(u) <==> user_opened_upto(sv, app, u, i as int),
        decreases events.len() - i,
    {
        let e = &events[i];
        let ghost prev = seen.deep_view();
        if str_eq(e.app_id.as_str(), app_id) && str_eq(e.event.as_str(), "open") {
            assert(is_open_for(sv[i as int], app));
            if !contains_str(&seen, e.user_id.as_str()) {
                if opened_on(events, app_id, e.user_id.as_str(), c) && !opened_before(
                    events,
                    app_id,
                    e.user_id.as_str(),
                    c,
                ) {
                    assert(first_open_is(sv, app, sv[i as int].user_id, c as int));
                    n += 1;
                } else {
                    assert(!first_open_is(sv, app, sv[i as int].user_id, c as int));
                }
                seen.push(e.user_id.clone());
                proof {
                    assert(seen.deep_view() =~~= prev.push(sv[i as int].user_id));
                }
            }
        } else {
            assert(!is_open_for(sv[i as int], app));
        }
        proof {
            lemma_seen_tracks_step(sv, app, prev, seen.deep_view(), i as int);
        }
        i += 1;
    }
    n
}

/// The number of day-`c` cohort members with a session again on `target`.
pub fn count_retained(events: &Vec<Event>, app_id: &str, c: i64, target: i64) -> (n: u64)
    ensures
        n as nat == retained_count(
            events.deep_view(),
            app_id@,
            c as int,
            target as int - c as int,
        ),
{
    let ghost sv = events.deep_view();
    let ghost app = app_id@;
    let ghost off = target as int - c as int;
    let mut seen: Vec<String> = Vec::new();
    let mut n: u64 = 0;
    let mut i: usize = 0;
    while i < events.len()
        invariant
            i <= events.len(),
            sv == events.deep_view(),
            app == app_id@,
            off == target as int - c as int,
            n <= i,
            n as nat == retained_upto(sv, app, c as int, off, i as int),
            forall|u: Seq<char>|
                #![trigger seen.deep_view().contains(u)]
                #![trigger user_opened_upto(sv, app, u, i as int)]
                seen.deep_view().contains(u) <==> user_opened_upto(sv, app, u, i as int),
        decreases events.len() - i,
    {
        let e = &events[i];
        let ghost prev = seen.deep_view();
        if str_eq(e.app_id.as_str(), app_id) && str_eq(e.event.as_str(), "open") {
            assert(is_open_for(sv[i as int], app));
            if !contains_str(&seen, e.user_id.as_str()) {
                if opened_on(events, app_id, e.user_id.as_str(), c) && !opened_before(
                    events,
                    app_id,
                    e.user_id.as_str(),
                    c,
                ) && opened_on(events, app_id, e.user_id.as_str(), target) {
                    assert(first_open_is(sv, app, sv[i as int].user_id, c as int));
                    assert(user_opened_on(sv, app, sv[i as int].user_id, c as int + off));
                    n += 1;
                } else {
                    assert(!(first_open_is(sv, app, sv[i as int].user_id, c as int)
                        && user_opened_on(sv, app, sv[i as int].user_id, c as int + off)));
                }
                seen.push(e.user_id.clone());
                proof {
                    assert(seen.deep_view() =~~= prev.push(sv[i as int].user_id));
                }
            }
        } else {
            assert(!is_open_for(sv[i as int], app));
        }
        proof {
            lemma_seen_tracks_step(sv, app, prev, seen.deep_view(), i as int);
        }
        i += 1;
    }
    n
}

/// The retention share in tenths of a percent, rounded half up.
fn pct_of(n: u64, d: u64) -> (p: u64)
    requires
        d > 0,
        n <= d,
    ensures
        p as nat == pct_tenths(n as nat, d as nat),
        p <= 1000,
{
    let num: u128 = (n as u128) * 2000 + (d as u128);
    let den: u128 = 2 * (d as u128);
    let q: u128 = num / den;
    proof {
        assert(((n as int) * 2000 + (d as int)) / (2 * (d as int)) <= 1000) by (nonlinear_arith)
            requires
                n as int <= d as int,
                0 < d as int,
        ;
    }
    q as u64
}

impl EventStore {
    /// The retention table of `app_id` as of `today`: one row per cohort
    /// day in the trailing 60 days with at least one member, descending by
    /// day, at most the 30 most recent. An app with no events yields the
    /// empty table.
    pub fn get_retention(&self, app_id: &str, today: i64) -> (r: Vec<RetentionData>)
        requires
            self@.wf(),
        ensures
            is_retention_table(r@, self@.events, app_id@, today as int),
    {
        let ghost sv = self@.events;
        let ghost app = app_id@;
        let mut r: Vec<RetentionData> = Vec::new();
        let bounds = open_date_bounds(&self.events, app_id);
        let lo60_w: i128 = (today as i128) - 60;
        if let Some((lo, hi)) = bounds {
            proof {
                let i = choose|i: int|
                    0 <= i < sv.len() && is_open_for(#[trigger] sv[i], app) && sv[i].event_date
                        == lo as int;
                assert(sv[i].event_date >= 0);
            }
            if lo60_w <= (hi as i128) {
                let lo2: i64 = if lo60_w > (lo as i128) {
                    proof {
                        assert((lo as i128) < lo60_w <= (hi as i128));
                    }
                    lo60_w as i64
                } else {
                    lo
                };
                let mut d: i64 = hi;
                proof {
                    assert forall|c: int| (d as int) < c && #[trigger] cohort_size(sv, app, c)
                        > 0 implies false by {
                        lemma_cohort_empty_off_dates(sv, app, c);
                    }
                }
                while d >= lo2 && r.len() < 30
                    invariant
                        self@.wf(),
                        sv == self@.events,
                        app == app_id@,
                        0 <= lo2,
                        today as int - 60 <= lo2 as int,
                        lo2 == lo || lo2 as int == today as int - 60,
                        lo2 as int - 1 <= d as int <= hi as int,
                        exists|i: int|
                            0 <= i < sv.len() && is_open_for(#[trigger] sv[i], app)
                                && sv[i].event_date == hi as int,
                        forall|i: int|
                            0 <= i < sv.len() && is_open_for(#[trigger] sv[i], app)
                                ==> lo as int <= sv[i].event_date <= hi as int,
                        r@.len() <= 30,
                        forall|k: int|
                            0 <= k < r@.len() ==> (d as int) < (#[trigger] r@[k]).cohort_date as int
                                <= hi as int,
                        forall|k: int| 0 <= k < r@.len() ==> row_correct(#[trigger] r@[k], sv, app),
                        forall|k1: int, k2: int|
                            0 <= k1 < k2 < r@.len() ==> (#[trigger] r@[k1]).cohort_date > (
                            #[trigger] r@[k2]).cohort_date,
                        forall|c: int|
                            (d as int) < c && #[trigger] cohort_size(sv, app, c) > 0 ==> (exists|
                                k: int,
                            |
                                0 <= k < r@.len() && (#[trigger] r@[k]).cohort_date as int == c) || (
                            r@.len() == 30 && c < r@[r@.len() - 1].cohort_date as int),
                    decreases d - lo2 + 1,
                {
                    let ghost prev = r@;
                    let day0 = count_cohort(&self.events, app_id, d);
                    if day0 > 0 {
                        proof {
                            let ghost wi = choose|i: int|
                                0 <= i < sv.len() && is_open_for(#[trigger] sv[i], app) && sv[
                                    i
                                ].event_date == hi as int;
                            assert(sv[wi].event_date <= i64::MAX as int / (SECONDS_PER_DAY as int));
                            lemma_retained_le_cohort(sv, app, d as int, 1, sv.len() as int);
                            lemma_retained_le_cohort(sv, app, d as int, 7, sv.len() as int);
                            lemma_retained_le_cohort(sv, app, d as int, 30, sv.len() as int);
                        }
                        let n1 = count_retained(&self.events, app_id, d, d + 1);
                        let n7 = count_retained(&self.events, app_id, d, d + 7);
                        let n30 = count_retained(&self.events, app_id, d, d + 30);
                        let row = RetentionData {
                            cohort_date: d,
                            day0,
                            day1: Some(pct_of(n1, day0)),
                            day7: Some(pct_of(n7, day0)),
                            day30: Some(pct_of(n30, day0)),
                        };
                        r.push(row);
                        proof {
                            assert(r@ == prev.push(row));
                            assert(row_correct(r@[r@.len() - 1], sv, app));
                        }
                    }
                    proof {
                        assert forall|c: int|
                            (d as int) - 1 < c && #[trigger] cohort_size(sv, app, c) > 0 implies (
                        exists|k: int|
                            0 <= k < r@.len() && (#[trigger] r@[k]).cohort_date as int == c) || (
                        r@.len() == 30 && c < r@[r@.len() - 1].cohort_date as int) by {
                            if c == d as int {
                                assert(r@[r@.len() - 1].cohort_date as int == c);
                            } else {
                                assert((d as int) < c);
                                if exists|k: int|
                                    0 <= k < prev.len() && (#[trigger] prev[k]).cohort_date as int
                                        == c {
                                    let k = choose|k: int|
                                        0 <= k < prev.len() && (
                                        #[trigger] prev[k]).cohort_date as int == c;
                                    assert(r@[k].cohort_date as int == c);
                                }
                            }
                        }
                    }
                    d -= 1;
                }
                proof {
                    assert forall|c: int|
                        today as int - 60 <= c && #[trigger] cohort_size(sv, app, c) > 0 implies (
                    exists|k: int|
                        0 <= k < r@.len() && (#[trigger] r@[k]).cohort_date as int == c) || (
                    r@.len() == 30 && c < r@[r@.len() - 1].cohort_date as int) by {
                        if c <= d as int {
                            if r@.len() < 30 {
                                assert(d < lo2);
                                assert(c < lo2 as int);
                                assert(lo2 == lo);
                                assert(c < lo as int);
                                lemma_cohort_empty_off_dates(sv, app, c);
                            } else {
                                assert(c < r@[r@.len() - 1].cohort_date as int);
                            }
                        }
                    }
                }
            } else {
                proof {
                    assert forall|c: int|
                        today as int - 60 <= c && #[trigger] cohort_size(sv, app, c) > 0 implies (
                    exists|k: int|
                        0 <= k < r@.len() && (#[trigger] r@[k]).cohort_date as int == c) || (
                    r@.len() == 30 && c < r@[r@.len() - 1].cohort_date as int) by {
                        assert(c > hi as int);
                        lemma_cohort_empty_off_dates(sv, app, c);
                    }
                }
            }
        } else {
            proof {
                assert forall|c: int|
                    today as int - 60 <= c && #[trigger] cohort_size(sv, app, c) > 0 implies (
                exists|k: int|
                    0 <= k < r@.len() && (#[trigger] r@[k]).cohort_date as int == c) || (r@.len()
                    == 30 && c < r@[r@.len() - 1].cohort_date as int) by {
                    lemma_cohort_empty_off_dates(sv, app, c);
                }
            }
        }
        r
    }
}

} // verus!
