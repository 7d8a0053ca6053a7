//! The time-windowed daily series: daily active users and installs.
//!
//! A series is sparse: one point per day that has at least one matching
//! event, ascending by day, and the window is inclusive of its lower
//! boundary `today - days`. Days with no matching event are omitted; the
//! window has no upper boundary in the contract itself: an event can only
//! carry a date derived from the clock at its append, and the law
//! `lemma_series_bounded_by_clock` shows that under such an honest clock no
//! point is dated after `today`.

use vstd::prelude::*;

use crate::counts::dau_on;
use crate::counts::dau_on_upto;
use crate::counts::installs_on;
use crate::counts::installs_on_upto;
use crate::counts::installs_total;
use crate::counts::installs_total_upto;
use crate::counts::is_install_for;
use crate::counts::is_install_on;
use crate::counts::is_open_for;
use crate::counts::is_open_on;
use crate::counts::lemma_dau_pos;
use crate::counts::lemma_installs_on_upto_pos;
use crate::counts::lemma_seen_tracks_day_step;
use crate::counts::user_opened_on_upto;
use crate::store::Event;
use crate::store::EventStore;
use crate::store::EventView;
use crate::store::SECONDS_PER_DAY;
use crate::strcmp::str_eq;

verus! {

/// One point of a daily-active-user series: a day and the distinct count
/// of users with a session event that day.
pub struct DauData {
    pub date: i64,
    pub dau: u64,
}

/// One point of a daily install series: a day and the number of install
/// events recorded that day.
pub struct InstallData {
    pub date: i64,
    pub installs: u64,
}

/// `r` is exactly the daily-active-user series of `app` over the window
/// `start <= day`: every point is in the window with its true positive
/// count, points are strictly ascending by day, and every windowed day
/// with a positive count appears.
pub open spec fn is_dau_series(
    r: Seq<DauData>,
    s: Seq<EventView>,
    app: Seq<char>,
    start: int,
) -> bool {
    &&& forall|k: int| 0 <= k < r.len() ==> start <= (#[trigger] r[k]).date as int
    &&& forall|k: int|
        0 <= k < r.len() ==> ((#[trigger] r[k]).dau as nat) == dau_on(s, app, r[k].date as int)
            && r[k].dau > 0
    &&& forall|k1: int, k2: int|
        0 <= k1 < k2 < r.len() ==> (#[trigger] r[k1]).date < (#[trigger] r[k2]).date
    &&& forall|d: int|
        start <= d && #[trigger] dau_on(s, app, d) > 0 ==> exists|k: int|
            0 <= k < r.len() && (#[trigger] r[k]).date as int == d
}

/// `r` is exactly the daily install series of `app` over `start <= day`.
pub open spec fn is_install_series(
    r: Seq<InstallData>,
    s: Seq<EventView>,
    app: Seq<char>,
    start: int,
) -> bool {
    &&& forall|k: int| 0 <= k < r.len() ==> start <= (#[trigger] r[k]).date as int
    &&& forall|k: int|
        0 <= k < r.len() ==> ((#[trigger] r[k]).installs as nat) == installs_on(
            s,
            app,
            r[k].date as int,
        ) && r[k].installs > 0
    &&& forall|k1: int, k2: int|
        0 <= k1 < k2 < r.len() ==> (#[trigger] r[k1]).date < (#[trigger] r[k2]).date
    &&& forall|d: int|
        start <= d && #[trigger] installs_on(s, app, d) > 0 ==> exists|k: int|
            0 <= k < r.len() && (#[trigger] r[k]).date as int == d
}

/// Whether some string of `v` views the same as `x`.
pub fn contains_str(v: &Vec<String>, x: &str) -> (r: bool)
    ensures
        r == v.deep_view().contains(x@),
{
    let mut i: usize = 0;
    while i < v.len()
        invariant
            i <= v.len(),
            forall|k: int| 0 <= k < i ==> v.deep_view()[k] != x@,
        decreases v.len() - i,
    {
        if str_eq(v[i].as_str(), x) {
            assert(v.deep_view()[i as int] == x@);
            return true;
        }
        i += 1;
    }
    assert(!v.deep_view().contains(x@));
    false
}

/// The distinct count of users with a session event of `app_id` on day `d`.
pub fn count_dau_on(events: &Vec<Event>, app_id: &str, d: i64) -> (c: u64)
    ensures
        c as nat == dau_on(events.deep_view(), app_id@, d as int),
{
    let ghost sv = events.deep_view();
    let ghost app = app_id@;
    let mut seen: Vec<String> = Vec::new();
    let mut i: usize = 0;
    while i < events.len()
        invariant
            i <= events.len(),
            sv == events.deep_view(),
            app == app_id@,
            seen.deep_view().len() == dau_on_upto(sv, app, d as int, i as int),
            forall|u: Seq<char>|
                #![trigger seen.deep_view().contains(u)]
                #![trigger user_opened_on_upto(sv, app, u, d as int, i as int)]
                seen.deep_view().contains(u) <==> user_opened_on_upto(sv, app, u, d as int, i as int),
        decreases events.len() - i,
    {
        let e = &events[i];
        let ghost prev = seen.deep_view();
        if str_eq(e.app_id.as_str(), app_id) && str_eq(e.event.as_str(), "open") && e.event_date
            == d {
            assert(is_open_on(sv[i as int], app, d as int));
            if !contains_str(&seen, e.user_id.as_str()) {
                seen.push(e.user_id.clone());
                proof {
                    assert(seen.deep_view() =~~= prev.push(sv[i as int].user_id));
                }
            }
        } else {
            assert(!is_open_on(sv[i as int], app, d as int));
        }
        proof {
            lemma_seen_tracks_day_step(sv, app, d as int, prev, seen.deep_view(), i as int);
        }
        i += 1;
    }
    seen.len() as u64
}

/// The number of install events of `app_id` on day `d`.
pub fn count_installs_on(events: &Vec<Event>, app_id: &str, d: i64) -> (c: u64)
    ensures
        c as nat == installs_on(events.deep_view(), app_id@, d as int),
{
    let ghost sv = events.deep_view();
    let ghost app = app_id@;
    let mut c: u64 = 0;
    let mut i: usize = 0;
    while i < events.len()
        invariant
            i <= events.len(),
            sv == events.deep_view(),
            app == app_id@,
            c <= i,
            c as nat == installs_on_upto(sv, app, d as int, i as int),
        decreases events.len() - i,
    {
        let e = &events[i];
        if str_eq(e.app_id.as_str(), app_id) && str_eq(e.event.as_str(), "install")
            && e.event_date == d {
            assert(is_install_on(sv[i as int], app, d as int));
            c += 1;
        } else {
            assert(!is_install_on(sv[i as int], app, d as int));
        }
        i += 1;
    }
    c
}

/// The all-time number of install events of `app_id`.
pub fn count_installs_total(events: &Vec<Event>, app_id: &str) -> (c: u64)
    ensures
        c as nat == installs_total(events.deep_view(), app_id@),
{
    let ghost sv = events.deep_view();
    let ghost app = app_id@;
    let mut c: u64 = 0;
    let mut i: usize = 0;
    while i < events.len()
        invariant
            i <= events.len(),
            sv == events.deep_view(),
            app == app_id@,
            c <= i,
            c as nat == installs_total_upto(sv, app, i as int),
        decreases events.len() - i,
    {
        let e = &events[i];
        if str_eq(e.app_id.as_str(), app_id) && str_eq(e.event.as_str(), "install") {
            assert(is_install_for(sv[i as int], app));
            c += 1;
        } else {
            assert(!is_install_for(sv[i as int], app));
        }
        i += 1;
    }
    c
}

/// The least and greatest day carrying a session event of `app_id`, or
/// `None` when the app has none.
pub fn open_date_bounds(events: &Vec<Event>, app_id: &str) -> (r: Option<(i64, i64)>)
    ensures
        r is None ==> forall|i: int|
            0 <= i < events.deep_view().len() ==> !is_open_for(
                #[trigger] events.deep_view()[i],
                app_id@,
            ),
        r is Some ==> exists|i: int|
            0 <= i < events.deep_view().len() && is_open_for(#[trigger] events.deep_view()[i], app_id@)
                && events.deep_view()[i].event_date == r->Some_0.0 as int,
        r is Some ==> exists|i: int|
            0 <= i < events.deep_view().len() && is_open_for(#[trigger] events.deep_view()[i], app_id@)
                && events.deep_view()[i].event_date == r->Some_0.1 as int,
        r is Some ==> forall|i: int|
            0 <= i < events.deep_view().len() && is_open_for(#[trigger] events.deep_view()[i], app_id@)
                ==> r->Some_0.0 as int <= events.deep_view()[i].event_date <= r->Some_0.1 as int,
{
    let ghost sv = events.deep_view();
    let ghost app = app_id@;
    let mut bounds: Option<(i64, i64)> = None;
    let mut i: usize = 0;
    while i < events.len()
        invariant
            i <= events.len(),
            sv == events.deep_view(),
            app == app_id@,
            bounds is None ==> forall|k: int| 0 <= k < i ==> !is_open_for(#[trigger] sv[k], app),
            bounds is Some ==> exists|k: int|
                0 <= k < i && is_open_for(#[trigger] sv[k], app) && sv[k].event_date
                    == bounds->Some_0.0 as int,
            bounds is Some ==> exists|k: int|
                0 <= k < i && is_open_for(#[trigger] sv[k], app) && sv[k].event_date
                    == bounds->Some_0.1 as int,
            bounds is Some ==> forall|k: int|
                0 <= k < i && is_open_for(#[trigger] sv[k], app) ==> bounds->Some_0.0 as int <= sv[
                    k
                ].event_date <= bounds->Some_0.1 as int,
        decreases events.len() - i,
    {
        let e = &events[i];
        if str_eq(e.app_id.as_str(), app_id) && str_eq(e.event.as_str(), "open") {
            assert(is_open_for(sv[i as int], app));
            bounds = match bounds {
                None => Some((e.event_date, e.event_date)),
                Some((lo, hi)) => {
                    let lo2: i64 = if e.event_date < lo {
                        e.event_date
                    } else {
                        lo
                    };
                    let hi2: i64 = if e.event_date > hi {
                        e.event_date
                    } else {
                        hi
                    };
                    Some((lo2, hi2))
                },
            };
        } else {
            assert(!is_open_for(sv[i as int], app));
        }
        i += 1;
    }
    bounds
}

/// The least and greatest day carrying an install event of `app_id`.
pub fn install_date_bounds(events: &Vec<Event>, app_id: &str) -> (r: Option<(i64, i64)>)
    ensures
        r is None ==> forall|i: int|
            0 <= i < events.deep_view().len() ==> !is_install_for(
                #[trigger] events.deep_view()[i],
                app_id@,
            ),
        r is Some ==> exists|i: int|
            0 <= i < events.deep_view().len() && is_install_for(
                #[trigger] events.deep_view()[i],
                app_id@,
            ) && events.deep_view()[i].event_date == r->Some_0.0 as int,
        r is Some ==> exists|i: int|
            0 <= i < events.deep_view().len() && is_install_for(
                #[trigger] events.deep_view()[i],
                app_id@,
            ) && events.deep_view()[i].event_date == r->Some_0.1 as int,
        r is Some ==> forall|i: int|
            0 <= i < events.deep_view().len() && is_install_for(
                #[trigger] events.deep_view()[i],
                app_id@,
            ) ==> r->Some_0.0 as int <= events.deep_view()[i].event_date <= r->Some_0.1 as int,
{
    let ghost sv = events.deep_view();
    let ghost app = app_id@;
    let mut bounds: Option<(i64, i64)> = None;
    let mut i: usize = 0;
    while i < events.len()
        invariant
            i <= events.len(),
            sv == events.deep_view(),
            app == app_id@,
            bounds is None ==> forall|k: int| 0 <= k < i ==> !is_install_for(#[trigger] sv[k], app),
            bounds is Some ==> exists|k: int|
                0 <= k < i && is_install_for(#[trigger] sv[k], app) && sv[k].event_date
                    == bounds->Some_0.0 as int,
            bounds is Some ==> exists|k: int|
                0 <= k < i && is_install_for(#[trigger] sv[k], app) && sv[k].event_date
                    == bounds->Some_0.1 as int,
            bounds is Some ==> forall|k: int|
                0 <= k < i && is_install_for(#[trigger] sv[k], app) ==> bounds->Some_0.0 as int <= sv[
                    k
                ].event_date <= bounds->Some_0.1 as int,
        decreases events.len() - i,
    {
        let e = &events[i];
        if str_eq(e.app_id.as_str(), app_id) && str_eq(e.event.as_str(), "install") {
            assert(is_install_for(sv[i as int], app));
            bounds = match bounds {
                None => Some((e.event_date, e.event_date)),
                Some((lo, hi)) => {
                    let lo2: i64 = if e.event_date < lo {
                        e.event_date
                    } else {
                        lo
                    };
                    let hi2: i64 = if e.event_date > hi {
                        e.event_date
                    } else {
                        hi
                    };
                    Some((lo2, hi2))
                },
            };
        } else {
            assert(!is_install_for(sv[i as int], app));
        }
        i += 1;
    }
    bounds
}

impl EventStore {
    /// The daily-active-user series of `app_id` for the trailing window of
    /// `days` days: one point per day `d` with `today - days <= d` (the
    /// boundary day is included) and at least one session event, ascending
    /// by day. An app with no events yields the empty series.
    pub fn get_dau(&self, app_id: &str, days: i32, today: i64) -> (r: Vec<DauData>)
        requires
            self@.wf(),
        ensures
            is_dau_series(r@, self@.events, app_id@, today as int - days as int),
    {
        let ghost sv = self@.events;
        let ghost app = app_id@;
        let ghost start = today as int - days as int;
        let mut r: Vec<DauData> = Vec::new();
        let bounds = open_date_bounds(&self.events, app_id);
        let start_w: i128 = (today as i128) - (days as i128);
        if let Some((lo, hi)) = bounds {
            if start_w <= (hi as i128) {
                let mut d: i64 = if start_w > (lo as i128) {
                    proof {
                        assert((lo as i128) < start_w <= (hi as i128));
                    }
                    start_w as i64
                } else {
                    lo
                };
                proof {
                    assert(d as int >= start || d == lo);
                    assert forall|dd: int| start <= dd < d as int implies dau_on(sv, app, dd)
                        == 0 by {
                        lemma_dau_pos(sv, app, dd);
                    }
                }
                while d <= hi
                    invariant
                        self@.wf(),
                        sv == self@.events,
                        app == app_id@,
                        start <= d as int,
                        d as int <= hi as int + 1,
                        exists|i: int|
                            0 <= i < sv.len() && is_open_for(#[trigger] sv[i], app)
                                && sv[i].event_date == hi as int,
                        forall|i: int|
                            0 <= i < sv.len() && is_open_for(#[trigger] sv[i], app) ==> sv[i].event_date
                                <= hi as int,
                        forall|k: int| 0 <= k < r@.len() ==> start <= (#[trigger] r@[k]).date as int,
                        forall|k: int|
                            0 <= k < r@.len() ==> ((#[trigger] r@[k]).dau as nat) == dau_on(
                                sv,
                                app,
                                r@[k].date as int,
                            ) && r@[k].dau > 0,
                        forall|k: int| 0 <= k < r@.len() ==> (#[trigger] r@[k]).date < d,
                        forall|k1: int, k2: int|
                            0 <= k1 < k2 < r@.len() ==> (#[trigger] r@[k1]).date < (
                            #[trigger] r@[k2]).date,
                        forall|dd: int|
                            start <= dd < d as int && #[trigger] dau_on(sv, app, dd) > 0
                                ==> exists|k: int|
                                0 <= k < r@.len() && (#[trigger] r@[k]).date as int == dd,
                    decreases hi - d + 1,
                {
                    let c = count_dau_on(&self.events, app_id, d);
                    let ghost prev = r@;
                    if c > 0 {
                        r.push(DauData { date: d, dau: c });
                    }
                    proof {
                        if c > 0 {
                            assert(r@ == prev.push((DauData { date: d, dau: c })));
                            assert(r@[r@.len() - 1].date as int == d as int);
                        }
                        assert forall|dd: int|
                            start <= dd < d as int + 1 && #[trigger] dau_on(sv, app, dd) > 0
                                implies exists|k: int|
                            0 <= k < r@.len() && (#[trigger] r@[k]).date as int == dd by {
                            if dd < d as int {
                                assert(exists|k: int|
                                    0 <= k < prev.len() && (#[trigger] prev[k]).date as int == dd);
                                let k = choose|k: int|
                                    0 <= k < prev.len() && (#[trigger] prev[k]).date as int == dd;
                                assert(r@[k].date as int == dd);
                            }
                        }
                        // the day after `hi` still fits in i64
                        let ghost wi = choose|i: int|
                            0 <= i < sv.len() && is_open_for(#[trigger] sv[i], app)
                                && sv[i].event_date == hi as int;
                        assert(sv[wi].event_date <= i64::MAX as int / (SECONDS_PER_DAY as int));
                    }
                    d += 1;
                }
                proof {
                    assert forall|dd: int|
                        start <= dd && #[trigger] dau_on(sv, app, dd) > 0 implies exists|k: int|
                        0 <= k < r@.len() && (#[trigger] r@[k]).date as int == dd by {
                        if dd >= d as int {
                            lemma_dau_pos(sv, app, dd);
                        }
                    }
                }
            } else {
                proof {
                    assert forall|dd: int|
                        start <= dd && #[trigger] dau_on(sv, app, dd) > 0 implies exists|k: int|
                        0 <= k < r@.len() && (#[trigger] r@[k]).date as int == dd by {
                        lemma_dau_pos(sv, app, dd);
                    }
                }
            }
        } else {
            proof {
                assert forall|dd: int|
                    start <= dd && #[trigger] dau_on(sv, app, dd) > 0 implies exists|k: int|
                    0 <= k < r@.len() && (#[trigger] r@[k]).date as int == dd by {
                    lemma_dau_pos(sv, app, dd);
                }
            }
        }
        r
    }

    /// The all-time install total of `app_id`, and its daily install series
    /// for the trailing window of `days` days (boundary day included,
    /// ascending, days with no install omitted). The total ignores the
    /// window. An app with no events yields zero and the empty series.
    pub fn get_installs(&self, app_id: &str, days: i32, today: i64) -> (r: (u64, Vec<InstallData>))
        requires
            self@.wf(),
        ensures
            r.0 as nat == installs_total(self@.events, app_id@),
            is_install_series(r.1@, self@.events, app_id@, today as int - days as int),
    {
        let ghost sv = self@.events;
        let ghost app = app_id@;
        let ghost start = today as int - days as int;
        let total = count_installs_total(&self.events, app_id);
        let mut r: Vec<InstallData> = Vec::new();
        let bounds = install_date_bounds(&self.events, app_id);
        let start_w: i128 = (today as i128) - (days as i128);
        if let Some((lo, hi)) = bounds {
            if start_w <= (hi as i128) {
                let mut d: i64 = if start_w > (lo as i128) {
                    proof {
                        assert((lo as i128) < start_w <= (hi as i128));
                    }
                    start_w as i64
                } else {
                    lo
                };
                proof {
                    assert forall|dd: int| start <= dd < d as int implies installs_on(sv, app, dd)
                        == 0 by {
                        lemma_installs_on_upto_pos(sv, app, dd, sv.len() as int);
                    }
                }
                while d <= hi
                    invariant
                        self@.wf(),
                        sv == self@.events,
                        app == app_id@,
                        start <= d as int,
                        d as int <= hi as int + 1,
                        exists|i: int|
                            0 <= i < sv.len() && is_install_for(#[trigger] sv[i], app)
                                && sv[i].event_date == hi as int,
                        forall|i: int|
                            0 <= i < sv.len() && is_install_for(#[trigger] sv[i], app) ==> sv[i].event_date
                                <= hi as int,
                        forall|k: int| 0 <= k < r@.len() ==> start <= (#[trigger] r@[k]).date as int,
                        forall|k: int|
                            0 <= k < r@.len() ==> ((#[trigger] r@[k]).installs as nat)
                                == installs_on(sv, app, r@[k].date as int) && r@[k].installs > 0,
                        forall|k: int| 0 <= k < r@.len() ==> (#[trigger] r@[k]).date < d,
                        forall|k1: int, k2: int|
                            0 <= k1 < k2 < r@.len() ==> (#[trigger] r@[k1]).date < (
                            #[trigger] r@[k2]).date,
                        forall|dd: int|
                            start <= dd < d as int && #[trigger] installs_on(sv, app, dd) > 0
                                ==> exists|k: int|
                                0 <= k < r@.len() && (#[trigger] r@[k]).date as int == dd,
                    decreases hi - d + 1,
                {
                    let c = count_installs_on(&self.events, app_id, d);
                    let ghost prev = r@;
                    if c > 0 {
                        r.push(InstallData { date: d, installs: c });
                    }
                    proof {
                        if c > 0 {
                            assert(r@ == prev.push((InstallData { date: d, installs: c })));
                            assert(r@[r@.len() - 1].date as int == d as int);
                        }
                        assert forall|dd: int|
                            start <= dd < d as int + 1 && #[trigger] installs_on(sv, app, dd) > 0
                                implies exists|k: int|
                            0 <= k < r@.len() && (#[trigger] r@[k]).date as int == dd by {
                            if dd < d as int {
                                assert(exists|k: int|
                                    0 <= k < prev.len() && (#[trigger] prev[k]).date as int == dd);
                                let k = choose|k: int|
                                    0 <= k < prev.len() && (#[trigger] prev[k]).date as int == dd;
                                assert(r@[k].date as int == dd);
                            }
                        }
                        let ghost wi = choose|i: int|
                            0 <= i < sv.len() && is_install_for(#[trigger] sv[i], app)
                                && sv[i].event_date == hi as int;
                        assert(sv[wi].event_date <= i64::MAX as int / (SECONDS_PER_DAY as int));
                    }
                    d += 1;
                }
                proof {
                    assert forall|dd: int|
                        start <= dd && #[trigger] installs_on(sv, app, dd) > 0 implies exists|
                        k: int,
                    |
                        0 <= k < r@.len() && (#[trigger] r@[k]).date as int == dd by {
                        if dd >= d as int {
                            lemma_installs_on_upto_pos(sv, app, dd, sv.len() as int);
                        }
                    }
                }
            } else {
                proof {
                    assert forall|dd: int|
                        start <= dd && #[trigger] installs_on(sv, app, dd) > 0 implies exists|
                        k: int,
                    |
                        0 <= k < r@.len() && (#[trigger] r@[k]).date as int == dd by {
                        lemma_installs_on_upto_pos(sv, app, dd, sv.len() as int);
                    }
                }
            }
        } else {
            proof {
                assert forall|dd: int|
                    start <= dd && #[trigger] installs_on(sv, app, dd) > 0 implies exists|k: int|
                    0 <= k < r@.len() && (#[trigger] r@[k]).date as int == dd by {
                    lemma_installs_on_upto_pos(sv, app, dd, sv.len() as int);
                }
            }
        }
        (total, r)
    }
}

} // verus!
