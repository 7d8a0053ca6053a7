//! The laws the engine keeps, stated over the same spec functions its
//! contracts use and proved once and for all.

use vstd::prelude::*;

use crate::counts::app_present;
use crate::counts::cohort_size;
use crate::counts::dau_on;
use crate::counts::install_name;
use crate::counts::installs_on;
use crate::counts::installs_total;
use crate::counts::first_open_is;
use crate::counts::is_install_on;
use crate::counts::is_open_for;
use crate::counts::is_open_on;
use crate::counts::lemma_cohort_upto_pos;
use crate::counts::lemma_dau_pos;
use crate::counts::lemma_installs_on_upto_pos;
use crate::counts::lemma_installs_total_pos;
use crate::counts::lemma_dau_push;
use crate::counts::lemma_installs_push;
use crate::counts::lemma_retained_le_cohort;
use crate::counts::open_name;
use crate::counts::retained_count;
use crate::counts::user_opened_on;
use crate::feedback::feedback_page;
use crate::feedback::matching_upto;
use crate::feedback::FeedbackDataView;
use crate::retention::is_retention_table;
use crate::retention::pct_tenths;
use crate::retention::row_correct;
use crate::retention::RetentionData;
use crate::series::is_dau_series;
use crate::series::is_install_series;
use crate::series::DauData;
use crate::series::InstallData;
use crate::store::EventView;
use crate::store::FeedbackView;

verus! {

/// Appending a session event grows that day's distinct-user count by one
/// exactly when its user was not yet active that day, and never otherwise:
/// repeating the same user's session leaves the count unchanged, and the
/// day's count is positive afterwards, so the day appears in any window
/// that reaches it.
pub proof fn lemma_append_open_counts_user(
    s: Seq<EventView>,
    e: EventView,
    app: Seq<char>,
    d: int,
)
    requires
        is_open_on(e, app, d),
    ensures
        !user_opened_on(s, app, e.user_id, d) ==> dau_on(s.push(e), app, d) == dau_on(s, app, d)
            + 1,
        user_opened_on(s, app, e.user_id, d) ==> dau_on(s.push(e), app, d) == dau_on(s, app, d),
        dau_on(s.push(e), app, d) > 0,
{
    lemma_dau_push(s, e, app, d);
    lemma_dau_pos(s, app, d);
}

/// Appending an event whose name is neither the session nor the install
/// signal changes no daily-active-user count, no daily install count and
/// no install total, of any application and any day.
pub proof fn lemma_append_other_name_counts(
    s: Seq<EventView>,
    e: EventView,
    app: Seq<char>,
    d: int,
)
    requires
        e.event != open_name(),
        e.event != install_name(),
    ensures
        dau_on(s.push(e), app, d) == dau_on(s, app, d),
        installs_on(s.push(e), app, d) == installs_on(s, app, d),
        installs_total(s.push(e), app) == installs_total(s, app),
{
    lemma_dau_push(s, e, app, d);
    lemma_installs_push(s, e, app, d);
}

/// An application that never appears in either log has zero counts
/// everywhere and an empty feedback page: queries about it owe empty
/// results, never an error.
pub proof fn lemma_unknown_app_empty(
    s: Seq<EventView>,
    fs: Seq<FeedbackView>,
    app: Seq<char>,
    d: int,
    c: int,
    off: int,
    limit: int,
)
    requires
        !app_present(s, app),
        forall|i: int| 0 <= i < fs.len() ==> (#[trigger] fs[i]).app_id != app,
    ensures
        dau_on(s, app, d) == 0,
        installs_on(s, app, d) == 0,
        installs_total(s, app) == 0,
        cohort_size(s, app, c) == 0,
        retained_count(s, app, c, off) == 0,
        feedback_page(fs, app, limit) == Seq::<FeedbackDataView>::empty(),
{
    lemma_dau_pos(s, app, d);
    lemma_installs_on_upto_pos(s, app, d, s.len() as int);
    lemma_installs_total_pos(s, app);
    lemma_cohort_upto_pos(s, app, c, s.len() as int);
    lemma_retained_le_cohort(s, app, c, off, s.len() as int);
    lemma_matching_empty(fs, app, fs.len() as int);
    assert(matching_upto(fs, app, fs.len() as int).reverse() =~= Seq::<FeedbackView>::empty());
    assert(feedback_page(fs, app, limit) =~= Seq::<FeedbackDataView>::empty());
}

/// No feedback row matches an application absent from the feedback log.
proof fn lemma_matching_empty(fs: Seq<FeedbackView>, app: Seq<char>, n: int)
    requires
        n <= fs.len(),
        forall|i: int| 0 <= i < fs.len() ==> (#[trigger] fs[i]).app_id != app,
    ensures
        matching_upto(fs, app, n) == Seq::<FeedbackView>::empty(),
    decreases n,
{
    if n > 0 {
        lemma_matching_empty(fs, app, n - 1);
        assert(matching_upto(fs, app, n) =~= matching_upto(fs, app, n - 1));
    } else {
        assert(matching_upto(fs, app, n) =~= Seq::<FeedbackView>::empty());
    }
}

/// The window's lower boundary is inclusive: a series never reaches back
/// past `today - days`, and the boundary day itself is reported whenever
/// it has a session.
pub proof fn lemma_dau_window_boundary(
    r: Seq<DauData>,
    s: Seq<EventView>,
    app: Seq<char>,
    today: int,
    days: int,
)
    requires
        is_dau_series(r, s, app, today - days),
    ensures
        forall|k: int| 0 <= k < r.len() ==> today - days <= (#[trigger] r[k]).date as int,
        dau_on(s, app, today - days) > 0 ==> exists|k: int|
            0 <= k < r.len() && (#[trigger] r[k]).date as int == today - days,
{
}

/// Under an honest clock — every stored event dated no later than `today`,
/// which appends guarantee when `today` is the current day, since an
/// event's date is derived from the clock at its append — no point of a
/// daily series is dated after `today`.
pub proof fn lemma_series_bounded_by_clock(
    rd: Seq<DauData>,
    ri: Seq<InstallData>,
    s: Seq<EventView>,
    app: Seq<char>,
    start_d: int,
    start_i: int,
    today: int,
)
    requires
        forall|i: int| 0 <= i < s.len() ==> (#[trigger] s[i]).event_date <= today,
        is_dau_series(rd, s, app, start_d),
        is_install_series(ri, s, app, start_i),
    ensures
        forall|k: int| 0 <= k < rd.len() ==> (#[trigger] rd[k]).date as int <= today,
        forall|k: int| 0 <= k < ri.len() ==> (#[trigger] ri[k]).date as int <= today,
{
    assert forall|k: int| 0 <= k < rd.len() implies (#[trigger] rd[k]).date as int <= today by {
        lemma_dau_pos(s, app, rd[k].date as int);
        let i = choose|i: int|
            0 <= i < s.len() && is_open_on(#[trigger] s[i], app, rd[k].date as int);
        assert(s[i].event_date <= today);
    }
    assert forall|k: int| 0 <= k < ri.len() implies (#[trigger] ri[k]).date as int <= today by {
        lemma_installs_on_upto_pos(s, app, ri[k].date as int, s.len() as int);
        let i = choose|i: int|
            0 <= i < s.len() && is_install_on(#[trigger] s[i], app, ri[k].date as int);
        assert(s[i].event_date <= today);
    }
}

/// Under the same honest clock, no cohort row is dated after `today`: a
/// cohort day is the day of someone's first session event.
pub proof fn lemma_retention_bounded_by_clock(
    rr: Seq<RetentionData>,
    s: Seq<EventView>,
    app: Seq<char>,
    today: int,
)
    requires
        forall|i: int| 0 <= i < s.len() ==> (#[trigger] s[i]).event_date <= today,
        is_retention_table(rr, s, app, today),
    ensures
        forall|k: int| 0 <= k < rr.len() ==> (#[trigger] rr[k]).cohort_date as int <= today,
{
    assert forall|k: int| 0 <= k < rr.len() implies (#[trigger] rr[k]).cohort_date as int
        <= today by {
        let c = rr[k].cohort_date as int;
        lemma_cohort_upto_pos(s, app, c, s.len() as int);
        assert(cohort_size(s, app, c) > 0);
        let i = choose|i: int|
            0 <= i < s.len() && is_open_for(#[trigger] s[i], app) && first_open_is(
                s,
                app,
                s[i].user_id,
                c,
            );
        let j = choose|j: int|
            0 <= j < s.len() && is_open_on(#[trigger] s[j], app, c) && s[j].user_id == s[i].user_id;
        assert(s[j].event_date <= today);
    }
}

/// Correct cohort rows for days in `[lo, hi)`, descending, at most `cap`
/// of them, and complete up to the cap: the generalization of the retention
/// table that the uniqueness induction walks (each step peels the newest
/// row, lowering `hi` to its day and `cap` by one).
spec fn retention_rows_ok(
    r: Seq<RetentionData>,
    s: Seq<EventView>,
    app: Seq<char>,
    lo: int,
    hi: int,
    cap: int,
) -> bool {
    &&& r.len() <= cap
    &&& forall|k: int|
        0 <= k < r.len() ==> lo <= ((#[trigger] r[k]).cohort_date as int) && ((
        #[trigger] r[k]).cohort_date as int) < hi
    &&& forall|k: int| 0 <= k < r.len() ==> row_correct(#[trigger] r[k], s, app)
    &&& forall|k1: int, k2: int|
        0 <= k1 < k2 < r.len() ==> (#[trigger] r[k1]).cohort_date > (#[trigger] r[k2]).cohort_date
    &&& forall|c: int|
        lo <= c < hi && #[trigger] cohort_size(s, app, c) > 0 ==> (exists|k: int|
            0 <= k < r.len() && (#[trigger] r[k]).cohort_date as int == c) || (r.len() == cap && (
        cap == 0 || c < r[r.len() - 1].cohort_date as int))
}

#[verifier::rlimit(60)]
proof fn lemma_retention_rows_unique(
    r1: Seq<RetentionData>,
    r2: Seq<RetentionData>,
    s: Seq<EventView>,
    app: Seq<char>,
    lo: int,
    hi: int,
    cap: int,
)
    requires
        cap >= 0,
        retention_rows_ok(r1, s, app, lo, hi, cap),
        retention_rows_ok(r2, s, app, lo, hi, cap),
    ensures
        r1 =~= r2,
    decreases cap,
{
    if r1.len() == 0 && r2.len() == 0 {
    } else if r1.len() == 0 {
        let c = r2[0].cohort_date as int;
        assert(cohort_size(s, app, c) > 0);
        assert(r1.len() == cap && (cap == 0 || c < r1[r1.len() - 1].cohort_date as int));
        assert(cap == 0);
        assert(false);
    } else if r2.len() == 0 {
        let c = r1[0].cohort_date as int;
        assert(cohort_size(s, app, c) > 0);
        assert(r2.len() == cap && (cap == 0 || c < r2[r2.len() - 1].cohort_date as int));
        assert(cap == 0);
        assert(false);
    } else {
        let c1 = r1[0].cohort_date as int;
        let c2 = r2[0].cohort_date as int;
        assert(cohort_size(s, app, c1) > 0);
        assert(cohort_size(s, app, c2) > 0);
        if c1 > c2 {
            if exists|k: int| 0 <= k < r2.len() && (#[trigger] r2[k]).cohort_date as int == c1 {
                let k = choose|k: int|
                    0 <= k < r2.len() && (#[trigger] r2[k]).cohort_date as int == c1;
                assert(k > 0 ==> r2[0].cohort_date > r2[k].cohort_date);
                assert(false);
            } else {
                assert(r2.len() == cap && (cap == 0 || c1 < r2[r2.len() - 1].cohort_date as int));
                assert(r2.len() - 1 > 0 ==> r2[0].cohort_date > r2[r2.len() - 1].cohort_date);
                assert(false);
            }
        }
        if c2 > c1 {
            if exists|k: int| 0 <= k < r1.len() && (#[trigger] r1[k]).cohort_date as int == c2 {
                let k = choose|k: int|
                    0 <= k < r1.len() && (#[trigger] r1[k]).cohort_date as int == c2;
                assert(k > 0 ==> r1[0].cohort_date > r1[k].cohort_date);
                assert(false);
            } else {
                assert(r1.len() == cap && (cap == 0 || c2 < r1[r1.len() - 1].cohort_date as int));
                assert(r1.len() - 1 > 0 ==> r1[0].cohort_date > r1[r1.len() - 1].cohort_date);
                assert(false);
            }
        }
        assert(r1[0] == r2[0]);
        let t1 = r1.skip(1);
        let t2 = r2.skip(1);
        assert(forall|k: int| 0 <= k < t1.len() ==> #[trigger] t1[k] == r1[k + 1]);
        assert(forall|k: int| 0 <= k < t2.len() ==> #[trigger] t2[k] == r2[k + 1]);
        assert forall|c: int|
            lo <= c < c1 && #[trigger] cohort_size(s, app, c) > 0 implies (exists|k: int|
            0 <= k < t1.len() && (#[trigger] t1[k]).cohort_date as int == c) || (t1.len() == cap - 1
            && (cap - 1 == 0 || c < t1[t1.len() - 1].cohort_date as int)) by {
            if exists|k: int| 0 <= k < r1.len() && (#[trigger] r1[k]).cohort_date as int == c {
                let k = choose|k: int|
                    0 <= k < r1.len() && (#[trigger] r1[k]).cohort_date as int == c;
                assert(k != 0);
                assert(t1[k - 1].cohort_date as int == c);
            } else {
                assert(r1.len() == cap && (cap == 0 || c < r1[r1.len() - 1].cohort_date as int));
                if cap - 1 > 0 {
                    assert(t1[t1.len() - 1] == r1[r1.len() - 1]);
                }
            }
        }
        assert forall|c: int|
            lo <= c < c1 && #[trigger] cohort_size(s, app, c) > 0 implies (exists|k: int|
            0 <= k < t2.len() && (#[trigger] t2[k]).cohort_date as int == c) || (t2.len() == cap - 1
            && (cap - 1 == 0 || c < t2[t2.len() - 1].cohort_date as int)) by {
            if exists|k: int| 0 <= k < r2.len() && (#[trigger] r2[k]).cohort_date as int == c {
                let k = choose|k: int|
                    0 <= k < r2.len() && (#[trigger] r2[k]).cohort_date as int == c;
                assert(k != 0);
                assert(t2[k - 1].cohort_date as int == c);
            } else {
                assert(r2.len() == cap && (cap == 0 || c < r2[r2.len() - 1].cohort_date as int));
                if cap - 1 > 0 {
                    assert(t2[t2.len() - 1] == r2[r2.len() - 1]);
                }
            }
        }
        assert(retention_rows_ok(t1, s, app, lo, c1, cap - 1));
        assert(retention_rows_ok(t2, s, app, lo, c1, cap - 1));
        lemma_retention_rows_unique(t1, t2, s, app, lo, c1, cap - 1);
        assert(r1.len() == r2.len());
        assert forall|k: int| 0 <= k < r1.len() implies r1[k] == r2[k] by {
            if k > 0 {
                assert(t1[k - 1] == t2[k - 1]);
            }
        }
    }
}

/// A retention table is determined by the log, the application and the
/// day it is asked for: two results that both meet the contract are equal,
/// so reading twice without an intervening write reads the same table.
pub proof fn lemma_retention_table_unique(
    r1: Seq<RetentionData>,
    r2: Seq<RetentionData>,
    s: Seq<EventView>,
    app: Seq<char>,
    today: int,
)
    requires
        is_retention_table(r1, s, app, today),
        is_retention_table(r2, s, app, today),
    ensures
        r1 =~= r2,
{
    if r1.len() == 0 && r2.len() == 0 {
    } else if r1.len() == 0 {
        let c = r2[0].cohort_date as int;
        assert(cohort_size(s, app, c) > 0);
        assert(r1.len() == 30 && c < r1[r1.len() - 1].cohort_date as int);
        assert(false);
    } else if r2.len() == 0 {
        let c = r1[0].cohort_date as int;
        assert(cohort_size(s, app, c) > 0);
        assert(r2.len() == 30 && c < r2[r2.len() - 1].cohort_date as int);
        assert(false);
    } else {
        let c1 = r1[0].cohort_date as int;
        let c2 = r2[0].cohort_date as int;
        let hi = if c1 > c2 {
            c1 + 1
        } else {
            c2 + 1
        };
        assert(retention_rows_ok(r1, s, app, today - 60, hi, 30)) by {
            assert(forall|k: int|
                0 < k < r1.len() ==> (#[trigger] r1[k]).cohort_date < r1[0].cohort_date);
        }
        assert(retention_rows_ok(r2, s, app, today - 60, hi, 30)) by {
            assert(forall|k: int|
                0 < k < r2.len() ==> (#[trigger] r2[k]).cohort_date < r2[0].cohort_date);
        }
        lemma_retention_rows_unique(r1, r2, s, app, today - 60, hi, 30);
    }
}

/// A cohort of one user who returned the next day but not a week later
/// reads as one member, 100.0% day-one retention and 0.0% day-seven
/// retention — never an error. The table's 30-row cap is the one way such
/// a cohort can be absent, so a table under the cap is required.
pub proof fn lemma_retention_single_returning_user(
    r: Seq<RetentionData>,
    s: Seq<EventView>,
    app: Seq<char>,
    today: int,
    c: int,
)
    requires
        is_retention_table(r, s, app, today),
        today - 60 <= c,
        cohort_size(s, app, c) == 1,
        retained_count(s, app, c, 1) == 1,
        retained_count(s, app, c, 7) == 0,
        r.len() < 30,
    ensures
        exists|k: int| 0 <= k < r.len() && (#[trigger] r[k]).cohort_date as int == c,
        forall|k: int|
            0 <= k < r.len() && (#[trigger] r[k]).cohort_date as int == c ==> r[k].day0 == 1
                && r[k].day1 == Some(1000u64) && r[k].day7 == Some(0u64),
{
    assert(exists|k: int| 0 <= k < r.len() && (#[trigger] r[k]).cohort_date as int == c);
    assert forall|k: int|
        0 <= k < r.len() && (#[trigger] r[k]).cohort_date as int == c implies r[k].day0 == 1
        && r[k].day1 == Some(1000u64) && r[k].day7 == Some(0u64) by {
        assert(row_correct(r[k], s, app));
        assert(((1 * 2000 + 1) as nat) / ((2 * 1) as nat) == 1000) by (nonlinear_arith);
        assert(((0 * 2000 + 1) as nat) / ((2 * 1) as nat) == 0) by (nonlinear_arith);
        assert(pct_tenths(1, 1) == 1000);
        assert(pct_tenths(0, 1) == 0);
    }
}

/// A daily install series is determined by the log, the application and
/// the window, exactly as the daily-active-user series is.
pub proof fn lemma_install_series_unique(
    r1: Seq<InstallData>,
    r2: Seq<InstallData>,
    s: Seq<EventView>,
    app: Seq<char>,
    start: int,
)
    requires
        is_install_series(r1, s, app, start),
        is_install_series(r2, s, app, start),
    ensures
        r1 =~= r2,
    decreases r1.len(),
{
    if r1.len() == 0 {
        if r2.len() > 0 {
            assert(installs_on(s, app, r2[0].date as int) > 0);
            assert(exists|k: int|
                0 <= k < r1.len() && (#[trigger] r1[k]).date as int == r2[0].date as int);
        }
    } else if r2.len() == 0 {
        assert(installs_on(s, app, r1[0].date as int) > 0);
        assert(exists|k: int|
            0 <= k < r2.len() && (#[trigger] r2[k]).date as int == r1[0].date as int);
    } else {
        assert(installs_on(s, app, r1[0].date as int) > 0);
        assert(installs_on(s, app, r2[0].date as int) > 0);
        let k2 = choose|k: int|
            0 <= k < r2.len() && (#[trigger] r2[k]).date as int == r1[0].date as int;
        let k1 = choose|k: int|
            0 <= k < r1.len() && (#[trigger] r1[k]).date as int == r2[0].date as int;
        assert(r2[0].date <= r2[k2].date);
        assert(r1[0].date <= r1[k1].date);
        assert(r1[0].date == r2[0].date);
        assert(r1[0].installs == r2[0].installs);
        let t1 = r1.skip(1);
        let t2 = r2.skip(1);
        assert forall|d: int|
            r1[0].date as int + 1 <= d && #[trigger] installs_on(s, app, d) > 0 implies exists|
            k: int,
        |
            0 <= k < t1.len() && (#[trigger] t1[k]).date as int == d by {
            let k = choose|k: int| 0 <= k < r1.len() && (#[trigger] r1[k]).date as int == d;
            assert(k >= 1);
            assert(t1[k - 1].date as int == d);
        }
        assert forall|d: int|
            r1[0].date as int + 1 <= d && #[trigger] installs_on(s, app, d) > 0 implies exists|
            k: int,
        |
            0 <= k < t2.len() && (#[trigger] t2[k]).date as int == d by {
            let k = choose|k: int| 0 <= k < r2.len() && (#[trigger] r2[k]).date as int == d;
            assert(k >= 1);
            assert(t2[k - 1].date as int == d);
        }
        assert(is_install_series(t1, s, app, r1[0].date as int + 1));
        assert(is_install_series(t2, s, app, r1[0].date as int + 1));
        lemma_install_series_unique(t1, t2, s, app, r1[0].date as int + 1);
        assert(r1 =~= r2) by {
            assert(forall|k: int| 1 <= k < r1.len() ==> #[trigger] r1[k] == t1[k - 1]);
            assert(forall|k: int| 1 <= k < r2.len() ==> #[trigger] r2[k] == t2[k - 1]);
        }
    }
}

/// A daily-active-user series is determined by the log, the application
/// and the window: two results that both meet the contract are equal, so
/// reading twice without an intervening write reads the same series.
pub proof fn lemma_dau_series_unique(
    r1: Seq<DauData>,
    r2: Seq<DauData>,
    s: Seq<EventView>,
    app: Seq<char>,
    start: int,
)
    requires
        is_dau_series(r1, s, app, start),
        is_dau_series(r2, s, app, start),
    ensures
        r1 =~= r2,
    decreases r1.len(),
{
    if r1.len() == 0 {
        if r2.len() > 0 {
            assert(dau_on(s, app, r2[0].date as int) > 0);
            assert(exists|k: int| 0 <= k < r1.len() && (#[trigger] r1[k]).date as int == r2[0].date as int);
        }
    } else if r2.len() == 0 {
        assert(dau_on(s, app, r1[0].date as int) > 0);
        assert(exists|k: int| 0 <= k < r2.len() && (#[trigger] r2[k]).date as int == r1[0].date as int);
    } else {
        assert(dau_on(s, app, r1[0].date as int) > 0);
        assert(dau_on(s, app, r2[0].date as int) > 0);
        let k2 = choose|k: int| 0 <= k < r2.len() && (#[trigger] r2[k]).date as int == r1[0].date as int;
        let k1 = choose|k: int| 0 <= k < r1.len() && (#[trigger] r1[k]).date as int == r2[0].date as int;
        assert(r2[0].date <= r2[k2].date);
        assert(r1[0].date <= r1[k1].date);
        assert(r1[0].date == r2[0].date);
        assert(r1[0].dau == r2[0].dau);
        let t1 = r1.skip(1);
        let t2 = r2.skip(1);
        assert forall|d: int| r1[0].date as int + 1 <= d && #[trigger] dau_on(s, app, d) > 0 implies
            exists|k: int| 0 <= k < t1.len() && (#[trigger] t1[k]).date as int == d by {
            let k = choose|k: int| 0 <= k < r1.len() && (#[trigger] r1[k]).date as int == d;
            assert(k >= 1);
            assert(t1[k - 1].date as int == d);
        }
        assert forall|d: int| r1[0].date as int + 1 <= d && #[trigger] dau_on(s, app, d) > 0 implies
            exists|k: int| 0 <= k < t2.len() && (#[trigger] t2[k]).date as int == d by {
            let k = choose|k: int| 0 <= k < r2.len() && (#[trigger] r2[k]).date as int == d;
            assert(k >= 1);
            assert(t2[k - 1].date as int == d);
        }
        assert(is_dau_series(t1, s, app, r1[0].date as int + 1));
        assert(is_dau_series(t2, s, app, r1[0].date as int + 1));
        lemma_dau_series_unique(t1, t2, s, app, r1[0].date as int + 1);
        assert(r1 =~= r2) by {
            assert(forall|k: int| 1 <= k < r1.len() ==> #[trigger] r1[k] == t1[k - 1]);
            assert(forall|k: int| 1 <= k < r2.len() ==> #[trigger] r2[k] == t2[k - 1]);
        }
    }
}

} // verus!
