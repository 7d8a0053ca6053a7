//! The mathematical vocabulary of the aggregations: which events signal a
//! session ("open") or an install ("install"), and the distinct-user and
//! plain counts that every query is specified against.
//!
//! Counts are defined over a prefix of the event log (`..._upto` takes the
//! prefix length `n`); the full-log forms instantiate `n` with the length.
//! A distinct-user count charges a user at the first log position where the
//! selecting predicate holds of one of their events.

use vstd::prelude::*;

use crate::store::EventView;

verus! {

/// The reserved event name that marks a user session / visit.
pub open spec fn open_name() -> Seq<char> {
    "open"@
}

/// The reserved event name that marks a first run / install.
pub open spec fn install_name() -> Seq<char> {
    "install"@
}

/// `e` is a session event of application `app`.
pub open spec fn is_open_for(e: EventView, app: Seq<char>) -> bool {
    e.app_id == app && e.event == open_name()
}

/// `e` is a session event of `app` on day `d`.
pub open spec fn is_open_on(e: EventView, app: Seq<char>, d: int) -> bool {
    is_open_for(e, app) && e.event_date == d
}

/// `e` is an install event of application `app`.
pub open spec fn is_install_for(e: EventView, app: Seq<char>) -> bool {
    e.app_id == app && e.event == install_name()
}

/// `e` is an install event of `app` on day `d`.
pub open spec fn is_install_on(e: EventView, app: Seq<char>, d: int) -> bool {
    is_install_for(e, app) && e.event_date == d
}

/// Some event of `app` (of any name) exists in the log.
pub open spec fn app_present(s: Seq<EventView>, app: Seq<char>) -> bool {
    exists|i: int| 0 <= i < s.len() && (#[trigger] s[i]).app_id == app
}

/// User `u` has a session event of `app` on day `d` in the first `n` rows.
pub open spec fn user_opened_on_upto(
    s: Seq<EventView>,
    app: Seq<char>,
    u: Seq<char>,
    d: int,
    n: int,
) -> bool {
    exists|i: int| 0 <= i < n && i < s.len() && is_open_on(#[trigger] s[i], app, d) && s[i].user_id == u
}

/// User `u` has a session event of `app` on day `d`.
pub open spec fn user_opened_on(s: Seq<EventView>, app: Seq<char>, u: Seq<char>, d: int) -> bool {
    user_opened_on_upto(s, app, u, d, s.len() as int)
}

/// User `u` has a session event of `app` in the first `n` rows (any day).
pub open spec fn user_opened_upto(s: Seq<EventView>, app: Seq<char>, u: Seq<char>, n: int) -> bool {
    exists|i: int| 0 <= i < n && i < s.len() && is_open_for(#[trigger] s[i], app) && s[i].user_id == u
}

/// User `u` has a session event of `app` on some day strictly before `c`.
pub open spec fn user_opened_before(s: Seq<EventView>, app: Seq<char>, u: Seq<char>, c: int) -> bool {
    exists|i: int|
        0 <= i < s.len() && is_open_for(#[trigger] s[i], app) && s[i].user_id == u
            && s[i].event_date < c
}

/// User `u`'s first-ever session day for `app` is exactly `c`:
/// `u` opened on `c` and never earlier. This is `u`'s cohort date.
pub open spec fn first_open_is(s: Seq<EventView>, app: Seq<char>, u: Seq<char>, c: int) -> bool {
    user_opened_on(s, app, u, c) && !user_opened_before(s, app, u, c)
}

/// Distinct users with a session event of `app` on day `d` among the first
/// `n` rows: the daily-active-user count of that day.
pub open spec fn dau_on_upto(s: Seq<EventView>, app: Seq<char>, d: int, n: int) -> nat
    decreases n,
{
    if n <= 0 {
        0
    } else {
        dau_on_upto(s, app, d, n - 1) + (if n <= s.len() && is_open_on(s[n - 1], app, d)
            && !user_opened_on_upto(s, app, s[n - 1].user_id, d, n - 1) {
            1nat
        } else {
            0nat
        })
    }
}

/// Daily active users of `app` on day `d` over the whole log.
pub open spec fn dau_on(s: Seq<EventView>, app: Seq<char>, d: int) -> nat {
    dau_on_upto(s, app, d, s.len() as int)
}

/// Install events of `app` among the first `n` rows (plain count, all time).
pub open spec fn installs_total_upto(s: Seq<EventView>, app: Seq<char>, n: int) -> nat
    decreases n,
{
    if n <= 0 {
        0
    } else {
        installs_total_upto(s, app, n - 1) + (if n <= s.len() && is_install_for(s[n - 1], app) {
            1nat
        } else {
            0nat
        })
    }
}

/// All-time install count of `app`.
pub open spec fn installs_total(s: Seq<EventView>, app: Seq<char>) -> nat {
    installs_total_upto(s, app, s.len() as int)
}

/// Install events of `app` on day `d` among the first `n` rows.
pub open spec fn installs_on_upto(s: Seq<EventView>, app: Seq<char>, d: int, n: int) -> nat
    decreases n,
{
    if n <= 0 {
        0
    } else {
        installs_on_upto(s, app, d, n - 1) + (if n <= s.len() && is_install_on(s[n - 1], app, d) {
            1nat
        } else {
            0nat
        })
    }
}

/// Install count of `app` on day `d`.
pub open spec fn installs_on(s: Seq<EventView>, app: Seq<char>, d: int) -> nat {
    installs_on_upto(s, app, d, s.len() as int)
}

/// Distinct users whose first-ever session day for `app` is `c`, counted
/// over the first `n` rows (each user at their first session row).
pub open spec fn cohort_upto(s: Seq<EventView>, app: Seq<char>, c: int, n: int) -> nat
    decreases n,
{
    if n <= 0 {
        0
    } else {
        cohort_upto(s, app, c, n - 1) + (if n <= s.len() && is_open_for(s[n - 1], app)
            && !user_opened_upto(s, app, s[n - 1].user_id, n - 1) && first_open_is(
            s,
            app,
            s[n - 1].user_id,
            c,
        ) {
            1nat
        } else {
            0nat
        })
    }
}

/// Size of the cohort of day `c`: distinct users whose first session for
/// `app` fell on day `c`.
pub open spec fn cohort_size(s: Seq<EventView>, app: Seq<char>, c: int) -> nat {
    cohort_upto(s, app, c, s.len() as int)
}

/// Distinct members of the day-`c` cohort who also have a session event
/// exactly on day `c + off`, counted over the first `n` rows.
pub open spec fn retained_upto(s: Seq<EventView>, app: Seq<char>, c: int, off: int, n: int) -> nat
    decreases n,
{
    if n <= 0 {
        0
    } else {
        retained_upto(s, app, c, off, n - 1) + (if n <= s.len() && is_open_for(s[n - 1], app)
            && !user_opened_upto(s, app, s[n - 1].user_id, n - 1) && first_open_is(
            s,
            app,
            s[n - 1].user_id,
            c,
        ) && user_opened_on(s, app, s[n - 1].user_id, c + off) {
            1nat
        } else {
            0nat
        })
    }
}

/// Members of the day-`c` cohort still active exactly `off` days later.
pub open spec fn retained_count(s: Seq<EventView>, app: Seq<char>, c: int, off: int) -> nat {
    retained_upto(s, app, c, off, s.len() as int)
}

/// A daily-active-user count is positive exactly when some session event of
/// that day exists in the counted prefix.
pub proof fn lemma_dau_upto_pos(s: Seq<EventView>, app: Seq<char>, d: int, n: int)
    ensures
        (dau_on_upto(s, app, d, n) > 0) <==> (exists|i: int|
            0 <= i < n && i < s.len() && is_open_on(#[trigger] s[i], app, d)),
    decreases n,
{
    if n > 0 {
        lemma_dau_upto_pos(s, app, d, n - 1);
    }
}

/// `dau_on` is positive exactly when the day has a session event; a user
/// with a session that day makes it positive.
pub proof fn lemma_dau_pos(s: Seq<EventView>, app: Seq<char>, d: int)
    ensures
        (dau_on(s, app, d) > 0) <==> (exists|i: int|
            0 <= i < s.len() && is_open_on(#[trigger] s[i], app, d)),
        forall|u: Seq<char>| user_opened_on(s, app, u, d) ==> dau_on(s, app, d) > 0,
{
    lemma_dau_upto_pos(s, app, d, s.len() as int);
}

/// An install count over a prefix is positive exactly when the prefix holds
/// a matching install event.
pub proof fn lemma_installs_on_upto_pos(s: Seq<EventView>, app: Seq<char>, d: int, n: int)
    ensures
        (installs_on_upto(s, app, d, n) > 0) <==> (exists|i: int|
            0 <= i < n && i < s.len() && is_install_on(#[trigger] s[i], app, d)),
    decreases n,
{
    if n > 0 {
        lemma_installs_on_upto_pos(s, app, d, n - 1);
    }
}

/// The all-time install count is positive exactly when an install exists.
pub proof fn lemma_installs_total_pos(s: Seq<EventView>, app: Seq<char>)
    ensures
        (installs_total(s, app) > 0) <==> (exists|i: int|
            0 <= i < s.len() && is_install_for(#[trigger] s[i], app)),
{
    lemma_installs_total_upto_pos(s, app, s.len() as int);
}

proof fn lemma_installs_total_upto_pos(s: Seq<EventView>, app: Seq<char>, n: int)
    ensures
        (installs_total_upto(s, app, n) > 0) <==> (exists|i: int|
            0 <= i < n && i < s.len() && is_install_for(#[trigger] s[i], app)),
    decreases n,
{
    if n > 0 {
        lemma_installs_total_upto_pos(s, app, n - 1);
    }
}

/// A cohort count over a prefix is positive exactly when the prefix holds a
/// session row of a user whose cohort date is `c`.
pub proof fn lemma_cohort_upto_pos(s: Seq<EventView>, app: Seq<char>, c: int, n: int)
    ensures
        (cohort_upto(s, app, c, n) > 0) <==> (exists|i: int|
            0 <= i < n && i < s.len() && is_open_for(#[trigger] s[i], app) && first_open_is(
                s,
                app,
                s[i].user_id,
                c,
            )),
    decreases n,
{
    if n > 0 {
        lemma_cohort_upto_pos(s, app, c, n - 1);
        if exists|i: int|
            0 <= i < n - 1 && i < s.len() && is_open_for(#[trigger] s[i], app) && first_open_is(
                s,
                app,
                s[i].user_id,
                c,
            ) {
            assert(cohort_upto(s, app, c, n - 1) > 0);
        }
        if n <= s.len() && is_open_for(s[n - 1], app) && first_open_is(s, app, s[n - 1].user_id, c)
            && user_opened_upto(s, app, s[n - 1].user_id, n - 1) {
            let i = choose|i: int|
                0 <= i < n - 1 && i < s.len() && is_open_for(#[trigger] s[i], app)
                    && s[i].user_id == s[n - 1].user_id;
            assert(is_open_for(s[i], app) && first_open_is(s, app, s[i].user_id, c));
        }
    }
}

/// No one is retained out of a cohort who is not in it.
pub proof fn lemma_retained_le_cohort(s: Seq<EventView>, app: Seq<char>, c: int, off: int, n: int)
    ensures
        retained_upto(s, app, c, off, n) <= cohort_upto(s, app, c, n),
    decreases n,
{
    if n > 0 {
        lemma_retained_le_cohort(s, app, c, off, n - 1);
    }
}

/// One step of the seen-set argument that the counting loops share: if a
/// list of users holds exactly those who opened `app` on day `d` within the
/// first `i` rows, and row `i` is appended to it exactly when it is a fresh
/// matching session, the list then holds exactly those of the first `i + 1`
/// rows.
pub proof fn lemma_seen_tracks_day_step(
    s: Seq<EventView>,
    app: Seq<char>,
    d: int,
    prev: Seq<Seq<char>>,
    cur: Seq<Seq<char>>,
    i: int,
)
    requires
        0 <= i < s.len(),
        forall|u: Seq<char>|
            #![trigger prev.contains(u)]
            #![trigger user_opened_on_upto(s, app, u, d, i)]
            prev.contains(u) <==> user_opened_on_upto(s, app, u, d, i),
        is_open_on(s[i], app, d) && !prev.contains(s[i].user_id) ==> cur == prev.push(
            s[i].user_id,
        ),
        !(is_open_on(s[i], app, d) && !prev.contains(s[i].user_id)) ==> cur == prev,
    ensures
        forall|u: Seq<char>|
            #![trigger cur.contains(u)]
            #![trigger user_opened_on_upto(s, app, u, d, i + 1)]
            cur.contains(u) <==> user_opened_on_upto(s, app, u, d, i + 1),
{
    assert forall|u: Seq<char>|
        #![trigger cur.contains(u)]
        #![trigger user_opened_on_upto(s, app, u, d, i + 1)]
        cur.contains(u) <==> user_opened_on_upto(s, app, u, d, i + 1) by {
        if cur.contains(u) {
            if prev.contains(u) {
                assert(user_opened_on_upto(s, app, u, d, i));
            } else {
                assert(cur == prev.push(s[i].user_id));
                let k = choose|k: int| 0 <= k < cur.len() && cur[k] == u;
                assert(k == prev.len());
                assert(u == s[i].user_id);
                assert(is_open_on(s[i], app, d));
            }
        }
        if user_opened_on_upto(s, app, u, d, i + 1) {
            let j = choose|j: int|
                0 <= j < i + 1 && j < s.len() && is_open_on(#[trigger] s[j], app, d) && s[j].user_id
                    == u;
            if j < i || user_opened_on_upto(s, app, u, d, i) {
                if j < i {
                    assert(user_opened_on_upto(s, app, u, d, i));
                }
                assert(prev.contains(u));
                let k0 = choose|k: int| 0 <= k < prev.len() && prev[k] == u;
                if cur != prev {
                    assert(cur[k0] == prev[k0]);
                }
                assert(cur.contains(u));
            } else {
                assert(u == s[i].user_id && is_open_on(s[i], app, d));
                assert(cur == prev.push(u));
                assert(cur.last() == u);
                assert(cur.contains(u));
            }
        }
    }
}

/// The same step for the cohort loops, whose seen set tracks users with a
/// session of `app` on any day within the prefix.
pub proof fn lemma_seen_tracks_step(
    s: Seq<EventView>,
    app: Seq<char>,
    prev: Seq<Seq<char>>,
    cur: Seq<Seq<char>>,
    i: int,
)
    requires
        0 <= i < s.len(),
        forall|u: Seq<char>|
            #![trigger prev.contains(u)]
            #![trigger user_opened_upto(s, app, u, i)]
            prev.contains(u) <==> user_opened_upto(s, app, u, i),
        is_open_for(s[i], app) && !prev.contains(s[i].user_id) ==> cur == prev.push(s[i].user_id),
        !(is_open_for(s[i], app) && !prev.contains(s[i].user_id)) ==> cur == prev,
    ensures
        forall|u: Seq<char>|
            #![trigger cur.contains(u)]
            #![trigger user_opened_upto(s, app, u, i + 1)]
            cur.contains(u) <==> user_opened_upto(s, app, u, i + 1),
{
    assert forall|u: Seq<char>|
        #![trigger cur.contains(u)]
        #![trigger user_opened_upto(s, app, u, i + 1)]
        cur.contains(u) <==> user_opened_upto(s, app, u, i + 1) by {
        if cur.contains(u) {
            if prev.contains(u) {
                assert(user_opened_upto(s, app, u, i));
            } else {
                assert(cur == prev.push(s[i].user_id));
                let k = choose|k: int| 0 <= k < cur.len() && cur[k] == u;
                assert(k == prev.len());
                assert(u == s[i].user_id);
                assert(is_open_for(s[i], app));
            }
        }
        if user_opened_upto(s, app, u, i + 1) {
            let j = choose|j: int|
                0 <= j < i + 1 && j < s.len() && is_open_for(#[trigger] s[j], app) && s[j].user_id
                    == u;
            if j < i || user_opened_upto(s, app, u, i) {
                if j < i {
                    assert(user_opened_upto(s, app, u, i));
                }
                assert(prev.contains(u));
                let k0 = choose|k: int| 0 <= k < prev.len() && prev[k] == u;
                if cur != prev {
                    assert(cur[k0] == prev[k0]);
                }
                assert(cur.contains(u));
            } else {
                assert(u == s[i].user_id && is_open_for(s[i], app));
                assert(cur == prev.push(u));
                assert(cur.last() == u);
                assert(cur.contains(u));
            }
        }
    }
}

/// Whether a user opened on a day within a prefix does not depend on rows
/// appended after the prefix.
proof fn lemma_user_opened_push(
    s: Seq<EventView>,
    e: EventView,
    app: Seq<char>,
    u: Seq<char>,
    d: int,
    n: int,
)
    requires
        n <= s.len(),
    ensures
        user_opened_on_upto(s.push(e), app, u, d, n) == user_opened_on_upto(s, app, u, d, n),
{
    if user_opened_on_upto(s.push(e), app, u, d, n) {
        let i = choose|i: int|
            0 <= i < n && i < s.push(e).len() && is_open_on(#[trigger] s.push(e)[i], app, d)
                && s.push(e)[i].user_id == u;
        assert(s.push(e)[i] == s[i]);
        assert(0 <= i < n && i < s.len() && is_open_on(s[i], app, d) && s[i].user_id == u);
    }
    if user_opened_on_upto(s, app, u, d, n) {
        let i = choose|i: int|
            0 <= i < n && i < s.len() && is_open_on(#[trigger] s[i], app, d) && s[i].user_id == u;
        assert(s.push(e)[i] == s[i]);
        assert(0 <= i < n && i < s.push(e).len() && is_open_on(s.push(e)[i], app, d) && s.push(
            e,
        )[i].user_id == u);
    }
}

/// Counts over a prefix ignore rows appended after it.
pub proof fn lemma_counts_push_stable(s: Seq<EventView>, e: EventView, app: Seq<char>, n: int)
    requires
        n <= s.len(),
    ensures
        forall|d: int| dau_on_upto(s.push(e), app, d, n) == dau_on_upto(s, app, d, n),
        forall|d: int| installs_on_upto(s.push(e), app, d, n) == installs_on_upto(s, app, d, n),
        installs_total_upto(s.push(e), app, n) == installs_total_upto(s, app, n),
    decreases n,
{
    if n > 0 {
        lemma_counts_push_stable(s, e, app, n - 1);
        assert forall|d: int|
            dau_on_upto(s.push(e), app, d, n) == dau_on_upto(s, app, d, n) by {
            assert(s.push(e)[n - 1] == s[n - 1]);
            lemma_user_opened_push(s, e, app, s[n - 1].user_id, d, n - 1);
            assert(dau_on_upto(s.push(e), app, d, n - 1) == dau_on_upto(s, app, d, n - 1));
        }
        assert forall|d: int|
            installs_on_upto(s.push(e), app, d, n) == installs_on_upto(s, app, d, n) by {
            assert(s.push(e)[n - 1] == s[n - 1]);
            assert(installs_on_upto(s.push(e), app, d, n - 1) == installs_on_upto(s, app, d, n - 1));
        }
        assert(s.push(e)[n - 1] == s[n - 1]);
    }
}

/// What one appended event does to the daily-active-user count of any app
/// and day: it grows by one exactly when the event is a session event of
/// that app and day by a user not already active then; otherwise it is
/// unchanged.
pub proof fn lemma_dau_push(s: Seq<EventView>, e: EventView, app: Seq<char>, d: int)
    ensures
        dau_on(s.push(e), app, d) == dau_on(s, app, d) + (if is_open_on(e, app, d)
            && !user_opened_on(s, app, e.user_id, d) {
            1nat
        } else {
            0nat
        }),
{
    lemma_counts_push_stable(s, e, app, s.len() as int);
    assert(s.push(e)[s.len() as int] == e);
    lemma_user_opened_push(s, e, app, e.user_id, d, s.len() as int);
    assert(dau_on(s.push(e), app, d) == dau_on_upto(s.push(e), app, d, s.len() as int) + (
    if is_open_on(e, app, d) && !user_opened_on(s, app, e.user_id, d) {
        1nat
    } else {
        0nat
    }));
}

/// What one appended event does to the install counts of any app and day.
pub proof fn lemma_installs_push(s: Seq<EventView>, e: EventView, app: Seq<char>, d: int)
    ensures
        installs_on(s.push(e), app, d) == installs_on(s, app, d) + (if is_install_on(e, app, d) {
            1nat
        } else {
            0nat
        }),
        installs_total(s.push(e), app) == installs_total(s, app) + (if is_install_for(e, app) {
            1nat
        } else {
            0nat
        }),
{
    lemma_counts_push_stable(s, e, app, s.len() as int);
    assert(s.push(e)[s.len() as int] == e);
}

} // verus!
