//! The application listing: every application ever seen in the event log,
//! ordered ascending by application id (lexicographic, by code point), each
//! with today's distinct active-user count and its all-time install total.

use vstd::prelude::*;

use crate::counts::dau_on;
use crate::counts::installs_total;
use crate::series::count_dau_on;
use crate::series::count_installs_total;
use crate::store::EventStore;
use crate::store::EventView;
use crate::strcmp::lemma_lex_lt_ne;
use crate::strcmp::lemma_lex_trans;
use crate::strcmp::lex_lt;
use crate::strcmp::str_cmp;

verus! {

/// One row of the application listing.
pub struct AppInfo {
    pub app_id: String,
    pub dau_today: u64,
    pub total_installs: u64,
}

/// Some row of the listing carries application id `a`.
pub open spec fn listed(r: Seq<AppInfo>, a: Seq<char>) -> bool {
    exists|k: int| 0 <= k < r.len() && (#[trigger] r[k]).app_id@ == a
}

/// `r` is exactly the application listing over the log `s` as of `today`:
/// one row per distinct application id — strictly ascending by id
/// (lexicographic by code point), so no id twice — none forgotten, with
/// that app's daily active users today and all-time installs.
pub open spec fn is_app_list(r: Seq<AppInfo>, s: Seq<EventView>, today: int) -> bool {
    &&& forall|k: int|
        0 <= k < r.len() ==> ((#[trigger] r[k]).dau_today as nat) == dau_on(s, r[k].app_id@, today)
            && ((r[k]).total_installs as nat) == installs_total(s, r[k].app_id@)
    &&& forall|k1: int, k2: int|
        0 <= k1 < k2 < r.len() ==> lex_lt((#[trigger] r[k1]).app_id@, (#[trigger] r[k2]).app_id@)
    &&& forall|k1: int, k2: int|
        0 <= k1 < k2 < r.len() ==> (#[trigger] r[k1]).app_id@ != (#[trigger] r[k2]).app_id@
    &&& forall|i: int| 0 <= i < s.len() ==> listed(r, (#[trigger] s[i]).app_id)
}

/// A strictly ascending list stays strictly ascending when an element is
/// inserted at its slot, and afterwards holds exactly the old ids plus the
/// new one.
proof fn lemma_sorted_insert(dv: Seq<Seq<char>>, x: Seq<char>, p: int)
    requires
        0 <= p <= dv.len(),
        forall|k1: int, k2: int|
            0 <= k1 < k2 < dv.len() ==> lex_lt(#[trigger] dv[k1], #[trigger] dv[k2]),
        forall|t: int| 0 <= t < p ==> lex_lt(#[trigger] dv[t], x),
        p < dv.len() ==> lex_lt(x, dv[p]),
    ensures
        forall|k1: int, k2: int|
            0 <= k1 < k2 < dv.insert(p, x).len() ==> lex_lt(
                #[trigger] dv.insert(p, x)[k1],
                #[trigger] dv.insert(p, x)[k2],
            ),
        forall|u: Seq<char>|
            #[trigger] dv.insert(p, x).contains(u) <==> (dv.contains(u) || u == x),
{
    dv.insert_ensures(p, x);
    let nv = dv.insert(p, x);
    assert forall|k1: int, k2: int|
        0 <= k1 < k2 < nv.len() implies lex_lt(#[trigger] nv[k1], #[trigger] nv[k2]) by {
        if k1 == p && k2 - 1 > p {
            lemma_lex_trans(x, dv[p], dv[k2 - 1]);
        }
    }
    assert forall|u: Seq<char>| #[trigger] nv.contains(u) <==> (dv.contains(u) || u == x) by {
        if nv.contains(u) {
            let k = choose|k: int| 0 <= k < nv.len() && nv[k] == u;
            if k < p {
                assert(dv[k] == u);
            } else if k > p {
                assert(dv[k - 1] == u);
            }
        }
        if dv.contains(u) {
            let k0 = choose|k: int| 0 <= k < dv.len() && dv[k] == u;
            if k0 < p {
                assert(nv[k0] == u);
            } else {
                assert(nv[k0 + 1] == u);
            }
        }
        if u == x {
            assert(nv[p] == u);
        }
    }
}

/// Where `x` belongs in `ids`: the number of entries below it, and whether
/// it is already there.
fn find_slot(ids: &Vec<String>, x: &str) -> (r: (usize, bool))
    ensures
        r.0 <= ids.deep_view().len(),
        forall|t: int| 0 <= t < r.0 ==> lex_lt(#[trigger] ids.deep_view()[t], x@),
        r.1 == (r.0 < ids.deep_view().len() && ids.deep_view()[r.0 as int] == x@),
        !r.1 && r.0 < ids.deep_view().len() ==> lex_lt(x@, ids.deep_view()[r.0 as int]),
{
    let ghost dv = ids.deep_view();
    let mut pos: usize = 0;
    let mut present: bool = false;
    let mut done: bool = false;
    let mut k: usize = 0;
    while k < ids.len()
        invariant
            dv == ids.deep_view(),
            k <= ids.len(),
            pos <= k,
            present ==> done,
            !done ==> pos == k && (forall|t: int| 0 <= t < k ==> lex_lt(#[trigger] dv[t], x@)),
            done ==> pos < k && (forall|t: int| 0 <= t < pos ==> lex_lt(#[trigger] dv[t], x@)),
            done ==> (present == (dv[pos as int] == x@)),
            done && !present ==> lex_lt(x@, dv[pos as int]),
        decreases ids.len() - k,
    {
        if !done {
            let c = str_cmp(ids[k].as_str(), x);
            if c < 0 {
                pos = k + 1;
            } else {
                done = true;
                if c == 0 {
                    present = true;
                }
            }
        }
        k += 1;
    }
    (pos, present)
}

impl EventStore {
    /// Every application ever seen in the event log, ascending by
    /// application id, each with today's distinct session-user count and
    /// its all-time install total. An empty log yields the empty listing.
    #[verifier::rlimit(100)]
    pub fn list_applications(&self, today: i64) -> (r: Vec<AppInfo>)
        ensures
            is_app_list(r@, self@.events, today as int),
    {
        let ghost sv = self@.events;
        let mut ids: Vec<String> = Vec::new();
        let mut i: usize = 0;
        while i < self.events.len()
            invariant
                sv == self@.events,
                i <= self.events.len(),
                forall|k1: int, k2: int|
                    0 <= k1 < k2 < ids.deep_view().len() ==> lex_lt(
                        #[trigger] ids.deep_view()[k1],
                        #[trigger] ids.deep_view()[k2],
                    ),
                forall|j: int|
                    0 <= j < i ==> ids.deep_view().contains((#[trigger] sv[j]).app_id),
            decreases self.events.len() - i,
        {
            let x = &self.events[i].app_id;
            let ghost dv = ids.deep_view();
            let (pos, present) = find_slot(&ids, x.as_str());
            if !present {
                let ghost p = pos as int;
                ids.insert(pos, x.clone());
                proof {
                    assert(ids.deep_view() =~~= dv.insert(p, x@));
                    lemma_sorted_insert(dv, x@, p);
                    assert forall|j: int| 0 <= j < i as int + 1 implies ids.deep_view().contains(
                        (#[trigger] sv[j]).app_id,
                    ) by {
                        if j < i as int {
                            assert(dv.contains(sv[j].app_id));
                        } else {
                            assert(sv[j].app_id == x@);
                        }
                        assert(ids.deep_view().contains(sv[j].app_id));
                    }
                }
            } else {
                proof {
                    assert forall|j: int| 0 <= j < i as int + 1 implies ids.deep_view().contains(
                        (#[trigger] sv[j]).app_id,
                    ) by {
                        if j == i as int {
                            assert(dv[pos as int] == x@);
                            assert(dv.contains(x@));
                        }
                    }
                }
            }
            i += 1;
        }
        let mut r: Vec<AppInfo> = Vec::new();
        let mut k: usize = 0;
        while k < ids.len()
            invariant
                sv == self@.events,
                k <= ids.len(),
                r@.len() == k,
                forall|k1: int, k2: int|
                    0 <= k1 < k2 < ids.deep_view().len() ==> lex_lt(
                        #[trigger] ids.deep_view()[k1],
                        #[trigger] ids.deep_view()[k2],
                    ),
                forall|j: int|
                    0 <= j < sv.len() ==> ids.deep_view().contains((#[trigger] sv[j]).app_id),
                forall|t: int| 0 <= t < k ==> (#[trigger] r@[t]).app_id@ == ids.deep_view()[t],
                forall|t: int|
                    0 <= t < k ==> ((#[trigger] r@[t]).dau_today as nat) == dau_on(
                        sv,
                        r@[t].app_id@,
                        today as int,
                    ) && ((r@[t]).total_installs as nat) == installs_total(sv, r@[t].app_id@),
            decreases ids.len() - k,
        {
            let a = &ids[k];
            let dau = count_dau_on(&self.events, a.as_str(), today);
            let inst = count_installs_total(&self.events, a.as_str());
            r.push(AppInfo { app_id: a.clone(), dau_today: dau, total_installs: inst });
            k += 1;
        }
        proof {
            assert forall|t: int| 0 <= t < r@.len() implies ((#[trigger] r@[t]).dau_today as nat)
                == dau_on(self@.events, r@[t].app_id@, today as int) && ((
            r@[t]).total_installs as nat) == installs_total(self@.events, r@[t].app_id@) by {
                assert(((r@[t]).dau_today as nat) == dau_on(sv, r@[t].app_id@, today as int));
                assert(((r@[t]).total_installs as nat) == installs_total(sv, r@[t].app_id@));
            }
            assert forall|k1: int, k2: int|
                0 <= k1 < k2 < r@.len() implies lex_lt(
                (#[trigger] r@[k1]).app_id@,
                (#[trigger] r@[k2]).app_id@,
            ) by {
                assert(r@[k1].app_id@ == ids.deep_view()[k1]);
                assert(r@[k2].app_id@ == ids.deep_view()[k2]);
            }
            assert forall|k1: int, k2: int|
                0 <= k1 < k2 < r@.len() implies (#[trigger] r@[k1]).app_id@ != (
            #[trigger] r@[k2]).app_id@ by {
                lemma_lex_lt_ne(r@[k1].app_id@, r@[k2].app_id@);
            }
            assert forall|i2: int| 0 <= i2 < self@.events.len() implies listed(
                r@,
                (#[trigger] self@.events[i2]).app_id,
            ) by {
                assert(ids.deep_view().contains(sv[i2].app_id));
                let t0 = choose|t: int|
                    0 <= t < ids.deep_view().len() && ids.deep_view()[t] == sv[i2].app_id;
                assert(0 <= t0 < r@.len());
                assert(r@[t0].app_id@ == self@.events[i2].app_id);
            }
        }
        r
    }
}

} // verus!
