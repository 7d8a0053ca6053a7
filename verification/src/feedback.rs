//! The feedback listing: the most recent feedback rows of one application,
//! newest first.
//!
//! A non-positive `limit` yields the empty page (this pins down a boundary
//! the storage layer would otherwise leave open). Rows are returned in
//! reverse log order, which under the store invariant is descending
//! creation time.

use vstd::prelude::*;

use crate::store::EventStore;
use crate::store::FeedbackView;

verus! {

/// One row of a feedback page, as handed to the dashboard: the stored row
/// without its application key and opaque properties.
pub struct FeedbackData {
    pub id: u64,
    pub content: String,
    pub user_id: Option<String>,
    pub contact: Option<String>,
    pub created_at: i64,
}

/// Mathematical model of one page row.
#[verifier::ext_equal]
pub ghost struct FeedbackDataView {
    pub id: int,
    pub content: Seq<char>,
    pub user_id: Option<Seq<char>>,
    pub contact: Option<Seq<char>>,
    pub created_at: int,
}

impl View for FeedbackData {
    type V = FeedbackDataView;

    open spec fn view(&self) -> FeedbackDataView {
        FeedbackDataView {
            id: self.id as int,
            content: self.content@,
            user_id: self.user_id.deep_view(),
            contact: self.contact.deep_view(),
            created_at: self.created_at as int,
        }
    }
}

impl DeepView for FeedbackData {
    type V = FeedbackDataView;

    open spec fn deep_view(&self) -> FeedbackDataView {
        self.view()
    }
}

/// What a stored feedback row looks like on a page.
pub open spec fn data_of(f: FeedbackView) -> FeedbackDataView {
    FeedbackDataView {
        id: f.id,
        content: f.content,
        user_id: f.user_id,
        contact: f.contact,
        created_at: f.created_at,
    }
}

/// The feedback rows of `app` among the first `n` rows, in log order.
pub open spec fn matching_upto(fs: Seq<FeedbackView>, app: Seq<char>, n: int) -> Seq<FeedbackView>
    decreases n,
{
    if n <= 0 {
        Seq::empty()
    } else {
        matching_upto(fs, app, n - 1) + (if fs[n - 1].app_id == app {
            seq![fs[n - 1]]
        } else {
            Seq::empty()
        })
    }
}

/// All feedback rows of `app`, in log order.
pub open spec fn matching(fs: Seq<FeedbackView>, app: Seq<char>) -> Seq<FeedbackView> {
    matching_upto(fs, app, fs.len() as int)
}

/// The page `get_feedback` owes: the rows of `app` in reverse log order
/// (newest first), truncated to `limit`; empty when `limit <= 0`.
pub open spec fn feedback_page(fs: Seq<FeedbackView>, app: Seq<char>, limit: int) -> Seq<
    FeedbackDataView,
> {
    let m = matching(fs, app).reverse().map_values(|f: FeedbackView| data_of(f));
    if limit <= 0 {
        Seq::empty()
    } else if limit < m.len() {
        m.take(limit)
    } else {
        m
    }
}

/// Every matched row is a log row of its app, and the matched rows keep
/// the log's creation-time order.
pub proof fn lemma_matching_from_log(fs: Seq<FeedbackView>, app: Seq<char>, n: int)
    requires
        n <= fs.len(),
    ensures
        forall|k: int| 0 <= k < matching_upto(fs, app, n).len() ==> exists|j: int|
            0 <= j < n && #[trigger] matching_upto(fs, app, n)[k] == fs[j],
        forall|k1: int, k2: int|
            0 <= k1 < k2 < matching_upto(fs, app, n).len() ==> exists|j1: int, j2: int|
                0 <= j1 < j2 < n && #[trigger] matching_upto(fs, app, n)[k1] == fs[j1]
                    && #[trigger] matching_upto(fs, app, n)[k2] == fs[j2],
    decreases n,
{
    if n > 0 {
        lemma_matching_from_log(fs, app, n - 1);
        let m = matching_upto(fs, app, n);
        let mp = matching_upto(fs, app, n - 1);
        assert forall|k: int| 0 <= k < m.len() implies exists|j: int|
            0 <= j < n && #[trigger] m[k] == fs[j] by {
            if k < mp.len() {
                let j = choose|j: int| 0 <= j < n - 1 && #[trigger] mp[k] == fs[j];
                assert(m[k] == fs[j]);
            } else {
                assert(m[k] == fs[n - 1]);
            }
        }
        assert forall|k1: int, k2: int|
            0 <= k1 < k2 < m.len() implies exists|j1: int, j2: int|
            0 <= j1 < j2 < n && #[trigger] m[k1] == fs[j1] && #[trigger] m[k2] == fs[j2] by {
            if k2 < mp.len() {
                let (j1, j2) = choose|j1: int, j2: int|
                    0 <= j1 < j2 < n - 1 && #[trigger] mp[k1] == fs[j1] && #[trigger] mp[k2]
                        == fs[j2];
                assert(m[k1] == fs[j1] && m[k2] == fs[j2]);
            } else {
                let j1 = choose|j: int| 0 <= j < n - 1 && #[trigger] mp[k1] == fs[j];
                assert(m[k1] == fs[j1] && m[k2] == fs[n - 1]);
            }
        }
    }
}

/// Clones an optional string, preserving its value.
fn clone_opt_string(o: &Option<String>) -> (r: Option<String>)
    ensures
        r == *o,
{
    match o {
        None => None,
        Some(s) => Some(s.clone()),
    }
}

impl EventStore {
    /// The `limit` most recent feedback rows of `app_id`, newest first
    /// (reverse log order; by the store invariant, descending creation
    /// time). `limit <= 0` yields the empty page; an app with no feedback
    /// yields the empty page.
    pub fn get_feedback(&self, app_id: &str, limit: i32) -> (r: Vec<FeedbackData>)
        requires
            self@.wf(),
        ensures
            r.deep_view() == feedback_page(self@.feedbacks, app_id@, limit as int),
    {
        let ghost fs = self@.feedbacks;
        let ghost app = app_id@;
        let mut r: Vec<FeedbackData> = Vec::new();
        if limit <= 0 {
            proof {
                assert(r.deep_view() =~~= feedback_page(fs, app, limit as int));
            }
            return r;
        }
        let mut acc: Vec<FeedbackData> = Vec::new();
        let mut i: usize = 0;
        while i < self.feedbacks.len()
            invariant
                i <= self.feedbacks.len(),
                fs == self@.feedbacks,
                app == app_id@,
                acc.deep_view() =~~= matching_upto(fs, app, i as int).map_values(
                    |f: FeedbackView| data_of(f),
                ),
            decreases self.feedbacks.len() - i,
        {
            let f = &self.feedbacks[i];
            let ghost prevdv = acc.deep_view();
            if crate::strcmp::str_eq(f.app_id.as_str(), app_id) {
                let row = FeedbackData {
                    id: f.id,
                    content: f.content.clone(),
                    user_id: clone_opt_string(&f.user_id),
                    contact: clone_opt_string(&f.contact),
                    created_at: f.created_at,
                };
                acc.push(row);
                proof {
                    assert(acc.deep_view() =~~= prevdv.push(data_of(fs[i as int])));
                    assert(matching_upto(fs, app, i as int + 1) =~= matching_upto(
                        fs,
                        app,
                        i as int,
                    ).push(fs[i as int]));
                    assert(acc.deep_view() =~~= matching_upto(fs, app, i as int + 1).map_values(
                        |f: FeedbackView| data_of(f),
                    ));
                }
            } else {
                proof {
                    assert(matching_upto(fs, app, i as int + 1) =~= matching_upto(
                        fs,
                        app,
                        i as int,
                    ));
                }
            }
            i += 1;
        }
        let n = acc.len();
        let ghost m = matching(fs, app).reverse().map_values(|f: FeedbackView| data_of(f));
        proof {
            assert(m.len() == n);
            assert(forall|k: int| 0 <= k < n ==> m[k] == acc.deep_view()[n - 1 - k]);
        }
        let mut k: usize = 0;
        while k < n && k < (limit as usize)
            invariant
                n == acc.len(),
                k <= n,
                0 < limit,
                k <= limit as int,
                m.len() == n,
                forall|k2: int| 0 <= k2 < n ==> m[k2] == acc.deep_view()[n - 1 - k2],
                r.deep_view() =~~= m.take(k as int),
            decreases n - k,
        {
            let idx = n - 1 - k;
            let f = &acc[idx];
            let row = FeedbackData {
                id: f.id,
                content: f.content.clone(),
                user_id: clone_opt_string(&f.user_id),
                contact: clone_opt_string(&f.contact),
                created_at: f.created_at,
            };
            let ghost prevdv = r.deep_view();
            r.push(row);
            proof {
                assert(r.deep_view() =~~= prevdv.push(acc.deep_view()[idx as int]));
                assert(r.deep_view() =~~= m.take(k as int + 1));
            }
            k += 1;
        }
        proof {
            if (limit as int) < m.len() {
                assert(k as int == limit as int);
                assert(r.deep_view() =~~= feedback_page(fs, app, limit as int));
            } else {
                assert(k as int == m.len());
                assert(m.take(k as int) =~~= m);
                assert(r.deep_view() =~~= feedback_page(fs, app, limit as int));
            }
        }
        r
    }
}

} // verus!
