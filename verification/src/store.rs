//! The append-only event store: usage events and feedback submissions.
//!
//! Both logs are append-only: a row is never updated or deleted. Row ids are
//! assigned by the store and increase by one per append, starting at 1.
//! `event_date` is derived from `created_at` at append time: it is the day
//! number (days since the Unix epoch) of the moment of the call.

use vstd::prelude::*;

verus! {

/// Seconds in one calendar day; `event_date` is `created_at / SECONDS_PER_DAY`.
pub const SECONDS_PER_DAY: i64 = 86400;

/// One usage event. `properties` is an opaque serialized document: it is
/// stored verbatim and never interpreted by any aggregation.
pub struct Event {
    pub id: u64,
    pub app_id: String,
    pub event: String,
    pub user_id: String,
    pub properties: String,
    pub created_at: i64,
    pub event_date: i64,
}

/// One feedback submission. `user_id` and `contact` are optional.
pub struct Feedback {
    pub id: u64,
    pub app_id: String,
    pub content: String,
    pub user_id: Option<String>,
    pub contact: Option<String>,
    pub properties: String,
    pub created_at: i64,
}

/// Mathematical model of one event: strings as character sequences,
/// numbers as unbounded integers.
#[verifier::ext_equal]
pub ghost struct EventView {
    pub id: int,
    pub app_id: Seq<char>,
    pub event: Seq<char>,
    pub user_id: Seq<char>,
    pub properties: Seq<char>,
    pub created_at: int,
    pub event_date: int,
}

/// Mathematical model of one feedback row.
#[verifier::ext_equal]
pub ghost struct FeedbackView {
    pub id: int,
    pub app_id: Seq<char>,
    pub content: Seq<char>,
    pub user_id: Option<Seq<char>>,
    pub contact: Option<Seq<char>>,
    pub properties: Seq<char>,
    pub created_at: int,
}

impl View for Event {
    type V = EventView;

    open spec fn view(&self) -> EventView {
        EventView {
            id: self.id as int,
            app_id: self.app_id@,
            event: self.event@,
            user_id: self.user_id@,
            properties: self.properties@,
            created_at: self.created_at as int,
            event_date: self.event_date as int,
        }
    }
}

impl DeepView for Event {
    type V = EventView;

    open spec fn deep_view(&self) -> EventView {
        self.view()
    }
}

impl View for Feedback {
    type V = FeedbackView;

    open spec fn view(&self) -> FeedbackView {
        FeedbackView {
            id: self.id as int,
            app_id: self.app_id@,
            content: self.content@,
            user_id: self.user_id.deep_view(),
            contact: self.contact.deep_view(),
            properties: self.properties@,
            created_at: self.created_at as int,
        }
    }
}

impl DeepView for Feedback {
    type V = FeedbackView;

    open spec fn deep_view(&self) -> FeedbackView {
        self.view()
    }
}

/// Mathematical model of the whole store: the two logs, in append order.
#[verifier::ext_equal]
pub ghost struct StoreView {
    pub events: Seq<EventView>,
    pub feedbacks: Seq<FeedbackView>,
}

/// Well-formedness of one event at log position `i`.
pub open spec fn event_wf(e: EventView, i: int) -> bool {
    &&& e.id == i + 1
    &&& 0 <= e.created_at
    &&& e.event_date == e.created_at / (SECONDS_PER_DAY as int)
}

/// Well-formedness of one feedback row at log position `i`.
pub open spec fn feedback_wf(f: FeedbackView, i: int) -> bool {
    &&& f.id == i + 1
    &&& 0 <= f.created_at
}

impl StoreView {
    /// The store invariant: ids are consecutive from 1, timestamps are
    /// non-negative, every event's date is the calendar day of its timestamp,
    /// and feedback timestamps never decrease along the log.
    pub open spec fn wf(self) -> bool {
        &&& forall|i: int|
            0 <= i < self.events.len() ==> event_wf(#[trigger] self.events[i], i)
        &&& forall|i: int|
            0 <= i < self.feedbacks.len() ==> feedback_wf(#[trigger] self.feedbacks[i], i)
        &&& forall|i: int, j: int|
            0 <= i <= j < self.feedbacks.len() ==> (#[trigger] self.feedbacks[i]).created_at
                <= (#[trigger] self.feedbacks[j]).created_at
    }
}

/// The append-only store of events and feedback.
pub struct EventStore {
    pub events: Vec<Event>,
    pub feedbacks: Vec<Feedback>,
}

impl View for EventStore {
    type V = StoreView;

    open spec fn view(&self) -> StoreView {
        StoreView { events: self.events.deep_view(), feedbacks: self.feedbacks.deep_view() }
    }
}

impl EventStore {
    /// A fresh store with both logs empty.
    pub fn new() -> (s: EventStore)
        ensures
            s@.wf(),
            s@.events.len() == 0,
            s@.feedbacks.len() == 0,
    {
        EventStore { events: Vec::new(), feedbacks: Vec::new() }
    }

    /// Appends one immutable event row. `now_secs` is the current time in
    /// seconds since the Unix epoch; the row's `event_date` is derived from
    /// it at the moment of the call. Empty strings are accepted verbatim:
    /// input validation is the gateway's job, not the store's.
    pub fn append_event(
        &mut self,
        app_id: String,
        event: String,
        user_id: String,
        properties: String,
        now_secs: i64,
    )
        requires
            old(self)@.wf(),
            0 <= now_secs,
            old(self)@.events.len() < usize::MAX,
        ensures
            final(self)@.wf(),
            final(self)@.events == old(self)@.events.push(
                (EventView {
                    id: old(self)@.events.len() as int + 1,
                    app_id: app_id@,
                    event: event@,
                    user_id: user_id@,
                    properties: properties@,
                    created_at: now_secs as int,
                    event_date: now_secs as int / (SECONDS_PER_DAY as int),
                }),
            ),
            final(self)@.feedbacks == old(self)@.feedbacks,
    {
        let id: u64 = (self.events.len() as u64) + 1;
        let event_date: i64 = now_secs / SECONDS_PER_DAY;
        let row = Event { id, app_id, event, user_id, properties, created_at: now_secs, event_date };
        let ghost prev = self@.events;
        self.events.push(row);
        proof {
            assert(self@.events =~~= prev.push(
                (EventView {
                    id: prev.len() as int + 1,
                    app_id: self.events@[prev.len() as int].app_id@,
                    event: self.events@[prev.len() as int].event@,
                    user_id: self.events@[prev.len() as int].user_id@,
                    properties: self.events@[prev.len() as int].properties@,
                    created_at: now_secs as int,
                    event_date: now_secs as int / (SECONDS_PER_DAY as int),
                }),
            ));
        }
    }

    /// Appends one immutable feedback row. `now_secs` must not run backwards
    /// across feedback submissions: the store's clock is monotone, as a
    /// database's insert timestamp would be. That is what keeps the feedback
    /// log ordered by creation time, and so the newest-first feedback page
    /// equal to reverse log order.
    pub fn append_feedback(
        &mut self,
        app_id: String,
        content: String,
        user_id: Option<String>,
        contact: Option<String>,
        properties: String,
        now_secs: i64,
    )
        requires
            old(self)@.wf(),
            0 <= now_secs,
            old(self)@.feedbacks.len() < usize::MAX,
            forall|i: int|
                0 <= i < old(self)@.feedbacks.len() ==> (#[trigger] old(
                    self,
                )@.feedbacks[i]).created_at <= now_secs,
        ensures
            final(self)@.wf(),
            final(self)@.feedbacks == old(self)@.feedbacks.push(
                (FeedbackView {
                    id: old(self)@.feedbacks.len() as int + 1,
                    app_id: app_id@,
                    content: content@,
                    user_id: user_id.deep_view(),
                    contact: contact.deep_view(),
                    properties: properties@,
                    created_at: now_secs as int,
                }),
            ),
            final(self)@.events == old(self)@.events,
    {
        let id: u64 = (self.feedbacks.len() as u64) + 1;
        let ghost prev = self@.feedbacks;
        let ghost uv = user_id.deep_view();
        let ghost cv = contact.deep_view();
        let row = Feedback {
            id,
            app_id,
            content,
            user_id,
            contact,
            properties,
            created_at: now_secs,
        };
        self.feedbacks.push(row);
        proof {
            assert(self@.feedbacks =~~= prev.push(
                (FeedbackView {
                    id: prev.len() as int + 1,
                    app_id: self.feedbacks@[prev.len() as int].app_id@,
                    content: self.feedbacks@[prev.len() as int].content@,
                    user_id: uv,
                    contact: cv,
                    properties: self.feedbacks@[prev.len() as int].properties@,
                    created_at: now_secs as int,
                }),
            ));
            assert forall|i: int, j: int| 0 <= i <= j < self@.feedbacks.len() implies (
            #[trigger] self@.feedbacks[i]).created_at <= (#[trigger] self@.feedbacks[j]).created_at by {
                if j < prev.len() {
                } else {
                    assert(self@.feedbacks[j].created_at == now_secs as int);
                    if i < prev.len() {
                        assert(prev[i].created_at <= now_secs as int);
                    }
                }
            }
            assert(feedback_wf(self@.feedbacks[prev.len() as int], prev.len() as int));
            assert(forall|i: int|
                0 <= i < self@.feedbacks.len() ==> feedback_wf(#[trigger] self@.feedbacks[i], i));
            assert(self@.events == old(self)@.events);
            assert(forall|i: int|
                0 <= i < self@.events.len() ==> event_wf(#[trigger] self@.events[i], i));
        }
    }
}

} // verus!
