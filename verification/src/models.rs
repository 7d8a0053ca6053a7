//! The request and response shapes of the narrow boundary the gateways
//! consume: query parameter bundles with their documented defaults, and
//! the envelopes the dashboard receives.

use vstd::prelude::*;

use crate::apps::AppInfo;
use crate::feedback::FeedbackData;
use crate::retention::RetentionData;
use crate::series::DauData;
use crate::series::InstallData;

verus! {

/// A request to record one event.
pub struct TrackEventRequest {
    pub app_id: String,
    pub event: String,
    pub user_id: String,
    pub properties: String,
}

/// A request to record one feedback submission.
pub struct FeedbackRequest {
    pub app_id: String,
    pub content: String,
    pub user_id: Option<String>,
    pub contact: Option<String>,
    pub properties: String,
}

/// Parameters of a daily-active-user query.
pub struct DauQuery {
    pub app_id: String,
    pub days: i32,
}

/// Parameters of a retention query.
pub struct RetentionQuery {
    pub app_id: String,
    pub start_date: Option<String>,
}

/// Parameters of an install query.
pub struct InstallsQuery {
    pub app_id: String,
    pub days: i32,
}

/// Parameters of a feedback query.
pub struct FeedbackQuery {
    pub app_id: String,
    pub limit: i32,
}

/// The trailing window, in days, used when a query names none.
pub fn default_days() -> (d: i32)
    ensures
        d == 30,
{
    30
}

/// The page size used when a feedback query names none.
pub fn default_limit() -> (l: i32)
    ensures
        l == 50,
{
    50
}

/// Acknowledgement of a successful write.
pub struct SuccessResponse {
    pub success: bool,
}

/// The application listing envelope.
pub struct AppsResponse {
    pub apps: Vec<AppInfo>,
}

/// The daily-active-user series envelope.
pub struct DauResponse {
    pub data: Vec<DauData>,
}

/// The retention table envelope.
pub struct RetentionResponse {
    pub data: Vec<RetentionData>,
}

/// The install series envelope: the all-time total beside the windowed series.
pub struct InstallsResponse {
    pub total: u64,
    pub data: Vec<InstallData>,
}

/// The feedback page envelope.
pub struct FeedbacksResponse {
    pub data: Vec<FeedbackData>,
}

} // verus!
