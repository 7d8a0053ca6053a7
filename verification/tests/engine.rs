use appscope::store::EventStore;

const DAY: i64 = 86400;

fn store() -> EventStore {
    EventStore::new()
}

fn open(s: &mut EventStore, app: &str, user: &str, day: i64) {
    s.append_event(
        app.to_string(),
        "open".to_string(),
        user.to_string(),
        "{}".to_string(),
        day * DAY,
    );
}

fn install(s: &mut EventStore, app: &str, user: &str, day: i64) {
    s.append_event(
        app.to_string(),
        "install".to_string(),
        user.to_string(),
        "{}".to_string(),
        day * DAY,
    );
}

#[test]
fn idempotent_read() {
    let mut s = store();
    open(&mut s, "a", "u1", 100);
    open(&mut s, "a", "u2", 100);
    install(&mut s, "a", "u1", 100);
    let d1 = s.get_dau("a", 30, 100);
    let d2 = s.get_dau("a", 30, 100);
    assert_eq!(d1.len(), d2.len());
    for k in 0..d1.len() {
        assert_eq!(d1[k].date, d2[k].date);
        assert_eq!(d1[k].dau, d2[k].dau);
    }
    let (t1, i1) = s.get_installs("a", 30, 100);
    let (t2, i2) = s.get_installs("a", 30, 100);
    assert_eq!(t1, t2);
    assert_eq!(i1.len(), i2.len());
    let r1 = s.get_retention("a", 100);
    let r2 = s.get_retention("a", 100);
    assert_eq!(r1.len(), r2.len());
    let f1 = s.get_feedback("a", 10);
    let f2 = s.get_feedback("a", 10);
    assert_eq!(f1.len(), f2.len());
}

#[test]
fn append_only_integrity_distinct_users() {
    let mut s = store();
    open(&mut s, "a", "u1", 100);
    let d = s.get_dau("a", 30, 100);
    assert_eq!(d.len(), 1);
    assert_eq!(d[0].date, 100);
    assert_eq!(d[0].dau, 1);
    open(&mut s, "a", "u1", 100);
    let d = s.get_dau("a", 30, 100);
    assert_eq!(d.len(), 1);
    assert_eq!(d[0].dau, 1);
    open(&mut s, "a", "u2", 100);
    let d = s.get_dau("a", 30, 100);
    assert_eq!(d[0].dau, 2);
}

#[test]
fn other_event_names_change_nothing() {
    let mut s = store();
    open(&mut s, "a", "u1", 100);
    install(&mut s, "a", "u1", 100);
    let dau_before = s.get_dau("a", 30, 100);
    let (tot_before, inst_before) = s.get_installs("a", 30, 100);
    s.append_event(
        "a".to_string(),
        "click".to_string(),
        "u1".to_string(),
        "{}".to_string(),
        100 * DAY,
    );
    let dau_after = s.get_dau("a", 30, 100);
    let (tot_after, inst_after) = s.get_installs("a", 30, 100);
    assert_eq!(dau_before.len(), dau_after.len());
    assert_eq!(dau_before[0].dau, dau_after[0].dau);
    assert_eq!(tot_before, tot_after);
    assert_eq!(inst_before.len(), inst_after.len());
    assert_eq!(inst_before[0].installs, inst_after[0].installs);
}

#[test]
fn retention_cohort_day1_full() {
    let mut s = store();
    open(&mut s, "a", "u1", 100);
    open(&mut s, "a", "u1", 101);
    let r = s.get_retention("a", 102);
    assert_eq!(r.len(), 1);
    assert_eq!(r[0].cohort_date, 100);
    assert_eq!(r[0].day0, 1);
    assert_eq!(r[0].day1, Some(1000));
    assert_eq!(r[0].day7, Some(0));
    assert_eq!(r[0].day30, Some(0));
}

#[test]
fn retention_rounding_one_third() {
    let mut s = store();
    open(&mut s, "a", "u1", 100);
    open(&mut s, "a", "u2", 100);
    open(&mut s, "a", "u3", 100);
    open(&mut s, "a", "u1", 101);
    let r = s.get_retention("a", 105);
    assert_eq!(r.len(), 1);
    assert_eq!(r[0].day0, 3);
    assert_eq!(r[0].day1, Some(333));
}

#[test]
fn empty_application_behavior() {
    let mut s = store();
    open(&mut s, "a", "u1", 100);
    assert_eq!(s.get_dau("nonexistent-app", 30, 100).len(), 0);
    let (total, points) = s.get_installs("nonexistent-app", 30, 100);
    assert_eq!(total, 0);
    assert_eq!(points.len(), 0);
    assert_eq!(s.get_retention("nonexistent-app", 100).len(), 0);
    assert_eq!(s.get_feedback("nonexistent-app", 50).len(), 0);
}

#[test]
fn window_boundary_inclusive() {
    let mut s = store();
    open(&mut s, "a", "u1", 92);
    open(&mut s, "a", "u2", 93);
    open(&mut s, "a", "u3", 100);
    let d = s.get_dau("a", 7, 100);
    assert_eq!(d.len(), 2);
    assert_eq!(d[0].date, 93);
    assert_eq!(d[1].date, 100);
}

#[test]
fn feedback_ordering_newest_first() {
    let mut s = store();
    s.append_feedback(
        "a".to_string(),
        "first".to_string(),
        None,
        None,
        "{}".to_string(),
        1000,
    );
    s.append_feedback(
        "a".to_string(),
        "second".to_string(),
        Some("u".to_string()),
        None,
        "{}".to_string(),
        2000,
    );
    s.append_feedback(
        "a".to_string(),
        "third".to_string(),
        None,
        Some("c@example.com".to_string()),
        "{}".to_string(),
        3000,
    );
    let f = s.get_feedback("a", 2);
    assert_eq!(f.len(), 2);
    assert_eq!(f[0].content, "third");
    assert_eq!(f[1].content, "second");
    let all = s.get_feedback("a", 50);
    assert_eq!(all.len(), 3);
    assert_eq!(all[2].content, "first");
    assert_eq!(s.get_feedback("a", 0).len(), 0);
    assert_eq!(s.get_feedback("a", -1).len(), 0);
}

#[test]
fn installs_total_ignores_window() {
    let mut s = store();
    install(&mut s, "a", "u1", 10);
    install(&mut s, "a", "u2", 100);
    let (total, points) = s.get_installs("a", 7, 100);
    assert_eq!(total, 2);
    assert_eq!(points.len(), 1);
    assert_eq!(points[0].date, 100);
    assert_eq!(points[0].installs, 1);
}

#[test]
fn list_applications_sorted_with_counts() {
    let mut s = store();
    open(&mut s, "c", "u1", 100);
    open(&mut s, "b", "u1", 100);
    open(&mut s, "a", "u1", 100);
    open(&mut s, "b", "u2", 100);
    install(&mut s, "a", "u2", 99);
    let apps = s.list_applications(100);
    assert_eq!(apps.len(), 3);
    assert_eq!(apps[0].app_id, "a");
    assert_eq!(apps[0].dau_today, 1);
    assert_eq!(apps[0].total_installs, 1);
    assert_eq!(apps[1].app_id, "b");
    assert_eq!(apps[1].dau_today, 2);
    assert_eq!(apps[1].total_installs, 0);
    assert_eq!(apps[2].app_id, "c");
    assert_eq!(apps[2].dau_today, 1);
    assert_eq!(apps[2].total_installs, 0);
}

#[test]
fn defaults() {
    assert_eq!(appscope::models::default_days(), 30);
    assert_eq!(appscope::models::default_limit(), 50);
}

#[test]
fn event_date_derived_from_timestamp() {
    let mut s = store();
    s.append_event(
        "a".to_string(),
        "open".to_string(),
        "u1".to_string(),
        "{}".to_string(),
        100 * DAY + 86399,
    );
    let d = s.get_dau("a", 1, 100);
    assert_eq!(d.len(), 1);
    assert_eq!(d[0].date, 100);
}
