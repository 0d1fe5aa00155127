use hulasync::calllog::{
    bootstrap_lag, new_hula_call_log, new_odoo_call_log, retention_cutoff, startup, HulaCallLog,
    OdooCallLog, RETENTION_SECS,
};
use hulasync::time::{Timestamp, SECS_PER_DAY};

fn call_row(ok: bool, marker: &str, at: u64) -> OdooCallLog {
    new_odoo_call_log(
        "odoo_get".to_string(),
        Some("url".to_string()),
        Some("db".to_string()),
        Some("uid".to_string()),
        Some("pw".to_string()),
        Some(marker.to_string()),
        None,
        ok,
        Some("[]".to_string()),
        Timestamp::new(at),
    )
}

fn hula_row(at: u64) -> HulaCallLog {
    new_hula_call_log(
        None,
        7,
        "http://hula/api/projectstructures".to_string(),
        "POST".to_string(),
        "{}".to_string(),
        200,
        "ok".to_string(),
        Timestamp::new(at),
    )
}

#[test]
fn lag_is_elapsed_minutes_plus_margin() {
    // One successful full-fetch row ten minutes ago, same day: lag is 12.
    let now = Timestamp::new(1000 * SECS_PER_DAY + 3600);
    let row_at = now.secs - 600;
    let rows = vec![call_row(true, "", row_at)];
    let outcome = startup(rows, Vec::new(), now);
    assert_eq!(outcome.lag, Some(12));
}

#[test]
fn empty_call_log_gives_no_lag() {
    let now = Timestamp::new(1000 * SECS_PER_DAY + 3600);
    let outcome = startup(Vec::new(), Vec::new(), now);
    assert_eq!(outcome.lag, None);
    assert!(outcome.odoo_log.is_empty());
    assert!(outcome.hula_log.is_empty());
}

#[test]
fn yesterdays_run_means_full_fetch() {
    // The most recent success was yesterday: no lag, a full fetch is due.
    let now = Timestamp::new(1000 * SECS_PER_DAY + 3600);
    let rows = vec![call_row(true, "", now.secs - SECS_PER_DAY)];
    let outcome = startup(rows, Vec::new(), now);
    assert_eq!(outcome.lag, None);
}

#[test]
fn full_fetch_day_decides_not_incremental_day() {
    // The latest success is an incremental run from today, but the latest
    // full fetch happened yesterday: its day decides, so no lag is returned.
    let now = Timestamp::new(1000 * SECS_PER_DAY + 7200);
    let full_yesterday = call_row(true, "", now.secs - SECS_PER_DAY);
    let incremental_today = call_row(true, "120", now.secs - 600);
    let outcome = startup(vec![full_yesterday, incremental_today], Vec::new(), now);
    assert_eq!(outcome.lag, None);
}

#[test]
fn lag_measured_from_latest_success_not_full_row() {
    // Both a full fetch and a later incremental run happened today: the full
    // row's day lets the incremental window be used, but the lag counts from
    // the most recent success.
    let now = Timestamp::new(1000 * SECS_PER_DAY + 7200);
    let full_today = call_row(true, "", now.secs - 3600);
    let incremental_today = call_row(true, "62", now.secs - 600);
    let outcome = startup(vec![full_today, incremental_today], Vec::new(), now);
    assert_eq!(outcome.lag, Some(12));
}

#[test]
fn failed_rows_are_ignored_for_lag() {
    let now = Timestamp::new(1000 * SECS_PER_DAY + 3600);
    let rows = vec![call_row(false, "", now.secs - 60)];
    let lag = bootstrap_lag(&rows, now);
    assert_eq!(lag, None);
}

#[test]
fn retention_drops_old_rows_and_keeps_recent_ones() {
    // Rows older than seven days are absent after startup; newer ones stay.
    let now = Timestamp::new(1000 * SECS_PER_DAY);
    let stale = call_row(false, "", now.secs - RETENTION_SECS - 1);
    let fresh = call_row(false, "", now.secs - RETENTION_SECS + 5);
    let stale_hula = hula_row(now.secs - RETENTION_SECS - 10);
    let fresh_hula = hula_row(now.secs - 3600);
    let outcome = startup(
        vec![stale, fresh],
        vec![stale_hula, fresh_hula],
        now,
    );
    assert_eq!(outcome.odoo_log.len(), 1);
    assert_eq!(outcome.odoo_log[0].updated_at.secs, now.secs - RETENTION_SECS + 5);
    assert_eq!(outcome.hula_log.len(), 1);
    assert_eq!(outcome.hula_log[0].updated_at.secs, now.secs - 3600);
}

#[test]
fn retention_cutoff_is_seven_days_back() {
    let now = Timestamp::new(10 * RETENTION_SECS);
    let cutoff = retention_cutoff(now);
    assert_eq!(cutoff.secs, 9 * RETENTION_SECS);
    let early = retention_cutoff(Timestamp::new(5));
    assert_eq!(early.secs, 0);
}

#[test]
fn call_log_builder_stores_empty_for_absent_parameters() {
    let row = call_row(true, "", 123);
    assert_eq!(row.script, "odoo_get");
    assert_eq!(row.param5.as_deref(), Some(""));
    assert_eq!(row.param6.as_deref(), Some(""));
    assert_eq!(row.updated_by, "hulasync");
    assert_eq!(row.updated_at.secs, 123);
    assert!(row.ok);
    assert_eq!(row.id.len(), 36);
}

#[test]
fn hula_call_log_builder_keeps_fields() {
    let row = hula_row(55);
    assert_eq!(row.hula_id, None);
    assert_eq!(row.odoo_id, 7);
    assert_eq!(row.verb, "POST");
    assert_eq!(row.status, 200);
    assert_eq!(row.updated_by, "hulasync");
    assert_eq!(row.updated_at.secs, 55);
}

#[test]
fn same_day_follows_day_numbers() {
    let morning = Timestamp::new(500 * SECS_PER_DAY + 10);
    let evening = Timestamp::new(500 * SECS_PER_DAY + 86000);
    let next_day = Timestamp::new(501 * SECS_PER_DAY + 10);
    assert!(morning.same_day(&evening));
    assert!(!morning.same_day(&next_day));
    assert_eq!(morning.day(), 500);
}
