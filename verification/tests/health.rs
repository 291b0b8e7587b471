use postgrest::health::{
    init, note_check, now, record, record_at, report, seconds_or_zero, update_updater, ErrorLog,
    UpdaterStatus, MAX_ERRORS,
};

#[test]
fn a_fresh_service_has_nothing_to_report() {
    let health = init();
    let r = report(&health, "0.1.0", 3);
    assert_eq!(r.version, "0.1.0");
    assert_eq!(r.uptime_secs, 3);
    assert!(r.errors.is_empty());
    assert!(!r.updater.enabled);
    assert_eq!(r.updater.last_check, None);
    assert_eq!(r.updater.latest_release, None);
    assert_eq!(r.updater.last_error, None);
}

#[test]
fn the_log_keeps_the_latest_failures() {
    let mut health = init();
    for i in 0..(MAX_ERRORS as u64 + 7) {
        record_at(
            &mut health.errors,
            i,
            "proxy",
            "timeout",
            Some(format!("h{}", i)),
            Some("57014".to_string()),
        );
    }
    assert_eq!(health.errors.len(), 50);
    let r = report(&health, "0.1.0", 0);
    let times: Vec<u64> = r.errors.iter().map(|e| e.at).collect();
    assert_eq!(times, (7..57).collect::<Vec<u64>>());
    let last = &r.errors[49];
    assert_eq!(last.source, "proxy");
    assert_eq!(last.kind, "timeout");
    assert_eq!(last.host, Some("h56".to_string()));
    assert_eq!(last.code, Some("57014".to_string()));
}

#[test]
fn a_failure_is_noted_with_the_current_time() {
    let mut log = ErrorLog::new();
    let before = std::time::SystemTime::now()
        .duration_since(std::time::UNIX_EPOCH)
        .unwrap()
        .as_secs();
    record(&mut log, "updater", "download failed", None, None);
    let after = now();
    assert_eq!(log.len(), 1);
    let at = log.get(0).at;
    assert!(before <= at && at <= after);
    assert!(at > 1_600_000_000);
}

#[test]
fn a_clock_before_the_epoch_shows_zero() {
    assert_eq!(seconds_or_zero(None), 0);
    assert_eq!(seconds_or_zero(Some(12)), 12);
}

#[test]
fn updater_changes_are_shown() {
    let mut s = UpdaterStatus::default();
    s.enabled = true;
    note_check(&mut s, 4, Ok("v1.0.0".to_string()));
    assert_eq!(s.last_check, Some(4));
    assert_eq!(s.latest_release, Some("v1.0.0".to_string()));
    assert_eq!(s.last_error, None);
    note_check(&mut s, 5, Err("release check failed"));
    assert!(s.enabled);
    assert_eq!(s.last_check, Some(5));
    assert_eq!(s.latest_release, Some("v1.0.0".to_string()));
    assert_eq!(s.last_error, Some("release check failed"));
    note_check(&mut s, 6, Ok("v1.0.1".to_string()));
    assert_eq!(s.last_error, None);
}

#[test]
fn an_update_is_made_once_and_can_be_joined_with_another() {
    let mut calls = 0;
    let mut two = init();
    record_at(&mut two.errors, 1, "proxy", "timeout", None, None);
    update_updater(&mut two, |u| {
        calls += 1;
        assert!(!u.enabled);
        u.enabled = true;
    });
    update_updater(&mut two, |u| note_check(u, 3, Err("download failed")));
    assert_eq!(calls, 1);
    assert_eq!(two.errors.len(), 1);

    let mut one = init();
    update_updater(&mut one, |u| {
        u.enabled = true;
        note_check(u, 3, Err("download failed"));
    });
    assert!(one.updater.enabled && two.updater.enabled);
    assert_eq!(one.updater.last_check, two.updater.last_check);
    assert_eq!(one.updater.last_error, Some("download failed"));
    assert_eq!(two.updater.last_error, Some("download failed"));
}
