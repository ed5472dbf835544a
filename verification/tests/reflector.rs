use workload_cache::reflector::{with_jitter, Config, Recovery, Reflector, WatchError};

#[test]
fn default_options() {
    let c = Config::default();
    assert_eq!(c.max_owner_depth, 8);
    assert_eq!(c.backoff_initial_ms, 800);
    assert_eq!(c.backoff_max_ms, 30000);
    assert_eq!(c.backoff_jitter_pct, 20);
    assert_eq!(c.watch_idle_timeout_ms, 300000);
    assert!(c.prune_annotations);
    assert!(c.prune_managed_fields);
    assert!(c.is_valid());
}

#[test]
fn invalid_options_give_no_worker() {
    let mut c = Config::default();
    c.backoff_jitter_pct = 101;
    assert!(Reflector::new(c).is_none());
    let mut d = Config::default();
    d.backoff_initial_ms = 40000;
    assert!(Reflector::new(d).is_none());
}

#[test]
fn repeated_version_is_suppressed() {
    let mut r = Reflector::new(Config::default()).unwrap();
    assert!(r.observe("uid-1", "100"));
    assert!(!r.observe("uid-1", "100"));
    assert!(r.observe("uid-1", "101"));
    assert!(r.observe("uid-2", "101"));
    assert!(r.observe("uid-1", "101"));
    assert!(!r.observe("uid-1", "101"));
}

#[test]
fn jitter_formula() {
    assert_eq!(with_jitter(800, 20, 0), 640);
    assert_eq!(with_jitter(800, 20, 20), 800);
    assert_eq!(with_jitter(800, 20, 40), 960);
    assert_eq!(with_jitter(800, 20, 41), 640);
    assert_eq!(with_jitter(1000, 0, 12345), 1000);
    assert_eq!(with_jitter(30000, 100, 200), 60000);
}

#[test]
fn transient_errors_back_off_up_to_the_cap() {
    let mut r = Reflector::new(Config::default()).unwrap();
    let expected = [800u64, 1200, 1800, 2700, 4050, 6075, 9112, 13668, 20502, 30000, 30000];
    for want in expected {
        assert_eq!(r.on_error(WatchError::Transient, 20), Recovery::Retry(want));
    }
    r.recovered();
    assert_eq!(r.on_error(WatchError::Transient, 0), Recovery::Retry(640));
    assert_eq!(r.on_error(WatchError::Transient, 40), Recovery::Retry(1440));
}

#[test]
fn other_errors_relist_or_end_the_worker() {
    let mut r = Reflector::new(Config::default()).unwrap();
    assert_eq!(r.on_error(WatchError::VersionExpired, 7), Recovery::Relist);
    assert_eq!(r.on_error(WatchError::Protocol, 7), Recovery::Relist);
    assert_eq!(r.on_error(WatchError::Denied, 7), Recovery::Fatal);
    assert_eq!(r.on_error(WatchError::UnknownKind, 7), Recovery::Fatal);
    assert_eq!(r.on_error(WatchError::Transient, 20), Recovery::Retry(800));
}

#[test]
fn status_codes_are_classified() {
    assert_eq!(WatchError::from_status(401), WatchError::Denied);
    assert_eq!(WatchError::from_status(403), WatchError::Denied);
    assert_eq!(WatchError::from_status(404), WatchError::UnknownKind);
    assert_eq!(WatchError::from_status(410), WatchError::VersionExpired);
    assert_eq!(WatchError::from_status(500), WatchError::Transient);
    assert_eq!(WatchError::from_status(503), WatchError::Transient);
    assert_eq!(WatchError::from_status(429), WatchError::Transient);
    assert_eq!(WatchError::from_status(400), WatchError::Protocol);
    assert!(WatchError::Denied.is_fatal());
    assert!(WatchError::UnknownKind.is_fatal());
    assert!(!WatchError::Transient.is_fatal());
    assert!(!WatchError::VersionExpired.is_fatal());
}

#[test]
fn silent_watch_is_torn_down_at_the_timeout() {
    let r = Reflector::new(Config::default()).unwrap();
    assert!(!r.idle_expired(299999));
    assert!(r.idle_expired(300000));
}
