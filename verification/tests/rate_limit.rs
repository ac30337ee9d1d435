use vio_api::routes::key::{ApiKey, KeyRejection, REQUEST_LIMIT};
use vio_api::routes::ratelimiter::{RequestCount, WINDOW_NANOS};

const T0: i128 = 1_700_000_000_000_000_000;

#[test]
fn counts_requests_of_the_last_minute() {
    let mut c = RequestCount::new();
    assert_eq!(c.increment_at("k", T0), 1);
    assert_eq!(c.increment_at("k", T0), 2);
    assert_eq!(c.increment_at("k", T0 + 1), 3);
    // Other keys have their own counts.
    assert_eq!(c.increment_at("j", T0 + 1), 1);
    // One nanosecond short of a minute after T0 the first requests still count.
    assert_eq!(c.increment_at("k", T0 + WINDOW_NANOS - 1), 4);
    // A minute after T0 the two requests made at T0 no longer count.
    assert_eq!(c.increment_at("k", T0 + WINDOW_NANOS), 3);
    // Long after, only the new request counts.
    assert_eq!(c.increment_at("k", T0 + 10 * WINDOW_NANOS), 1);
    assert_eq!(c.counts.get("k").unwrap(), &vec![T0 + 10 * WINDOW_NANOS]);
    assert_eq!(c.increment_at("j", T0 + 2), 2);
}

#[test]
fn record_holds_only_the_last_minute() {
    let mut c = RequestCount::new();
    for i in 0..5i128 {
        c.increment_at("k", T0 + i * 20_000_000_000);
    }
    // Requests at 0s, 20s, 40s, 60s, 80s: at 80s those at 40s, 60s and 80s count.
    assert_eq!(
        c.counts.get("k").unwrap(),
        &vec![T0 + 40_000_000_000, T0 + 60_000_000_000, T0 + 80_000_000_000]
    );
}

#[test]
fn none_after_detects_a_clock_behind() {
    let mut c = RequestCount::new();
    assert!(c.none_after("k", 0));
    c.increment_at("k", T0);
    assert!(c.none_after("k", T0));
    assert!(!c.none_after("k", T0 - 1));
    assert!(c.none_after("other", 0));
}

#[test]
fn increment_reads_the_clock() {
    let mut c = RequestCount::new();
    assert_eq!(c.increment("k"), Some(1));
    assert_eq!(c.increment("k"), Some(2));
    // A request recorded in the far future puts the clock behind it.
    let mut d = RequestCount::new();
    d.increment_at("k", i128::MAX);
    assert_eq!(d.increment("k"), None);
    assert_eq!(d.counts.get("k").unwrap(), &vec![i128::MAX]);
}

#[test]
fn missing_or_unknown_keys_are_unauthorized() {
    let mut c = RequestCount::new();
    let r = ApiKey::from_request_at(None, false, "admin", &mut c, T0);
    assert_eq!(r.err(), Some(KeyRejection::Unauthorized));
    let r = ApiKey::from_request_at(Some("k"), false, "admin", &mut c, T0);
    assert_eq!(r.err(), Some(KeyRejection::Unauthorized));
    assert_eq!(c.counts.len(), 0);
    assert_eq!(KeyRejection::Unauthorized.status_code(), 401);
    assert_eq!(KeyRejection::TooManyRequests.status_code(), 429);
}

#[test]
fn admin_key_is_never_limited() {
    let mut c = RequestCount::new();
    for _ in 0..200 {
        let r = ApiKey::from_request_at(Some("admin"), true, "admin", &mut c, T0);
        assert_eq!(r.ok().unwrap().value(), "admin");
    }
    assert_eq!(c.counts.len(), 0);
}

#[test]
fn sixty_requests_a_minute_are_admitted() {
    let mut c = RequestCount::new();
    for i in 0..REQUEST_LIMIT {
        let r = ApiKey::from_request_at(Some("k"), true, "admin", &mut c, T0 + i as i128);
        assert_eq!(r.ok().unwrap().value(), "k");
    }
    let r = ApiKey::from_request_at(Some("k"), true, "admin", &mut c, T0 + 100);
    assert_eq!(r.err(), Some(KeyRejection::TooManyRequests));
    // Refused requests count too.
    let r = ApiKey::from_request_at(Some("k"), true, "admin", &mut c, T0 + 101);
    assert_eq!(r.err(), Some(KeyRejection::TooManyRequests));
    // A minute after the first 60 requests the key is admitted again.
    let r = ApiKey::from_request_at(Some("k"), true, "admin", &mut c, T0 + 100 + WINDOW_NANOS);
    assert!(r.is_ok());
}

#[test]
fn from_request_uses_the_clock() {
    let mut c = RequestCount::new();
    let r = ApiKey::from_request(Some("k"), true, "admin", &mut c).unwrap();
    assert_eq!(r.ok().unwrap().value(), "k");
    let r = ApiKey::from_request(None, true, "admin", &mut c).unwrap();
    assert_eq!(r.err(), Some(KeyRejection::Unauthorized));
    let mut d = RequestCount::new();
    d.increment_at("k", i128::MAX);
    assert!(ApiKey::from_request(Some("k"), true, "admin", &mut d).is_none());
    assert!(ApiKey::from_request(Some("admin"), true, "admin", &mut d).unwrap().is_ok());
}

#[test]
fn no_minute_admits_more_than_the_limit() {
    // A request every quarter second for three minutes.
    let step: i128 = 250_000_000;
    let mut c = RequestCount::new();
    let mut times = Vec::new();
    let mut admitted = Vec::new();
    for i in 0..720i128 {
        let t = T0 + i * step;
        let r = ApiKey::from_request_at(Some("k"), true, "admin", &mut c, t);
        times.push(t);
        admitted.push(r.is_ok());
    }
    for &end in &times {
        let n = times
            .iter()
            .zip(&admitted)
            .filter(|(t, ok)| **ok && end - WINDOW_NANOS < **t && **t <= end)
            .count();
        assert!(n <= REQUEST_LIMIT as usize);
    }
    assert_eq!(admitted.iter().take(60).filter(|ok| **ok).count(), 60);
    assert!(!admitted[60]);
}

#[test]
fn increment_checked_refuses_a_time_before_the_record() {
    let mut c = RequestCount::new();
    assert_eq!(c.increment_checked("k", T0), Some(1));
    assert_eq!(c.increment_checked("k", T0 - 1), None);
    assert_eq!(c.counts.get("k").unwrap(), &vec![T0]);
    assert_eq!(c.increment_checked("k", T0), Some(2));
    assert_eq!(c.increment_checked("j", T0 - 1), Some(1));
    assert_eq!(c.increment_checked("k", T0 + WINDOW_NANOS), Some(1));
}

#[test]
fn from_request_counts_a_key_without_record() {
    let mut c = RequestCount::new();
    let r = ApiKey::from_request(Some("k"), true, "admin", &mut c);
    assert_eq!(r.unwrap().ok().unwrap().value(), "k");
    assert_eq!(c.counts.get("k").unwrap().len(), 1);
}
