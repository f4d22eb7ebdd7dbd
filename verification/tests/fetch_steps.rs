//! The redirect-following decision protocol.

use rssss::fetch::{FetchStep, RedirectTracker, REDIRECT_LIMIT};

#[test]
fn success_delivers_immediately() {
    let mut t = RedirectTracker::new(REDIRECT_LIMIT);
    assert!(matches!(t.next_fetch_step(200, None), FetchStep::ReadBody));
    assert_eq!(t.followed, 0);
}

#[test]
fn three_redirects_then_success() {
    let mut t = RedirectTracker::new(REDIRECT_LIMIT);
    for hop in ["http://a", "http://b", "http://c"] {
        match t.next_fetch_step(301, Some(hop.to_string())) {
            FetchStep::Follow { url } => assert_eq!(url, hop),
            other => panic!("expected a follow, got {:?}", step_name(&other)),
        }
    }
    assert!(matches!(t.next_fetch_step(200, None), FetchStep::ReadBody));
    assert_eq!(t.followed, 3);
}

#[test]
fn fourth_redirect_hits_the_limit() {
    let mut t = RedirectTracker::new(REDIRECT_LIMIT);
    for _ in 0..3 {
        assert!(matches!(
            t.next_fetch_step(302, Some("http://next".to_string())),
            FetchStep::Follow { .. }
        ));
    }
    assert!(matches!(
        t.next_fetch_step(302, Some("http://next".to_string())),
        FetchStep::RedirectLimit
    ));
}

#[test]
fn missing_location_fails_immediately() {
    let mut t = RedirectTracker::new(REDIRECT_LIMIT);
    assert!(matches!(
        t.next_fetch_step(301, None),
        FetchStep::MissingLocation
    ));
    assert_eq!(t.followed, 0);
}

#[test]
fn missing_location_fails_with_budget_left() {
    let mut t = RedirectTracker::new(REDIRECT_LIMIT);
    assert!(matches!(
        t.next_fetch_step(301, Some("http://a".to_string())),
        FetchStep::Follow { .. }
    ));
    assert!(matches!(
        t.next_fetch_step(307, None),
        FetchStep::MissingLocation
    ));
}

#[test]
fn other_statuses_are_echoed() {
    let mut t = RedirectTracker::new(REDIRECT_LIMIT);
    match t.next_fetch_step(404, None) {
        FetchStep::Echo { status } => assert_eq!(status, 404),
        other => panic!("expected an echo, got {:?}", step_name(&other)),
    }
    match t.next_fetch_step(500, None) {
        FetchStep::Echo { status } => assert_eq!(status, 500),
        other => panic!("expected an echo, got {:?}", step_name(&other)),
    }
}

fn step_name(s: &FetchStep) -> &'static str {
    match s {
        FetchStep::ReadBody => "ReadBody",
        FetchStep::Follow { .. } => "Follow",
        FetchStep::RedirectLimit => "RedirectLimit",
        FetchStep::MissingLocation => "MissingLocation",
        FetchStep::Echo { .. } => "Echo",
    }
}
