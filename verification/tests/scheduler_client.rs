use ixgateway::scheduler_client::{refresh_reply, LeasedWorker, LeasedWorkers};

#[test]
fn lease_then_return_leaves_nothing_held() {
    let mut held = LeasedWorkers::new();
    let id = held.on_lease_reply("t", "ns", "f", 3, "w1", "").unwrap();
    assert_eq!(id, "w1");
    let w = LeasedWorker::new("t", "ns", "f", 3, "w1");
    assert!(held.contains(&w));
    assert_eq!(held.workers().len(), 1);
    assert_eq!(held.on_return_reply("t", "ns", "f", 3, "w1", ""), Ok(()));
    assert!(!held.contains(&w));
    assert!(held.workers().is_empty());
}

#[test]
fn refused_lease_holds_nothing() {
    let mut held = LeasedWorkers::new();
    assert_eq!(held.on_lease_reply("t", "ns", "f", 1, "", "no capacity"), Err("no capacity".to_string()));
    assert!(held.workers().is_empty());
}

#[test]
fn failed_return_still_releases_and_reports() {
    let mut held = LeasedWorkers::new();
    held.on_lease_reply("t", "ns", "f", 1, "w", "").unwrap();
    held.on_lease_reply("t", "ns", "f", 1, "w", "").unwrap();
    assert_eq!(held.workers().len(), 1);
    assert_eq!(
        held.on_return_reply("t", "ns", "f", 1, "w", "gone"),
        Err("Return Worker fail with error gone".to_string())
    );
    assert!(held.workers().is_empty());
}

#[test]
fn refresh_reply_reports_errors() {
    assert_eq!(refresh_reply(""), Ok(()));
    assert_eq!(refresh_reply("x"), Err("ReturnGateway fail with error x".to_string()));
}

#[test]
fn workers_are_ordered_like_their_fields() {
    let a = LeasedWorker::new("a", "n", "f", 1, "1");
    let b = LeasedWorker::new("a", "n", "f", 2, "0");
    assert!(a < b);
    assert!(a.same(&a.copy()));
    assert!(!a.same(&b));
}
