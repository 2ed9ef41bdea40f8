use ttl_cache::cache::CapacityError;
use ttl_cache::config::Config;
use ttl_cache::config::Ratio;
use ttl_cache::service::Reply;
use ttl_cache::service::Request;
use ttl_cache::service::TtlCacheService;
use ttl_cache::time::TestTime;

fn test_config_single_item() -> Config {
    Config {
        ttl: 10_000,
        capacity: Some(1),
        eviction_number: 20,
        eviction_ratio: Ratio::new(1, 4),
        eviction_every: 250,
    }
}

fn read(key: &str) -> Request {
    Request::Read(String::from(key))
}

fn write(key: &str, value: &str) -> Request {
    Request::Write(String::from(key), String::from(value))
}

#[test]
fn non_existent_keys_return_not_found() {
    let time = TestTime::new(0);
    let mut service = TtlCacheService::new(test_config_single_item(), &time);

    let get_res = service.handle(read("abcda"));

    assert_eq!(get_res.status(), 404);
}

#[test]
fn able_to_set_value() {
    let time = TestTime::new(0);
    let mut service = TtlCacheService::new(test_config_single_item(), &time);

    let set_res = service.handle(write("abcda", "bcda"));

    assert_eq!(set_res.status(), 200);
}

#[test]
fn able_to_get_back_set_values() {
    let time = TestTime::new(0);
    let mut service = TtlCacheService::new(test_config_single_item(), &time);

    let set_res = service.handle(write("abcda", "bcda"));

    assert_eq!(set_res.status(), 200);

    let get_res = service.handle(read("abcda"));

    assert_eq!(get_res.status(), 200);
    match get_res {
        Reply::Read(Some(body)) => assert_eq!(body, "bcda"),
        _ => panic!("expected a value"),
    }
}

#[test]
fn set_values_have_capacity() {
    let time = TestTime::new(0);
    let mut service = TtlCacheService::new(test_config_single_item(), &time);

    let set_res = service.handle(write("abcda", "bcda"));
    assert_eq!(set_res.status(), 200);
    let set_res = service.handle(write("abcda2", "bcda"));
    assert_eq!(set_res.status(), 400);
    match set_res {
        Reply::Write(Err(e)) => assert_eq!(e, CapacityError { capacity: Some(1) }),
        _ => panic!("expected a capacity error"),
    }
}

#[test]
fn set_values_expire() {
    let time = TestTime::new(0);
    let mut service = TtlCacheService::new(test_config_single_item(), &time);

    let set_res = service.handle(write("abcda", "bcda"));
    assert_eq!(set_res.status(), 200);

    time.add_secs(11);

    let get_res = service.handle(read("abcda"));
    assert_eq!(get_res.status(), 404);
}

#[test]
fn sweep_runs_once_interval_has_passed() {
    let time = TestTime::new(0);
    let mut service = TtlCacheService::new(test_config_single_item(), &time);
    assert_eq!(service.handle(write("a", "1")).status(), 200);

    // Not due yet: no time has passed since the service was made.
    assert!(!service.run_pending_sweep());
    assert_eq!(service.ttl_cache().keys_total, 1);

    time.add_secs(11);
    assert!(service.run_pending_sweep());
    assert_eq!(service.ttl_cache().keys_total, 0);

    // The sweep just ran: the next one waits for the interval again.
    assert!(!service.run_pending_sweep());
}

#[test]
fn sweep_due_needs_more_than_the_interval() {
    let time = TestTime::new(1_000);
    let service = TtlCacheService::new(test_config_single_item(), &time);
    assert!(!service.sweep_due(1_000));
    assert!(!service.sweep_due(1_250));
    assert!(service.sweep_due(1_251));
    assert!(!service.sweep_due(0));
}

#[test]
fn scenario_with_capacity_one() {
    let time = TestTime::new(0);
    let mut service = TtlCacheService::new(test_config_single_item(), &time);
    assert!(matches!(service.handle(write("a", "1")), Reply::Write(Ok(()))));
    assert!(matches!(
        service.handle(write("b", "2")),
        Reply::Write(Err(CapacityError { capacity: Some(1) }))
    ));
    match service.handle(read("a")) {
        Reply::Read(Some(v)) => assert_eq!(v, "1"),
        _ => panic!("expected a value"),
    }
    time.add_secs(11);
    assert!(matches!(service.handle(read("a")), Reply::Read(None)));
    assert!(matches!(service.handle(write("b", "2")), Reply::Write(Ok(()))));
}

#[test]
fn reply_status_codes() {
    assert_eq!(Reply::Read(Some(String::from("v"))).status(), 200);
    assert_eq!(Reply::Read(None).status(), 404);
    assert_eq!(Reply::Write(Ok(())).status(), 200);
    assert_eq!(Reply::Write(Err(CapacityError { capacity: None })).status(), 400);
}

#[test]
fn sweep_step_takes_the_readings() {
    let time = TestTime::new(0);
    let mut service = TtlCacheService::new(test_config_single_item(), &time);
    assert_eq!(service.handle(write("a", "1")).status(), 200);
    // Due only past the interval; a sweep at 200 is not due.
    assert!(!service.sweep_if_due_at(200));
    assert_eq!(service.ttl_cache().keys_total(), 1);
    assert!(service.sweep_if_due_at(10_001));
    assert_eq!(service.ttl_cache().keys_total(), 0);
    // The last sweep is still the start until it is recorded.
    assert!(service.sweep_due(251));
    service.record_sweep_at(10_002);
    assert!(!service.sweep_due(10_200));
    assert!(service.sweep_due(10_253));
}
