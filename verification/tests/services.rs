use syswatch::model::ServiceStatus;
use syswatch::services::{parse_launchctl_list, parse_systemctl_list, ServicesCollector};

#[test]
fn parses_launchctl_real_sample() {
    let sample = "\
PID\tStatus\tLabel
-\t0\tcom.apple.SafariHistoryServiceAgent
-\t-9\tcom.apple.progressd
83228\t-9\tcom.apple.bird
50304\t-9\tcom.apple.SafariBookmarksSyncAgent
-\t0\t
";
    let svcs = parse_launchctl_list(sample);
    assert_eq!(svcs.len(), 4);

    let bird = svcs.iter().find(|s| s.name == "com.apple.bird").unwrap();
    assert_eq!(bird.pid, Some(83228));
    assert_eq!(bird.exit_code, Some(-9));
    assert_eq!(bird.status, ServiceStatus::Running);
    assert!(bird.detail.contains("signal 9"));

    let progressd = svcs
        .iter()
        .find(|s| s.name == "com.apple.progressd")
        .unwrap();
    assert_eq!(progressd.pid, None);
    assert_eq!(progressd.exit_code, Some(-9));
    assert_eq!(progressd.status, ServiceStatus::Failed);

    let safari = svcs
        .iter()
        .find(|s| s.name == "com.apple.SafariHistoryServiceAgent")
        .unwrap();
    assert_eq!(safari.status, ServiceStatus::Idle);
}

#[test]
fn parses_systemctl_sample() {
    let sample = "\
sshd.service          loaded active running OpenSSH server daemon
nginx.service         loaded failed failed  nginx web server
cron.service          loaded active exited  Periodic command scheduler
foo.service           loaded inactive dead   Foo
";
    let svcs = parse_systemctl_list(sample);
    assert_eq!(svcs.len(), 4);
    assert_eq!(
        svcs.iter().find(|s| s.name == "sshd.service").unwrap().status,
        ServiceStatus::Running
    );
    assert_eq!(
        svcs.iter().find(|s| s.name == "nginx.service").unwrap().status,
        ServiceStatus::Failed
    );
    assert_eq!(
        svcs.iter().find(|s| s.name == "cron.service").unwrap().status,
        ServiceStatus::Idle
    );
}

#[test]
fn systemctl_rows_come_out_sorted_with_joined_description() {
    let svcs = parse_systemctl_list("zz.service loaded active running Z  two   words\naa.service loaded inactive dead A\nshort line\n");
    let names: Vec<&str> = svcs.iter().map(|s| s.name.as_str()).collect();
    assert_eq!(names, vec!["aa.service", "zz.service"]);
    assert_eq!(svcs[1].detail, "active / running — Z two words");
    assert_eq!(svcs[0].status, ServiceStatus::Idle);
}

#[test]
fn launchctl_positive_exit_code_is_failed_and_sorted() {
    let svcs = parse_launchctl_list("PID\tStatus\tLabel\n-\t3\tb.svc\n12\t0\ta.svc\n");
    assert_eq!(svcs.len(), 2);
    assert_eq!(svcs[0].name, "a.svc");
    assert_eq!(svcs[0].status, ServiceStatus::Running);
    assert_eq!(svcs[1].status, ServiceStatus::Failed);
    assert_eq!(svcs[1].exit_code, Some(3));
}

#[test]
fn services_collector_fetches_once_within_refresh_window() {
    let mut c = ServicesCollector::new();
    let first = c.sample(|| parse_systemctl_list("a.service loaded active running A\n"));
    assert_eq!(first.len(), 1);
    let second = c.sample(|| parse_systemctl_list("b.service loaded active running B\nc.service loaded active running C\n"));
    assert_eq!(second.len(), 1);
    assert_eq!(second[0].name, "a.service");
}

#[test]
fn services_sample_at_refetches_only_once_the_window_has_passed() {
    let mut c = ServicesCollector::new();
    let first = c.sample_at(None, || parse_systemctl_list("a.service loaded active running A\n"));
    assert_eq!(first[0].name, "a.service");
    let kept = c.sample_at(Some(4999), || -> Vec<syswatch::model::ServiceTick> {
        panic!("a fresh listing must not be refetched")
    });
    assert_eq!(kept.len(), 1);
    assert_eq!(kept[0].name, "a.service");
    let fresh = c.sample_at(Some(5000), || parse_systemctl_list("b.service loaded failed failed B\n"));
    assert_eq!(fresh.len(), 1);
    assert_eq!(fresh[0].name, "b.service");
    assert_eq!(fresh[0].status, ServiceStatus::Failed);
}
