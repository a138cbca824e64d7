use syswatch::model::{PowerSource, ServiceStatus, ServiceTick};

#[test]
fn service_status_labels() {
    assert_eq!(ServiceStatus::Running.label(), "Running");
    assert_eq!(ServiceStatus::Idle.label(), "Idle");
    assert_eq!(ServiceStatus::Failed.label(), "Failed");
    assert_eq!(ServiceStatus::Unknown.label(), "Unknown");
}

#[test]
fn service_status_default_is_unknown() {
    assert_eq!(ServiceStatus::default(), ServiceStatus::Unknown);
}

#[test]
fn power_source_labels() {
    assert_eq!(PowerSource::Ac.label(), "AC");
    assert_eq!(PowerSource::Battery.label(), "Battery");
    assert_eq!(PowerSource::Unknown.label(), "Unknown");
}

#[test]
fn power_source_default_is_unknown() {
    assert_eq!(PowerSource::default(), PowerSource::Unknown);
}

#[test]
fn service_tick_default_and_clone() {
    let d = ServiceTick::default();
    assert_eq!(d.name, "");
    assert_eq!(d.status, ServiceStatus::Unknown);
    assert_eq!(d.pid, None);
    let s = ServiceTick {
        name: "x".into(),
        status: ServiceStatus::Running,
        pid: Some(4),
        exit_code: None,
        detail: "d".into(),
    };
    let c = s.clone();
    assert_eq!(c.name, "x");
    assert_eq!(c.pid, Some(4));
    assert_eq!(c.detail, "d");
}
