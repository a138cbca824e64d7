//! Plain data shapes shared by the collectors and the UI: host identity,
//! memory totals, service state, power source and fans.

use vstd::prelude::*;

verus! {

/// Static identity of the host.
#[derive(Debug)]
pub struct HostInfo {
    pub hostname: String,
    pub os: String,
    pub uptime_secs: u64,
    pub cpu_model: String,
    pub cpu_cores: u32,
}

/// The kernel's own verdict on memory pressure, where the platform has
/// one: a level, not a percentage.
#[derive(Debug, Clone, Copy, PartialEq, Eq, Structural)]
pub enum MemPressureLevel {
    Normal,
    Warning,
    Critical,
}

/// Memory and swap totals for one sample.
#[derive(Debug, Clone, Copy, PartialEq, Eq, Structural)]
pub struct MemTick {
    pub total_bytes: u64,
    pub used_bytes: u64,
    pub available_bytes: u64,
    pub swap_total_bytes: u64,
    pub swap_used_bytes: u64,
    /// `None` where the platform has no pressure signal.
    pub pressure_level: Option<MemPressureLevel>,
}

/// State of one system service.
#[derive(Debug, Clone, Copy, PartialEq, Eq, Structural)]
pub enum ServiceStatus {
    Running,
    Idle,
    Failed,
    Unknown,
}

impl Default for ServiceStatus {
    fn default() -> (r: Self)
        ensures
            r == ServiceStatus::Unknown,
    {
        ServiceStatus::Unknown
    }
}

/// The display label of a service status.
pub open spec fn service_status_label(s: ServiceStatus) -> Seq<char> {
    match s {
        ServiceStatus::Running => "Running"@,
        ServiceStatus::Idle => "Idle"@,
        ServiceStatus::Failed => "Failed"@,
        ServiceStatus::Unknown => "Unknown"@,
    }
}

impl ServiceStatus {
    /// The display label.
    pub fn label(self) -> (r: &'static str)
        ensures
            r@ == service_status_label(self),
    {
        match self {
            ServiceStatus::Running => "Running",
            ServiceStatus::Idle => "Idle",
            ServiceStatus::Failed => "Failed",
            ServiceStatus::Unknown => "Unknown",
        }
    }
}

/// One service as the platform's service manager reports it.
#[derive(Debug)]
pub struct ServiceTick {
    pub name: String,
    pub status: ServiceStatus,
    pub pid: Option<u32>,
    pub exit_code: Option<i32>,
    /// Free-form per-platform detail.
    pub detail: String,
}

/// The plain-value content of a [`ServiceTick`].
pub struct ServiceRow {
    pub name: Seq<char>,
    pub status: ServiceStatus,
    pub pid: Option<u32>,
    pub exit_code: Option<i32>,
    pub detail: Seq<char>,
}

impl View for ServiceTick {
    type V = ServiceRow;

    open spec fn view(&self) -> ServiceRow {
        ServiceRow {
            name: self.name@,
            status: self.status,
            pid: self.pid,
            exit_code: self.exit_code,
            detail: self.detail@,
        }
    }
}

/// The rows of a list of services.
pub open spec fn service_rows(v: Seq<ServiceTick>) -> Seq<ServiceRow> {
    v.map_values(|s: ServiceTick| s@)
}

impl Clone for ServiceTick {
    fn clone(&self) -> (r: Self)
        ensures
            r@ == self@,
    {
        ServiceTick {
            name: self.name.clone(),
            status: self.status,
            pid: self.pid,
            exit_code: self.exit_code,
            detail: self.detail.clone(),
        }
    }
}

impl Default for ServiceTick {
    fn default() -> (r: Self)
        ensures
            r@.name.len() == 0,
            r@.status == ServiceStatus::Unknown,
            r@.pid is None,
            r@.exit_code is None,
            r@.detail.len() == 0,
    {
        ServiceTick {
            name: String::new(),
            status: ServiceStatus::Unknown,
            pid: None,
            exit_code: None,
            detail: String::new(),
        }
    }
}

/// Where the machine draws power from.
#[derive(Debug, Clone, Copy, PartialEq, Eq, Structural)]
pub enum PowerSource {
    Ac,
    Battery,
    Unknown,
}

impl Default for PowerSource {
    fn default() -> (r: Self)
        ensures
            r == PowerSource::Unknown,
    {
        PowerSource::Unknown
    }
}

/// The display label of a power source.
pub open spec fn power_source_label(s: PowerSource) -> Seq<char> {
    match s {
        PowerSource::Ac => "AC"@,
        PowerSource::Battery => "Battery"@,
        PowerSource::Unknown => "Unknown"@,
    }
}

impl PowerSource {
    /// The display label.
    pub fn label(self) -> (r: &'static str)
        ensures
            r@ == power_source_label(self),
    {
        match self {
            PowerSource::Ac => "AC",
            PowerSource::Battery => "Battery",
            PowerSource::Unknown => "Unknown",
        }
    }
}

/// One fan reading.
#[derive(Debug)]
pub struct FanTick {
    pub name: String,
    pub rpm: u32,
    pub target_rpm: Option<u32>,
}

} // verus!
