use rapl_probes::cli::{OutputType, PollingMode, ProbeType};
use rapl_probes::discovery::check_domains_consistency;
use rapl_probes::domain::{distinct_domains, mkstring};
use rapl_probes::perf_event::PowerEvent;
use rapl_probes::powercap::{PowerZone, PowerZoneHierarchy};
use rapl_probes::RaplDomainType;

#[test]
fn domain_names_parse() {
    assert_eq!(RaplDomainType::parse("pkg"), Ok(RaplDomainType::Package));
    assert_eq!(RaplDomainType::parse("package"), Ok(RaplDomainType::Package));
    assert_eq!(RaplDomainType::parse("core"), Ok(RaplDomainType::PP0));
    assert_eq!(RaplDomainType::parse("uncore"), Ok(RaplDomainType::PP1));
    assert_eq!(RaplDomainType::parse("ram"), Ok(RaplDomainType::Dram));
    assert_eq!(RaplDomainType::parse("psys"), Ok(RaplDomainType::Platform));
    assert_eq!(RaplDomainType::parse("gpu"), Err("gpu".to_string()));
    assert_eq!("pp1".parse::<RaplDomainType>(), Ok(RaplDomainType::PP1));
    assert_eq!(RaplDomainType::Dram.to_string(), "Dram");
}

#[test]
fn domain_lists() {
    let ds = [RaplDomainType::Platform, RaplDomainType::Package, RaplDomainType::Dram, RaplDomainType::Package];
    assert_eq!(
        distinct_domains(&ds),
        vec![RaplDomainType::Dram, RaplDomainType::Package, RaplDomainType::Platform]
    );
    assert_eq!(mkstring(&[RaplDomainType::Package, RaplDomainType::PP0], ", "), "Package, PP0");
    assert_eq!(mkstring(&[], ", "), "");
    assert_eq!(RaplDomainType::all_in_addr_order()[1], RaplDomainType::Dram);
}

#[test]
fn domain_consistency() {
    let ev = |name: &str| PowerEvent::from_sysfs(name.to_string(), "event=0x01", "Joules".to_string(), 0x2f80_0000).unwrap();
    let events = vec![ev("pkg"), ev("ram"), ev("pkg")];
    let z = |d| PowerZone { name: String::new(), domain: d, path: String::new(), children: Vec::new(), socket_id: None };
    let zones = PowerZoneHierarchy { flat: vec![z(RaplDomainType::Package), z(RaplDomainType::Dram)], top: Vec::new() };
    let c = check_domains_consistency(&events, &zones);
    assert!(c.consistent);
    assert_eq!(c.available, vec![RaplDomainType::Dram, RaplDomainType::Package]);
    let zones = PowerZoneHierarchy {
        flat: vec![z(RaplDomainType::Package), z(RaplDomainType::Dram), z(RaplDomainType::PP0)],
        top: Vec::new(),
    };
    let c = check_domains_consistency(&events, &zones);
    assert!(!c.consistent);
    assert_eq!(c.available, vec![RaplDomainType::Dram, RaplDomainType::PP0, RaplDomainType::Package]);
}

#[test]
fn probe_types() {
    assert_eq!(ProbeType::parse("perf"), Ok(ProbeType::PerfEvent));
    assert_eq!(ProbeType::parse("powercap"), Ok(ProbeType::PowercapSysfs));
    assert_eq!(ProbeType::parse("bpf"), Ok(ProbeType::Ebpf));
    assert_eq!(ProbeType::parse("msr"), Ok(ProbeType::Msr));
    assert_eq!(ProbeType::parse("rapl"), Err("rapl".to_string()));
    assert_eq!(ProbeType::PowercapSysfs.to_string(), "powercap-sysfs");
    assert_eq!(ProbeType::parse(ProbeType::PerfEvent.name()), Ok(ProbeType::PerfEvent));
    assert_eq!(OutputType::Stdout.name(), "Stdout");
}

#[test]
fn polling_modes() {
    assert_eq!(PollingMode::of_frequency(0), PollingMode::Stop);
    assert_eq!(PollingMode::of_frequency(-1), PollingMode::Continuous);
    assert_eq!(PollingMode::of_frequency(10), PollingMode::Periodic { hertz: 10 });
}
