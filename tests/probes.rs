use rapl_probes::cpus::CpuId;
use rapl_probes::ebpf::{descriptor_index, sampler_reads, EbpfProbe, RaplEnergy, SamplerError};
use rapl_probes::msr::{
    all_domains, cpu_vendor, domain_msr_address, read_energy_unit, unit_register_address,
    vendor_from_id, MsrProbe, RaplVendor,
};
use rapl_probes::perf_event::{
    event_name_of_file, parse_event_code, parse_event_name, parse_pmu_type, scale_unit,
    PerfEventProbe, PowerEvent,
};
use rapl_probes::powercap::{
    is_zone_dir_name, parse_counter, parse_zone_name, zone_socket_id, PowerZone, PowercapProbe,
};
use rapl_probes::{Energy, EnergyUnit, RaplDomainType, RaplError};

fn two_sockets() -> Vec<CpuId> {
    vec![CpuId { cpu: 0, socket: 0 }, CpuId { cpu: 64, socket: 1 }]
}

fn conflicting() -> Vec<CpuId> {
    vec![CpuId { cpu: 0, socket: 0 }, CpuId { cpu: 1, socket: 0 }]
}

fn event(name: &str, code: &str) -> PowerEvent {
    PowerEvent::from_sysfs(name.to_string(), code, "Joules".to_string(), 0x2f80_0000).unwrap()
}

fn zone(name: &str, domain: RaplDomainType, socket_id: Option<u32>) -> PowerZone {
    PowerZone {
        name: name.to_string(),
        domain,
        path: format!("/sys/devices/virtual/powercap/intel-rapl/{name}"),
        children: Vec::new(),
        socket_id,
    }
}

#[test]
fn msr_unit_exponent_sixteen() {
    assert_eq!(read_energy_unit(0b1_0000 << 8), EnergyUnit::PowerOfTwo(16));
    assert_eq!(read_energy_unit(0xA1003), EnergyUnit::PowerOfTwo(16));
    assert_eq!(read_energy_unit(0xFFFF_FFFF_FFFF_E0FF), EnergyUnit::PowerOfTwo(0));
    assert_eq!(read_energy_unit(0x1F00), EnergyUnit::PowerOfTwo(31));
}

#[test]
fn msr_register_map() {
    assert_eq!(domain_msr_address(RaplDomainType::Package, RaplVendor::Intel), Some(0x611));
    assert_eq!(domain_msr_address(RaplDomainType::Dram, RaplVendor::Intel), Some(0x619));
    assert_eq!(domain_msr_address(RaplDomainType::Platform, RaplVendor::Intel), Some(0x64D));
    assert_eq!(domain_msr_address(RaplDomainType::PP0, RaplVendor::Amd), Some(0xc001029a));
    assert_eq!(domain_msr_address(RaplDomainType::Dram, RaplVendor::Amd), None);
    assert_eq!(all_domains(RaplVendor::Amd), vec![RaplDomainType::Package, RaplDomainType::PP0]);
    assert_eq!(all_domains(RaplVendor::Intel).len(), 5);
    assert_eq!(unit_register_address(RaplVendor::Intel), 0x606);
    assert_eq!(unit_register_address(RaplVendor::Amd), 0xc0010299);
}

#[test]
fn vendor_detection() {
    assert_eq!(vendor_from_id("GenuineIntel"), Ok(RaplVendor::Intel));
    assert_eq!(vendor_from_id("AuthenticAMD"), Ok(RaplVendor::Amd));
    assert_eq!(
        vendor_from_id("HygonGenuine"),
        Err(RaplError::UnsupportedVendor { vendor: "HygonGenuine".to_string() })
    );
    let out = "Architecture:            x86_64\nVendor ID:               AuthenticAMD\nModel name: X\n";
    assert_eq!(cpu_vendor(out), Ok(RaplVendor::Amd));
    let out = "Vendor ID:\tGenuineIntel\n";
    assert_eq!(cpu_vendor(out), Ok(RaplVendor::Intel));
    assert_eq!(
        cpu_vendor("Vendor ID: ARM\n"),
        Err(RaplError::UnsupportedVendor { vendor: "ARM".to_string() })
    );
    assert_eq!(cpu_vendor("nothing here"), Err(RaplError::VendorNotFound));
}

#[test]
fn msr_probe_construction_and_poll() {
    let cpus = two_sockets();
    let units = [0x1000u64, 0x0e00];
    let mut p = MsrProbe::new(&cpus, &[RaplDomainType::Package, RaplDomainType::Dram], RaplVendor::Intel, &units).unwrap();
    assert_eq!(p.channels().len(), 4);
    assert_eq!(p.channels()[0].address, 0x611);
    assert_eq!(p.channels()[1].address, 0x619);
    assert_eq!(p.channels()[2].cpu, 64);
    assert_eq!(p.channels()[2].cpu_index, 1);
    assert_eq!(p.channels()[3].unit, EnergyUnit::PowerOfTwo(14));
    p.poll(&[10, 20, 30, 40]).unwrap();
    // the high 32 bits are masked away
    p.poll(&[0xABCD_0000_0000_0015, 25, 0xFFFF_FFF0, 45]).unwrap();
    let m = p.measurements();
    assert_eq!(m.counter(0, RaplDomainType::Package).joules, Some(Energy { count: 11, unit: EnergyUnit::PowerOfTwo(16) }));
    assert_eq!(m.counter(0, RaplDomainType::Dram).joules, Some(Energy { count: 5, unit: EnergyUnit::PowerOfTwo(16) }));
    assert_eq!(m.counter(1, RaplDomainType::Package).joules, Some(Energy { count: 0xFFFF_FFF0 - 30, unit: EnergyUnit::PowerOfTwo(14) }));
    p.poll(&[0, 0, 5, 0]).unwrap();
    let c = p.measurements().counter(1, RaplDomainType::Package);
    assert!(c.overflowed);
    assert_eq!(c.joules, Some(Energy { count: 0xFFFF_FFFF - 0xFFFF_FFF0 + 5, unit: EnergyUnit::PowerOfTwo(14) }));
    p.reset();
    assert_eq!(p.measurements().counter(1, RaplDomainType::Package).previous_value, None);
}

#[test]
fn msr_probe_errors() {
    let units = [0u64, 0];
    assert!(matches!(
        MsrProbe::new(&conflicting(), &[RaplDomainType::Package], RaplVendor::Intel, &units),
        Err(RaplError::SocketConflict { socket: 0 })
    ));
    assert!(matches!(
        MsrProbe::new(&two_sockets(), &[RaplDomainType::Package, RaplDomainType::Dram], RaplVendor::Amd, &units),
        Err(RaplError::UnsupportedDomain { domain: RaplDomainType::Dram })
    ));
    let far = [CpuId { cpu: 0, socket: 0 }, CpuId { cpu: 8, socket: 7 }];
    assert!(matches!(
        MsrProbe::new(&far, &[RaplDomainType::Package], RaplVendor::Intel, &units),
        Err(RaplError::SocketOutOfRange { socket: 7, socket_count: 2 })
    ));
}

#[test]
fn perf_event_catalog_parsing() {
    assert_eq!(parse_event_code("event=0x02\n"), Ok(2));
    assert_eq!(parse_event_code("event=0xff"), Ok(255));
    assert_eq!(parse_event_code("event=0xA"), Ok(10));
    assert_eq!(parse_event_code("event=0x100"), Err(RaplError::InvalidEventCode));
    assert_eq!(parse_event_code("event=2"), Err(RaplError::InvalidEventCode));
    assert_eq!(parse_event_code("event=0x"), Err(RaplError::InvalidEventCode));
    assert_eq!(parse_event_name("pkg"), Some(RaplDomainType::Package));
    assert_eq!(parse_event_name("cores"), Some(RaplDomainType::PP0));
    assert_eq!(parse_event_name("gpu"), Some(RaplDomainType::PP1));
    assert_eq!(parse_event_name("ram"), Some(RaplDomainType::Dram));
    assert_eq!(parse_event_name("psys"), Some(RaplDomainType::Platform));
    assert_eq!(parse_event_name("dram"), None);
    assert_eq!(event_name_of_file("energy-pkg"), Some("pkg".to_string()));
    assert_eq!(event_name_of_file("energy-pkg.scale"), None);
    assert_eq!(event_name_of_file("cycles"), None);
    assert_eq!(parse_pmu_type("33\n"), Ok(33));
    assert_eq!(parse_pmu_type("x"), Err(RaplError::InvalidNumber));
}

#[test]
fn perf_scale_is_a_power_of_two() {
    assert_eq!(scale_unit(2.3283064365386962890625e-10f32.to_bits()), Ok(EnergyUnit::PowerOfTwo(32)));
    assert_eq!(scale_unit(1.0f32.to_bits()), Ok(EnergyUnit::PowerOfTwo(0)));
    assert_eq!(scale_unit(0.5f32.to_bits()), Ok(EnergyUnit::PowerOfTwo(1)));
    let bits = 0.3f32.to_bits();
    assert_eq!(scale_unit(bits), Err(RaplError::InvalidScale { bits }));
    let bits = 2.0f32.to_bits();
    assert_eq!(scale_unit(bits), Err(RaplError::InvalidScale { bits }));
}

#[test]
fn power_event_from_sysfs() {
    let e = event("pkg", "event=0x02\n");
    assert_eq!(e.domain, RaplDomainType::Package);
    assert_eq!(e.code, 2);
    assert_eq!(e.scale, EnergyUnit::PowerOfTwo(32));
    assert!(matches!(
        PowerEvent::from_sysfs("foo".to_string(), "event=0x01", "Joules".to_string(), 0x2f80_0000),
        Err(RaplError::UnknownEvent { name }) if name == "foo"
    ));
    assert!(matches!(
        PowerEvent::from_sysfs("pkg".to_string(), "bad", "Joules".to_string(), 0x2f80_0000),
        Err(RaplError::InvalidEventCode)
    ));
}

#[test]
fn perf_probe_poll_uses_full_width() {
    let pkg = event("pkg", "event=0x02");
    let ram = event("ram", "event=0x03");
    let mut p = PerfEventProbe::new(&two_sockets(), &[&pkg, &ram]).unwrap();
    assert_eq!(p.channels().len(), 4);
    assert_eq!(p.channels()[1].code, 3);
    assert_eq!(p.channels()[2].cpu, 64);
    p.poll(&[u64::MAX - 1, 1, 2, 3]).unwrap();
    p.poll(&[1, 2, 2, 3]).unwrap();
    let c = p.measurements().counter(0, RaplDomainType::Package);
    assert!(c.overflowed);
    assert_eq!(c.joules, Some(Energy { count: 2, unit: EnergyUnit::PowerOfTwo(32) }));
    assert!(matches!(PerfEventProbe::new(&conflicting(), &[&pkg]), Err(RaplError::SocketConflict { socket: 0 })));
}

#[test]
fn powercap_zone_naming() {
    assert_eq!(parse_zone_name("package-0"), Some(RaplDomainType::Package));
    assert_eq!(parse_zone_name("core"), Some(RaplDomainType::PP0));
    assert_eq!(parse_zone_name("uncore"), Some(RaplDomainType::PP1));
    assert_eq!(parse_zone_name("dram"), Some(RaplDomainType::Dram));
    assert_eq!(parse_zone_name("psys"), Some(RaplDomainType::Platform));
    assert_eq!(parse_zone_name("package"), None);
    assert_eq!(zone_socket_id("package-1", None), Ok(Some(1)));
    assert_eq!(zone_socket_id("core", Some(3)), Ok(Some(3)));
    assert_eq!(zone_socket_id("psys", None), Ok(None));
    assert_eq!(zone_socket_id("package-x", None), Err(RaplError::InvalidNumber));
    assert!(is_zone_dir_name("intel-rapl:0"));
    assert!(!is_zone_dir_name("energy_uj"));
    let z = zone("intel-rapl:0", RaplDomainType::Package, Some(0));
    assert_eq!(z.energy_path(), "/sys/devices/virtual/powercap/intel-rapl/intel-rapl:0/energy_uj");
    assert_eq!(z.max_energy_path(), "/sys/devices/virtual/powercap/intel-rapl/intel-rapl:0/max_energy_range_uj");
}

#[test]
fn powercap_strict_mode_rejects_invalid_utf8() {
    assert_eq!(parse_counter(b"12345\n", true), Ok(12345));
    assert_eq!(parse_counter(b"12345\n", false), Ok(12345));
    assert_eq!(parse_counter(b"12\xff3\n", true), Err(RaplError::InvalidUtf8));
    assert_eq!(parse_counter(b"12\xff3\n", false), Err(RaplError::InvalidNumber));
    assert_eq!(parse_counter(b"\xc3\xa9", true), Err(RaplError::InvalidNumber));
    assert_eq!(parse_counter(b"18446744073709551615", true), Ok(u64::MAX));
    assert_eq!(parse_counter(b"18446744073709551616", true), Err(RaplError::InvalidNumber));
    assert_eq!(parse_counter(b"", false), Err(RaplError::InvalidNumber));
}

#[test]
fn powercap_probe_construction_and_poll() {
    let pkg = zone("intel-rapl:0", RaplDomainType::Package, Some(1));
    let psys = zone("intel-rapl:1", RaplDomainType::Platform, None);
    let maxes = vec![b"1000\n".to_vec(), b"262143328850\n".to_vec()];
    let mut p = PowercapProbe::<true>::new(&two_sockets(), &[&pkg, &psys], &maxes).unwrap();
    assert_eq!(p.channels()[0].socket, 1);
    assert_eq!(p.channels()[1].socket, 0);
    assert_eq!(p.channels()[0].max_energy_uj, 1000);
    p.poll(&[b"900\n".to_vec(), b"5\n".to_vec()]).unwrap();
    p.poll(&[b"100\n".to_vec(), b"15\n".to_vec()]).unwrap();
    let c = p.measurements().counter(1, RaplDomainType::Package);
    assert!(c.overflowed);
    assert_eq!(c.joules, Some(Energy { count: 200, unit: EnergyUnit::Microjoule }));
    assert_eq!(
        p.measurements().counter(0, RaplDomainType::Platform).joules,
        Some(Energy { count: 10, unit: EnergyUnit::Microjoule })
    );
    assert_eq!(p.poll(&[b"1\xff\n".to_vec(), b"15\n".to_vec()]), Err(RaplError::InvalidUtf8));
    // a value above the zone's maximum is pushed as it is
    p.poll(&[b"1001\n".to_vec(), b"15\n".to_vec()]).unwrap();
    assert_eq!(
        p.measurements().counter(1, RaplDomainType::Package).joules,
        Some(Energy { count: 901, unit: EnergyUnit::Microjoule })
    );
    // going down from above the maximum cannot be corrected: the failing zone and the later ones stay as they were
    let before = p.measurements().counter(1, RaplDomainType::Package);
    assert!(matches!(
        p.poll(&[b"5\n".to_vec(), b"20\n".to_vec()]),
        Err(RaplError::CounterOutOfRange { value: 5, max_value: 1000, .. })
    ));
    assert_eq!(p.measurements().counter(1, RaplDomainType::Package), before);
    assert_eq!(p.measurements().counter(0, RaplDomainType::Platform).previous_value, Some(15));
    let mut q = PowercapProbe::<false>::new(&two_sockets(), &[&pkg], &maxes[..1]).unwrap();
    assert_eq!(q.poll(&[b"1\xff\n".to_vec()]), Err(RaplError::InvalidNumber));
}

#[test]
fn powercap_probe_errors() {
    let pkg = zone("intel-rapl:0", RaplDomainType::Package, Some(0));
    assert!(matches!(PowercapProbe::<true>::new(&two_sockets(), &[], &[]), Err(RaplError::NoZone)));
    assert!(matches!(
        PowercapProbe::<true>::new(&conflicting(), &[], &[]),
        Err(RaplError::SocketConflict { socket: 0 })
    ));
    assert!(matches!(
        PowercapProbe::<true>::new(&two_sockets(), &[&pkg], &[b"abc".to_vec()]),
        Err(RaplError::InvalidNumber)
    ));
    let far = zone("intel-rapl:5", RaplDomainType::Package, Some(5));
    assert!(matches!(
        PowercapProbe::<true>::new(&two_sockets(), &[&far], &[b"10".to_vec()]),
        Err(RaplError::SocketOutOfRange { socket: 5, socket_count: 2 })
    ));
}

#[test]
fn ebpf_record_wire_format() {
    let r = RaplEnergy { cpu_id: 0x0102_0304, domain_id: 2, energy: 0x1122_3344_5566_7788 };
    let bytes = r.encode();
    assert_eq!(bytes.len(), 16);
    assert_eq!(&bytes[..8], &[4, 3, 2, 1, 2, 0, 0, 0]);
    assert_eq!(&bytes[8..], &0x1122_3344_5566_7788u64.to_le_bytes());
    assert_eq!(RaplEnergy::decode(&bytes), Ok(r));
    assert_eq!(RaplEnergy::decode(&bytes[..15]), Err(RaplError::InvalidRecord { len: 15 }));
}

#[test]
fn ebpf_sampler_plan() {
    assert_eq!(sampler_reads(8, Some(3)), Ok(vec![8, 9, 10]));
    assert_eq!(sampler_reads(0, Some(5)), Ok(vec![0, 1, 2, 3, 4]));
    assert_eq!(sampler_reads(0, None), Err(SamplerError::EventCountMissing));
    assert_eq!(sampler_reads(0, Some(0)), Err(SamplerError::InvalidEventCount { count: 0 }));
    assert_eq!(sampler_reads(0, Some(6)), Err(SamplerError::InvalidEventCount { count: 6 }));
    assert_eq!(SamplerError::InvalidEventCount { count: 6 }.code(), -7);
    assert_eq!(SamplerError::EventCountMissing.code(), -1);
    assert_eq!(sampler_reads(u32::MAX, Some(2)), Ok(vec![u32::MAX, 0]));
    assert_eq!(descriptor_index(u32::MAX, 1), None);
    assert_eq!(descriptor_index(64, 1), Some(65));
}

#[test]
fn ebpf_probe_construction_and_poll() {
    let pkg = event("pkg", "event=0x02");
    let ram = event("ram", "event=0x03");
    let mut p = EbpfProbe::new(&two_sockets(), &[&pkg, &ram]).unwrap();
    assert_eq!(p.event_count(), 2);
    let idx: Vec<u32> = p.descriptors().iter().map(|d| d.index).collect();
    assert_eq!(idx, vec![0, 1, 64, 65]);
    let rec = |d: u8, e: u64| RaplEnergy { cpu_id: 64, domain_id: d, energy: e }.encode();
    p.poll_buffer(1, &[rec(0, 100), rec(1, 7)]).unwrap();
    p.poll_buffer(1, &[rec(0, 160), rec(1, 9)]).unwrap();
    let m = p.measurements();
    assert_eq!(m.counter(1, RaplDomainType::Package).joules, Some(Energy { count: 60, unit: EnergyUnit::PowerOfTwo(32) }));
    assert_eq!(m.counter(1, RaplDomainType::Dram).joules, Some(Energy { count: 2, unit: EnergyUnit::PowerOfTwo(32) }));
    assert_eq!(m.counter(0, RaplDomainType::Package).previous_value, None);
    assert_eq!(p.poll_buffer(0, &[rec(2, 1)]), Err(RaplError::UnknownDomainId { domain_id: 2 }));
    assert_eq!(p.poll_buffer(0, &[vec![0u8; 3]]), Err(RaplError::InvalidRecord { len: 3 }));
    assert!(matches!(EbpfProbe::new(&two_sockets(), &[]), Err(RaplError::InvalidEventCount { count: 0 })));
    assert!(matches!(EbpfProbe::new(&conflicting(), &[&pkg]), Err(RaplError::SocketConflict { socket: 0 })));
}

#[test]
fn zone_tree_text() {
    let mut pkg = zone("intel-rapl:0", RaplDomainType::Package, Some(0));
    let mut core = zone("intel-rapl:0:0", RaplDomainType::PP0, Some(0));
    core.path = "/p/intel-rapl:0/intel-rapl:0:0".to_string();
    pkg.path = "/p/intel-rapl:0".to_string();
    pkg.children.push(core);
    assert_eq!(
        pkg.to_string(),
        "- intel-rapl:0 (Package) \t\t: /p/intel-rapl:0\n  - intel-rapl:0:0 (PP0) \t\t: /p/intel-rapl:0/intel-rapl:0:0"
    );
    assert_eq!(pkg.children[0].fmt_rec(2), "\n    - intel-rapl:0:0 (PP0) \t\t: /p/intel-rapl:0/intel-rapl:0:0");
}

#[test]
fn zones_sort_by_path_bytes() {
    let mut a = zone("a", RaplDomainType::Package, Some(0));
    a.path = "/z/intel-rapl:1".to_string();
    let mut b = zone("b", RaplDomainType::Package, Some(1));
    b.path = "/z/intel-rapl:0".to_string();
    let mut c = zone("c", RaplDomainType::Platform, None);
    c.path = "/z/intel-rapl:0:0".to_string();
    let mut d = zone("d", RaplDomainType::Dram, None);
    d.path = "/z/intel-rapl:10".to_string();
    let sorted = rapl_probes::powercap::sort_zones_by_path(vec![a, b, c, d]);
    let names: Vec<&str> = sorted.iter().map(|z| z.name.as_str()).collect();
    assert_eq!(names, vec!["b", "c", "a", "d"]);
    assert!(rapl_probes::powercap::sort_zones_by_path(Vec::new()).is_empty());
}

#[test]
fn hierarchy_flat_list_is_preorder() {
    let mut p0 = zone("package-0", RaplDomainType::Package, Some(0));
    p0.children.push(zone("core", RaplDomainType::PP0, Some(0)));
    p0.children.push(zone("uncore", RaplDomainType::PP1, Some(0)));
    let p1 = zone("package-1", RaplDomainType::Package, Some(1));
    let psys = zone("psys", RaplDomainType::Platform, None);
    let h = rapl_probes::powercap::PowerZoneHierarchy::new(vec![p0, p1, psys]);
    let names: Vec<&str> = h.flat.iter().map(|z| z.name.as_str()).collect();
    assert_eq!(names, vec!["package-0", "core", "uncore", "package-1", "psys"]);
    assert!(h.flat.iter().all(|z| z.children.is_empty()));
    assert_eq!(h.top.len(), 3);
    assert_eq!(h.top[0].children.len(), 2);
}

#[test]
fn ebpf_descriptor_index_overflow() {
    let pkg = event("pkg", "event=0x02");
    let ram = event("ram", "event=0x03");
    let cpus = [CpuId { cpu: u32::MAX, socket: 0 }];
    assert!(matches!(
        EbpfProbe::new(&cpus, &[&pkg, &ram]),
        Err(RaplError::DescriptorIndexOverflow { cpu: u32::MAX, domain_id: 1 })
    ));
    assert!(EbpfProbe::new(&cpus, &[&pkg]).is_ok());
}
