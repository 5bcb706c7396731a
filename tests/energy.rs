use rapl_probes::energy::{CounterReading, DomainCounters};
use rapl_probes::{Energy, EnergyCounter, EnergyMeasurements, EnergyUnit, RaplDomainType, RaplError};

const UNIT: EnergyUnit = EnergyUnit::PowerOfTwo(16);

#[test]
fn first_push_records_without_energy() {
    let mut m = EnergyMeasurements::new(2);
    m.push(1, RaplDomainType::Package, 100, 1000, UNIT);
    let c = m.counter(1, RaplDomainType::Package);
    assert_eq!(c.previous_value, Some(100));
    assert_eq!(c.joules, None);
    assert!(!c.overflowed);
}

#[test]
fn increasing_values_give_the_difference() {
    let mut m = EnergyMeasurements::new(1);
    m.push(0, RaplDomainType::Dram, 100, 1000, UNIT);
    m.push(0, RaplDomainType::Dram, 350, 1000, UNIT);
    let c = m.counter(0, RaplDomainType::Dram);
    assert_eq!(c.joules, Some(Energy { count: 250, unit: UNIT }));
    assert!(!c.overflowed);
}

#[test]
fn equal_values_give_zero() {
    let mut m = EnergyMeasurements::new(1);
    m.push(0, RaplDomainType::PP0, 7, 10, UNIT);
    m.push(0, RaplDomainType::PP0, 7, 10, UNIT);
    assert_eq!(m.counter(0, RaplDomainType::PP0).joules, Some(Energy { count: 0, unit: UNIT }));
}

#[test]
fn decreasing_value_corrects_one_wraparound() {
    let mut m = EnergyMeasurements::new(1);
    m.push(0, RaplDomainType::Package, 900, 1000, UNIT);
    m.push(0, RaplDomainType::Package, 50, 1000, UNIT);
    let c = m.counter(0, RaplDomainType::Package);
    assert_eq!(c.joules, Some(Energy { count: 150, unit: UNIT }));
    assert!(c.overflowed);
    m.push(0, RaplDomainType::Package, 60, 1000, UNIT);
    let c = m.counter(0, RaplDomainType::Package);
    assert_eq!(c.joules, Some(Energy { count: 10, unit: UNIT }));
    assert!(!c.overflowed);
}

#[test]
fn wraparound_at_the_largest_maximum() {
    let mut m = EnergyMeasurements::new(1);
    m.push(0, RaplDomainType::Platform, u64::MAX, u64::MAX, EnergyUnit::Microjoule);
    m.push(0, RaplDomainType::Platform, 0, u64::MAX, EnergyUnit::Microjoule);
    let c = m.counter(0, RaplDomainType::Platform);
    assert_eq!(c.joules, Some(Energy { count: 0, unit: EnergyUnit::Microjoule }));
    assert!(c.overflowed);
}

#[test]
fn other_counters_are_untouched() {
    let mut m = EnergyMeasurements::new(2);
    m.push(0, RaplDomainType::Package, 1, 10, UNIT);
    assert_eq!(m.counter(0, RaplDomainType::Dram), EnergyCounter::new());
    assert_eq!(m.per_socket[1], DomainCounters::new());
}

#[test]
fn clear_then_push_is_like_fresh() {
    let mut m = EnergyMeasurements::new(1);
    m.push(0, RaplDomainType::Package, 10, 100, UNIT);
    m.push(0, RaplDomainType::Package, 20, 100, UNIT);
    m.clear();
    assert_eq!(m.counter(0, RaplDomainType::Package), EnergyCounter::new());
    m.push(0, RaplDomainType::Package, 5, 100, UNIT);
    let mut fresh = EnergyMeasurements::new(1);
    fresh.push(0, RaplDomainType::Package, 5, 100, UNIT);
    assert_eq!(m.per_socket, fresh.per_socket);
    assert_eq!(m.counter(0, RaplDomainType::Package).joules, None);
}

#[test]
fn values_above_the_maximum_are_recorded() {
    let mut m = EnergyMeasurements::new(1);
    let r = CounterReading { socket: 0, domain: RaplDomainType::Package, value: 11, max_value: 10, unit: UNIT };
    assert_eq!(m.record(r), Ok(()));
    assert_eq!(m.counter(0, RaplDomainType::Package).previous_value, Some(11));
    let r = CounterReading { socket: 0, domain: RaplDomainType::Package, value: 15, max_value: 10, unit: UNIT };
    assert_eq!(m.record(r), Ok(()));
    assert_eq!(m.counter(0, RaplDomainType::Package).joules, Some(Energy { count: 4, unit: UNIT }));
}

#[test]
fn record_rejects_a_wraparound_past_the_maximum() {
    let mut m = EnergyMeasurements::new(1);
    let r = CounterReading { socket: 3, domain: RaplDomainType::Package, value: 1, max_value: 10, unit: UNIT };
    assert!(m.record(r).is_err());
    let ok = CounterReading { socket: 0, domain: RaplDomainType::Package, value: 8, max_value: 10, unit: UNIT };
    assert_eq!(m.record(ok), Ok(()));
    // the value goes down and the previous value 8 is above the maximum 5
    let smaller = CounterReading { socket: 0, domain: RaplDomainType::Package, value: 1, max_value: 5, unit: UNIT };
    assert_eq!(
        m.record(smaller),
        Err(RaplError::CounterOutOfRange { socket: 0, domain: RaplDomainType::Package, value: 1, max_value: 5 })
    );
    assert_eq!(m.counter(0, RaplDomainType::Package).previous_value, Some(8));
    assert!(!m.accepts(0, RaplDomainType::Package, 1, 5));
    assert!(m.accepts(0, RaplDomainType::Package, 9, 5));
    assert!(m.accepts(0, RaplDomainType::Package, 1, 8));
}

#[test]
fn new_table_has_one_row_per_socket() {
    assert_eq!(EnergyMeasurements::new(3).socket_count(), 3);
    assert_eq!(EnergyMeasurements::new(0).socket_count(), 0);
}
