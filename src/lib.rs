//! Reading RAPL energy counters through four kernel interfaces (MSR, perf_event,
//! powercap and an eBPF sampler), with a shared, overflow-correcting counter model.
pub mod cli;
pub mod cpus;
pub mod discovery;
pub mod domain;
pub mod ebpf;
pub mod energy;
pub mod error;
pub mod msr;
pub mod perf_event;
pub mod powercap;
pub mod text;

pub use cli::{Cli, Commands, OutputType, ProbeType};
pub use cpus::{check_socket_cpus, parse_cpu_and_socket_list, parse_cpu_list, CpuId};
pub use domain::RaplDomainType;
pub use ebpf::RaplEnergy;
pub use energy::{Energy, EnergyCounter, EnergyMeasurements, EnergyUnit};
pub use error::RaplError;
pub use msr::RaplVendor;
pub use powercap::{PowerZone, PowerZoneHierarchy};
