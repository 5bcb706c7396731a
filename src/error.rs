use vstd::prelude::*;

use crate::domain::RaplDomainType;

verus! {

/// Errors of discovery, probe construction and polling.
#[derive(Clone, Debug, PartialEq, Eq)]
pub enum RaplError {
    /// Two monitored CPUs belong to the same socket.
    SocketConflict { socket: u32 },
    /// A socket id is not below the number of monitored sockets.
    SocketOutOfRange { socket: u32, socket_count: usize },
    /// A counter value, or the previous one, exceeds the counter's maximum.
    CounterOutOfRange { socket: u32, domain: RaplDomainType, value: u64, max_value: u64 },
    /// A powercap probe needs at least one zone.
    NoZone,
    /// The CPU vendor has no register for this domain.
    UnsupportedDomain { domain: RaplDomainType },
    /// The CPU vendor is neither Intel nor AMD.
    UnsupportedVendor { vendor: String },
    /// No vendor id in the CPU description.
    VendorNotFound,
    /// A text is not a valid CPU list.
    InvalidCpuList,
    /// A counter file does not hold valid UTF-8.
    InvalidUtf8,
    /// A text is not a valid decimal integer of the expected width.
    InvalidNumber,
    /// A perf event file does not hold `event=0x<hex>`.
    InvalidEventCode,
    /// A perf event name is not a known RAPL domain.
    UnknownEvent { name: String },
    /// A perf event scale is not a power of two.
    InvalidScale { bits: u32 },
    /// An eBPF record does not have the record size.
    InvalidRecord { len: usize },
    /// An eBPF record names a domain index that the buffer does not have.
    UnknownDomainId { domain_id: u8 },
    /// The eBPF sampler reads 1 to 5 events.
    InvalidEventCount { count: usize },
    /// A descriptor index does not fit in 32 bits.
    DescriptorIndexOverflow { cpu: u32, domain_id: u8 },
}

} // verus!
