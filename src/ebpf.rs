//! RAPL through an eBPF sampler: the record exchanged with the kernel program,
//! the sampler's choice of counters, and the userspace probe's bookkeeping.
//!
//! The kernel program keeps three maps: `N_EVENTS` (how many domains are
//! configured), `DESCRIPTORS` (perf-event descriptors, filled by userspace at
//! index `cpu + domain index`) and `EVENTS` (a per-CPU ring buffer). On each
//! clock tick it reads every configured counter of its CPU and emits one
//! [`RaplEnergy`] record per counter into the ring buffer of the current CPU.
use vstd::prelude::*;

use crate::cpus::{check_socket_cpus, first_socket_conflict, sockets_unique, CpuId};
use crate::domain::RaplDomainType;
use crate::energy::{
    fresh_table, lemma_steps_ok_stop, lemma_steps_prefix_error, table_after_steps, table_at_stop, CounterReading, EnergyMeasurements,
    EnergyUnit,
};
use crate::error::RaplError;
use crate::msr::{check_socket_range, first_socket_out_of_range, sockets_below};
use crate::perf_event::{PowerEvent, PERF_MAX_ENERGY};

verus! {

/// The size of a record: `cpu_id` (4 bytes), `domain_id` (1 byte), 3 bytes of
/// padding, `energy` (8 bytes), little-endian, 16-byte aligned. This is the C
/// layout of `{u32, u8, u64}`: the kernel program must declare its record type
/// `repr(C)` (with 16-byte alignment), since a `repr(Rust)` struct leaves the
/// order of the fields to the compiler.
pub const RECORD_SIZE: usize = 16;

/// The largest number of domains the sampler reads.
pub const MAX_EVENTS: usize = 5;

/// The value of a RAPL energy counter, as sent by the kernel program.
#[derive(Debug, Clone, Copy, PartialEq, Eq, Structural)]
pub struct RaplEnergy {
    pub cpu_id: u32,
    pub domain_id: u8,
    pub energy: u64,
}

/// The little-endian value of `b`.
pub open spec fn le_value(b: Seq<u8>) -> int
    decreases b.len(),
{
    if b.len() == 0 {
        0
    } else {
        b[0] + 256 * le_value(b.skip(1))
    }
}

/// The record encoded in the first 16 bytes of `b`.
pub open spec fn decode_record(b: Seq<u8>) -> RaplEnergy {
    RaplEnergy {
        cpu_id: le_value(b.subrange(0, 4)) as u32,
        domain_id: b[4],
        energy: le_value(b.subrange(8, 16)) as u64,
    }
}

proof fn lemma_le_value_4(b: Seq<u8>)
    requires
        b.len() == 4,
    ensures
        le_value(b) == b[0] + 256 * b[1] + 65536 * b[2] + 16777216 * b[3],
{
    let s1 = b.skip(1);
    let s2 = s1.skip(1);
    let s3 = s2.skip(1);
    let s4 = s3.skip(1);
    assert(s4.len() == 0);
    assert(le_value(s4) == 0);
    assert(le_value(s3) == b[3]);
    assert(le_value(s2) == b[2] + 256 * le_value(s3));
    assert(le_value(s1) == b[1] + 256 * le_value(s2));
}

proof fn lemma_le_value_8(b: Seq<u8>)
    requires
        b.len() == 8,
    ensures
        le_value(b) == b[0] + 256 * b[1] + 65536 * b[2] + 16777216 * b[3] + 4294967296 * b[4]
            + 1099511627776 * b[5] + 281474976710656 * b[6] + 72057594037927936 * b[7],
{
    let s1 = b.skip(1);
    let s2 = s1.skip(1);
    let s3 = s2.skip(1);
    let s4 = s3.skip(1);
    let s5 = s4.skip(1);
    let s6 = s5.skip(1);
    let s7 = s6.skip(1);
    let s8 = s7.skip(1);
    assert(s8.len() == 0);
    assert(le_value(s8) == 0);
    assert(le_value(s7) == b[7]);
    assert(le_value(s6) == b[6] + 256 * b[7]);
    assert(le_value(s5) == b[5] + 256 * le_value(s6));
    assert(le_value(s4) == b[4] + 256 * le_value(s5));
    assert(le_value(s3) == b[3] + 256 * le_value(s4));
    assert(le_value(s2) == b[2] + 256 * le_value(s3));
    assert(le_value(s1) == b[1] + 256 * le_value(s2));
}

impl RaplEnergy {
    /// Decodes a record from the bytes of one ring-buffer event.
    pub fn decode(bytes: &[u8]) -> (r: Result<RaplEnergy, RaplError>)
        ensures
            bytes@.len() >= RECORD_SIZE ==> r == Ok::<RaplEnergy, RaplError>(decode_record(bytes@)),
            bytes@.len() < RECORD_SIZE ==> r == Err::<RaplEnergy, RaplError>(
                RaplError::InvalidRecord { len: bytes@.len() as usize },
            ),
    {
        if bytes.len() < RECORD_SIZE {
            return Err(RaplError::InvalidRecord { len: bytes.len() });
        }
        let cpu_id: u32 = bytes[0] as u32 + 256 * bytes[1] as u32 + 65536 * bytes[2] as u32
            + 16777216 * bytes[3] as u32;
        let energy: u64 = bytes[8] as u64 + 256 * bytes[9] as u64 + 65536 * bytes[10] as u64
            + 16777216 * bytes[11] as u64 + 4294967296 * bytes[12] as u64 + 1099511627776
            * bytes[13] as u64 + 281474976710656 * bytes[14] as u64 + 72057594037927936
            * bytes[15] as u64;
        proof {
            lemma_le_value_4(bytes@.subrange(0, 4));
            lemma_le_value_8(bytes@.subrange(8, 16));
        }
        Ok(RaplEnergy { cpu_id, domain_id: bytes[4], energy })
    }

    /// Encodes the record in its 16-byte wire form (padding bytes are zero).
    pub fn encode(&self) -> (r: Vec<u8>)
        ensures
            r@ == encode_record(*self),
    {
        let c = self.cpu_id;
        let e = self.energy;
        let r = vec![
            (c % 256) as u8,
            (c / 256 % 256) as u8,
            (c / 65536 % 256) as u8,
            (c / 16777216) as u8,
            self.domain_id,
            0u8,
            0u8,
            0u8,
            (e % 256) as u8,
            (e / 256 % 256) as u8,
            (e / 65536 % 256) as u8,
            (e / 16777216 % 256) as u8,
            (e / 4294967296 % 256) as u8,
            (e / 1099511627776 % 256) as u8,
            (e / 281474976710656 % 256) as u8,
            (e / 72057594037927936) as u8,
        ];
        assert(r@ =~= encode_record(*self));
        r
    }
}

/// The 16-byte wire form of a record (padding bytes are zero).
pub open spec fn encode_record(r: RaplEnergy) -> Seq<u8> {
    let c = r.cpu_id;
    let e = r.energy;
    seq![
        (c % 256) as u8,
        (c / 256 % 256) as u8,
        (c / 65536 % 256) as u8,
        (c / 16777216) as u8,
        r.domain_id,
        0u8,
        0u8,
        0u8,
        (e % 256) as u8,
        (e / 256 % 256) as u8,
        (e / 65536 % 256) as u8,
        (e / 16777216 % 256) as u8,
        (e / 4294967296 % 256) as u8,
        (e / 1099511627776 % 256) as u8,
        (e / 281474976710656 % 256) as u8,
        (e / 72057594037927936) as u8,
    ]
}

/// Encoding a record and decoding the bytes gives the record back.
pub proof fn lemma_record_round_trip(r: RaplEnergy)
    ensures
        encode_record(r).len() == RECORD_SIZE,
        decode_record(encode_record(r)) == r,
{
    let b = encode_record(r);
    let c = r.cpu_id;
    let e = r.energy;
    lemma_le_value_4(b.subrange(0, 4));
    lemma_le_value_8(b.subrange(8, 16));
    assert(c == (c % 256) + 256 * ((c / 256) % 256) + 65536 * ((c / 65536) % 256) + 16777216 * (c
        / 16777216)) by (bit_vector);
    assert(e == (e % 256) + 256 * ((e / 256) % 256) + 65536 * ((e / 65536) % 256) + 16777216 * ((e
        / 16777216) % 256) + 4294967296 * ((e / 4294967296) % 256) + 1099511627776 * ((e
        / 1099511627776) % 256) + 281474976710656 * ((e / 281474976710656) % 256)
        + 72057594037927936 * (e / 72057594037927936)) by (bit_vector);
}

/// Errors that the kernel sampler reports in its log, with their codes.
#[derive(Debug, Clone, Copy, PartialEq, Eq, Structural)]
pub enum SamplerError {
    /// `N_EVENTS` has not been set by userspace (code -1).
    EventCountMissing,
    /// `N_EVENTS` is outside `1..=5` (code -7).
    InvalidEventCount { count: u8 },
}

impl SamplerError {
    /// The code that the sampler logs with the error.
    pub fn code(&self) -> (r: i64)
        ensures
            r == (match *self {
                SamplerError::EventCountMissing => -1i64,
                SamplerError::InvalidEventCount { .. } => -7i64,
            }),
    {
        match self {
            SamplerError::EventCountMissing => -1,
            SamplerError::InvalidEventCount { .. } => -7,
        }
    }
}

/// The index in `DESCRIPTORS` of the counter of domain `domain_id` on `cpu_id`:
/// the events of one socket start at the index of its monitored CPU.
pub open spec fn descriptor_index_of(cpu_id: u32, domain_id: int) -> int {
    cpu_id + domain_id
}

/// The descriptor index of a counter, if it fits in 32 bits.
pub fn descriptor_index(cpu_id: u32, domain_id: u8) -> (r: Option<u32>)
    ensures
        descriptor_index_of(cpu_id, domain_id as int) <= u32::MAX ==> r == Some(
            descriptor_index_of(cpu_id, domain_id as int) as u32,
        ),
        descriptor_index_of(cpu_id, domain_id as int) > u32::MAX ==> r is None,
{
    cpu_id.checked_add(domain_id as u32)
}

/// What the sampler reads on one tick of `cpu_id`: for each configured domain
/// index `d` in `0..n`, the descriptor at `cpu_id + d` (32-bit arithmetic, as in
/// the kernel), then a record `{cpu_id, d, value}` goes to the ring buffer of
/// `cpu_id`.
pub fn sampler_reads(cpu_id: u32, n_events: Option<u8>) -> (r: Result<Vec<u32>, SamplerError>)
    ensures
        match n_events {
            None => r == Err::<Vec<u32>, SamplerError>(SamplerError::EventCountMissing),
            Some(n) => if 1 <= n <= MAX_EVENTS {
                r is Ok && r->Ok_0@ == Seq::new(
                    n as nat,
                    |d: int| (descriptor_index_of(cpu_id, d) % 0x1_0000_0000) as u32,
                )
            } else {
                r == Err::<Vec<u32>, SamplerError>(SamplerError::InvalidEventCount { count: n })
            },
        },
{
    let n = match n_events {
        Some(n) => n,
        None => {
            return Err(SamplerError::EventCountMissing);
        },
    };
    if n < 1 || n as usize > MAX_EVENTS {
        return Err(SamplerError::InvalidEventCount { count: n });
    }
    let mut reads: Vec<u32> = Vec::new();
    let mut d: u8 = 0;
    while d < n
        invariant
            d <= n,
            n <= MAX_EVENTS,
            reads@ =~= Seq::new(
                d as nat,
                |k: int| (descriptor_index_of(cpu_id, k) % 0x1_0000_0000) as u32,
            ),
        decreases n - d,
    {
        reads.push(cpu_id.wrapping_add(d as u32));
        d += 1;
    }
    Ok(reads)
}

/// The domain and scale behind a domain index of the records.
#[derive(Debug, Clone, Copy, PartialEq, Eq, Structural)]
pub struct DomainInfo {
    pub domain: RaplDomainType,
    pub scale: EnergyUnit,
}

/// The ring buffer of one monitored CPU, and the table that resolves the domain
/// index of its records (in the order of the requested events).
#[derive(Debug, Clone)]
pub struct EbpfEnergyBuffer {
    pub cpu: CpuId,
    pub domains_by_id: Vec<DomainInfo>,
}

/// A perf-event descriptor that userspace opens and stores in `DESCRIPTORS`.
#[derive(Debug, Clone, Copy, PartialEq, Eq, Structural)]
pub struct DescriptorSlot {
    /// Index in `DESCRIPTORS`.
    pub index: u32,
    /// The CPU to open the counter on.
    pub cpu: u32,
    /// The event code to open the counter with.
    pub code: u8,
}

/// The domain table of every buffer.
pub open spec fn domain_table(events: Seq<&PowerEvent>) -> Seq<DomainInfo> {
    Seq::new(events.len(), |j: int| DomainInfo { domain: events[j].domain, scale: events[j].scale })
}

/// The descriptors of the first `n` CPUs, each with one per event.
pub open spec fn descriptor_slots(cpus: Seq<CpuId>, events: Seq<&PowerEvent>, n: int) -> Seq<
    DescriptorSlot,
>
    decreases n,
{
    if n <= 0 {
        Seq::empty()
    } else {
        descriptor_slots(cpus, events, n - 1) + Seq::new(
            events.len(),
            |j: int|
                DescriptorSlot {
                    index: descriptor_index_of(cpus[n - 1].cpu, j) as u32,
                    cpu: cpus[n - 1].cpu,
                    code: events[j].code,
                },
        )
    }
}

/// Every descriptor index fits in 32 bits.
pub open spec fn descriptor_indices_fit(cpus: Seq<CpuId>, event_count: int) -> bool {
    forall|i: int| 0 <= i < cpus.len() ==> #[trigger] cpus[i].cpu + event_count - 1 <= u32::MAX
}

/// `i` is the first CPU whose descriptor indices do not all fit in 32 bits.
pub open spec fn first_index_overflow(cpus: Seq<CpuId>, event_count: int, i: int) -> bool {
    &&& 0 <= i < cpus.len()
    &&& descriptor_indices_fit(cpus.take(i), event_count)
    &&& cpus[i].cpu + event_count - 1 > u32::MAX
}

/// The readings of one drain of the buffer `buf`: each event is decoded, and its
/// domain index resolved through the buffer's table.
pub open spec fn ebpf_steps(buf: EbpfEnergyBuffer, events: Seq<Seq<u8>>) -> Seq<
    Result<CounterReading, RaplError>,
> {
    Seq::new(
        events.len(),
        |k: int|
            if events[k].len() < RECORD_SIZE {
                Err(RaplError::InvalidRecord { len: events[k].len() as usize })
            } else {
                let rec = decode_record(events[k]);
                if rec.domain_id < buf.domains_by_id@.len() {
                    Ok(
                        CounterReading {
                            socket: buf.cpu.socket,
                            domain: buf.domains_by_id@[rec.domain_id as int].domain,
                            value: rec.energy,
                            max_value: PERF_MAX_ENERGY,
                            unit: buf.domains_by_id@[rec.domain_id as int].scale,
                        },
                    )
                } else {
                    Err(RaplError::UnknownDomainId { domain_id: rec.domain_id })
                }
            },
    )
}

/// eBPF probe. The caller loads the kernel program, fills `N_EVENTS` with
/// [`EbpfProbe::event_count`] and `DESCRIPTORS` with the counters of
/// [`EbpfProbe::descriptors`], attaches the program to each CPU, and hands the
/// events drained from each CPU's ring buffer to [`EbpfProbe::poll_buffer`].
pub struct EbpfProbe {
    /// The energy measurements.
    pub measurements: EnergyMeasurements,
    /// One ring buffer per monitored CPU.
    pub buffers: Vec<EbpfEnergyBuffer>,
    /// The counters to open and store in `DESCRIPTORS`.
    pub descriptors: Vec<DescriptorSlot>,
    /// The number of domains, for `N_EVENTS`.
    pub event_count: u8,
}

impl EbpfProbe {
    /// Prepares an eBPF probe for the given CPUs (one per socket) and 1 to 5 events.
    pub fn new(cpus: &[CpuId], events: &[&PowerEvent]) -> (r: Result<EbpfProbe, RaplError>)
        ensures
            r is Ok <==> sockets_unique(cpus@) && sockets_below(cpus@, cpus@.len() as int) && 1
                <= events@.len() <= MAX_EVENTS && descriptor_indices_fit(
                cpus@,
                events@.len() as int,
            ),
            r matches Ok(p) ==> {
                &&& p.measurements@ == fresh_table(cpus@.len())
                &&& p.event_count == events@.len()
                &&& p.descriptors@ == descriptor_slots(cpus@, events@, cpus@.len() as int)
                &&& p.buffers@.len() == cpus@.len()
                &&& forall|i: int|
                    0 <= i < cpus@.len() ==> (#[trigger] p.buffers@[i]).cpu == cpus@[i]
                        && p.buffers@[i].domains_by_id@ == domain_table(events@)
            },
            !sockets_unique(cpus@) ==> exists|j: int|
                first_socket_conflict(cpus@, j) && r == Err::<EbpfProbe, RaplError>(
                    RaplError::SocketConflict { socket: cpus@[j].socket },
                ),
            sockets_unique(cpus@) && !sockets_below(cpus@, cpus@.len() as int) ==> exists|j: int|
                first_socket_out_of_range(cpus@, cpus@.len() as int, j) && r == Err::<
                    EbpfProbe,
                    RaplError,
                >(
                    RaplError::SocketOutOfRange {
                        socket: cpus@[j].socket,
                        socket_count: cpus@.len() as usize,
                    },
                ),
            sockets_unique(cpus@) && sockets_below(cpus@, cpus@.len() as int) && !(1
                <= events@.len() <= MAX_EVENTS) ==> r == Err::<EbpfProbe, RaplError>(
                RaplError::InvalidEventCount { count: events@.len() as usize },
            ),
            sockets_unique(cpus@) && sockets_below(cpus@, cpus@.len() as int) && 1
                <= events@.len() <= MAX_EVENTS && !descriptor_indices_fit(
                cpus@,
                events@.len() as int,
            ) ==> exists|i: int|
                first_index_overflow(cpus@, events@.len() as int, i) && r == Err::<
                    EbpfProbe,
                    RaplError,
                >(
                    RaplError::DescriptorIndexOverflow {
                        cpu: cpus@[i].cpu,
                        domain_id: (u32::MAX - cpus@[i].cpu + 1) as u8,
                    },
                ),
    {
        check_socket_cpus(cpus)?;
        check_socket_range(cpus)?;
        if events.len() < 1 || events.len() > MAX_EVENTS {
            return Err(RaplError::InvalidEventCount { count: events.len() });
        }
        let mut table: Vec<DomainInfo> = Vec::new();
        let mut j: usize = 0;
        while j < events.len()
            invariant
                j <= events@.len(),
                table@ =~= domain_table(events@).take(j as int),
            decreases events@.len() - j,
        {
            table.push(DomainInfo { domain: events[j].domain, scale: events[j].scale });
            j += 1;
        }
        assert(table@ =~= domain_table(events@));
        let mut descriptors: Vec<DescriptorSlot> = Vec::new();
        let mut buffers: Vec<EbpfEnergyBuffer> = Vec::new();
        let mut i: usize = 0;
        while i < cpus.len()
            invariant
                sockets_unique(cpus@),
                sockets_below(cpus@, cpus@.len() as int),
                i <= cpus@.len(),
                1 <= events@.len() <= MAX_EVENTS,
                table@ == domain_table(events@),
                descriptors@ == descriptor_slots(cpus@, events@, i as int),
                descriptor_indices_fit(cpus@.take(i as int), events@.len() as int),
                buffers@.len() == i,
                forall|k: int|
                    0 <= k < i ==> (#[trigger] buffers@[k]).cpu == cpus@[k]
                        && buffers@[k].domains_by_id@ == domain_table(events@),
            decreases cpus@.len() - i,
        {
            let cpu = cpus[i];
            let ghost base = descriptors@;
            let mut j: usize = 0;
            while j < events.len()
                invariant
                    sockets_unique(cpus@),
                    sockets_below(cpus@, cpus@.len() as int),
                    i < cpus@.len(),
                    cpu == cpus@[i as int],
                    descriptor_indices_fit(cpus@.take(i as int), events@.len() as int),
                    j <= events@.len(),
                    events@.len() <= MAX_EVENTS,
                    descriptors@ == base + Seq::new(
                        j as nat,
                        |jj: int|
                            DescriptorSlot {
                                index: descriptor_index_of(cpu.cpu, jj) as u32,
                                cpu: cpu.cpu,
                                code: events@[jj].code,
                            },
                    ),
                    j > 0 ==> cpu.cpu + j - 1 <= u32::MAX,
                decreases events@.len() - j,
            {
                let index = match descriptor_index(cpu.cpu, j as u8) {
                    Some(index) => index,
                    None => {
                        proof {
                            assert(!descriptor_indices_fit(cpus@, events@.len() as int)) by {
                                assert(cpus@[i as int].cpu + events@.len() - 1 > u32::MAX);
                            }
                            assert(first_index_overflow(cpus@, events@.len() as int, i as int));
                            assert(j == u32::MAX - cpu.cpu + 1);
                        }
                        return Err(RaplError::DescriptorIndexOverflow { cpu: cpu.cpu, domain_id: j as u8 });
                    },
                };
                descriptors.push(DescriptorSlot { index, cpu: cpu.cpu, code: events[j].code });
                j += 1;
                assert(descriptors@ =~= base + Seq::new(
                    j as nat,
                    |jj: int|
                        DescriptorSlot {
                            index: descriptor_index_of(cpu.cpu, jj) as u32,
                            cpu: cpu.cpu,
                            code: events@[jj].code,
                        },
                ));
            }
            assert(descriptors@ =~= descriptor_slots(cpus@, events@, i + 1));
            buffers.push(EbpfEnergyBuffer { cpu, domains_by_id: table.clone() });
            assert(descriptor_indices_fit(cpus@.take(i + 1), events@.len() as int)) by {
                assert forall|k: int| 0 <= k < i + 1 implies #[trigger] cpus@.take(i + 1)[k].cpu
                    + events@.len() - 1 <= u32::MAX by {
                    if k < i {
                        assert(cpus@.take(i as int)[k] == cpus@[k]);
                    }
                }
            }
            i += 1;
        }
        assert(cpus@.take(i as int) =~= cpus@);
        Ok(
            EbpfProbe {
                measurements: EnergyMeasurements::new(cpus.len()),
                buffers,
                descriptors,
                event_count: events.len() as u8,
            },
        )
    }

    /// The counters to open and store in `DESCRIPTORS`, in order.
    pub fn descriptors(&self) -> (r: &[DescriptorSlot])
        ensures
            r@ == self.descriptors@,
    {
        self.descriptors.as_slice()
    }

    /// The number of configured domains, for `N_EVENTS`.
    pub fn event_count(&self) -> (r: u8)
        ensures
            r == self.event_count,
    {
        self.event_count
    }

    /// Updates the measurements with the events drained from the ring buffer of
    /// `buffers[buffer_index]`; counters are free-running 64-bit values.
    pub fn poll_buffer(&mut self, buffer_index: usize, events: &[Vec<u8>]) -> (r: Result<
        (),
        RaplError,
    >)
        requires
            buffer_index < old(self).buffers@.len(),
        ensures
            final(self).buffers == old(self).buffers,
            final(self).descriptors == old(self).descriptors,
            final(self).event_count == old(self).event_count,
            match table_after_steps(
                old(self).measurements@,
                ebpf_steps(
                    old(self).buffers@[buffer_index as int],
                    events@.map_values(|e: Vec<u8>| e@),
                ),
            ) {
                Ok(t) => r is Ok && final(self).measurements@ == t,
                Err(e) => r == Err::<(), RaplError>(e),
            },
            final(self).measurements@ == table_at_stop(old(self).measurements@, ebpf_steps(
                    old(self).buffers@[buffer_index as int],
                    events@.map_values(|e: Vec<u8>| e@),
                )),
    {
        let ghost t0 = self.measurements@;
        let ghost es = events@.map_values(|e: Vec<u8>| e@);
        let ghost steps = ebpf_steps(self.buffers@[buffer_index as int], es);
        let mut k: usize = 0;
        assert(steps.take(0) =~= Seq::<Result<CounterReading, RaplError>>::empty());
        while k < events.len()
            invariant
                k <= events@.len(),
                buffer_index < self.buffers@.len(),
                es == events@.map_values(|e: Vec<u8>| e@),
                self.buffers == old(self).buffers,
                self.descriptors == old(self).descriptors,
                self.event_count == old(self).event_count,
                t0 == old(self).measurements@,
                steps == ebpf_steps(self.buffers@[buffer_index as int], es),
                table_after_steps(t0, steps.take(k as int)) == Ok::<_, RaplError>(self.measurements@),
            decreases events@.len() - k,
        {
            assert(steps.take(k + 1).drop_last() =~= steps.take(k as int));
            assert(events@[k as int]@ == es[k as int]);
            let step: Result<CounterReading, RaplError> = match RaplEnergy::decode(
                events[k].as_slice(),
            ) {
                Ok(rec) => {
                    let buf = &self.buffers[buffer_index];
                    if (rec.domain_id as usize) < buf.domains_by_id.len() {
                        let info = buf.domains_by_id[rec.domain_id as usize];
                        Ok(
                            CounterReading {
                                socket: buf.cpu.socket,
                                domain: info.domain,
                                value: rec.energy,
                                max_value: PERF_MAX_ENERGY,
                                unit: info.scale,
                            },
                        )
                    } else {
                        Err(RaplError::UnknownDomainId { domain_id: rec.domain_id })
                    }
                },
                Err(e) => Err(e),
            };
            assert(steps[k as int] == step);
            match step {
                Ok(reading) => match self.measurements.record(reading) {
                    Ok(()) => {},
                    Err(e) => {
                        proof {
                            lemma_steps_prefix_error(t0, steps, k + 1);
                        }
                        return Err(e);
                    },
                },
                Err(e) => {
                    proof {
                        lemma_steps_prefix_error(t0, steps, k + 1);
                    }
                    return Err(e);
                },
            }
            k += 1;
        }
        assert(steps.take(k as int) =~= steps);
        proof {
            lemma_steps_ok_stop(t0, steps);
        }
        Ok(())
    }

    /// The latest measurements.
    pub fn measurements(&self) -> (r: &EnergyMeasurements)
        ensures
            r == &self.measurements,
    {
        &self.measurements
    }

    /// Forgets every previous counter value.
    pub fn reset(&mut self)
        ensures
            final(self).buffers == old(self).buffers,
            final(self).measurements@ == crate::energy::cleared_table(old(self).measurements@),
    {
        self.measurements.clear()
    }
}

} // verus!
