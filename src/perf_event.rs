//! RAPL through the `perf_event` RAPL PMU: the sysfs event catalog and the probe's
//! bookkeeping. The kernel's RAPL PMU driver exposes one event per domain.
use vstd::prelude::*;
use vstd::string::StringSliceAdditionalSpecFns;

use crate::cpus::{check_socket_cpus, first_socket_conflict, sockets_unique, CpuId};
use crate::domain::RaplDomainType;
use crate::energy::{
    fresh_table, lemma_steps_ok_stop, lemma_steps_prefix_error, table_after_steps, table_at_stop, CounterReading, EnergyMeasurements,
    EnergyUnit,
};
use crate::error::RaplError;
use crate::msr::{check_socket_range, first_socket_out_of_range, sockets_below};
use crate::text::{parse_unsigned, parse_unsigned_bytes, str_eq, trim_end, trim_end_len};

verus! {

/// Perf counters are free-running 64-bit values.
pub const PERF_MAX_ENERGY: u64 = 0xffff_ffff_ffff_ffff;

/// The bytes of `event=0x`, the prefix of an event's configuration.
pub open spec fn event_prefix() -> Seq<u8> {
    seq![0x65u8, 0x76u8, 0x65u8, 0x6eu8, 0x74u8, 0x3du8, 0x30u8, 0x78u8]
}

/// The bytes of `energy-`, the prefix of an event's file name.
pub open spec fn energy_prefix() -> Seq<u8> {
    seq![0x65u8, 0x6eu8, 0x65u8, 0x72u8, 0x67u8, 0x79u8, 0x2du8]
}

/// The domain of a RAPL perf event name.
pub open spec fn event_domain(name: Seq<char>) -> Option<RaplDomainType> {
    if name == "cores"@ {
        Some(RaplDomainType::PP0)
    } else if name == "gpu"@ {
        Some(RaplDomainType::PP1)
    } else if name == "psys"@ {
        Some(RaplDomainType::Platform)
    } else if name == "pkg"@ {
        Some(RaplDomainType::Package)
    } else if name == "ram"@ {
        Some(RaplDomainType::Dram)
    } else {
        None
    }
}

/// The event code in the content of an event file: `event=0x<hex byte>`.
pub open spec fn event_code(content: Seq<u8>) -> Option<u8> {
    let t = trim_end(content);
    if t.len() >= 8 && t.take(8) == event_prefix() {
        match parse_unsigned(t.skip(8), 16, 255) {
            Some(v) => Some(v as u8),
            None => None,
        }
    } else {
        None
    }
}

/// A main event file: named `energy-<name>`, without a `.` (not `*.unit` nor `*.scale`).
pub open spec fn is_event_file(name: Seq<u8>) -> bool {
    &&& name.len() >= 7
    &&& name.take(7) == energy_prefix()
    &&& forall|i: int| 0 <= i < name.len() ==> name[i] != 0x2eu8
}

/// The unit of a perf scale given as the bits of an `f32`: RAPL scales are powers
/// of two no larger than one, `2^-k` with `0 <= k <= 126`.
pub open spec fn scale_unit_of_bits(bits: u32) -> Option<EnergyUnit> {
    let e = bits as int / 0x80_0000;
    if bits as int % 0x80_0000 == 0 && 1 <= e <= 127 {
        Some(EnergyUnit::PowerOfTwo((127 - e) as u32))
    } else {
        None
    }
}

/// The PMU type in the content of `/sys/devices/power/type`.
pub open spec fn pmu_type_of(content: Seq<u8>) -> Option<u32> {
    match parse_unsigned(trim_end(content), 10, u32::MAX as int) {
        Some(v) => Some(v as u32),
        None => None,
    }
}

/// The RAPL domain of a perf event name (`cores`, `gpu`, `psys`, `pkg`, `ram`).
pub fn parse_event_name(name: &str) -> (r: Option<RaplDomainType>)
    ensures
        r == event_domain(name@),
{
    if str_eq(name, "cores") {
        Some(RaplDomainType::PP0)
    } else if str_eq(name, "gpu") {
        Some(RaplDomainType::PP1)
    } else if str_eq(name, "psys") {
        Some(RaplDomainType::Platform)
    } else if str_eq(name, "pkg") {
        Some(RaplDomainType::Package)
    } else if str_eq(name, "ram") {
        Some(RaplDomainType::Dram)
    } else {
        None
    }
}

/// Parses the content of an event file, `event=0x<hex>`, into the event code.
pub fn parse_event_code(content: &str) -> (r: Result<u8, RaplError>)
    ensures
        r matches Ok(c) ==> event_code(content.spec_bytes()) == Some(c),
        r is Err ==> event_code(content.spec_bytes()) is None && r == Err::<u8, RaplError>(
            RaplError::InvalidEventCode,
        ),
{
    let bytes = content.as_bytes();
    let n = trim_end_len(bytes);
    let t = vstd::slice::slice_subrange(bytes, 0, n);
    assert(t@ =~= trim_end(bytes@));
    if n < 8 || t[0] != 0x65u8 || t[1] != 0x76u8 || t[2] != 0x65u8 || t[3] != 0x6eu8 || t[4]
        != 0x74u8 || t[5] != 0x3du8 || t[6] != 0x30u8 || t[7] != 0x78u8 {
        proof {
            if t@.len() >= 8 && t@.take(8) == event_prefix() {
                assert(t@.take(8)[0] == t@[0]);
                assert(t@.take(8)[1] == t@[1]);
                assert(t@.take(8)[2] == t@[2]);
                assert(t@.take(8)[3] == t@[3]);
                assert(t@.take(8)[4] == t@[4]);
                assert(t@.take(8)[5] == t@[5]);
                assert(t@.take(8)[6] == t@[6]);
                assert(t@.take(8)[7] == t@[7]);
            }
        }
        return Err(RaplError::InvalidEventCode);
    }
    assert(t@.take(8) =~= event_prefix());
    let digits = vstd::slice::slice_subrange(t, 8, n);
    assert(digits@ =~= t@.skip(8));
    match parse_unsigned_bytes(digits, 16, 255) {
        Some(v) => Ok(v as u8),
        None => Err(RaplError::InvalidEventCode),
    }
}

/// The event name of a file of `/sys/devices/power/events`, if it is a main
/// event file (`energy-<name>`).
pub fn event_name_of_file(file_name: &str) -> (r: Option<String>)
    ensures
        r matches Some(n) ==> vstd::utf8::encode_utf8(n@) == file_name.spec_bytes().skip(7),
        r is Some <==> is_event_file(file_name.spec_bytes()),
{
    let b = file_name.as_bytes();
    let mut i: usize = 0;
    while i < b.len()
        invariant
            b@ == file_name.spec_bytes(),
            i <= b@.len(),
            forall|k: int| 0 <= k < i ==> b@[k] != 0x2eu8,
        decreases b@.len() - i,
    {
        if b[i] == 0x2eu8 {
            assert(b@[i as int] == 0x2eu8);
            return None;
        }
        i += 1;
    }
    if b.len() < 7 || b[0] != 0x65u8 || b[1] != 0x6eu8 || b[2] != 0x65u8 || b[3] != 0x72u8 || b[4]
        != 0x67u8 || b[5] != 0x79u8 || b[6] != 0x2du8 {
        proof {
            if b@.len() >= 7 && b@.take(7) == energy_prefix() {
                assert(b@.take(7)[0] == b@[0]);
                assert(b@.take(7)[1] == b@[1]);
                assert(b@.take(7)[2] == b@[2]);
                assert(b@.take(7)[3] == b@[3]);
                assert(b@.take(7)[4] == b@[4]);
                assert(b@.take(7)[5] == b@[5]);
                assert(b@.take(7)[6] == b@[6]);
            }
        }
        return None;
    }
    assert(b@.take(7) =~= energy_prefix());
    proof {
        vstd::utf8::encode_utf8_valid_utf8(file_name@);
        lemma_ascii_prefix_is_boundary(b@, 7);
    }
    let (_, rest) = file_name.split_at(7);
    assert(rest.spec_bytes() =~= file_name.spec_bytes().skip(7));
    Some(rest.to_owned())
}

/// A position after only ASCII bytes of valid UTF-8 is a character boundary.
proof fn lemma_ascii_prefix_is_boundary(bytes: Seq<u8>, k: int)
    requires
        vstd::utf8::valid_utf8(bytes),
        0 <= k <= bytes.len(),
        forall|i: int| 0 <= i < k ==> bytes[i] < 0x80,
    ensures
        vstd::utf8::is_char_boundary(bytes, k),
    decreases k,
{
    if k > 0 {
        let rest = vstd::utf8::pop_first_scalar(bytes);
        assert(vstd::utf8::length_of_first_scalar(bytes) == 1);
        assert(rest =~= bytes.subrange(1, bytes.len() as int));
        assert forall|i: int| 0 <= i < k - 1 implies rest[i] < 0x80 by {
            assert(rest[i] == bytes[i + 1]);
        }
        lemma_ascii_prefix_is_boundary(rest, k - 1);
    }
}

/// The unit of a perf scale, given as the bits of the `f32` that sysfs reports.
pub fn scale_unit(bits: u32) -> (r: Result<EnergyUnit, RaplError>)
    ensures
        r matches Ok(u) ==> scale_unit_of_bits(bits) == Some(u),
        r is Err ==> scale_unit_of_bits(bits) is None && r == Err::<EnergyUnit, RaplError>(
            RaplError::InvalidScale { bits },
        ),
{
    let e = bits / 0x80_0000u32;
    if bits % 0x80_0000u32 == 0 && 1 <= e && e <= 127 {
        Ok(EnergyUnit::PowerOfTwo(127 - e))
    } else {
        Err(RaplError::InvalidScale { bits })
    }
}

/// Parses the content of `/sys/devices/power/type`, the type of the RAPL PMU.
pub fn parse_pmu_type(content: &str) -> (r: Result<u32, RaplError>)
    ensures
        r matches Ok(t) ==> pmu_type_of(content.spec_bytes()) == Some(t),
        r is Err ==> pmu_type_of(content.spec_bytes()) is None && r == Err::<u32, RaplError>(
            RaplError::InvalidNumber,
        ),
{
    let bytes = content.as_bytes();
    let n = trim_end_len(bytes);
    let t = vstd::slice::slice_subrange(bytes, 0, n);
    assert(t@ =~= trim_end(bytes@));
    match parse_unsigned_bytes(t, 10, u32::MAX as u64) {
        Some(v) => Ok(v as u32),
        None => Err(RaplError::InvalidNumber),
    }
}

/// A RAPL power event, as described in `/sys/devices/power/events`.
#[derive(Debug, Clone)]
pub struct PowerEvent {
    /// The name of the event, which names a RAPL domain, like `pkg`.
    pub name: String,
    /// The RAPL domain of the event.
    pub domain: RaplDomainType,
    /// The event code, the `config` of `perf_event_open`.
    pub code: u8,
    /// The declared unit, normally `Joules`.
    pub unit: String,
    /// The energy of one count.
    pub scale: EnergyUnit,
}

impl PowerEvent {
    /// Builds an event from its name and the contents of its three sysfs files
    /// (the scale as the bits of its `f32` value).
    pub fn from_sysfs(name: String, code_content: &str, unit: String, scale_bits: u32) -> (r:
        Result<PowerEvent, RaplError>)
        ensures
            r matches Ok(e) ==> e.name@ == name@ && e.unit@ == unit@ && Some(e.code) == event_code(
                code_content.spec_bytes(),
            ) && Some(e.scale) == scale_unit_of_bits(scale_bits) && Some(e.domain)
                == event_domain(name@),
            event_code(code_content.spec_bytes()) is None ==> r == Err::<PowerEvent, RaplError>(
                RaplError::InvalidEventCode,
            ),
            event_code(code_content.spec_bytes()) is Some && scale_unit_of_bits(scale_bits) is None
                ==> r == Err::<PowerEvent, RaplError>(RaplError::InvalidScale { bits: scale_bits }),
            event_code(code_content.spec_bytes()) is Some && scale_unit_of_bits(scale_bits) is Some
                && event_domain(name@) is None ==> (r matches Err(RaplError::UnknownEvent { name: n })
                && n@ == name@),
            event_code(code_content.spec_bytes()) is Some && scale_unit_of_bits(scale_bits) is Some
                && event_domain(name@) is Some ==> r is Ok,
    {
        let code = parse_event_code(code_content)?;
        let scale = scale_unit(scale_bits)?;
        match parse_event_name(name.as_str()) {
            Some(domain) => Ok(PowerEvent { name, domain, code, unit, scale }),
            None => Err(RaplError::UnknownEvent { name }),
        }
    }
}

/// One counter to read on each poll: an event on one monitored CPU.
#[derive(Clone, Copy, Debug, PartialEq, Eq, Structural)]
pub struct PerfChannel {
    pub cpu: u32,
    pub socket: u32,
    pub domain: RaplDomainType,
    /// The event code to open the counter with.
    pub code: u8,
    pub scale: EnergyUnit,
}

/// The channel for CPU `i` and event `j`.
pub open spec fn perf_channel(cpus: Seq<CpuId>, events: Seq<&PowerEvent>, i: int, j: int) -> PerfChannel {
    PerfChannel {
        cpu: cpus[i].cpu,
        socket: cpus[i].socket,
        domain: events[j].domain,
        code: events[j].code,
        scale: events[j].scale,
    }
}

/// The channels of the first `n` CPUs, CPU by CPU, each in the order of `events`.
pub open spec fn perf_channels(cpus: Seq<CpuId>, events: Seq<&PowerEvent>, n: int) -> Seq<
    PerfChannel,
>
    decreases n,
{
    if n <= 0 {
        Seq::empty()
    } else {
        perf_channels(cpus, events, n - 1) + Seq::new(
            events.len(),
            |j: int| perf_channel(cpus, events, n - 1, j),
        )
    }
}

/// The readings of one poll of perf counters.
pub open spec fn perf_steps(channels: Seq<PerfChannel>, raw: Seq<u64>) -> Seq<
    Result<CounterReading, RaplError>,
> {
    Seq::new(
        channels.len(),
        |k: int|
            Ok(
                CounterReading {
                    socket: channels[k].socket,
                    domain: channels[k].domain,
                    value: raw[k],
                    max_value: PERF_MAX_ENERGY,
                    unit: channels[k].scale,
                },
            ),
    )
}

/// Energy probe based on perf_event for RAPL. The counters are opened and read by
/// the caller, in the order of [`PerfEventProbe::channels`].
pub struct PerfEventProbe {
    /// The energy measurements.
    pub measurements: EnergyMeasurements,
    /// The counters to read on each poll.
    pub channels: Vec<PerfChannel>,
}

impl PerfEventProbe {
    /// Prepares a perf_event probe for the given CPUs (one per socket) and events.
    pub fn new(socket_cpus: &[CpuId], events: &[&PowerEvent]) -> (r: Result<
        PerfEventProbe,
        RaplError,
    >)
        ensures
            r is Ok <==> sockets_unique(socket_cpus@) && sockets_below(
                socket_cpus@,
                socket_cpus@.len() as int,
            ),
            r matches Ok(p) ==> p.measurements@ == fresh_table(socket_cpus@.len()) && p.channels@
                == perf_channels(socket_cpus@, events@, socket_cpus@.len() as int),
            !sockets_unique(socket_cpus@) ==> exists|j: int|
                first_socket_conflict(socket_cpus@, j) && r == Err::<PerfEventProbe, RaplError>(
                    RaplError::SocketConflict { socket: socket_cpus@[j].socket },
                ),
            sockets_unique(socket_cpus@) && !sockets_below(socket_cpus@, socket_cpus@.len() as int)
                ==> exists|j: int|
                first_socket_out_of_range(socket_cpus@, socket_cpus@.len() as int, j) && r
                    == Err::<PerfEventProbe, RaplError>(
                    RaplError::SocketOutOfRange {
                        socket: socket_cpus@[j].socket,
                        socket_count: socket_cpus@.len() as usize,
                    },
                ),
    {
        check_socket_cpus(socket_cpus)?;
        check_socket_range(socket_cpus)?;
        let mut channels: Vec<PerfChannel> = Vec::new();
        let mut i: usize = 0;
        while i < socket_cpus.len()
            invariant
                i <= socket_cpus@.len(),
                channels@ == perf_channels(socket_cpus@, events@, i as int),
            decreases socket_cpus@.len() - i,
        {
            let ghost base = channels@;
            let mut j: usize = 0;
            while j < events.len()
                invariant
                    i < socket_cpus@.len(),
                    j <= events@.len(),
                    channels@ == base + Seq::new(
                        j as nat,
                        |jj: int| perf_channel(socket_cpus@, events@, i as int, jj),
                    ),
                decreases events@.len() - j,
            {
                let event = events[j];
                channels.push(
                    PerfChannel {
                        cpu: socket_cpus[i].cpu,
                        socket: socket_cpus[i].socket,
                        domain: event.domain,
                        code: event.code,
                        scale: event.scale,
                    },
                );
                j += 1;
                assert(channels@ =~= base + Seq::new(
                    j as nat,
                    |jj: int| perf_channel(socket_cpus@, events@, i as int, jj),
                ));
            }
            i += 1;
            assert(channels@ =~= perf_channels(socket_cpus@, events@, i as int));
        }
        Ok(PerfEventProbe { measurements: EnergyMeasurements::new(socket_cpus.len()), channels })
    }

    /// The counters to open and read on each poll, in order.
    pub fn channels(&self) -> (r: &[PerfChannel])
        ensures
            r@ == self.channels@,
    {
        self.channels.as_slice()
    }

    /// Updates the measurements with one raw count per channel.
    pub fn poll(&mut self, raw: &[u64]) -> (r: Result<(), RaplError>)
        requires
            raw@.len() == old(self).channels@.len(),
        ensures
            final(self).channels == old(self).channels,
            match table_after_steps(old(self).measurements@, perf_steps(old(self).channels@, raw@)) {
                Ok(t) => r is Ok && final(self).measurements@ == t,
                Err(e) => r == Err::<(), RaplError>(e),
            },
            final(self).measurements@ == table_at_stop(old(self).measurements@, perf_steps(old(self).channels@, raw@)),
    {
        let ghost t0 = self.measurements@;
        let ghost steps = perf_steps(self.channels@, raw@);
        let mut k: usize = 0;
        assert(steps.take(0) =~= Seq::<Result<CounterReading, RaplError>>::empty());
        while k < self.channels.len()
            invariant
                k <= self.channels@.len(),
                raw@.len() == self.channels@.len(),
                self.channels == old(self).channels,
                t0 == old(self).measurements@,
                steps == perf_steps(self.channels@, raw@),
                table_after_steps(t0, steps.take(k as int)) == Ok::<_, RaplError>(self.measurements@),
            decreases self.channels@.len() - k,
        {
            let ch = self.channels[k];
            let reading = CounterReading {
                socket: ch.socket,
                domain: ch.domain,
                value: raw[k],
                max_value: PERF_MAX_ENERGY,
                unit: ch.scale,
            };
            assert(steps.take(k + 1).drop_last() =~= steps.take(k as int));
            assert(steps[k as int] == Ok::<_, RaplError>(reading));
            match self.measurements.record(reading) {
                Ok(()) => {},
                Err(e) => {
                    proof {
                        lemma_steps_prefix_error(t0, steps, k + 1);
                    }
                    return Err(e);
                },
            }
            k += 1;
        }
        assert(steps.take(k as int) =~= steps);
        proof {
            lemma_steps_ok_stop(t0, steps);
        }
        Ok(())
    }

    /// The latest measurements.
    pub fn measurements(&self) -> (r: &EnergyMeasurements)
        ensures
            r == &self.measurements,
    {
        &self.measurements
    }

    /// Forgets every previous counter value.
    pub fn reset(&mut self)
        ensures
            final(self).channels == old(self).channels,
            final(self).measurements@ == crate::energy::cleared_table(old(self).measurements@),
    {
        self.measurements.clear()
    }
}

} // verus!
