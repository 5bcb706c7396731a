//! RAPL through model-specific registers (`/dev/cpu/<n>/msr`): register map,
//! energy-unit decoding, vendor detection and the probe's bookkeeping.
//!
//! According to the Intel 64 and IA-32 architectures software developer's manual,
//! volume 3B, MSR_PKG_ENERGY_STATUS reports the measured energy usage of the package.
use vstd::prelude::*;

use crate::cpus::{check_socket_cpus, first_socket_conflict, sockets_unique, CpuId};
use crate::domain::RaplDomainType;
use crate::energy::{
    fresh_table, lemma_steps_ok_stop, lemma_steps_prefix_error, table_after_steps, table_at_stop, CounterReading, EnergyMeasurements,
    EnergyUnit,
};
use crate::error::RaplError;
use crate::text::str_eq;

verus! {

/// Intel: the register holding the RAPL units.
pub const INTEL_MSR_RAPL_POWER_UNIT: u64 = 0x606;
/// Intel: package energy status.
pub const INTEL_MSR_PKG_ENERGY_STATUS: u64 = 0x611;
/// Intel: power plane 0 (core) energy status.
pub const INTEL_MSR_PP0_ENERGY_STATUS: u64 = 0x639;
/// Intel: power plane 1 (uncore) energy status.
pub const INTEL_MSR_PP1_ENERGY_STATUS: u64 = 0x641;
/// Intel: DRAM energy status.
pub const INTEL_MSR_DRAM_ENERGY_STATUS: u64 = 0x619;
/// Intel: platform (psys) energy status.
pub const INTEL_MSR_PLATFORM_ENERGY_STATUS: u64 = 0x64D;

/// AMD: the register holding the RAPL units.
pub const AMD_MSR_RAPL_POWER_UNIT: u64 = 0xc0010299;
/// AMD: core energy status.
pub const AMD_MSR_CORE_ENERGY_STATUS: u64 = 0xc001029a;
/// AMD: package energy status.
pub const AMD_MSR_PKG_ENERGY_STATUS: u64 = 0xc001029b;

/// The energy counters are the low 32 bits of their 64-bit registers.
pub const MSR_ENERGY_MASK: u64 = 0xffff_ffff;

/// Maximum value of an MSR energy counter (strictly, it depends on the hardware).
pub const MSR_MAX_ENERGY: u64 = 0xffff_ffff;

/// A CPU vendor that implements RAPL.
#[derive(Clone, Copy, Debug, PartialEq, Eq, Structural)]
pub enum RaplVendor {
    Intel,
    Amd,
}

/// The energy-status register of a domain for a vendor; AMD only has the package
/// and the core domains.
pub open spec fn msr_address(domain: RaplDomainType, vendor: RaplVendor) -> Option<u64> {
    match vendor {
        RaplVendor::Intel => match domain {
            RaplDomainType::Package => Some(INTEL_MSR_PKG_ENERGY_STATUS),
            RaplDomainType::PP0 => Some(INTEL_MSR_PP0_ENERGY_STATUS),
            RaplDomainType::PP1 => Some(INTEL_MSR_PP1_ENERGY_STATUS),
            RaplDomainType::Dram => Some(INTEL_MSR_DRAM_ENERGY_STATUS),
            RaplDomainType::Platform => Some(INTEL_MSR_PLATFORM_ENERGY_STATUS),
        },
        RaplVendor::Amd => match domain {
            RaplDomainType::Package => Some(AMD_MSR_PKG_ENERGY_STATUS),
            RaplDomainType::PP0 => Some(AMD_MSR_CORE_ENERGY_STATUS),
            _ => None,
        },
    }
}

/// The domains that a vendor exposes through MSRs.
pub open spec fn vendor_domains(vendor: RaplVendor) -> Seq<RaplDomainType> {
    match vendor {
        RaplVendor::Intel => seq![
            RaplDomainType::Package,
            RaplDomainType::PP0,
            RaplDomainType::PP1,
            RaplDomainType::Dram,
            RaplDomainType::Platform,
        ],
        RaplVendor::Amd => seq![RaplDomainType::Package, RaplDomainType::PP0],
    }
}

/// The energy-status unit: bits 12:8 of the unit register, as `k` in `2^-k` Joules.
pub open spec fn energy_unit_of_register(msr_value: u64) -> EnergyUnit {
    EnergyUnit::PowerOfTwo(((msr_value as int / 256) % 32) as u32)
}

/// The vendor named by a CPUID vendor string.
pub open spec fn vendor_of_id(id: Seq<char>) -> Option<RaplVendor> {
    if id == "AuthenticAMD"@ {
        Some(RaplVendor::Amd)
    } else if id == "GenuineIntel"@ {
        Some(RaplVendor::Intel)
    } else {
        None
    }
}

/// The address of the energy-status register of `domain`, if `vendor` has one.
pub fn domain_msr_address(domain: RaplDomainType, vendor: RaplVendor) -> (r: Option<u64>)
    ensures
        r == msr_address(domain, vendor),
{
    match vendor {
        RaplVendor::Intel => match domain {
            RaplDomainType::Package => Some(INTEL_MSR_PKG_ENERGY_STATUS),
            RaplDomainType::PP0 => Some(INTEL_MSR_PP0_ENERGY_STATUS),
            RaplDomainType::PP1 => Some(INTEL_MSR_PP1_ENERGY_STATUS),
            RaplDomainType::Dram => Some(INTEL_MSR_DRAM_ENERGY_STATUS),
            RaplDomainType::Platform => Some(INTEL_MSR_PLATFORM_ENERGY_STATUS),
        },
        RaplVendor::Amd => match domain {
            RaplDomainType::Package => Some(AMD_MSR_PKG_ENERGY_STATUS),
            RaplDomainType::PP0 => Some(AMD_MSR_CORE_ENERGY_STATUS),
            RaplDomainType::PP1 => None,
            RaplDomainType::Dram => None,
            RaplDomainType::Platform => None,
        },
    }
}

/// The domains that `vendor` exposes through MSRs.
pub fn all_domains(vendor: RaplVendor) -> (r: Vec<RaplDomainType>)
    ensures
        r@ == vendor_domains(vendor),
        forall|i: int| 0 <= i < r@.len() ==> msr_address(#[trigger] r@[i], vendor) is Some,
{
    match vendor {
        RaplVendor::Intel => vec![
            RaplDomainType::Package,
            RaplDomainType::PP0,
            RaplDomainType::PP1,
            RaplDomainType::Dram,
            RaplDomainType::Platform,
        ],
        RaplVendor::Amd => vec![RaplDomainType::Package, RaplDomainType::PP0],
    }
}

/// The address of the register that holds the RAPL units.
pub fn unit_register_address(vendor: RaplVendor) -> (r: u64)
    ensures
        r == (match vendor {
            RaplVendor::Intel => INTEL_MSR_RAPL_POWER_UNIT,
            RaplVendor::Amd => AMD_MSR_RAPL_POWER_UNIT,
        }),
{
    match vendor {
        RaplVendor::Intel => INTEL_MSR_RAPL_POWER_UNIT,
        RaplVendor::Amd => AMD_MSR_RAPL_POWER_UNIT,
    }
}

/// Decodes the energy unit of a unit register: the "energy status unit" at bits
/// 12:8 (mask 0x1F00) gives the multiplier `(1/2)^esu`.
///
/// The unit may not apply to every domain: some architectures use another unit for
/// some domains (e.g. DRAM), which is platform-dependent and not handled here.
pub fn read_energy_unit(msr_value: u64) -> (r: EnergyUnit)
    ensures
        r == energy_unit_of_register(msr_value),
{
    let esu = (msr_value & 0x1F00u64) >> 8u64;
    assert(esu == (msr_value / 256) % 32) by (bit_vector)
        requires
            esu == (msr_value & 0x1F00u64) >> 8u64,
    ;
    EnergyUnit::PowerOfTwo(esu as u32)
}

/// Turns a CPUID vendor string into a vendor.
pub fn vendor_from_id(id: &str) -> (r: Result<RaplVendor, RaplError>)
    ensures
        r matches Ok(v) ==> vendor_of_id(id@) == Some(v),
        r matches Err(e) ==> vendor_of_id(id@) is None && (e matches RaplError::UnsupportedVendor {
            vendor,
        } && vendor@ == id@),
        vendor_of_id(id@) is Some ==> r is Ok,
{
    if str_eq(id, "AuthenticAMD") {
        Ok(RaplVendor::Amd)
    } else if str_eq(id, "GenuineIntel") {
        Ok(RaplVendor::Intel)
    } else {
        Err(RaplError::UnsupportedVendor { vendor: id.to_owned() })
    }
}

/// The text of the first capture group of the leftmost match of the regular
/// expression `pattern` in `haystack`; none when the pattern does not compile,
/// does not match, or its first group takes no part in the match.
pub uninterp spec fn regex_capture(pattern: Seq<char>, haystack: Seq<char>) -> Option<Seq<char>>;

/// Relies on regex::Regex::new, regex::Regex::captures, regex::Captures::get and
/// regex::Match::as_str: the first capture group of the leftmost match, which
/// depends on the pattern and the haystack alone.
#[verifier::external_body]
fn first_capture(pattern: &str, haystack: &str) -> (r: Option<String>)
    ensures
        r matches Some(g) ==> regex_capture(pattern@, haystack@) == Some(g@),
        r is None ==> regex_capture(pattern@, haystack@) is None,
{
    regex::Regex::new(pattern).ok().and_then(
        |re| re.captures(haystack).and_then(|c| c.get(1)).map(|m| m.as_str().to_string()),
    )
}

/// The pattern of the vendor line of `lscpu`.
pub open spec fn vendor_pattern() -> Seq<char> {
    "Vendor ID:\\s+(\\w+)"@
}

/// Finds the CPU vendor in the output of `lscpu`: the word after `Vendor ID:`.
pub fn cpu_vendor(lscpu_output: &str) -> (r: Result<RaplVendor, RaplError>)
    ensures
        match regex_capture(vendor_pattern(), lscpu_output@) {
            None => r == Err::<RaplVendor, RaplError>(RaplError::VendorNotFound),
            Some(id) => match vendor_of_id(id) {
                Some(v) => r == Ok::<RaplVendor, RaplError>(v),
                None => r matches Err(RaplError::UnsupportedVendor { vendor }) && vendor@ == id,
            },
        },
{
    match first_capture("Vendor ID:\\s+(\\w+)", lscpu_output) {
        Some(id) => vendor_from_id(id.as_str()),
        None => Err(RaplError::VendorNotFound),
    }
}

/// One register to read on each poll: a domain of one monitored CPU.
#[derive(Clone, Copy, Debug, PartialEq, Eq, Structural)]
pub struct MsrChannel {
    /// Position of the CPU in the list given to [`MsrProbe::new`].
    pub cpu_index: usize,
    pub cpu: u32,
    pub socket: u32,
    pub domain: RaplDomainType,
    /// Absolute offset of the energy-status register.
    pub address: u64,
    /// The energy unit decoded from the CPU's unit register.
    pub unit: EnergyUnit,
}

/// The channel for CPU `i` and domain `j`.
pub open spec fn msr_channel(
    cpus: Seq<CpuId>,
    domains: Seq<RaplDomainType>,
    vendor: RaplVendor,
    unit_registers: Seq<u64>,
    i: int,
    j: int,
) -> MsrChannel {
    MsrChannel {
        cpu_index: i as usize,
        cpu: cpus[i].cpu,
        socket: cpus[i].socket,
        domain: domains[j],
        address: msr_address(domains[j], vendor)->0,
        unit: energy_unit_of_register(unit_registers[i]),
    }
}

/// The channels of the first `n` CPUs, CPU by CPU, each in the order of `domains`.
pub open spec fn msr_channels(
    cpus: Seq<CpuId>,
    domains: Seq<RaplDomainType>,
    vendor: RaplVendor,
    unit_registers: Seq<u64>,
    n: int,
) -> Seq<MsrChannel>
    decreases n,
{
    if n <= 0 {
        Seq::empty()
    } else {
        msr_channels(cpus, domains, vendor, unit_registers, n - 1) + Seq::new(
            domains.len(),
            |j: int| msr_channel(cpus, domains, vendor, unit_registers, n - 1, j),
        )
    }
}

/// Every socket id is below `count`.
pub open spec fn sockets_below(cpus: Seq<CpuId>, count: int) -> bool {
    forall|i: int| 0 <= i < cpus.len() ==> (#[trigger] cpus[i]).socket < count
}

/// `j` is the first entry whose socket id is not below `count`.
pub open spec fn first_socket_out_of_range(cpus: Seq<CpuId>, count: int, j: int) -> bool {
    &&& 0 <= j < cpus.len()
    &&& sockets_below(cpus.take(j), count)
    &&& cpus[j].socket >= count
}

/// Checks that every socket id is below the number of sockets, which indexes the
/// measurement table.
pub fn check_socket_range(cpus: &[CpuId]) -> (r: Result<(), RaplError>)
    ensures
        r is Ok <==> sockets_below(cpus@, cpus@.len() as int),
        r matches Err(e) ==> exists|j: int|
            first_socket_out_of_range(cpus@, cpus@.len() as int, j) && e == (
            RaplError::SocketOutOfRange { socket: cpus@[j].socket, socket_count: cpus@.len() as usize }),
{
    let mut i: usize = 0;
    while i < cpus.len()
        invariant
            i <= cpus@.len(),
            sockets_below(cpus@.take(i as int), cpus@.len() as int),
        decreases cpus@.len() - i,
    {
        if cpus[i].socket as usize >= cpus.len() {
            assert(first_socket_out_of_range(cpus@, cpus@.len() as int, i as int));
            return Err(
                RaplError::SocketOutOfRange { socket: cpus[i].socket, socket_count: cpus.len() },
            );
        }
        assert(sockets_below(cpus@.take(i + 1), cpus@.len() as int)) by {
            assert forall|a: int| 0 <= a < i + 1 implies (#[trigger] cpus@.take(i + 1)[a]).socket
                < cpus@.len() by {
                if a < i {
                    assert(cpus@.take(i as int)[a] == cpus@[a]);
                }
            }
        }
        i += 1;
    }
    assert(cpus@.take(i as int) =~= cpus@);
    Ok(())
}

/// `j` is the first domain without a register for `vendor`.
pub open spec fn first_unsupported_domain(
    domains: Seq<RaplDomainType>,
    vendor: RaplVendor,
    j: int,
) -> bool {
    &&& 0 <= j < domains.len()
    &&& forall|k: int| 0 <= k < j ==> msr_address(#[trigger] domains[k], vendor) is Some
    &&& msr_address(domains[j], vendor) is None
}

/// Reads the RAPL MSR values, one CPU per socket. The registers themselves are
/// read by the caller, in the order of [`MsrProbe::channels`].
pub struct MsrProbe {
    /// The energy measurements.
    pub measurements: EnergyMeasurements,
    /// The registers to read on each poll.
    pub channels: Vec<MsrChannel>,
}

/// The readings of one poll: each register value masked to its 32-bit counter.
pub open spec fn msr_steps(channels: Seq<MsrChannel>, raw: Seq<u64>) -> Seq<
    Result<CounterReading, RaplError>,
> {
    Seq::new(
        channels.len(),
        |k: int|
            Ok(
                CounterReading {
                    socket: channels[k].socket,
                    domain: channels[k].domain,
                    value: raw[k] & MSR_ENERGY_MASK,
                    max_value: MSR_MAX_ENERGY,
                    unit: channels[k].unit,
                },
            ),
    )
}

impl MsrProbe {
    /// Prepares an MSR probe for the given CPUs (one per socket) and domains.
    /// `unit_registers[i]` is the value of the unit register of `cpus[i]`.
    pub fn new(
        cpus: &[CpuId],
        domains: &[RaplDomainType],
        vendor: RaplVendor,
        unit_registers: &[u64],
    ) -> (r: Result<MsrProbe, RaplError>)
        requires
            unit_registers@.len() == cpus@.len(),
        ensures
            r is Ok <==> sockets_unique(cpus@) && sockets_below(cpus@, cpus@.len() as int)
                && forall|j: int| 0 <= j < domains@.len() ==> msr_address(#[trigger] domains@[j], vendor) is Some,
            r matches Ok(p) ==> p.measurements@ == fresh_table(cpus@.len()) && p.channels@
                == msr_channels(cpus@, domains@, vendor, unit_registers@, cpus@.len() as int),
            !sockets_unique(cpus@) ==> exists|j: int|
                first_socket_conflict(cpus@, j) && r == Err::<MsrProbe, RaplError>(
                    RaplError::SocketConflict { socket: cpus@[j].socket },
                ),
            sockets_unique(cpus@) && !sockets_below(cpus@, cpus@.len() as int) ==> exists|j: int|
                first_socket_out_of_range(cpus@, cpus@.len() as int, j) && r == Err::<
                    MsrProbe,
                    RaplError,
                >(RaplError::SocketOutOfRange { socket: cpus@[j].socket, socket_count: cpus@.len() as usize }),
            sockets_unique(cpus@) && sockets_below(cpus@, cpus@.len() as int) && r is Err
                ==> exists|j: int|
                first_unsupported_domain(domains@, vendor, j) && r == Err::<MsrProbe, RaplError>(
                    RaplError::UnsupportedDomain { domain: domains@[j] },
                ),
    {
        check_socket_cpus(cpus)?;
        check_socket_range(cpus)?;
        let mut addresses: Vec<u64> = Vec::new();
        let mut j: usize = 0;
        while j < domains.len()
            invariant
                sockets_unique(cpus@),
                sockets_below(cpus@, cpus@.len() as int),
                j <= domains@.len(),
                addresses@.len() == j,
                forall|k: int| 0 <= k < j ==> msr_address(#[trigger] domains@[k], vendor) == Some(addresses@[k]),
            decreases domains@.len() - j,
        {
            match domain_msr_address(domains[j], vendor) {
                Some(a) => addresses.push(a),
                None => {
                    assert(first_unsupported_domain(domains@, vendor, j as int));
                    return Err(RaplError::UnsupportedDomain { domain: domains[j] });
                },
            }
            j += 1;
        }
        let mut channels: Vec<MsrChannel> = Vec::new();
        let mut i: usize = 0;
        while i < cpus.len()
            invariant
                i <= cpus@.len(),
                unit_registers@.len() == cpus@.len(),
                addresses@.len() == domains@.len(),
                forall|k: int| 0 <= k < domains@.len() ==> msr_address(#[trigger] domains@[k], vendor) == Some(addresses@[k]),
                channels@ == msr_channels(cpus@, domains@, vendor, unit_registers@, i as int),
            decreases cpus@.len() - i,
        {
            let unit = read_energy_unit(unit_registers[i]);
            let ghost base = channels@;
            let mut j: usize = 0;
            while j < domains.len()
                invariant
                    i < cpus@.len(),
                    j <= domains@.len(),
                    unit_registers@.len() == cpus@.len(),
                    addresses@.len() == domains@.len(),
                    forall|k: int| 0 <= k < domains@.len() ==> msr_address(#[trigger] domains@[k], vendor) == Some(addresses@[k]),
                    unit == energy_unit_of_register(unit_registers@[i as int]),
                    channels@ == base + Seq::new(
                        j as nat,
                        |jj: int| msr_channel(cpus@, domains@, vendor, unit_registers@, i as int, jj),
                    ),
                decreases domains@.len() - j,
            {
                channels.push(
                    MsrChannel {
                        cpu_index: i,
                        cpu: cpus[i].cpu,
                        socket: cpus[i].socket,
                        domain: domains[j],
                        address: addresses[j],
                        unit,
                    },
                );
                j += 1;
                assert(channels@ =~= base + Seq::new(
                    j as nat,
                    |jj: int| msr_channel(cpus@, domains@, vendor, unit_registers@, i as int, jj),
                ));
            }
            i += 1;
            assert(channels@ =~= msr_channels(cpus@, domains@, vendor, unit_registers@, i as int));
        }
        Ok(MsrProbe { measurements: EnergyMeasurements::new(cpus.len()), channels })
    }

    /// The registers to read on each poll, in order.
    pub fn channels(&self) -> (r: &[MsrChannel])
        ensures
            r@ == self.channels@,
    {
        self.channels.as_slice()
    }

    /// Updates the measurements with one value per channel: each register's low 32
    /// bits, with a wraparound at `2^32 - 1` and the CPU's energy unit.
    pub fn poll(&mut self, raw: &[u64]) -> (r: Result<(), RaplError>)
        requires
            raw@.len() == old(self).channels@.len(),
        ensures
            final(self).channels == old(self).channels,
            match table_after_steps(old(self).measurements@, msr_steps(old(self).channels@, raw@)) {
                Ok(t) => r is Ok && final(self).measurements@ == t,
                Err(e) => r == Err::<(), RaplError>(e),
            },
            final(self).measurements@ == table_at_stop(old(self).measurements@, msr_steps(old(self).channels@, raw@)),
    {
        let ghost t0 = self.measurements@;
        let ghost steps = msr_steps(self.channels@, raw@);
        let mut k: usize = 0;
        assert(steps.take(0) =~= Seq::<Result<CounterReading, RaplError>>::empty());
        while k < self.channels.len()
            invariant
                k <= self.channels@.len(),
                raw@.len() == self.channels@.len(),
                self.channels == old(self).channels,
                t0 == old(self).measurements@,
                steps == msr_steps(self.channels@, raw@),
                table_after_steps(t0, steps.take(k as int)) == Ok::<_, RaplError>(self.measurements@),
            decreases self.channels@.len() - k,
        {
            let ch = self.channels[k];
            let reading = CounterReading {
                socket: ch.socket,
                domain: ch.domain,
                value: raw[k] & MSR_ENERGY_MASK,
                max_value: MSR_MAX_ENERGY,
                unit: ch.unit,
            };
            assert(steps.take(k + 1).drop_last() =~= steps.take(k as int));
            assert(steps[k as int] == Ok::<_, RaplError>(reading));
            match self.measurements.record(reading) {
                Ok(()) => {},
                Err(e) => {
                    proof {
                        lemma_steps_prefix_error(t0, steps, k + 1);
                    }
                    return Err(e);
                },
            }
            k += 1;
        }
        assert(steps.take(k as int) =~= steps);
        proof {
            lemma_steps_ok_stop(t0, steps);
        }
        Ok(())
    }

    /// The latest measurements.
    pub fn measurements(&self) -> (r: &EnergyMeasurements)
        ensures
            r == &self.measurements,
    {
        &self.measurements
    }

    /// Forgets every previous counter value.
    pub fn reset(&mut self)
        ensures
            final(self).channels == old(self).channels,
            final(self).measurements@ == crate::energy::cleared_table(old(self).measurements@),
    {
        self.measurements.clear()
    }
}

} // verus!
