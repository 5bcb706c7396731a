//! The command line of the polling tool, as plain values.
use vstd::prelude::*;

use crate::domain::RaplDomainType;
use crate::text::str_eq;

verus! {

/// The command line.
#[derive(Debug, Clone)]
pub struct Cli {
    pub command: Commands,
}

/// What to do.
#[derive(Debug, Clone)]
pub enum Commands {
    /// Only show info about CPU and RAPL domains, then exit.
    Info,
    /// Poll some RAPL domains continuously.
    Poll {
        /// How to access RAPL counters.
        probe: ProbeType,
        /// The RAPL domains to record.
        domains: Vec<RaplDomainType>,
        /// Measurement frequency, in Hertz.
        frequency: i64,
        /// Where to print energy measurements on each iteration.
        output: OutputType,
        /// The output file, if output is set to file.
        output_file: Option<String>,
    },
}

/// Where measurements go (`Discard` drops them).
#[derive(Clone, Copy, Debug, PartialEq, Eq, Structural)]
pub enum OutputType {
    Discard,
    Stdout,
    File,
}

/// The interface used to read RAPL counters.
#[derive(Clone, Copy, Debug, PartialEq, Eq, Structural)]
pub enum ProbeType {
    PowercapSysfs,
    PerfEvent,
    Ebpf,
    Msr,
}

/// The probe type that a command-line word designates.
pub open spec fn probe_type_of(s: Seq<char>) -> Option<ProbeType> {
    if s == "powercap"@ || s == "powercap-sysfs"@ {
        Some(ProbeType::PowercapSysfs)
    } else if s == "perf"@ || s == "perf-event"@ {
        Some(ProbeType::PerfEvent)
    } else if s == "ebpf"@ || s == "bpf"@ {
        Some(ProbeType::Ebpf)
    } else if s == "msr"@ {
        Some(ProbeType::Msr)
    } else {
        None
    }
}

/// The canonical name of a probe type.
pub open spec fn probe_type_name(p: ProbeType) -> Seq<char> {
    match p {
        ProbeType::PowercapSysfs => "powercap-sysfs"@,
        ProbeType::PerfEvent => "perf-event"@,
        ProbeType::Ebpf => "ebpf"@,
        ProbeType::Msr => "msr"@,
    }
}

impl ProbeType {
    /// The canonical name, which [`ProbeType::parse`] accepts back.
    pub fn name(&self) -> (r: &'static str)
        ensures
            r@ == probe_type_name(*self),
    {
        match self {
            ProbeType::PowercapSysfs => "powercap-sysfs",
            ProbeType::PerfEvent => "perf-event",
            ProbeType::Ebpf => "ebpf",
            ProbeType::Msr => "msr",
        }
    }

    /// Same as [`ProbeType::name`], as an owned string.
    pub fn to_string(&self) -> (r: String)
        ensures
            r@ == probe_type_name(*self),
    {
        self.name().to_owned()
    }

    /// Parses a probe type (`powercap`, `perf`, `ebpf`, `msr` and their long forms).
    /// The error holds the rejected text.
    pub fn parse(s: &str) -> (r: Result<ProbeType, String>)
        ensures
            r matches Ok(p) ==> probe_type_of(s@) == Some(p),
            r matches Err(e) ==> probe_type_of(s@) is None && e@ == s@,
            probe_type_of(s@) is Some ==> r is Ok,
    {
        if str_eq(s, "powercap") || str_eq(s, "powercap-sysfs") {
            Ok(ProbeType::PowercapSysfs)
        } else if str_eq(s, "perf") || str_eq(s, "perf-event") {
            Ok(ProbeType::PerfEvent)
        } else if str_eq(s, "ebpf") || str_eq(s, "bpf") {
            Ok(ProbeType::Ebpf)
        } else if str_eq(s, "msr") {
            Ok(ProbeType::Msr)
        } else {
            Err(s.to_owned())
        }
    }
}

/// Every canonical name parses back to its probe type.
pub proof fn lemma_probe_type_name_round_trip(p: ProbeType)
    ensures
        probe_type_of(probe_type_name(p)) == Some(p),
{
    reveal_strlit("powercap");
    reveal_strlit("powercap-sysfs");
    reveal_strlit("perf");
    reveal_strlit("perf-event");
    reveal_strlit("ebpf");
    reveal_strlit("bpf");
    reveal_strlit("msr");
    assert("powercap"@.len() == 8);
    assert("powercap-sysfs"@.len() == 14);
    assert("perf"@.len() == 4);
    assert("perf-event"@.len() == 10);
    assert("ebpf"@.len() == 4);
    assert("bpf"@.len() == 3);
    assert("msr"@.len() == 3);
    assert("perf"@[0] != "ebpf"@[0]);
    assert("bpf"@[0] != "msr"@[0]);
}

impl std::str::FromStr for ProbeType {
    type Err = String;

    fn from_str(s: &str) -> Result<Self, Self::Err> {
        ProbeType::parse(s)
    }
}

impl OutputType {
    /// The name of the output type.
    pub fn name(&self) -> (r: &'static str)
        ensures
            r@ == (match *self {
                OutputType::Discard => "None"@,
                OutputType::Stdout => "Stdout"@,
                OutputType::File => "File"@,
            }),
    {
        match self {
            OutputType::Discard => "None",
            OutputType::Stdout => "Stdout",
            OutputType::File => "File",
        }
    }
}

/// How often to poll, from the requested frequency in Hertz.
#[derive(Clone, Copy, Debug, PartialEq, Eq, Structural)]
pub enum PollingMode {
    /// A frequency of zero: do not poll at all.
    Stop,
    /// A negative frequency: poll continuously, without waiting.
    Continuous,
    /// Poll with a period of `1 / hertz` seconds.
    Periodic { hertz: u64 },
}

impl PollingMode {
    /// The polling mode for a frequency given on the command line.
    pub fn of_frequency(frequency: i64) -> (r: PollingMode)
        ensures
            frequency == 0 ==> r == PollingMode::Stop,
            frequency < 0 ==> r == PollingMode::Continuous,
            frequency > 0 ==> r == (PollingMode::Periodic { hertz: frequency as u64 }),
    {
        if frequency == 0 {
            PollingMode::Stop
        } else if frequency < 0 {
            PollingMode::Continuous
        } else {
            PollingMode::Periodic { hertz: frequency as u64 }
        }
    }
}

} // verus!
