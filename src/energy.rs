//! The counter model shared by every backend: a per-socket table of
//! per-domain counters whose updates correct a single wraparound.
use vstd::prelude::*;

use crate::domain::RaplDomainType;
use crate::error::RaplError;

verus! {

/// The amount of energy that one counter increment stands for.
#[derive(Clone, Copy, Debug, PartialEq, Eq, Structural)]
pub enum EnergyUnit {
    /// `2^-k` Joules per increment (RAPL units are always powers of two).
    PowerOfTwo(u32),
    /// One microjoule per increment (powercap counters).
    Microjoule,
}

/// An exact amount of energy: `count` increments of `unit`.
#[derive(Clone, Copy, Debug, PartialEq, Eq, Structural)]
pub struct Energy {
    pub count: u64,
    pub unit: EnergyUnit,
}

/// The state of one (socket, domain) counter.
#[derive(Clone, Copy, Debug, PartialEq, Eq, Structural)]
pub struct EnergyCounter {
    /// The previous raw value of the counter, before any unit is applied.
    pub previous_value: Option<u64>,
    /// `true` if the last update corrected a wraparound.
    pub overflowed: bool,
    /// The energy consumed between the two last updates, absent before the second one.
    pub joules: Option<Energy>,
}

/// A counter that has not been updated yet.
pub open spec fn fresh_counter() -> EnergyCounter {
    EnergyCounter { previous_value: None, overflowed: false, joules: None }
}

/// The counter after an update with the raw value `value`, for a counter that
/// wraps after `max_value`.
pub open spec fn counter_after_push(
    c: EnergyCounter,
    value: u64,
    max_value: u64,
    unit: EnergyUnit,
) -> EnergyCounter {
    match c.previous_value {
        None => EnergyCounter { previous_value: Some(value), ..c },
        Some(prev) => if value < prev {
            EnergyCounter {
                previous_value: Some(value),
                overflowed: true,
                joules: Some(Energy { count: (max_value - prev + value) as u64, unit }),
            }
        } else {
            EnergyCounter {
                previous_value: Some(value),
                overflowed: false,
                joules: Some(Energy { count: (value - prev) as u64, unit }),
            }
        },
    }
}

/// Whether a counter can take `value` for a wraparound at `max_value`: only a
/// value below the previous one needs a bound, the previous value being at most
/// `max_value` so that `max_value - previous + value` is a count.
pub open spec fn counter_accepts(c: EnergyCounter, value: u64, max_value: u64) -> bool {
    match c.previous_value {
        Some(prev) => value < prev ==> prev <= max_value,
        None => true,
    }
}

impl EnergyCounter {
    /// A counter with no reading yet.
    pub fn new() -> (r: EnergyCounter)
        ensures
            r == fresh_counter(),
    {
        EnergyCounter { previous_value: None, overflowed: false, joules: None }
    }
}

/// The five counters of one socket, one per domain.
#[derive(Clone, Copy, Debug, PartialEq, Eq, Structural)]
pub struct DomainCounters {
    pub package: EnergyCounter,
    pub pp0: EnergyCounter,
    pub pp1: EnergyCounter,
    pub dram: EnergyCounter,
    pub platform: EnergyCounter,
}

impl DomainCounters {
    pub open spec fn spec_get(self, d: RaplDomainType) -> EnergyCounter {
        match d {
            RaplDomainType::Package => self.package,
            RaplDomainType::PP0 => self.pp0,
            RaplDomainType::PP1 => self.pp1,
            RaplDomainType::Dram => self.dram,
            RaplDomainType::Platform => self.platform,
        }
    }

    pub open spec fn spec_with(self, d: RaplDomainType, c: EnergyCounter) -> DomainCounters {
        match d {
            RaplDomainType::Package => DomainCounters { package: c, ..self },
            RaplDomainType::PP0 => DomainCounters { pp0: c, ..self },
            RaplDomainType::PP1 => DomainCounters { pp1: c, ..self },
            RaplDomainType::Dram => DomainCounters { dram: c, ..self },
            RaplDomainType::Platform => DomainCounters { platform: c, ..self },
        }
    }

    pub open spec fn spec_fresh() -> DomainCounters {
        DomainCounters {
            package: fresh_counter(),
            pp0: fresh_counter(),
            pp1: fresh_counter(),
            dram: fresh_counter(),
            platform: fresh_counter(),
        }
    }

    /// Five counters with no reading yet.
    pub fn new() -> (r: DomainCounters)
        ensures
            r == DomainCounters::spec_fresh(),
    {
        DomainCounters {
            package: EnergyCounter::new(),
            pp0: EnergyCounter::new(),
            pp1: EnergyCounter::new(),
            dram: EnergyCounter::new(),
            platform: EnergyCounter::new(),
        }
    }

    /// The counter of domain `d`.
    pub fn get(&self, d: RaplDomainType) -> (r: EnergyCounter)
        ensures
            r == self.spec_get(d),
    {
        match d {
            RaplDomainType::Package => self.package,
            RaplDomainType::PP0 => self.pp0,
            RaplDomainType::PP1 => self.pp1,
            RaplDomainType::Dram => self.dram,
            RaplDomainType::Platform => self.platform,
        }
    }

    /// Replaces the counter of domain `d`.
    pub fn set(&mut self, d: RaplDomainType, c: EnergyCounter)
        ensures
            *final(self) == old(self).spec_with(d, c),
    {
        match d {
            RaplDomainType::Package => self.package = c,
            RaplDomainType::PP0 => self.pp0 = c,
            RaplDomainType::PP1 => self.pp1 = c,
            RaplDomainType::Dram => self.dram = c,
            RaplDomainType::Platform => self.platform = c,
        }
    }
}

/// One update of the table: a raw counter value for one (socket, domain).
#[derive(Clone, Copy, Debug, PartialEq, Eq, Structural)]
pub struct CounterReading {
    pub socket: u32,
    pub domain: RaplDomainType,
    pub value: u64,
    pub max_value: u64,
    pub unit: EnergyUnit,
}

/// A table of counters: one entry per monitored socket, indexed by socket id.
pub open spec fn fresh_table(socket_count: nat) -> Seq<DomainCounters> {
    Seq::new(socket_count, |i: int| DomainCounters::spec_fresh())
}

/// Whether the counter of (socket, domain) exists and can take `value`.
pub open spec fn slot_accepts(
    t: Seq<DomainCounters>,
    socket: u32,
    domain: RaplDomainType,
    value: u64,
    max_value: u64,
) -> bool {
    &&& socket < t.len()
    &&& counter_accepts(t[socket as int].spec_get(domain), value, max_value)
}

/// Whether the table can take the reading `r`.
pub open spec fn table_accepts(t: Seq<DomainCounters>, r: CounterReading) -> bool {
    slot_accepts(t, r.socket, r.domain, r.value, r.max_value)
}

/// The table after the reading `r`: exactly one counter changes.
pub open spec fn table_after_push(t: Seq<DomainCounters>, r: CounterReading) -> Seq<
    DomainCounters,
> {
    let row = t[r.socket as int];
    t.update(
        r.socket as int,
        row.spec_with(
            r.domain,
            counter_after_push(row.spec_get(r.domain), r.value, r.max_value, r.unit),
        ),
    )
}

/// The outcome of applying, in order, a sequence of steps to a table. A step is
/// either a reading or the error that occurred while obtaining it. The first
/// error stops the sequence; a reading that the table does not accept stops it
/// with `CounterOutOfRange`.
pub open spec fn table_after_steps(
    t: Seq<DomainCounters>,
    steps: Seq<Result<CounterReading, RaplError>>,
) -> Result<Seq<DomainCounters>, RaplError>
    decreases steps.len(),
{
    if steps.len() == 0 {
        Ok(t)
    } else {
        match table_after_steps(t, steps.drop_last()) {
            Err(e) => Err(e),
            Ok(t2) => match steps.last() {
                Err(e) => Err(e),
                Ok(r) => if table_accepts(t2, r) {
                    Ok(table_after_push(t2, r))
                } else {
                    Err(out_of_range_error(r))
                },
            },
        }
    }
}

/// The table where a sequence of steps stops: the table after all of them when
/// they succeed, else the table after the readings before the failing step
/// (a failing step changes nothing).
pub open spec fn table_at_stop(
    t: Seq<DomainCounters>,
    steps: Seq<Result<CounterReading, RaplError>>,
) -> Seq<DomainCounters>
    decreases steps.len(),
{
    if steps.len() == 0 {
        t
    } else {
        match table_after_steps(t, steps.drop_last()) {
            Err(_) => table_at_stop(t, steps.drop_last()),
            Ok(t2) => match steps.last() {
                Err(_) => t2,
                Ok(r) => if table_accepts(t2, r) {
                    table_after_push(t2, r)
                } else {
                    t2
                },
            },
        }
    }
}

/// On success, the table where the steps stop is the resulting table.
pub proof fn lemma_steps_ok_stop(t: Seq<DomainCounters>, steps: Seq<Result<CounterReading, RaplError>>)
    requires
        table_after_steps(t, steps) is Ok,
    ensures
        table_at_stop(t, steps) == table_after_steps(t, steps)->Ok_0,
{
}

/// The error for a reading that its counter cannot take.
pub open spec fn out_of_range_error(r: CounterReading) -> RaplError {
    RaplError::CounterOutOfRange {
        socket: r.socket,
        domain: r.domain,
        value: r.value,
        max_value: r.max_value,
    }
}

/// The energy counters of every monitored socket.
#[derive(Clone, Debug)]
pub struct EnergyMeasurements {
    pub per_socket: Vec<DomainCounters>,
}

impl View for EnergyMeasurements {
    type V = Seq<DomainCounters>;

    open spec fn view(&self) -> Seq<DomainCounters> {
        self.per_socket@
    }
}

impl EnergyMeasurements {
    /// A table for `socket_count` sockets, with no reading yet.
    pub fn new(socket_count: usize) -> (r: EnergyMeasurements)
        ensures
            r@ == fresh_table(socket_count as nat),
    {
        let mut v: Vec<DomainCounters> = Vec::new();
        let mut i: usize = 0;
        while i < socket_count
            invariant
                i <= socket_count,
                v@ == fresh_table(i as nat),
            decreases socket_count - i,
        {
            v.push(DomainCounters::new());
            i += 1;
            assert(v@ =~= fresh_table(i as nat));
        }
        EnergyMeasurements { per_socket: v }
    }

    /// Discards all previous values: every counter returns to "no reading yet".
    pub fn clear(&mut self)
        ensures
            final(self)@ == cleared_table(old(self)@),
    {
        let n = self.per_socket.len();
        let mut i: usize = 0;
        while i < n
            invariant
                n == self@.len(),
                i <= n,
                forall|j: int| 0 <= j < i ==> self@[j] == DomainCounters::spec_fresh(),
            decreases n - i,
        {
            self.per_socket.set(i, DomainCounters::new());
            i += 1;
        }
        assert(self@ =~= cleared_table(old(self)@));
    }

    /// The number of monitored sockets.
    pub fn socket_count(&self) -> (r: usize)
        ensures
            r == self@.len(),
    {
        self.per_socket.len()
    }

    /// The counter of one (socket, domain).
    pub fn counter(&self, socket: u32, domain: RaplDomainType) -> (r: EnergyCounter)
        requires
            socket < self@.len(),
        ensures
            r == self@[socket as int].spec_get(domain),
    {
        self.per_socket[socket as usize].get(domain)
    }

    /// Whether `push` can take this reading: the socket is monitored, and when the
    /// value goes down, the previous value lies within `0..=max_value`.
    pub fn accepts(&self, socket: u32, domain: RaplDomainType, value: u64, max_value: u64) -> (r:
        bool)
        ensures
            r == slot_accepts(self@, socket, domain, value, max_value),
    {
        if socket as usize >= self.per_socket.len() {
            return false;
        }
        let c = self.per_socket[socket as usize].get(domain);
        match c.previous_value {
            Some(prev) => value >= prev || prev <= max_value,
            None => true,
        }
    }

    /// Updates the counter of one (socket, domain) with a raw value.
    ///
    /// Without a previous value, the value is recorded and no energy is known yet.
    /// Otherwise the energy is `(value - previous) * unit`, or, when the counter went
    /// down, `(max_value - previous + value) * unit` with `overflowed` set: a single
    /// wraparound is assumed.
    pub fn push(
        &mut self,
        socket_id: u32,
        domain: RaplDomainType,
        counter_value: u64,
        max_value: u64,
        energy_unit: EnergyUnit,
    )
        requires
            table_accepts(
                old(self)@,
                CounterReading {
                    socket: socket_id,
                    domain,
                    value: counter_value,
                    max_value,
                    unit: energy_unit,
                },
            ),
        ensures
            final(self)@ == table_after_push(
                old(self)@,
                CounterReading {
                    socket: socket_id,
                    domain,
                    value: counter_value,
                    max_value,
                    unit: energy_unit,
                },
            ),
    {
        let s = socket_id as usize;
        let mut row = self.per_socket[s];
        let c = row.get(domain);
        let current = counter_value;
        let updated = match c.previous_value {
            Some(prev) => {
                if current < prev {
                    // the counter wrapped around; only one wraparound can be corrected
                    let corrected = max_value - prev + current;
                    EnergyCounter {
                        previous_value: Some(current),
                        overflowed: true,
                        joules: Some(Energy { count: corrected, unit: energy_unit }),
                    }
                } else {
                    let diff = current - prev;
                    EnergyCounter {
                        previous_value: Some(current),
                        overflowed: false,
                        joules: Some(Energy { count: diff, unit: energy_unit }),
                    }
                }
            },
            None => EnergyCounter { previous_value: Some(current), ..c },
        };
        row.set(domain, updated);
        self.per_socket.set(s, row);
    }

    /// Applies one reading: `push` if the table accepts it, else `CounterOutOfRange`
    /// and no change.
    pub fn record(&mut self, reading: CounterReading) -> (r: Result<(), RaplError>)
        ensures
            table_accepts(old(self)@, reading) ==> r is Ok && final(self)@ == table_after_push(
                old(self)@,
                reading,
            ),
            !table_accepts(old(self)@, reading) ==> r == Err::<(), RaplError>(
                out_of_range_error(reading),
            ) && final(self)@ == old(self)@,
    {
        if self.accepts(reading.socket, reading.domain, reading.value, reading.max_value) {
            self.push(reading.socket, reading.domain, reading.value, reading.max_value, reading.unit);
            Ok(())
        } else {
            Err(
                RaplError::CounterOutOfRange {
                    socket: reading.socket,
                    domain: reading.domain,
                    value: reading.value,
                    max_value: reading.max_value,
                },
            )
        }
    }
}

/// Two updates that do not go down give the difference, without overflow.
pub proof fn lemma_push_increasing(
    t: Seq<DomainCounters>,
    socket: u32,
    domain: RaplDomainType,
    a: u64,
    b: u64,
    max_value: u64,
    first_unit: EnergyUnit,
    unit: EnergyUnit,
)
    requires
        socket < t.len(),
        a <= b <= max_value,
    ensures
        ({
            let r1 = CounterReading { socket, domain, value: a, max_value, unit: first_unit };
            let r2 = CounterReading { socket, domain, value: b, max_value, unit };
            let c = table_after_push(table_after_push(t, r1), r2)[socket as int].spec_get(domain);
            &&& c.joules == Some(Energy { count: (b - a) as u64, unit })
            &&& !c.overflowed
        }),
{
    lemma_get_with(t[socket as int], domain);
    let r1 = CounterReading { socket, domain, value: a, max_value, unit: first_unit };
    let t1 = table_after_push(t, r1);
    lemma_get_with(t1[socket as int], domain);
}

/// Two updates where the second goes down correct one wraparound at `max_value`.
pub proof fn lemma_push_wraparound(
    t: Seq<DomainCounters>,
    socket: u32,
    domain: RaplDomainType,
    a: u64,
    b: u64,
    max_value: u64,
    first_unit: EnergyUnit,
    unit: EnergyUnit,
)
    requires
        socket < t.len(),
        b < a <= max_value,
    ensures
        ({
            let r1 = CounterReading { socket, domain, value: a, max_value, unit: first_unit };
            let r2 = CounterReading { socket, domain, value: b, max_value, unit };
            let c = table_after_push(table_after_push(t, r1), r2)[socket as int].spec_get(domain);
            &&& c.joules == Some(Energy { count: (max_value - a + b) as u64, unit })
            &&& c.overflowed
        }),
{
    lemma_get_with(t[socket as int], domain);
    let r1 = CounterReading { socket, domain, value: a, max_value, unit: first_unit };
    let t1 = table_after_push(t, r1);
    lemma_get_with(t1[socket as int], domain);
}

/// The first update of a fresh table records the value and gives no energy.
pub proof fn lemma_first_push_has_no_energy(socket_count: nat, r: CounterReading)
    requires
        r.socket < socket_count,
    ensures
        table_after_push(fresh_table(socket_count), r)[r.socket as int].spec_get(r.domain)
            == (EnergyCounter { previous_value: Some(r.value), overflowed: false, joules: None }),
        table_after_push(fresh_table(socket_count), r)[r.socket as int].spec_get(
            r.domain,
        ).joules is None,
        table_accepts(fresh_table(socket_count), r),
{
    lemma_get_with(DomainCounters::spec_fresh(), r.domain);
}

/// An update changes its own counter and no other, whatever the raw value.
pub proof fn lemma_push_changes_one_counter(t: Seq<DomainCounters>, r: CounterReading)
    requires
        r.socket < t.len(),
    ensures
        table_after_push(t, r).len() == t.len(),
        forall|s: int, d: RaplDomainType|
            0 <= s < t.len() && (s != r.socket || d != r.domain) ==> #[trigger] table_after_push(
                t,
                r,
            )[s].spec_get(d) == t[s].spec_get(d),
{
}

/// The table that `clear` leaves behind: every counter without a reading.
pub open spec fn cleared_table(t: Seq<DomainCounters>) -> Seq<DomainCounters> {
    Seq::new(t.len(), |i: int| DomainCounters::spec_fresh())
}

/// Updating a cleared table behaves exactly as updating a fresh table of the same
/// size, whatever the history of the cleared one.
pub proof fn lemma_clear_then_push_is_fresh(
    t: Seq<DomainCounters>,
    steps: Seq<Result<CounterReading, RaplError>>,
)
    ensures
        table_after_steps(cleared_table(t), steps) == table_after_steps(
            fresh_table(t.len()),
            steps,
        ),
        table_at_stop(cleared_table(t), steps) == table_at_stop(fresh_table(t.len()), steps),
{
    assert(cleared_table(t) =~= fresh_table(t.len()));
}

/// Once a prefix of the steps fails, the whole sequence fails with the same error.
pub proof fn lemma_steps_prefix_error(
    t: Seq<DomainCounters>,
    steps: Seq<Result<CounterReading, RaplError>>,
    k: int,
)
    requires
        0 <= k <= steps.len(),
        table_after_steps(t, steps.take(k)) is Err,
    ensures
        table_after_steps(t, steps) == table_after_steps(t, steps.take(k)),
        table_at_stop(t, steps) == table_at_stop(t, steps.take(k)),
    decreases steps.len() - k,
{
    if k < steps.len() {
        assert(steps.take(k + 1).drop_last() =~= steps.take(k));
        lemma_steps_prefix_error(t, steps, k + 1);
    } else {
        assert(steps.take(k) =~= steps);
    }
}

proof fn lemma_get_with(row: DomainCounters, d: RaplDomainType)
    ensures
        forall|c: EnergyCounter| #[trigger] row.spec_with(d, c).spec_get(d) == c,
{
}

} // verus!
