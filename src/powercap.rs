//! RAPL through the powercap sysfs tree (`/sys/devices/virtual/powercap/intel-rapl`):
//! zone naming, the zone hierarchy and the probe's bookkeeping.
use vstd::prelude::*;
use vstd::string::StringSliceAdditionalSpecFns;

use crate::cpus::{check_socket_cpus, first_socket_conflict, sockets_unique, CpuId};
use crate::domain::RaplDomainType;
use crate::energy::{
    fresh_table, lemma_steps_ok_stop, lemma_steps_prefix_error, table_after_steps, table_at_stop, CounterReading, EnergyMeasurements,
    EnergyUnit,
};
use crate::error::RaplError;
use crate::text::{parse_unsigned, parse_unsigned_bytes, str_eq, trim_end, trim_end_len};

verus! {

/// The bytes of `package-`, the prefix of the names of package zones.
pub open spec fn package_prefix() -> Seq<u8> {
    seq![0x70u8, 0x61u8, 0x63u8, 0x6bu8, 0x61u8, 0x67u8, 0x65u8, 0x2du8]
}

/// The bytes of `intel-rapl`, the prefix of the directories of power zones.
pub open spec fn zone_dir_prefix() -> Seq<u8> {
    seq![0x69u8, 0x6eu8, 0x74u8, 0x65u8, 0x6cu8, 0x2du8, 0x72u8, 0x61u8, 0x70u8, 0x6cu8]
}

/// `s` starts with `p`.
pub open spec fn has_prefix(s: Seq<u8>, p: Seq<u8>) -> bool {
    s.len() >= p.len() && s.take(p.len() as int) == p
}

/// The RAPL domain of a powercap zone name.
pub open spec fn zone_domain(name: Seq<char>) -> Option<RaplDomainType> {
    if name == "psys"@ {
        Some(RaplDomainType::Platform)
    } else if name == "core"@ {
        Some(RaplDomainType::PP0)
    } else if name == "uncore"@ {
        Some(RaplDomainType::PP1)
    } else if name == "dram"@ {
        Some(RaplDomainType::Dram)
    } else if has_prefix(encode_bytes(name), package_prefix()) {
        Some(RaplDomainType::Package)
    } else {
        None
    }
}

/// The UTF-8 encoding of a string.
pub open spec fn encode_bytes(s: Seq<char>) -> Seq<u8> {
    vstd::utf8::encode_utf8(s)
}

/// The socket of a zone: its parent's, else the `N` of a `package-N` name, else none.
/// A `package-` name whose suffix is not a `u32` has no socket.
pub open spec fn zone_socket(name: Seq<char>, parent_socket: Option<u32>) -> Result<
    Option<u32>,
    RaplError,
> {
    match parent_socket {
        Some(p) => Ok(Some(p)),
        None => if has_prefix(encode_bytes(name), package_prefix()) {
            match parse_unsigned(encode_bytes(name).skip(8), 10, u32::MAX as int) {
                Some(n) => Ok(Some(n as u32)),
                None => Err(RaplError::InvalidNumber),
            }
        } else {
            Ok(None)
        },
    }
}

/// Checks the 8 first bytes of `b` against `package-`.
fn starts_with_package(b: &[u8]) -> (r: bool)
    ensures
        r == has_prefix(b@, package_prefix()),
{
    if b.len() < 8 {
        return false;
    }
    let r = b[0] == 0x70u8 && b[1] == 0x61u8 && b[2] == 0x63u8 && b[3] == 0x6bu8 && b[4] == 0x61u8
        && b[5] == 0x67u8 && b[6] == 0x65u8 && b[7] == 0x2du8;
    proof {
        if r {
            assert(b@.take(8) =~= package_prefix());
        } else if b@.take(8) == package_prefix() {
            assert(b@.take(8)[0] == b@[0]);
            assert(b@.take(8)[1] == b@[1]);
            assert(b@.take(8)[2] == b@[2]);
            assert(b@.take(8)[3] == b@[3]);
            assert(b@.take(8)[4] == b@[4]);
            assert(b@.take(8)[5] == b@[5]);
            assert(b@.take(8)[6] == b@[6]);
            assert(b@.take(8)[7] == b@[7]);
        }
    }
    r
}

/// Whether a directory entry of the powercap tree is a power zone (`intel-rapl...`).
pub fn is_zone_dir_name(file_name: &str) -> (r: bool)
    ensures
        r == has_prefix(file_name.spec_bytes(), zone_dir_prefix()),
{
    let b = file_name.as_bytes();
    if b.len() < 10 {
        return false;
    }
    let r = b[0] == 0x69u8 && b[1] == 0x6eu8 && b[2] == 0x74u8 && b[3] == 0x65u8 && b[4] == 0x6cu8
        && b[5] == 0x2du8 && b[6] == 0x72u8 && b[7] == 0x61u8 && b[8] == 0x70u8 && b[9] == 0x6cu8;
    proof {
        if r {
            assert(b@.take(10) =~= zone_dir_prefix());
        } else if b@.take(10) == zone_dir_prefix() {
            assert(b@.take(10)[0] == b@[0]);
            assert(b@.take(10)[1] == b@[1]);
            assert(b@.take(10)[2] == b@[2]);
            assert(b@.take(10)[3] == b@[3]);
            assert(b@.take(10)[4] == b@[4]);
            assert(b@.take(10)[5] == b@[5]);
            assert(b@.take(10)[6] == b@[6]);
            assert(b@.take(10)[7] == b@[7]);
            assert(b@.take(10)[8] == b@[8]);
            assert(b@.take(10)[9] == b@[9]);
        }
    }
    r
}

/// The RAPL domain of a zone name (`package-N`, `core`, `uncore`, `dram`, `psys`).
pub fn parse_zone_name(name: &str) -> (r: Option<RaplDomainType>)
    ensures
        r == zone_domain(name@),
{
    if str_eq(name, "psys") {
        Some(RaplDomainType::Platform)
    } else if str_eq(name, "core") {
        Some(RaplDomainType::PP0)
    } else if str_eq(name, "uncore") {
        Some(RaplDomainType::PP1)
    } else if str_eq(name, "dram") {
        Some(RaplDomainType::Dram)
    } else if starts_with_package(name.as_bytes()) {
        Some(RaplDomainType::Package)
    } else {
        None
    }
}

/// The socket of a zone named `name` whose parent zone has `parent_socket`.
pub fn zone_socket_id(name: &str, parent_socket: Option<u32>) -> (r: Result<Option<u32>, RaplError>)
    ensures
        r == zone_socket(name@, parent_socket),
{
    match parent_socket {
        Some(p) => Ok(Some(p)),
        None => {
            let b = name.as_bytes();
            if starts_with_package(b) {
                let digits = vstd::slice::slice_subrange(b, 8, b.len());
                assert(digits@ =~= b@.skip(8));
                match parse_unsigned_bytes(digits, 10, u32::MAX as u64) {
                    Some(n) => Ok(Some(n as u32)),
                    None => Err(RaplError::InvalidNumber),
                }
            } else {
                Ok(None)
            }
        },
    }
}

/// Relies on std::str::from_utf8: it succeeds exactly on valid UTF-8.
#[verifier::external_body]
fn is_valid_utf8(bytes: &[u8]) -> (r: bool)
    ensures
        r == vstd::utf8::valid_utf8(bytes@),
{
    std::str::from_utf8(bytes).is_ok()
}

/// The value of a powercap counter file: a decimal `u64` with trailing whitespace.
/// In strict mode the content must be valid UTF-8; otherwise bytes are never
/// validated, and anything that is not a decimal number fails to parse.
pub open spec fn counter_content(content: Seq<u8>, check_utf8: bool) -> Result<u64, RaplError> {
    if check_utf8 && !vstd::utf8::valid_utf8(content) {
        Err(RaplError::InvalidUtf8)
    } else {
        match parse_unsigned(trim_end(content), 10, u64::MAX as int) {
            Some(v) => Ok(v as u64),
            None => Err(RaplError::InvalidNumber),
        }
    }
}

/// The strict mode rejects every content that is not UTF-8; on UTF-8 content both
/// modes give the same value or error, and the unchecked mode never reports a
/// UTF-8 error.
pub proof fn lemma_counter_modes(content: Seq<u8>)
    ensures
        !vstd::utf8::valid_utf8(content) ==> counter_content(content, true) == Err::<u64, RaplError>(
            RaplError::InvalidUtf8,
        ),
        vstd::utf8::valid_utf8(content) ==> counter_content(content, true) == counter_content(
            content,
            false,
        ),
        counter_content(content, false) != Err::<u64, RaplError>(RaplError::InvalidUtf8),
{
}

/// Parses the content of a powercap counter file (`energy_uj`, `max_energy_range_uj`).
pub fn parse_counter(content: &[u8], check_utf8: bool) -> (r: Result<u64, RaplError>)
    ensures
        r == counter_content(content@, check_utf8),
{
    if check_utf8 && !is_valid_utf8(content) {
        return Err(RaplError::InvalidUtf8);
    }
    let n = trim_end_len(content);
    let t = vstd::slice::slice_subrange(content, 0, n);
    assert(t@ =~= trim_end(content@));
    match parse_unsigned_bytes(t, 10, u64::MAX) {
        Some(v) => Ok(v),
        None => Err(RaplError::InvalidNumber),
    }
}

/// A power zone of the powercap tree.
#[derive(Debug)]
pub struct PowerZone {
    /// The name of the zone, as powercap reports it: `package-0`, `core`, ...
    pub name: String,
    /// The RAPL domain of the zone.
    pub domain: RaplDomainType,
    /// The directory of the zone in sysfs, for instance
    /// `/sys/devices/virtual/powercap/intel-rapl/intel-rapl:0`
    /// (`intel-rapl` is the control type, `intel-rapl:0` the zone).
    pub path: String,
    /// The sub-zones (can be empty).
    pub children: Vec<PowerZone>,
    /// The socket that contains the zone, if any (psys has none).
    pub socket_id: Option<u32>,
}

impl PowerZone {
    /// The zone and its sub-zones, one per line, indented by depth from `level`.
    pub fn fmt_rec(&self, level: usize) -> (r: String)
        ensures
            r@ == zone_text(*self, level, self.children@.len()),
        decreases self,
    {
        let mut s = String::new();
        if level > 0 {
            s = s.concat("\n");
        }
        let mut i: usize = 0;
        while i < level
            invariant
                i <= level,
                s@ == (if level > 0 {
                    "\n"@
                } else {
                    Seq::empty()
                }) + indent(i as nat),
            decreases level - i,
        {
            s = s.concat("  ");
            i += 1;
        }
        s = s.concat("- ");
        s = s.concat(self.name.as_str());
        s = s.concat(" (");
        s = s.concat(self.domain.name());
        s = s.concat(") \t\t: ");
        s = s.concat(self.path.as_str());
        assert(s@ =~= zone_line(*self, level));
        let next = if level < usize::MAX {
            level + 1
        } else {
            level
        };
        let mut k: usize = 0;
        while k < self.children.len()
            invariant
                k <= self.children@.len(),
                next == next_level(level),
                s@ == zone_text(*self, level, k as nat),
            decreases self.children@.len() - k,
        {
            proof {
                assert(decreases_to!(*self => self.children));
                assert(decreases_to!(self.children => self.children@));
                assert(decreases_to!(self.children@ => self.children@[k as int]));
            }
            let t = self.children[k].fmt_rec(next);
            s = s.concat(t.as_str());
            k += 1;
        }
        s
    }

    /// Same as `fmt_rec(0)`: the zone and its sub-zones, one per line.
    pub fn to_string(&self) -> (r: String)
        ensures
            r@ == zone_text(*self, 0, self.children@.len()),
    {
        self.fmt_rec(0)
    }

    /// The file that holds the zone's energy counter, in microjoules.
    pub fn energy_path(&self) -> (r: String)
        ensures
            r@ == self.path@ + "/energy_uj"@,
    {
        self.path.clone().concat("/energy_uj")
    }

    /// The file that holds the largest value of the zone's energy counter.
    pub fn max_energy_path(&self) -> (r: String)
        ensures
            r@ == self.path@ + "/max_energy_range_uj"@,
    {
        self.path.clone().concat("/max_energy_range_uj")
    }
}

/// Two spaces per level.
pub open spec fn indent(level: nat) -> Seq<char>
    decreases level,
{
    if level == 0 {
        Seq::empty()
    } else {
        indent((level - 1) as nat) + "  "@
    }
}

/// The line of a zone at depth `level`; lines below the top one start with a newline.
pub open spec fn zone_line(z: PowerZone, level: usize) -> Seq<char> {
    (if level > 0 {
        "\n"@
    } else {
        Seq::empty()
    }) + indent(level as nat) + "- "@ + z.name@ + " ("@ + crate::domain::domain_name(z.domain)
        + ") \t\t: "@ + z.path@
}

/// The depth of the sub-zones of a zone at depth `level`.
pub open spec fn next_level(level: usize) -> usize {
    if level < usize::MAX {
        (level + 1) as usize
    } else {
        level
    }
}

/// The text of a zone at depth `level` followed by that of its `k` first sub-zones.
pub open spec fn zone_text(z: PowerZone, level: usize, k: nat) -> Seq<char>
    decreases z, k,
{
    if k == 0 || k > z.children@.len() {
        zone_line(z, level)
    } else {
        let c = z.children@[k - 1];
        zone_text(z, level, (k - 1) as nat) + zone_text(c, next_level(level), c.children@.len())
    }
}

/// Byte-wise lexicographic order, the order of Rust's `str`.
pub open spec fn bytes_le(a: Seq<u8>, b: Seq<u8>) -> bool
    decreases a.len(),
{
    if a.len() == 0 {
        true
    } else if b.len() == 0 {
        false
    } else if a[0] != b[0] {
        a[0] < b[0]
    } else {
        bytes_le(a.skip(1), b.skip(1))
    }
}

/// The sort key of a zone: the bytes of its path.
pub open spec fn path_key(z: PowerZone) -> Seq<u8> {
    vstd::utf8::encode_utf8(z.path@)
}

/// The zones are in path order.
pub open spec fn sorted_by_path(zs: Seq<PowerZone>) -> bool {
    forall|i: int, j: int| 0 <= i < j < zs.len() ==> bytes_le(path_key(zs[i]), path_key(zs[j]))
}

proof fn lemma_bytes_le_total(a: Seq<u8>, b: Seq<u8>)
    ensures
        bytes_le(a, b) || bytes_le(b, a),
    decreases a.len(),
{
    if a.len() > 0 && b.len() > 0 && a[0] == b[0] {
        lemma_bytes_le_total(a.skip(1), b.skip(1));
    }
}

proof fn lemma_bytes_le_transitive(a: Seq<u8>, b: Seq<u8>, c: Seq<u8>)
    requires
        bytes_le(a, b),
        bytes_le(b, c),
    ensures
        bytes_le(a, c),
    decreases a.len(),
{
    if a.len() > 0 && b.len() > 0 && c.len() > 0 && a[0] == b[0] && b[0] == c[0] {
        lemma_bytes_le_transitive(a.skip(1), b.skip(1), c.skip(1));
    }
}

/// Compares two strings byte by byte.
fn str_le(a: &str, b: &str) -> (r: bool)
    ensures
        r == bytes_le(a.spec_bytes(), b.spec_bytes()),
{
    let ab = a.as_bytes();
    let bb = b.as_bytes();
    let mut i: usize = 0;
    assert(ab@.skip(0) =~= ab@);
    assert(bb@.skip(0) =~= bb@);
    while i < ab.len() && i < bb.len() && ab[i] == bb[i]
        invariant
            ab@ == a.spec_bytes(),
            bb@ == b.spec_bytes(),
            i <= ab@.len(),
            i <= bb@.len(),
            bytes_le(ab@, bb@) == bytes_le(ab@.skip(i as int), bb@.skip(i as int)),
        decreases ab@.len() - i,
    {
        assert(ab@.skip(i as int).skip(1) =~= ab@.skip(i + 1));
        assert(bb@.skip(i as int).skip(1) =~= bb@.skip(i + 1));
        i += 1;
    }
    if i == ab.len() {
        true
    } else if i == bb.len() {
        false
    } else {
        ab[i] < bb[i]
    }
}

/// Sorts zones by path, as the powercap tree lists a directory's zones.
pub fn sort_zones_by_path(zones: Vec<PowerZone>) -> (r: Vec<PowerZone>)
    ensures
        r@.to_multiset() == zones@.to_multiset(),
        sorted_by_path(r@),
{
    broadcast use vstd::seq_lib::group_to_multiset_ensures;

    let mut rest = zones;
    let mut out: Vec<PowerZone> = Vec::new();
    while rest.len() > 0
        invariant
            out@.to_multiset().add(rest@.to_multiset()) == zones@.to_multiset(),
            sorted_by_path(out@),
            forall|i: int, j: int|
                0 <= i < out@.len() && 0 <= j < rest@.len() ==> bytes_le(
                    path_key(#[trigger] out@[i]),
                    path_key(#[trigger] rest@[j]),
                ),
        decreases rest@.len(),
    {
        let mut m: usize = 0;
        let mut j: usize = 1;
        proof {
            lemma_bytes_le_total(path_key(rest@[0]), path_key(rest@[0]));
        }
        while j < rest.len()
            invariant
                0 < rest@.len(),
                m < rest@.len(),
                1 <= j <= rest@.len(),
                forall|k: int| 0 <= k < j ==> bytes_le(path_key(rest@[m as int]), path_key(#[trigger] rest@[k])),
            decreases rest@.len() - j,
        {
            if !str_le(rest[m].path.as_str(), rest[j].path.as_str()) {
                proof {
                    lemma_bytes_le_total(path_key(rest@[m as int]), path_key(rest@[j as int]));
                    assert forall|k: int| 0 <= k < j + 1 implies bytes_le(
                        path_key(rest@[j as int]),
                        path_key(#[trigger] rest@[k]),
                    ) by {
                        if k < j {
                            lemma_bytes_le_transitive(
                                path_key(rest@[j as int]),
                                path_key(rest@[m as int]),
                                path_key(rest@[k]),
                            );
                        } else {
                            lemma_bytes_le_total(path_key(rest@[j as int]), path_key(rest@[j as int]));
                        }
                    }
                }
                m = j;
            } else {
                proof {
                    assert(bytes_le(path_key(rest@[m as int]), path_key(rest@[j as int])));
                }
            }
            j += 1;
        }
        let ghost old_rest = rest@;
        let ghost old_out = out@;
        let z = rest.remove(m);
        proof {
            vstd::seq_lib::to_multiset_remove(old_rest, m as int);
            assert(old_rest[m as int] == z);
            assert(old_rest.contains(z));
            vstd::seq_lib::to_multiset_contains(old_rest, z);
        }
        out.push(z);
        assert(out@ =~= old_out.push(z));
        proof {
            vstd::seq_lib::to_multiset_build(old_out, z);
        }
        assert(out@.to_multiset() =~= old_out.to_multiset().insert(z));
        assert(out@.to_multiset().add(rest@.to_multiset()) =~= zones@.to_multiset());
        assert(sorted_by_path(out@)) by {
            assert forall|a: int, b: int| 0 <= a < b < out@.len() implies bytes_le(
                path_key(out@[a]),
                path_key(out@[b]),
            ) by {
                if b < old_out.len() {
                    assert(out@[a] == old_out[a]);
                    assert(out@[b] == old_out[b]);
                } else {
                    assert(out@[a] == old_out[a]);
                    assert(out@[b] == old_rest[m as int]);
                }
            }
        }
        assert forall|i: int, j: int|
            0 <= i < out@.len() && 0 <= j < rest@.len() implies bytes_le(
            path_key(#[trigger] out@[i]),
            path_key(#[trigger] rest@[j]),
        ) by {
            let jj = if j < m { j } else { j + 1 };
            assert(rest@[j] == old_rest[jj]);
            if i < old_out.len() {
                assert(out@[i] == old_out[i]);
            } else {
                assert(out@[i] == old_rest[m as int]);
            }
        }
    }
    assert(rest@.to_multiset() =~= vstd::multiset::Multiset::empty());
    assert(out@.to_multiset() =~= zones@.to_multiset());
    out
}

/// The hierarchy of power zones.
pub struct PowerZoneHierarchy {
    /// All the zones, in one list.
    pub flat: Vec<PowerZone>,
    /// The top zones; their sub-zones are in [`PowerZone::children`].
    pub top: Vec<PowerZone>,
}

/// What the flat list keeps of a zone: everything but its sub-zones.
pub struct ZoneSummary {
    pub name: Seq<char>,
    pub domain: RaplDomainType,
    pub path: Seq<char>,
    pub socket_id: Option<u32>,
}

pub open spec fn summary(z: PowerZone) -> ZoneSummary {
    ZoneSummary { name: z.name@, domain: z.domain, path: z.path@, socket_id: z.socket_id }
}

/// A zone, then its `k` first sub-zones each followed by its own sub-zones.
pub open spec fn zone_preorder(z: PowerZone, k: nat) -> Seq<ZoneSummary>
    decreases z, k,
{
    if k == 0 || k > z.children@.len() {
        seq![summary(z)]
    } else {
        let c = z.children@[k - 1];
        zone_preorder(z, (k - 1) as nat) + zone_preorder(c, c.children@.len())
    }
}

/// The pre-order traversal of a list of zone trees.
pub open spec fn forest_preorder(zs: Seq<PowerZone>) -> Seq<ZoneSummary>
    decreases zs.len(),
{
    if zs.len() == 0 {
        Seq::empty()
    } else {
        forest_preorder(zs.drop_last()) + zone_preorder(zs.last(), zs.last().children@.len())
    }
}

/// Appends the zone and all its sub-zones, in pre-order and without their
/// sub-zones, to `out`.
fn push_preorder(z: &PowerZone, out: &mut Vec<PowerZone>)
    ensures
        final(out)@.map_values(|x: PowerZone| summary(x)) == old(out)@.map_values(
            |x: PowerZone| summary(x),
        ) + zone_preorder(*z, z.children@.len()),
        forall|i: int| 0 <= i < final(out)@.len() ==> #[trigger] final(out)@[i].children@.len() == 0
            || i < old(out)@.len(),
        forall|i: int| 0 <= i < old(out)@.len() ==> #[trigger] final(out)@[i] == old(out)@[i],
    decreases z,
{
    let ghost start = out@;
    out.push(
        PowerZone {
            name: z.name.clone(),
            domain: z.domain,
            path: z.path.clone(),
            children: Vec::new(),
            socket_id: z.socket_id,
        },
    );
    assert(out@.map_values(|x: PowerZone| summary(x)) =~= start.map_values(|x: PowerZone| summary(x)) + zone_preorder(*z, 0));
    let mut k: usize = 0;
    while k < z.children.len()
        invariant
            k <= z.children@.len(),
            out@.len() > start.len(),
            out@.map_values(|x: PowerZone| summary(x)) == start.map_values(|x: PowerZone| summary(x))
                + zone_preorder(*z, k as nat),
            forall|i: int| 0 <= i < out@.len() ==> #[trigger] out@[i].children@.len() == 0 || i < start.len(),
            forall|i: int| 0 <= i < start.len() ==> #[trigger] out@[i] == start[i],
        decreases z.children@.len() - k,
    {
        proof {
            assert(decreases_to!(*z => z.children));
            assert(decreases_to!(z.children => z.children@));
            assert(decreases_to!(z.children@ => z.children@[k as int]));
        }
        let ghost before = out@;
        push_preorder(&z.children[k], out);
        k += 1;
        assert(out@.map_values(|x: PowerZone| summary(x)) =~= start.map_values(|x: PowerZone| summary(x))
            + zone_preorder(*z, k as nat)) by {
            assert(before.map_values(|x: PowerZone| summary(x)) == start.map_values(|x: PowerZone| summary(x))
                + zone_preorder(*z, (k - 1) as nat));
        }
    }
}

impl PowerZoneHierarchy {
    /// The hierarchy of the given top zones, with its flat list: every zone in
    /// pre-order (a zone before its sub-zones), listed without its sub-zones.
    pub fn new(top: Vec<PowerZone>) -> (r: PowerZoneHierarchy)
        ensures
            r.top@ == top@,
            r.flat@.map_values(|x: PowerZone| summary(x)) == forest_preorder(top@),
            forall|i: int| 0 <= i < r.flat@.len() ==> (#[trigger] r.flat@[i]).children@.len() == 0,
    {
        let mut flat: Vec<PowerZone> = Vec::new();
        let mut k: usize = 0;
        while k < top.len()
            invariant
                k <= top@.len(),
                flat@.map_values(|x: PowerZone| summary(x)) == forest_preorder(top@.take(k as int)),
                forall|i: int| 0 <= i < flat@.len() ==> (#[trigger] flat@[i]).children@.len() == 0,
            decreases top@.len() - k,
        {
            push_preorder(&top[k], &mut flat);
            assert(top@.take(k + 1).drop_last() =~= top@.take(k as int));
            k += 1;
        }
        assert(top@.take(k as int) =~= top@);
        PowerZoneHierarchy { flat, top }
    }
}

/// One counter to read on each poll: a selected zone.
#[derive(Clone, Copy, Debug, PartialEq, Eq, Structural)]
pub struct PowercapChannel {
    /// The zone's socket, socket 0 for zones outside any package.
    pub socket: u32,
    pub domain: RaplDomainType,
    /// The zone's counter maximum, from `max_energy_range_uj`.
    pub max_energy_uj: u64,
}

/// The readings of one poll of powercap counters.
pub open spec fn powercap_steps(
    channels: Seq<PowercapChannel>,
    contents: Seq<Seq<u8>>,
    check_utf8: bool,
) -> Seq<Result<CounterReading, RaplError>> {
    Seq::new(
        channels.len(),
        |k: int|
            match counter_content(contents[k], check_utf8) {
                Ok(v) => Ok(
                    CounterReading {
                        socket: channels[k].socket,
                        domain: channels[k].domain,
                        value: v,
                        max_value: channels[k].max_energy_uj,
                        unit: EnergyUnit::Microjoule,
                    },
                ),
                Err(e) => Err(e),
            },
    )
}

/// On counter files that are all valid UTF-8, a strict and an unchecked poll read
/// the same steps, hence reach the same outcome and leave the same table.
pub proof fn lemma_poll_modes_agree_on_utf8(channels: Seq<PowercapChannel>, contents: Seq<Seq<u8>>)
    requires
        contents.len() == channels.len(),
        forall|k: int| 0 <= k < contents.len() ==> vstd::utf8::valid_utf8(#[trigger] contents[k]),
    ensures
        powercap_steps(channels, contents, true) == powercap_steps(channels, contents, false),
{
    assert forall|k: int| 0 <= k < channels.len() implies #[trigger] powercap_steps(
        channels,
        contents,
        true,
    )[k] == powercap_steps(channels, contents, false)[k] by {
        lemma_counter_modes(contents[k]);
    }
    assert(powercap_steps(channels, contents, true) =~= powercap_steps(channels, contents, false));
}

/// The socket a zone's counters are recorded under.
pub open spec fn channel_socket(zone: PowerZone) -> u32 {
    match zone.socket_id {
        Some(s) => s,
        None => 0,
    }
}

/// Every zone's socket is below `count`.
pub open spec fn zone_sockets_below(zones: Seq<&PowerZone>, count: int) -> bool {
    forall|k: int| 0 <= k < zones.len() ==> channel_socket(*#[trigger] zones[k]) < count
}

/// `j` is the first zone whose socket is not below `count`.
pub open spec fn first_zone_out_of_range(zones: Seq<&PowerZone>, count: int, j: int) -> bool {
    &&& 0 <= j < zones.len()
    &&& zone_sockets_below(zones.take(j), count)
    &&& channel_socket(*zones[j]) >= count
}

/// The channels of the first `n` zones, if the maximum of each parses; else the
/// error of the first that does not.
pub open spec fn powercap_channels(zones: Seq<&PowerZone>, max_contents: Seq<Seq<u8>>, n: int) -> Result<
    Seq<PowercapChannel>,
    RaplError,
>
    decreases n,
{
    if n <= 0 {
        Ok(Seq::empty())
    } else {
        match powercap_channels(zones, max_contents, n - 1) {
            Err(e) => Err(e),
            Ok(chs) => match counter_content(max_contents[n - 1], true) {
                Err(e) => Err(e),
                Ok(m) => Ok(
                    chs.push(
                        PowercapChannel {
                            socket: channel_socket(*zones[n - 1]),
                            domain: zones[n - 1].domain,
                            max_energy_uj: m,
                        },
                    ),
                ),
            },
        }
    }
}

/// Powercap probe. With `CHECK_UTF8`, counter files are checked to be UTF-8
/// before they are parsed; without, this check is skipped for speed and the
/// bytes are parsed as they are. The files are read by the caller, in the order
/// of [`PowercapProbe::channels`].
pub struct PowercapProbe<const CHECK_UTF8: bool> {
    /// The energy measurements.
    pub measurements: EnergyMeasurements,
    /// The zones to read on each poll.
    pub channels: Vec<PowercapChannel>,
}

impl<const CHECK_UTF8: bool> PowercapProbe<CHECK_UTF8> {
    /// Prepares a powercap probe for the given CPUs (one per socket) and zones;
    /// `max_contents[k]` is the content of the `max_energy_range_uj` file of `zones[k]`.
    pub fn new(socket_cpus: &[CpuId], zones: &[&PowerZone], max_contents: &[Vec<u8>]) -> (r:
        Result<PowercapProbe<CHECK_UTF8>, RaplError>)
        requires
            max_contents@.len() == zones@.len(),
        ensures
            !sockets_unique(socket_cpus@) ==> exists|j: int|
                first_socket_conflict(socket_cpus@, j) && r == Err::<
                    PowercapProbe<CHECK_UTF8>,
                    RaplError,
                >(RaplError::SocketConflict { socket: socket_cpus@[j].socket }),
            sockets_unique(socket_cpus@) && zones@.len() == 0 ==> r == Err::<
                PowercapProbe<CHECK_UTF8>,
                RaplError,
            >(RaplError::NoZone),
            sockets_unique(socket_cpus@) && zones@.len() > 0 ==> match powercap_channels(
                zones@,
                max_contents@.map_values(|c: Vec<u8>| c@),
                zones@.len() as int,
            ) {
                Err(e) => r == Err::<PowercapProbe<CHECK_UTF8>, RaplError>(e),
                Ok(chs) => if zone_sockets_below(zones@, socket_cpus@.len() as int) {
                    r matches Ok(p) && p.channels@ == chs && p.measurements@ == fresh_table(
                        socket_cpus@.len(),
                    )
                } else {
                    exists|j: int|
                        first_zone_out_of_range(zones@, socket_cpus@.len() as int, j) && r
                            == Err::<PowercapProbe<CHECK_UTF8>, RaplError>(
                            RaplError::SocketOutOfRange {
                                socket: channel_socket(*zones@[j]),
                                socket_count: socket_cpus@.len() as usize,
                            },
                        )
                },
            },
    {
        check_socket_cpus(socket_cpus)?;
        if zones.len() == 0 {
            return Err(RaplError::NoZone);
        }
        let ghost maxes = max_contents@.map_values(|c: Vec<u8>| c@);
        let mut channels: Vec<PowercapChannel> = Vec::new();
        let mut k: usize = 0;
        while k < zones.len()
            invariant
                sockets_unique(socket_cpus@),
                zones@.len() > 0,
                k <= zones@.len(),
                max_contents@.len() == zones@.len(),
                maxes == max_contents@.map_values(|c: Vec<u8>| c@),
                powercap_channels(zones@, maxes, k as int) == Ok::<_, RaplError>(channels@),
            decreases zones@.len() - k,
        {
            let zone = zones[k];
            assert(max_contents@[k as int]@ == maxes[k as int]);
            let max_energy_uj = match parse_counter(max_contents[k].as_slice(), true) {
                Ok(m) => m,
                Err(e) => {
                    proof {
                        lemma_channels_prefix_error(zones@, maxes, k + 1, zones@.len() as int);
                    }
                    return Err(e);
                },
            };
            let socket = match zone.socket_id {
                Some(s) => s,
                None => 0,
            };
            channels.push(PowercapChannel { socket, domain: zone.domain, max_energy_uj });
            k += 1;
        }
        proof {
            lemma_channel_len(zones@, maxes, zones@.len() as int);
        }
        let mut k: usize = 0;
        while k < channels.len()
            invariant
                sockets_unique(socket_cpus@),
                zones@.len() > 0,
                maxes == max_contents@.map_values(|c: Vec<u8>| c@),
                k <= channels@.len(),
                channels@.len() == zones@.len(),
                powercap_channels(zones@, maxes, zones@.len() as int) == Ok::<_, RaplError>(channels@),
                forall|j: int| 0 <= j < k ==> channel_socket(*#[trigger] zones@[j]) < socket_cpus@.len(),
            decreases channels@.len() - k,
        {
            proof {
                lemma_channel_socket(zones@, maxes, zones@.len() as int, k as int);
            }
            if channels[k].socket as usize >= socket_cpus.len() {
                assert(first_zone_out_of_range(zones@, socket_cpus@.len() as int, k as int)) by {
                    assert forall|j: int| 0 <= j < k implies channel_socket(
                        *#[trigger] zones@.take(k as int)[j],
                    ) < socket_cpus@.len() by {
                        assert(zones@.take(k as int)[j] == zones@[j]);
                    }
                }
                return Err(
                    RaplError::SocketOutOfRange {
                        socket: channels[k].socket,
                        socket_count: socket_cpus.len(),
                    },
                );
            }
            k += 1;
        }
        Ok(PowercapProbe { measurements: EnergyMeasurements::new(socket_cpus.len()), channels })
    }

    /// The zones to read on each poll, in order.
    pub fn channels(&self) -> (r: &[PowercapChannel])
        ensures
            r@ == self.channels@,
    {
        self.channels.as_slice()
    }

    /// Updates the measurements with the content of each zone's `energy_uj` file,
    /// in microjoules, with a wraparound at the zone's maximum.
    pub fn poll(&mut self, contents: &[Vec<u8>]) -> (r: Result<(), RaplError>)
        requires
            contents@.len() == old(self).channels@.len(),
        ensures
            final(self).channels == old(self).channels,
            match table_after_steps(
                old(self).measurements@,
                powercap_steps(
                    old(self).channels@,
                    contents@.map_values(|c: Vec<u8>| c@),
                    CHECK_UTF8,
                ),
            ) {
                Ok(t) => r is Ok && final(self).measurements@ == t,
                Err(e) => r == Err::<(), RaplError>(e),
            },
            final(self).measurements@ == table_at_stop(old(self).measurements@, powercap_steps(
                    old(self).channels@,
                    contents@.map_values(|c: Vec<u8>| c@),
                    CHECK_UTF8,
                )),
    {
        let ghost t0 = self.measurements@;
        let ghost cs = contents@.map_values(|c: Vec<u8>| c@);
        let ghost steps = powercap_steps(self.channels@, cs, CHECK_UTF8);
        let mut k: usize = 0;
        assert(steps.take(0) =~= Seq::<Result<CounterReading, RaplError>>::empty());
        while k < self.channels.len()
            invariant
                k <= self.channels@.len(),
                contents@.len() == self.channels@.len(),
                cs == contents@.map_values(|c: Vec<u8>| c@),
                self.channels == old(self).channels,
                t0 == old(self).measurements@,
                steps == powercap_steps(self.channels@, cs, CHECK_UTF8),
                table_after_steps(t0, steps.take(k as int)) == Ok::<_, RaplError>(self.measurements@),
            decreases self.channels@.len() - k,
        {
            let ch = self.channels[k];
            assert(steps.take(k + 1).drop_last() =~= steps.take(k as int));
            assert(contents@[k as int]@ == cs[k as int]);
            match parse_counter(contents[k].as_slice(), CHECK_UTF8) {
                Ok(value) => {
                    let reading = CounterReading {
                        socket: ch.socket,
                        domain: ch.domain,
                        value,
                        max_value: ch.max_energy_uj,
                        unit: EnergyUnit::Microjoule,
                    };
                    assert(steps[k as int] == Ok::<_, RaplError>(reading));
                    match self.measurements.record(reading) {
                        Ok(()) => {},
                        Err(e) => {
                            proof {
                                lemma_steps_prefix_error(t0, steps, k + 1);
                            }
                            return Err(e);
                        },
                    }
                },
                Err(e) => {
                    assert(steps[k as int] == Err::<CounterReading, RaplError>(e));
                    proof {
                        lemma_steps_prefix_error(t0, steps, k + 1);
                    }
                    return Err(e);
                },
            }
            k += 1;
        }
        assert(steps.take(k as int) =~= steps);
        proof {
            lemma_steps_ok_stop(t0, steps);
        }
        Ok(())
    }

    /// The latest measurements.
    pub fn measurements(&self) -> (r: &EnergyMeasurements)
        ensures
            r == &self.measurements,
    {
        &self.measurements
    }

    /// Forgets every previous counter value.
    pub fn reset(&mut self)
        ensures
            final(self).channels == old(self).channels,
            final(self).measurements@ == crate::energy::cleared_table(old(self).measurements@),
    {
        self.measurements.clear()
    }
}

proof fn lemma_channels_prefix_error(
    zones: Seq<&PowerZone>,
    maxes: Seq<Seq<u8>>,
    k: int,
    n: int,
)
    requires
        0 <= k <= n,
        powercap_channels(zones, maxes, k) is Err,
    ensures
        powercap_channels(zones, maxes, n) == powercap_channels(zones, maxes, k),
    decreases n - k,
{
    if k < n {
        lemma_channels_prefix_error(zones, maxes, k, n - 1);
    }
}

proof fn lemma_channel_socket(zones: Seq<&PowerZone>, maxes: Seq<Seq<u8>>, n: int, k: int)
    requires
        0 <= k < n,
        powercap_channels(zones, maxes, n) is Ok,
    ensures
        powercap_channels(zones, maxes, n)->Ok_0.len() == n,
        powercap_channels(zones, maxes, n)->Ok_0[k].socket == channel_socket(*zones[k]),
    decreases n,
{
    if k < n - 1 {
        lemma_channel_socket(zones, maxes, n - 1, k);
    }
    if n > 1 {
        lemma_channel_len(zones, maxes, n - 1);
    }
}

proof fn lemma_channel_len(zones: Seq<&PowerZone>, maxes: Seq<Seq<u8>>, n: int)
    requires
        0 <= n,
        powercap_channels(zones, maxes, n) is Ok,
    ensures
        powercap_channels(zones, maxes, n)->Ok_0.len() == n,
    decreases n,
{
    if n > 0 {
        lemma_channel_len(zones, maxes, n - 1);
    }
}

} // verus!
