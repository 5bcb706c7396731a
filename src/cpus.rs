//! CPU lists (`"0-3,8"`) and the choice of one CPU per socket.
use vstd::prelude::*;
use vstd::string::StringSliceAdditionalSpecFns;

use crate::error::RaplError;
use crate::text::{parse_unsigned, parse_unsigned_bytes, split, split_bytes, trim_end, trim_end_len};

verus! {

broadcast use vstd::std_specs::hash::group_hash_axioms;

/// A monitored CPU and the socket it stands for.
#[derive(Debug, Clone, Copy, PartialEq, Eq, Structural)]
pub struct CpuId {
    pub cpu: u32,
    pub socket: u32,
}

/// The CPUs `start..=end`, empty when `start > end`.
pub open spec fn cpu_range(start: int, end: int) -> Seq<u32> {
    if start <= end {
        Seq::new((end - start + 1) as nat, |i: int| (start + i) as u32)
    } else {
        Seq::empty()
    }
}

/// One item of a CPU list: `n` or `start-end`.
pub open spec fn cpu_list_item(item: Seq<u8>) -> Option<Seq<u32>> {
    let bounds = split(item, 0x2du8);
    if bounds.len() == 2 {
        match (
            parse_unsigned(bounds[0], 10, u32::MAX as int),
            parse_unsigned(bounds[1], 10, u32::MAX as int),
        ) {
            (Some(start), Some(end)) => Some(cpu_range(start, end)),
            _ => None,
        }
    } else if bounds.len() == 1 {
        match parse_unsigned(bounds[0], 10, u32::MAX as int) {
            Some(n) => Some(seq![n as u32]),
            None => None,
        }
    } else {
        None
    }
}

/// The concatenation of the CPUs of each item, if every item is valid.
pub open spec fn cpu_list_items(items: Seq<Seq<u8>>) -> Option<Seq<u32>>
    decreases items.len(),
{
    if items.len() == 0 {
        Some(Seq::empty())
    } else {
        match (cpu_list_items(items.drop_last()), cpu_list_item(items.last())) {
            (Some(a), Some(b)) => Some(a + b),
            _ => None,
        }
    }
}

/// The CPUs of a list such as `"0-3,8"`: comma-separated items, trailing
/// whitespace ignored.
pub open spec fn cpu_list(s: Seq<u8>) -> Option<Seq<u32>> {
    cpu_list_items(split(trim_end(s), 0x2cu8))
}

/// One CPU per socket: the i-th CPU of the list stands for socket i.
pub open spec fn cpus_with_sockets(cpus: Seq<u32>) -> Seq<CpuId> {
    Seq::new(cpus.len(), |i: int| CpuId { cpu: cpus[i], socket: i as u32 })
}

/// No two entries share a socket.
pub open spec fn sockets_unique(cpus: Seq<CpuId>) -> bool {
    forall|i: int, j: int| 0 <= i < j < cpus.len() ==> cpus[i].socket != cpus[j].socket
}

/// `j` is the first entry whose socket already occurred before it.
pub open spec fn first_socket_conflict(cpus: Seq<CpuId>, j: int) -> bool {
    &&& 0 <= j < cpus.len()
    &&& sockets_unique(cpus.take(j))
    &&& exists|i: int| 0 <= i < j && cpus[i].socket == cpus[j].socket
}

proof fn lemma_items_prefix_invalid(items: Seq<Seq<u8>>, k: int)
    requires
        0 <= k <= items.len(),
        cpu_list_items(items.take(k)) is None,
    ensures
        cpu_list_items(items) is None,
    decreases items.len() - k,
{
    if k < items.len() {
        assert(items.take(k + 1).drop_last() =~= items.take(k));
        lemma_items_prefix_invalid(items, k + 1);
    } else {
        assert(items.take(k) =~= items);
    }
}

/// Parses one item of a CPU list.
fn parse_cpu_list_item(item: &[u8]) -> (r: Option<Vec<u32>>)
    ensures
        r matches Some(v) ==> cpu_list_item(item@) == Some(v@),
        r is None ==> cpu_list_item(item@) is None,
{
    let bounds = split_bytes(item, 0x2du8);
    let ghost sb = split(item@, 0x2du8);
    assert(bounds@.len() == sb.len());
    if bounds.len() == 2 {
        assert(bounds@[0]@ == sb[0]);
        assert(bounds@[1]@ == sb[1]);
        let start = parse_unsigned_bytes(bounds[0].as_slice(), 10, u32::MAX as u64);
        let end = parse_unsigned_bytes(bounds[1].as_slice(), 10, u32::MAX as u64);
        match (start, end) {
            (Some(start), Some(end)) => {
                let mut v: Vec<u32> = Vec::new();
                if start <= end {
                    let mut c: u64 = start;
                    while c <= end
                        invariant
                            start <= c <= end + 1,
                            end <= u32::MAX,
                            v@ =~= Seq::new((c - start) as nat, |i: int| (start + i) as u32),
                        decreases end + 1 - c,
                    {
                        v.push(c as u32);
                        c += 1;
                    }
                    assert(v@ =~= cpu_range(start as int, end as int));
                } else {
                    assert(v@ =~= cpu_range(start as int, end as int));
                }
                Some(v)
            },
            _ => None,
        }
    } else if bounds.len() == 1 {
        assert(bounds@[0]@ == sb[0]);
        match parse_unsigned_bytes(bounds[0].as_slice(), 10, u32::MAX as u64) {
            Some(n) => {
                let v = vec![n as u32];
                assert(v@ =~= seq![n as u32]);
                Some(v)
            },
            None => None,
        }
    } else {
        None
    }
}

/// Parses a CPU list such as `"0,64"`, `"0-1"` or `"1-3,5-6"` into CPU numbers.
pub fn parse_cpu_list(cpulist: &str) -> (r: Result<Vec<u32>, RaplError>)
    ensures
        r matches Ok(v) ==> cpu_list(cpulist.spec_bytes()) == Some(v@),
        r is Err ==> cpu_list(cpulist.spec_bytes()) is None && r == Err::<Vec<u32>, RaplError>(
            RaplError::InvalidCpuList,
        ),
{
    let bytes = cpulist.as_bytes();
    let n = trim_end_len(bytes);
    let trimmed = vstd::slice::slice_subrange(bytes, 0, n);
    assert(trimmed@ =~= trim_end(bytes@));
    let items = split_bytes(trimmed, 0x2cu8);
    let ghost fields = split(trim_end(bytes@), 0x2cu8);
    let mut cpus: Vec<u32> = Vec::new();
    let mut k: usize = 0;
    assert(fields.take(0) =~= Seq::<Seq<u8>>::empty());
    while k < items.len()
        invariant
            items@.map_values(|f: Vec<u8>| f@) == fields,
            fields == split(trim_end(cpulist.spec_bytes()), 0x2cu8),
            k <= items@.len(),
            cpu_list_items(fields.take(k as int)) == Some(cpus@),
        decreases items@.len() - k,
    {
        assert(fields.take(k + 1).drop_last() =~= fields.take(k as int));
        assert(items@[k as int]@ == fields[k as int]);
        match parse_cpu_list_item(items[k].as_slice()) {
            Some(mut more) => {
                cpus.append(&mut more);
            },
            None => {
                proof {
                    lemma_items_prefix_invalid(fields, k + 1);
                }
                return Err(RaplError::InvalidCpuList);
            },
        }
        k += 1;
    }
    assert(fields.take(k as int) =~= fields);
    Ok(cpus)
}

/// Parses a CPU list that holds one CPU per socket: the i-th CPU stands for socket i.
pub fn parse_cpu_and_socket_list(cpulist: &str) -> (r: Result<Vec<CpuId>, RaplError>)
    ensures
        r matches Ok(v) ==> cpu_list(cpulist.spec_bytes()) is Some && cpu_list(
            cpulist.spec_bytes(),
        )->0.len() <= u32::MAX + 1 && v@ == cpus_with_sockets(cpu_list(cpulist.spec_bytes())->0),
        r is Err ==> r == Err::<Vec<CpuId>, RaplError>(RaplError::InvalidCpuList) && (
        cpu_list(cpulist.spec_bytes()) matches Some(cpus) ==> cpus.len() > u32::MAX + 1),
{
    let cpus = parse_cpu_list(cpulist)?;
    let mut out: Vec<CpuId> = Vec::new();
    let mut i: usize = 0;
    while i < cpus.len()
        invariant
            i <= cpus@.len(),
            cpu_list(cpulist.spec_bytes()) == Some(cpus@),
            i <= u32::MAX + 1,
            out@ =~= cpus_with_sockets(cpus@.take(i as int)),
        decreases cpus@.len() - i,
    {
        if i > u32::MAX as usize {
            return Err(RaplError::InvalidCpuList);
        }
        out.push(CpuId { cpu: cpus[i], socket: i as u32 });
        i += 1;
    }
    assert(cpus@.take(i as int) =~= cpus@);
    Ok(out)
}

/// Checks that no two of the given CPUs belong to the same socket; otherwise
/// names the first socket that repeats.
pub fn check_socket_cpus(cpus: &[CpuId]) -> (r: Result<(), RaplError>)
    ensures
        r is Ok <==> sockets_unique(cpus@),
        r matches Err(e) ==> exists|j: int|
            first_socket_conflict(cpus@, j) && e == (RaplError::SocketConflict {
                socket: cpus@[j].socket,
            }),
{
    let mut seen: std::collections::HashSet<u32> = std::collections::HashSet::new();
    let mut i: usize = 0;
    while i < cpus.len()
        invariant
            i <= cpus@.len(),
            sockets_unique(cpus@.take(i as int)),
            forall|s: u32| #[trigger]
                seen@.contains(s) <==> exists|j: int| 0 <= j < i && cpus@[j].socket == s,
        decreases cpus@.len() - i,
    {
        let s = cpus[i].socket;
        let ghost before = seen@;
        if !seen.insert(s) {
            assert(first_socket_conflict(cpus@, i as int));
            proof {
                assert(!sockets_unique(cpus@)) by {
                    let j = choose|j: int| 0 <= j < i && cpus@[j].socket == s;
                    assert(cpus@[j].socket == cpus@[i as int].socket);
                }
            }
            return Err(RaplError::SocketConflict { socket: s });
        }
        assert forall|a: int, b: int| 0 <= a < b < i + 1 implies (#[trigger] cpus@[a]).socket
            != (#[trigger] cpus@[b]).socket by {
            if b < i {
                assert(cpus@.take(i as int)[a] == cpus@[a]);
                assert(cpus@.take(i as int)[b] == cpus@[b]);
            } else {
                assert(!before.contains(s));
            }
        }
        assert(sockets_unique(cpus@.take(i + 1)));
        i += 1;
    }
    assert(cpus@.take(i as int) =~= cpus@);
    Ok(())
}

/// Deriving sockets from a CPU list keeps the CPUs in list order and numbers the
/// sockets 0, 1, 2, ... in that order, so no two entries share a socket.
pub proof fn lemma_sockets_follow_list_order(cpus: Seq<u32>)
    requires
        cpus.len() <= u32::MAX + 1,
    ensures
        cpus_with_sockets(cpus).len() == cpus.len(),
        forall|i: int|
            0 <= i < cpus.len() ==> (#[trigger] cpus_with_sockets(cpus)[i]).cpu == cpus[i]
                && cpus_with_sockets(cpus)[i].socket == i,
        forall|i: int, j: int|
            0 <= i < j < cpus.len() ==> (#[trigger] cpus_with_sockets(cpus)[i]).socket
                < (#[trigger] cpus_with_sockets(cpus)[j]).socket,
        sockets_unique(cpus_with_sockets(cpus)),
{
}

} // verus!
