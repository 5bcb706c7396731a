use vstd::prelude::*;

use crate::text::str_eq;

verus! {

/// A known RAPL domain.
#[derive(Clone, Copy, Debug, PartialEq, Eq, Structural)]
pub enum RaplDomainType {
    /// entire socket
    Package,
    /// power plane 0: core
    PP0,
    /// power plane 1: uncore
    PP1,
    /// DRAM
    Dram,
    /// psys (only available on recent client platforms like laptops)
    Platform,
}

/// The display name of a domain, which is also the key of the name-based ordering.
pub open spec fn domain_name(d: RaplDomainType) -> Seq<char> {
    match d {
        RaplDomainType::Package => "Package"@,
        RaplDomainType::PP0 => "PP0"@,
        RaplDomainType::PP1 => "PP1"@,
        RaplDomainType::Dram => "Dram"@,
        RaplDomainType::Platform => "Platform"@,
    }
}

/// The domain that a user-facing name designates, if any.
pub open spec fn domain_of_name(s: Seq<char>) -> Option<RaplDomainType> {
    if s == "package"@ || s == "pkg"@ {
        Some(RaplDomainType::Package)
    } else if s == "pp0"@ || s == "core"@ {
        Some(RaplDomainType::PP0)
    } else if s == "pp1"@ || s == "uncore"@ {
        Some(RaplDomainType::PP1)
    } else if s == "dram"@ || s == "ram"@ {
        Some(RaplDomainType::Dram)
    } else if s == "platform"@ || s == "psys"@ {
        Some(RaplDomainType::Platform)
    } else {
        None
    }
}

/// All domains, in declaration order.
pub open spec fn all_domains_seq() -> Seq<RaplDomainType> {
    seq![
        RaplDomainType::Package,
        RaplDomainType::PP0,
        RaplDomainType::PP1,
        RaplDomainType::Dram,
        RaplDomainType::Platform,
    ]
}

/// All domains, in the order of their energy-status register addresses.
pub open spec fn domains_in_addr_order() -> Seq<RaplDomainType> {
    seq![
        RaplDomainType::Package,
        RaplDomainType::Dram,
        RaplDomainType::PP0,
        RaplDomainType::PP1,
        RaplDomainType::Platform,
    ]
}

/// All domains, in name order: "Dram" < "PP0" < "PP1" < "Package" < "Platform".
pub open spec fn domains_in_name_order() -> Seq<RaplDomainType> {
    seq![
        RaplDomainType::Dram,
        RaplDomainType::PP0,
        RaplDomainType::PP1,
        RaplDomainType::Package,
        RaplDomainType::Platform,
    ]
}

impl RaplDomainType {
    /// All domains, in declaration order.
    pub fn all() -> (r: Vec<RaplDomainType>)
        ensures
            r@ == all_domains_seq(),
    {
        vec![
            RaplDomainType::Package,
            RaplDomainType::PP0,
            RaplDomainType::PP1,
            RaplDomainType::Dram,
            RaplDomainType::Platform,
        ]
    }

    /// All domains, in the order of their energy-status register addresses.
    /// Backends whose domain indices are positional use this order.
    pub fn all_in_addr_order() -> (r: Vec<RaplDomainType>)
        ensures
            r@ == domains_in_addr_order(),
    {
        vec![
            RaplDomainType::Package,
            RaplDomainType::Dram,
            RaplDomainType::PP0,
            RaplDomainType::PP1,
            RaplDomainType::Platform,
        ]
    }

    /// The display name of the domain.
    pub fn name(&self) -> (r: &'static str)
        ensures
            r@ == domain_name(*self),
    {
        match self {
            RaplDomainType::Package => "Package",
            RaplDomainType::PP0 => "PP0",
            RaplDomainType::PP1 => "PP1",
            RaplDomainType::Dram => "Dram",
            RaplDomainType::Platform => "Platform",
        }
    }

    /// Same as [`RaplDomainType::name`], as an owned string.
    pub fn to_string(&self) -> (r: String)
        ensures
            r@ == domain_name(*self),
    {
        self.name().to_owned()
    }

    /// Parses a user-facing domain name (`pkg`, `core`, `ram`, ...).
    /// The error holds the rejected text.
    pub fn parse(s: &str) -> (r: Result<RaplDomainType, String>)
        ensures
            r matches Ok(d) ==> domain_of_name(s@) == Some(d),
            r matches Err(e) ==> domain_of_name(s@) is None && e@ == s@,
            domain_of_name(s@) is Some ==> r is Ok,
    {
        if str_eq(s, "package") || str_eq(s, "pkg") {
            Ok(RaplDomainType::Package)
        } else if str_eq(s, "pp0") || str_eq(s, "core") {
            Ok(RaplDomainType::PP0)
        } else if str_eq(s, "pp1") || str_eq(s, "uncore") {
            Ok(RaplDomainType::PP1)
        } else if str_eq(s, "dram") || str_eq(s, "ram") {
            Ok(RaplDomainType::Dram)
        } else if str_eq(s, "platform") || str_eq(s, "psys") {
            Ok(RaplDomainType::Platform)
        } else {
            Err(s.to_owned())
        }
    }
}

impl std::str::FromStr for RaplDomainType {
    type Err = String;

    fn from_str(s: &str) -> Result<Self, Self::Err> {
        RaplDomainType::parse(s)
    }
}

/// The domains of `ds`, each once, in name order.
pub open spec fn distinct_in_name_order(ds: Seq<RaplDomainType>, k: int) -> Seq<RaplDomainType>
    decreases k,
{
    if k <= 0 {
        Seq::empty()
    } else {
        let p = distinct_in_name_order(ds, k - 1);
        let d = domains_in_name_order()[k - 1];
        if ds.contains(d) {
            p.push(d)
        } else {
            p
        }
    }
}

/// The names of `ds` joined with `sep`.
pub open spec fn joined_names(ds: Seq<RaplDomainType>, sep: Seq<char>) -> Seq<char>
    decreases ds.len(),
{
    if ds.len() == 0 {
        Seq::empty()
    } else if ds.len() == 1 {
        domain_name(ds[0])
    } else {
        joined_names(ds.drop_last(), sep) + sep + domain_name(ds.last())
    }
}

/// Whether `d` occurs in `ds`.
pub fn contains_domain(ds: &[RaplDomainType], d: RaplDomainType) -> (r: bool)
    ensures
        r == ds@.contains(d),
{
    let mut i: usize = 0;
    while i < ds.len()
        invariant
            i <= ds@.len(),
            forall|k: int| 0 <= k < i ==> ds@[k] != d,
        decreases ds@.len() - i,
    {
        if ds[i] == d {
            return true;
        }
        i += 1;
    }
    false
}

/// The domains of `ds`, each once, sorted by name.
pub fn distinct_domains(ds: &[RaplDomainType]) -> (r: Vec<RaplDomainType>)
    ensures
        r@ == distinct_in_name_order(ds@, 5),
{
    let order: [RaplDomainType; 5] = [
        RaplDomainType::Dram,
        RaplDomainType::PP0,
        RaplDomainType::PP1,
        RaplDomainType::Package,
        RaplDomainType::Platform,
    ];
    assert(order@ =~= domains_in_name_order());
    let mut r: Vec<RaplDomainType> = Vec::new();
    let mut k: usize = 0;
    while k < 5
        invariant
            k <= 5,
            order@ == domains_in_name_order(),
            r@ == distinct_in_name_order(ds@, k as int),
        decreases 5 - k,
    {
        let d = order[k];
        if contains_domain(ds, d) {
            r.push(d);
        }
        k += 1;
    }
    r
}

/// Whether two lists of domains are equal.
pub fn same_domains(a: &[RaplDomainType], b: &[RaplDomainType]) -> (r: bool)
    ensures
        r == (a@ == b@),
{
    if a.len() != b.len() {
        return false;
    }
    let mut i: usize = 0;
    while i < a.len()
        invariant
            a@.len() == b@.len(),
            i <= a@.len(),
            forall|k: int| 0 <= k < i ==> a@[k] == b@[k],
        decreases a@.len() - i,
    {
        if a[i] != b[i] {
            return false;
        }
        i += 1;
    }
    assert(a@ =~= b@);
    true
}

/// Converts domains to their names and joins them with `sep`.
pub fn mkstring(elems: &[RaplDomainType], sep: &str) -> (r: String)
    ensures
        r@ == joined_names(elems@, sep@),
{
    let mut r = String::new();
    let mut i: usize = 0;
    while i < elems.len()
        invariant
            i <= elems@.len(),
            r@ == joined_names(elems@.take(i as int), sep@),
        decreases elems@.len() - i,
    {
        assert(elems@.take(i + 1).drop_last() =~= elems@.take(i as int));
        if i > 0 {
            r = r.concat(sep);
        }
        r = r.concat(elems[i].name());
        proof {
            if i == 0 {
                assert(elems@.take(1) =~= seq![elems@[0]]);
                assert(r@ =~= joined_names(elems@.take(1), sep@));
            }
        }
        i += 1;
    }
    assert(elems@.take(i as int) =~= elems@);
    r
}

} // verus!
