//! Byte-level text helpers for the small sysfs formats: trimming, splitting
//! and unsigned integers in base 10 or 16.
use vstd::prelude::*;
use vstd::string::StringSliceAdditionalSpecFns;

verus! {

/// ASCII whitespace, as trimmed from the end of sysfs files.
pub open spec fn is_space(b: u8) -> bool {
    b == 0x20u8 || b == 0x09u8 || b == 0x0au8 || b == 0x0bu8 || b == 0x0cu8 || b == 0x0du8
}

/// `s` without its trailing whitespace.
pub open spec fn trim_end(s: Seq<u8>) -> Seq<u8>
    decreases s.len(),
{
    if s.len() > 0 && is_space(s.last()) {
        trim_end(s.drop_last())
    } else {
        s
    }
}

/// The fields of `s` between occurrences of `sep`; there is always at least one.
pub open spec fn split(s: Seq<u8>, sep: u8) -> Seq<Seq<u8>>
    decreases s.len(),
{
    if s.len() == 0 {
        seq![Seq::empty()]
    } else {
        let p = split(s.drop_last(), sep);
        if s.last() == sep {
            p.push(Seq::empty())
        } else {
            p.update(p.len() - 1, p.last().push(s.last()))
        }
    }
}

/// The value of a digit in base `radix` (10 or 16, either letter case), if it is one.
pub open spec fn digit_value(b: u8, radix: u32) -> Option<int> {
    if 0x30u8 <= b <= 0x39u8 {
        Some(b - 0x30u8)
    } else if radix == 16 && 0x61u8 <= b <= 0x66u8 {
        Some(b - 0x61u8 + 10)
    } else if radix == 16 && 0x41u8 <= b <= 0x46u8 {
        Some(b - 0x41u8 + 10)
    } else {
        None
    }
}

pub open spec fn all_digits(s: Seq<u8>, radix: u32) -> bool {
    forall|i: int| 0 <= i < s.len() ==> (#[trigger] digit_value(s[i], radix)) is Some
}

/// The number that the digits `s` spell in base `radix`.
pub open spec fn digits_value(s: Seq<u8>, radix: u32) -> int
    decreases s.len(),
{
    if s.len() == 0 {
        0
    } else {
        digits_value(s.drop_last(), radix) * radix + match digit_value(s.last(), radix) {
            Some(v) => v,
            None => 0,
        }
    }
}

/// An unsigned integer in base `radix` with an optional leading `+`, no larger
/// than `max`: the grammar of Rust's `from_str_radix` for unsigned types.
pub open spec fn parse_unsigned(s: Seq<u8>, radix: u32, max: int) -> Option<int> {
    let d = if s.len() > 0 && s[0] == 0x2bu8 {
        s.skip(1)
    } else {
        s
    };
    if d.len() > 0 && all_digits(d, radix) && digits_value(d, radix) <= max {
        Some(digits_value(d, radix))
    } else {
        None
    }
}

proof fn lemma_split_nonempty(s: Seq<u8>, sep: u8)
    ensures
        split(s, sep).len() >= 1,
    decreases s.len(),
{
    if s.len() > 0 {
        lemma_split_nonempty(s.drop_last(), sep);
    }
}

proof fn lemma_digits_value_nonneg(s: Seq<u8>, radix: u32)
    requires
        radix == 10 || radix == 16,
    ensures
        digits_value(s, radix) >= 0,
    decreases s.len(),
{
    if s.len() > 0 {
        lemma_digits_value_nonneg(s.drop_last(), radix);
        assert(digits_value(s.drop_last(), radix) * radix >= 0) by (nonlinear_arith)
            requires
                digits_value(s.drop_last(), radix) >= 0,
                radix >= 0,
        ;
    }
}

/// A longer run of digits spells a number at least as large.
proof fn lemma_digits_value_grows(s: Seq<u8>, k: int, radix: u32)
    requires
        radix == 10 || radix == 16,
        0 <= k <= s.len(),
        all_digits(s, radix),
    ensures
        digits_value(s.take(k), radix) <= digits_value(s, radix),
    decreases s.len() - k,
{
    if k < s.len() {
        lemma_digits_value_grows(s, k + 1, radix);
        let t = s.take(k + 1);
        assert(t.drop_last() =~= s.take(k));
        lemma_digits_value_nonneg(s.take(k), radix);
        assert(digit_value(t.last(), radix) is Some);
        let v = digits_value(s.take(k), radix);
        assert(v * radix >= v) by (nonlinear_arith)
            requires
                v >= 0,
                radix >= 1,
        ;
    } else {
        assert(s.take(k) =~= s);
    }
}

/// Compares two strings for equality.
pub fn str_eq(a: &str, b: &str) -> (r: bool)
    ensures
        r == (a@ == b@),
{
    let ab = a.as_bytes();
    let bb = b.as_bytes();
    if ab.len() != bb.len() {
        proof {
            if a@ == b@ {
                assert(a.spec_bytes() == b.spec_bytes());
            }
        }
        return false;
    }
    let mut i: usize = 0;
    while i < ab.len()
        invariant
            ab@ == a.spec_bytes(),
            bb@ == b.spec_bytes(),
            ab@.len() == bb@.len(),
            i <= ab@.len(),
            forall|j: int| 0 <= j < i ==> ab@[j] == bb@[j],
        decreases ab@.len() - i,
    {
        if ab[i] != bb[i] {
            proof {
                if a@ == b@ {
                    assert(a.spec_bytes() == b.spec_bytes());
                }
            }
            return false;
        }
        i += 1;
    }
    proof {
        assert(a.spec_bytes() =~= b.spec_bytes());
        vstd::utf8::encode_utf8_decode_utf8(a@);
        vstd::utf8::encode_utf8_decode_utf8(b@);
    }
    true
}

/// The length of `s` once trailing whitespace is removed.
pub fn trim_end_len(s: &[u8]) -> (r: usize)
    ensures
        r <= s@.len(),
        s@.take(r as int) == trim_end(s@),
{
    let mut i: usize = s.len();
    assert(s@.take(i as int) =~= s@);
    while i > 0 && (s[i - 1] == 0x20u8 || s[i - 1] == 0x09u8 || s[i - 1] == 0x0au8 || s[i - 1]
        == 0x0bu8 || s[i - 1] == 0x0cu8 || s[i - 1] == 0x0du8)
        invariant
            i <= s@.len(),
            trim_end(s@.take(i as int)) == trim_end(s@),
        decreases i,
    {
        assert(s@.take(i as int).drop_last() =~= s@.take(i - 1));
        i -= 1;
    }
    i
}

/// The fields of `s` between occurrences of `sep`.
pub fn split_bytes(s: &[u8], sep: u8) -> (r: Vec<Vec<u8>>)
    ensures
        r@.map_values(|f: Vec<u8>| f@) == split(s@, sep),
{
    let mut done: Vec<Vec<u8>> = Vec::new();
    let mut current: Vec<u8> = Vec::new();
    let mut i: usize = 0;
    assert(s@.take(0) =~= Seq::<u8>::empty());
    assert(done@.map_values(|f: Vec<u8>| f@).push(current@) =~= split(s@.take(0), sep));
    while i < s.len()
        invariant
            i <= s@.len(),
            done@.map_values(|f: Vec<u8>| f@).push(current@) == split(s@.take(i as int), sep),
        decreases s@.len() - i,
    {
        let ghost before = split(s@.take(i as int), sep);
        assert(s@.take(i + 1).drop_last() =~= s@.take(i as int));
        proof {
            lemma_split_nonempty(s@.take(i as int), sep);
        }
        if s[i] == sep {
            let finished = current;
            current = Vec::new();
            done.push(finished);
            assert(done@.map_values(|f: Vec<u8>| f@).push(current@) =~= before.push(
                Seq::empty(),
            ));
        } else {
            current.push(s[i]);
            assert(done@.map_values(|f: Vec<u8>| f@).push(current@) =~= before.update(
                before.len() - 1,
                before.last().push(s@[i as int]),
            ));
        }
        i += 1;
    }
    assert(s@.take(i as int) =~= s@);
    done.push(current);
    assert(done@.map_values(|f: Vec<u8>| f@) =~= split(s@, sep));
    done
}

/// Parses an unsigned integer in base `radix` (10 or 16), no larger than `max`.
pub fn parse_unsigned_bytes(s: &[u8], radix: u32, max: u64) -> (r: Option<u64>)
    requires
        radix == 10 || radix == 16,
    ensures
        r matches Some(v) ==> parse_unsigned(s@, radix, max as int) == Some(v as int),
        r is None ==> parse_unsigned(s@, radix, max as int) is None,
{
    let start: usize = if s.len() > 0 && s[0] == 0x2bu8 {
        1
    } else {
        0
    };
    let ghost d = if s@.len() > 0 && s@[0] == 0x2bu8 {
        s@.skip(1)
    } else {
        s@
    };
    assert(d =~= s@.skip(start as int));
    if start >= s.len() {
        return None;
    }
    let mut acc: u64 = 0;
    let mut i: usize = start;
    assert(d.take(0) =~= Seq::<u8>::empty());
    while i < s.len()
        invariant
            radix == 10 || radix == 16,
            d == s@.skip(start as int),
            d == (if s@.len() > 0 && s@[0] == 0x2bu8 {
                s@.skip(1)
            } else {
                s@
            }),
            start <= i <= s@.len(),
            acc as int == digits_value(d.take(i - start), radix),
            acc <= max,
            all_digits(d.take(i - start), radix),
        decreases s@.len() - i,
    {
        let b = s[i];
        let dv: u64 = if 0x30u8 <= b && b <= 0x39u8 {
            (b - 0x30u8) as u64
        } else if radix == 16 && 0x61u8 <= b && b <= 0x66u8 {
            (b - 0x61u8 + 10) as u64
        } else if radix == 16 && 0x41u8 <= b && b <= 0x46u8 {
            (b - 0x41u8 + 10) as u64
        } else {
            assert(d[i - start] == b);
            assert(digit_value(d[i - start], radix) is None);
            assert(!all_digits(d, radix));
            return None;
        };
        let ghost t = d.take(i - start + 1);
        assert(t.drop_last() =~= d.take(i - start));
        assert(t.last() == b);
        assert(all_digits(t, radix)) by {
            assert forall|j: int| 0 <= j < t.len() implies (#[trigger] digit_value(t[j], radix)) is Some by {
                if j < t.len() - 1 {
                    assert(t[j] == d.take(i - start)[j]);
                }
            }
        }
        let next = acc.checked_mul(radix as u64);
        let next = match next {
            Some(m) => m.checked_add(dv),
            None => None,
        };
        match next {
            Some(v) if v <= max => {
                acc = v;
            },
            _ => {
                assert(digits_value(t, radix) == acc * radix + dv);
                assert(digits_value(t, radix) > max);
                proof {
                    if all_digits(d, radix) {
                        lemma_digits_value_grows(d, i - start + 1, radix);
                    }
                }
                return None;
            },
        }
        i += 1;
    }
    assert(d.take(i - start) =~= d);
    Some(acc)
}

} // verus!
