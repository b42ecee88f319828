use vstd::prelude::*;
use vstd::arithmetic::power2::pow2;
use vstd::bits::lemma_u128_shr_is_div;

verus! {

/// An IPv4 or IPv6 prefix: an address and the number of leading bits that count.
/// An IPv4 address is held in the low 32 bits of `addr`.
#[derive(Clone, Copy, Debug, PartialEq, Eq, Structural)]
pub struct IpPrefix {
    pub v6: bool,
    pub addr: u128,
    pub len: u8,
}

/// Number of bits in an address of the family.
pub open spec fn width(v6: bool) -> nat {
    if v6 { 128 } else { 32 }
}

/// The first `len` bits of `addr`, an address `w` bits wide.
pub open spec fn network(addr: u128, w: nat, len: nat) -> int {
    if len == 0 { 0 } else { addr as int / pow2((w - len) as nat) as int }
}

impl IpPrefix {
    pub open spec fn wf(&self) -> bool {
        &&& self.len as nat <= width(self.v6)
        &&& !self.v6 ==> self.addr < 0x1_0000_0000
    }

    /// The addresses of `other` all lie in the addresses of `self`.
    pub open spec fn covers(&self, other: IpPrefix) -> bool {
        &&& self.v6 == other.v6
        &&& self.len as nat <= width(self.v6)
        &&& self.len <= other.len
        &&& network(other.addr, width(self.v6), self.len as nat) == network(
            self.addr,
            width(self.v6),
            self.len as nat,
        )
    }

    /// The IPv4 prefix `a.b.c.d/len`.
    pub fn v4(a: u8, b: u8, c: u8, d: u8, len: u8) -> (r: Option<IpPrefix>)
        ensures
            len <= 32 <==> r is Some,
            r matches Some(p) ==> p.wf() && !p.v6 && p.len == len && p.addr == a as int * 0x100_0000
                + b as int * 0x1_0000 + c as int * 0x100 + d as int,
    {
        if len > 32 {
            return None;
        }
        let addr: u128 = (a as u128) * 0x100_0000 + (b as u128) * 0x1_0000 + (c as u128) * 0x100
            + (d as u128);
        Some(IpPrefix { v6: false, addr, len })
    }

    /// The IPv6 prefix of address `addr` and length `len`.
    pub fn v6(addr: u128, len: u8) -> (r: Option<IpPrefix>)
        ensures
            len <= 128 <==> r is Some,
            r matches Some(p) ==> p.wf() && p.v6 && p.len == len && p.addr == addr,
    {
        if len > 128 {
            return None;
        }
        Some(IpPrefix { v6: true, addr, len })
    }

    /// Whether every address of `other` lies in `self`.
    pub fn contains(&self, other: &IpPrefix) -> (r: bool)
        ensures
            r == self.covers(*other),
    {
        if self.v6 != other.v6 || self.len > other.len {
            return false;
        }
        let w: u8 = if self.v6 { 128 } else { 32 };
        if self.len > w {
            return false;
        }
        if self.len == 0 {
            return true;
        }
        let shift: u128 = (w - self.len) as u128;
        proof {
            lemma_u128_shr_is_div(other.addr, shift);
            lemma_u128_shr_is_div(self.addr, shift);
        }
        (other.addr >> shift) == (self.addr >> shift)
    }
}

/// The more-specifics operator written after a prefix in a prefix range.
#[derive(Clone, Copy, Debug, PartialEq, Eq, Structural)]
pub enum RangeOperator {
    /// The prefix itself.
    NoOp,
    /// `^-`: its more specifics, without the prefix itself.
    Minus,
    /// `^+`: its more specifics, the prefix included.
    Plus,
    /// `^n`: its more specifics of length `n`.
    Num(u8),
    /// `^m-n`: its more specifics of a length from `m` to `n`.
    Range(u8, u8),
}

/// Whether a prefix of length `len` is admitted by `op` applied to a prefix of
/// length `plen` in a family `w` bits wide.
pub open spec fn length_admitted(op: RangeOperator, plen: nat, len: nat, w: nat) -> bool {
    match op {
        RangeOperator::NoOp => len == plen,
        RangeOperator::Minus => plen < len <= w,
        RangeOperator::Plus => plen <= len <= w,
        RangeOperator::Num(n) => len == n && plen <= len <= w,
        RangeOperator::Range(m, n) => m <= len <= n && plen <= len <= w,
    }
}

/// An address prefix range, as in `192.0.2.0/24^24-26`.
#[derive(Clone, Copy, Debug, PartialEq, Eq, Structural)]
pub struct AddrPfxRange {
    pub address_prefix: IpPrefix,
    pub range_operator: RangeOperator,
}

impl AddrPfxRange {
    pub open spec fn wf(&self) -> bool {
        self.address_prefix.wf()
    }

    /// Whether `p` is one of the prefixes that the range stands for.
    pub open spec fn admits(&self, p: IpPrefix) -> bool {
        &&& self.address_prefix.covers(p)
        &&& length_admitted(
            self.range_operator,
            self.address_prefix.len as nat,
            p.len as nat,
            width(p.v6),
        )
    }

    /// Prefix membership: `p` is in the range exactly when its network lies in
    /// the range's prefix and its length is one the range operator admits.
    pub fn contains(&self, p: &IpPrefix) -> (r: bool)
        ensures
            r == self.admits(*p),
    {
        if !self.address_prefix.contains(p) {
            return false;
        }
        let plen = self.address_prefix.len;
        let len = p.len;
        let w: u8 = if p.v6 { 128 } else { 32 };
        match self.range_operator {
            RangeOperator::NoOp => len == plen,
            RangeOperator::Minus => plen < len && len <= w,
            RangeOperator::Plus => plen <= len && len <= w,
            RangeOperator::Num(n) => len == n && plen <= len && len <= w,
            RangeOperator::Range(m, n) => m <= len && len <= n && plen <= len && len <= w,
        }
    }
}

/// Whether some range of `ranges` admits `p`.
pub fn match_ips(p: &IpPrefix, ranges: &Vec<AddrPfxRange>) -> (r: bool)
    ensures
        r == exists|i: int| 0 <= i < ranges@.len() && (#[trigger] ranges@[i]).admits(*p),
{
    let mut i: usize = 0;
    while i < ranges.len()
        invariant
            i <= ranges@.len(),
            forall|j: int| 0 <= j < i ==> !(#[trigger] ranges@[j]).admits(*p),
        decreases ranges@.len() - i,
    {
        if ranges[i].contains(p) {
            return true;
        }
        i = i + 1;
    }
    false
}

/// The multicast block of IPv4, `224.0.0.0/4`.
pub open spec fn multicast_v4() -> IpPrefix {
    IpPrefix { v6: false, addr: 0xe000_0000, len: 4 }
}

/// The multicast block of IPv6, `ff00::/8`.
pub open spec fn multicast_v6() -> IpPrefix {
    IpPrefix { v6: true, addr: 0xff00_0000_0000_0000_0000_0000_0000_0000, len: 8 }
}

/// `p` lies in the multicast block of its family.
pub open spec fn multicast_spec(p: IpPrefix) -> bool {
    if p.v6 { multicast_v6().covers(p) } else { multicast_v4().covers(p) }
}

/// Whether `p` lies in the multicast block of its family.
pub fn is_multicast(p: &IpPrefix) -> (r: bool)
    ensures
        r == multicast_spec(*p),
{
    let block = if p.v6 {
        IpPrefix { v6: true, addr: 0xff00_0000_0000_0000_0000_0000_0000_0000, len: 8 }
    } else {
        IpPrefix { v6: false, addr: 0xe000_0000, len: 4 }
    };
    block.contains(p)
}

} // verus!
