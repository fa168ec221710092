//! Host specifications: an address or host name, optionally followed by a
//! CIDR suffix that widens it to every address of its subnet.

use vstd::prelude::*;
use vstd::arithmetic::power2::{pow2, lemma_pow2_adds, lemma_pow2_strictly_increases, lemma2_to64, lemma2_to64_rest, lemma_pow2_pos};
use vstd::arithmetic::div_mod::{lemma_fundamental_div_mod, lemma_mod_pos_bound};
use crate::error::ScanError;
use crate::text::{decimal, decimal_string, parse_u8, parse_u8_spec, push_decimal};

verus! {

/// A numeric IP address.
#[derive(Clone, Copy, Debug, PartialEq, Eq)]
pub enum IpValue {
    V4(u32),
    V6(u128),
}

/// The number of bits of an address of the family of `ip`.
pub open spec fn family_bits(ip: IpValue) -> nat {
    match ip {
        IpValue::V4(_) => 32,
        IpValue::V6(_) => 128,
    }
}

/// An address as an unsigned integer, most significant bits first.
pub open spec fn ip_number(ip: IpValue) -> nat {
    match ip {
        IpValue::V4(n) => n as nat,
        IpValue::V6(n) => n as nat,
    }
}

/// A host specification split at its first `/`.
#[derive(Clone, Debug, PartialEq, Eq)]
pub struct HostSpec {
    /// The part before the `/`, or the whole token where there is none.
    pub address: String,
    /// The prefix length after the `/`, if there is one.
    pub subnet: Option<u8>,
}

/// `k` is the position of the first `/` of `s`.
pub open spec fn is_first_slash(s: Seq<char>, k: int) -> bool {
    &&& 0 <= k < s.len()
    &&& s[k] == '/'
    &&& forall|j: int| 0 <= j < k ==> s[j] != '/'
}

pub open spec fn has_slash(s: Seq<char>) -> bool {
    exists|i: int| 0 <= i < s.len() && s[i] == '/'
}

/// What parsing a host specification `s` whose first `/` is at `k` gives:
/// the suffix must be a nonzero 8-bit decimal, and the address before it
/// must not be empty.
pub open spec fn parsed_with_suffix(r: Result<HostSpec, ScanError>, s: Seq<char>, k: int) -> bool {
    let a = s.take(k);
    let m = s.skip(k + 1);
    match parse_u8_spec(m) {
        Some(0) => r matches Err(ScanError::ZeroSubnetMask),
        Some(v) => if a.len() == 0 {
            r matches Err(ScanError::InvalidAddress(t, d)) && t@ == a && d@.len() == 0
        } else {
            r matches Ok(h) && h.address@ == a && h.subnet == Some(v)
        },
        _ => r matches Err(ScanError::InvalidSubnetMask(t)) && t@ == m,
    }
}

/// Splits a host specification at its first `/` and reads the prefix
/// length after it. Without a `/`, the token is taken as it is.
pub fn parse_host_spec(spec: &str) -> (r: Result<HostSpec, ScanError>)
    ensures
        !has_slash(spec@) && spec@.len() > 0 ==> (r matches Ok(h) && h.address@ == spec@
            && h.subnet is None),
        !has_slash(spec@) && spec@.len() == 0 ==> (r matches Err(ScanError::InvalidAddress(t, d))
            && t@.len() == 0 && d@.len() == 0),
        forall|k: int| #[trigger] is_first_slash(spec@, k) ==> parsed_with_suffix(r, spec@, k),
{
    let len = spec.unicode_len();
    let mut i: usize = 0;
    while i < len && spec.get_char(i) != '/'
        invariant
            i <= len,
            len == spec@.len(),
            forall|j: int| 0 <= j < i ==> spec@[j] != '/',
        decreases len - i,
    {
        i = i + 1;
    }
    if i == len {
        if len == 0 {
            return Err(ScanError::InvalidAddress(String::new(), String::new()));
        }
        return Ok(HostSpec { address: String::from_str(spec), subnet: None });
    }
    let ghost k = i as int;
    proof {
        assert(is_first_slash(spec@, k));
        assert forall|k2: int| is_first_slash(spec@, k2) implies k2 == k by {
            if k2 < k {
                assert(spec@[k2] != '/');
            } else if k2 > k {
                assert(spec@[k] != '/');
            }
        }
    }
    let address = spec.substring_char(0, i);
    let suffix = spec.substring_char(i + 1, len);
    proof {
        assert(address@ =~= spec@.take(k));
        assert(suffix@ =~= spec@.skip(k + 1));
    }
    match parse_u8(suffix) {
        Some(0) => Err(ScanError::ZeroSubnetMask),
        Some(v) => {
            if i == 0 {
                proof {
                    assert(spec@.take(k) =~= Seq::<char>::empty());
                }
                Err(ScanError::InvalidAddress(String::new(), String::new()))
            } else {
                Ok(HostSpec { address: String::from_str(address), subnet: Some(v) })
            }
        },
        _ => Err(ScanError::InvalidSubnetMask(String::from_str(suffix))),
    }
}

/// Every address of a subnet: `size` addresses from `network` on.
#[derive(Clone, Copy, Debug, PartialEq, Eq)]
pub struct AddressBlock {
    pub v6: bool,
    /// The subnet's first address, as an integer.
    pub network: u128,
    /// How many addresses the subnet holds.
    pub size: u128,
}

impl AddressBlock {
    /// The number of bits of an address of the block's family.
    pub open spec fn bits(&self) -> nat {
        if self.v6 {
            128
        } else {
            32
        }
    }

    /// The block is non-empty and lies within its family's address space.
    pub open spec fn wf(&self) -> bool {
        &&& self.size > 0
        &&& self.network + self.size <= pow2(self.bits())
    }

    /// The `i`-th address of the block, counting from the network address.
    pub fn address_at(&self, i: u128) -> (r: IpValue)
        requires
            self.wf(),
            i < self.size,
        ensures
            r is V6 <==> self.v6,
            ip_number(r) == self.network + i,
    {
        if self.v6 {
            proof {
                lemma_pow2_128();
            }
            IpValue::V6(self.network + i)
        } else {
            proof {
                lemma2_to64();
            }
            IpValue::V4((self.network + i) as u32)
        }
    }
}

proof fn lemma_pow2_128()
    ensures
        pow2(127) == 0x8000_0000_0000_0000_0000_0000_0000_0000,
        pow2(128) == 0x1_0000_0000_0000_0000_0000_0000_0000_0000,
{
    lemma2_to64();
    lemma2_to64_rest();
    lemma_pow2_adds(64, 63);
    lemma_pow2_adds(64, 64);
}

/// `2^k`, for `k < 128`.
fn power_of_two(k: u8) -> (r: u128)
    requires
        k < 128,
    ensures
        r == pow2(k as nat),
{
    let mut r: u128 = 1;
    let mut i: u8 = 0;
    proof {
        lemma2_to64();
    }
    while i < k
        invariant
            i <= k < 128,
            r == pow2(i as nat),
        decreases k - i,
    {
        proof {
            lemma_pow2_128();
            if i + 1 < 127 {
                lemma_pow2_strictly_increases((i + 1) as nat, 127);
            }
            lemma_pow2_adds(i as nat, 1);
            lemma2_to64();
        }
        r = r * 2;
        i = i + 1;
    }
    r
}

/// The block of addresses that `ip` with a prefix of `subnet` bits spans:
/// its size is `2^(bits - subnet)`, its first address is `ip` with the host
/// bits cleared. A prefix of 0, or longer than the family's width, is
/// refused.
pub fn subnet_block(ip: IpValue, subnet: u8) -> (r: Result<AddressBlock, ScanError>)
    ensures
        r is Ok <==> 1 <= subnet <= family_bits(ip),
        r matches Ok(b) ==> {
            &&& b.wf()
            &&& b.v6 <==> ip is V6
            &&& b.size == pow2((family_bits(ip) - subnet) as nat)
            &&& b.network == ip_number(ip) - ip_number(ip) % (b.size as nat)
        },
        subnet == family_bits(ip) ==> (r matches Ok(b) && b.size == 1),
        subnet == 0 ==> r matches Err(ScanError::ZeroSubnetMask),
        subnet > family_bits(ip) ==> (r matches Err(ScanError::InvalidSubnetMask(t)) && t@ == decimal(
            subnet as nat,
        )),
{
    let (v6, bits, number): (bool, u8, u128) = match ip {
        IpValue::V4(n) => (false, 32, n as u128),
        IpValue::V6(n) => (true, 128, n),
    };
    if subnet == 0 {
        return Err(ScanError::ZeroSubnetMask);
    }
    if subnet > bits {
        return Err(ScanError::InvalidSubnetMask(decimal_string(subnet as u64)));
    }
    let host_bits: u8 = bits - subnet;
    let size = power_of_two(host_bits);
    proof {
        lemma_pow2_pos(host_bits as nat);
        lemma2_to64();
        lemma_pow2_128();
        lemma_pow2_adds(host_bits as nat, subnet as nat);
        lemma_pow2_pos(subnet as nat);
        let ps = pow2(subnet as nat) as int;
        let sz = size as int;
        let q = (number as int) / sz;
        lemma_fundamental_div_mod(number as int, sz);
        lemma_mod_pos_bound(number as int, sz);
        assert(q * sz == sz * q);
        assert(pow2(bits as nat) == sz * ps);
        assert((number as int) < pow2(bits as nat));
        assert((number as int) < ps * sz);
        assert(q >= 0) by (nonlinear_arith)
            requires number >= 0, sz > 0, q == (number as int) / sz;
        assert(q * sz >= 0) by (nonlinear_arith)
            requires q >= 0, sz > 0;
        assert(q < ps) by (nonlinear_arith)
            requires q * sz <= number, number < ps * sz, sz > 0;
        assert(q * sz + sz <= ps * sz) by (nonlinear_arith)
            requires q < ps, sz > 0;
    }
    let network = number - number % size;
    proof {
        let sz = size as int;
        let q = (number as int) / sz;
        lemma_fundamental_div_mod(number as int, sz);
        assert(network as int == q * sz);
    }
    Ok(AddressBlock { v6, network, size })
}

/// Dotted-quad notation of an IPv4 address.
pub open spec fn ipv4_text(n: u32) -> Seq<char> {
    decimal((n / 0x100_0000) as nat) + "."@ + decimal(((n / 0x1_0000) % 0x100) as nat) + "."@
        + decimal(((n / 0x100) % 0x100) as nat) + "."@ + decimal((n % 0x100) as nat)
}

/// The dotted-quad notation of an IPv4 address.
pub fn format_ipv4(n: u32) -> (r: String)
    ensures
        r@ == ipv4_text(n),
{
    let mut out = String::new();
    push_decimal(&mut out, (n / 0x100_0000) as u64);
    out.append(".");
    push_decimal(&mut out, ((n / 0x1_0000) % 0x100) as u64);
    out.append(".");
    push_decimal(&mut out, ((n / 0x100) % 0x100) as u64);
    out.append(".");
    push_decimal(&mut out, (n % 0x100) as u64);
    proof {
        assert(out@ =~= ipv4_text(n));
    }
    out
}

} // verus!
