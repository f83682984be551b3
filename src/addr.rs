//! Network addresses as plain values: IP addresses, socket addresses and
//! 6-byte hardware addresses.

use vstd::prelude::*;

verus! {

/// A 6-byte link-layer address.
pub type HwAddr = [u8; 6];


/// The well-known control port.
pub const CONTROL_PORT: u16 = 9909;

/// The well-known data port, one below the control port.
pub const DATA_PORT: u16 = 9908;

/// The multicast group that discovery requests go to, as a big-endian number (224.0.0.100).
pub const DISCOVERY_GROUP: u32 = 0xe000_0064;

/// An IP address: a version 4 address as its big-endian number, or a
/// version 6 address as its big-endian number.
#[derive(Clone, Copy, Debug, PartialEq, Eq, Structural)]
pub enum IpAddress {
    V4(u32),
    V6(u128),
}

/// A socket address: an IP address and a port.
#[derive(Clone, Copy, Debug, PartialEq, Eq, Structural)]
pub struct PeerAddr {
    pub ip: IpAddress,
    pub port: u16,
}

/// The all-zero hardware address stands for "not resolved yet".
pub open spec fn is_zero_hw(h: HwAddr) -> bool {
    forall|i: int| 0 <= i < 6 ==> #[trigger] h[i] == 0u8
}

/// The all-ones hardware address is the Ethernet broadcast address.
pub open spec fn is_broadcast_hw(h: HwAddr) -> bool {
    forall|i: int| 0 <= i < 6 ==> #[trigger] h[i] == 255u8
}

/// Whether two hardware addresses are equal, byte by byte.
pub fn hw_addr_eq(a: &HwAddr, b: &HwAddr) -> (r: bool)
    ensures
        r == (*a == *b),
{
    proof {
        assert(*a =~= *b <==> forall|i: int| 0 <= i < 6 ==> a[i] == b[i]);
    }
    let mut i: usize = 0;
    while i < 6
        invariant
            0 <= i <= 6,
            forall|j: int| 0 <= j < i ==> a[j] == b[j],
        decreases 6 - i,
    {
        if a[i] != b[i] {
            return false;
        }
        i = i + 1;
    }
    proof {
        assert(*a =~= *b);
    }
    true
}

/// The all-zero hardware address.
pub fn zero_hw_addr() -> (r: HwAddr)
    ensures
        is_zero_hw(r),
{
    [0u8; 6]
}

/// Whether a hardware address is the all-zero "unresolved" address.
pub fn is_zero_hw_addr(h: &HwAddr) -> (r: bool)
    ensures
        r == is_zero_hw(*h),
{
    let z: HwAddr = [0u8; 6];
    proof {
        assert(*h == z <==> is_zero_hw(*h)) by {
            if is_zero_hw(*h) {
                assert(*h =~= z);
            }
        }
    }
    hw_addr_eq(h, &z)
}

/// Whether a hardware address is the all-ones broadcast address.
pub fn is_broadcast_hw_addr(h: &HwAddr) -> (r: bool)
    ensures
        r == is_broadcast_hw(*h),
{
    let b: HwAddr = [255u8; 6];
    proof {
        assert(*h == b <==> is_broadcast_hw(*h)) by {
            if is_broadcast_hw(*h) {
                assert(*h =~= b);
            }
        }
    }
    hw_addr_eq(h, &b)
}

} // verus!
