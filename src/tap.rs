//! The byte layout of an interface request (`struct ifreq`): the interface
//! name, then a 24-byte union of flags, a hardware address or a socket
//! address.

use vstd::prelude::*;
use vstd::string::StringSliceAdditionalSpecFns;

verus! {

/// The interface flag "tap device".
pub const IFF_TAP: i16 = 0x0002;

/// The interface flag "no packet information".
pub const IFF_NO_PI: i16 = 0x1000;

/// The interface flag "up".
pub const IFF_UP: i16 = 0x0001;

/// An interface request, field by field.
#[derive(Debug)]
pub struct IfReq {
    pub if_name: [i8; 16],
    pub ifr_ifru: [u8; 24],
}

/// A name fits an interface request: at most 16 bytes, all ASCII.
pub open spec fn name_fits(name: &str) -> bool {
    &&& name.spec_bytes().len() <= 16
    &&& forall|i: int| 0 <= i < name.spec_bytes().len() ==> #[trigger] name.spec_bytes()[i] < 128
}

/// The name field that holds `name`: its bytes, then zeros.
pub open spec fn name_field(f: [i8; 16], name: &str) -> bool {
    forall|i: int|
        0 <= i < 16 ==> #[trigger] f[i] == if i < name.spec_bytes().len() {
            name.spec_bytes()[i] as i8
        } else {
            0i8
        }
}

/// The `AF_INET` address family.
pub open spec fn af_inet_spec() -> i32 {
    2
}

/// Relies on `libc::AF_INET`, the address family of IP version 4.
#[verifier::external_body]
fn af_inet() -> (r: i32)
    ensures
        r == af_inet_spec(),
{
    libc::AF_INET
}

fn name_bytes(name: &str) -> (r: [i8; 16])
    requires
        name_fits(name),
    ensures
        name_field(r, name),
{
    let bytes = name.as_bytes();
    let mut f: [i8; 16] = [0i8; 16];
    let mut i: usize = 0;
    while i < bytes.len()
        invariant
            bytes@ == name.spec_bytes(),
            name_fits(name),
            i <= bytes@.len(),
            forall|j: int| 0 <= j < i ==> #[trigger] f[j] == bytes@[j] as i8,
            forall|j: int| i <= j < 16 ==> #[trigger] f[j] == 0i8,
        decreases bytes@.len() - i,
    {
        let b = bytes[i];
        assert(b < 128);
        f[i] = b as i8;
        i = i + 1;
    }
    f
}

impl IfReq {
    /// A request for the interface `name`, with an empty union.
    pub fn with_name(name: &str) -> (r: IfReq)
        requires
            name_fits(name),
        ensures
            name_field(r.if_name, name),
            forall|i: int| 0 <= i < 24 ==> #[trigger] r.ifr_ifru[i] == 0u8,
    {
        IfReq { if_name: name_bytes(name), ifr_ifru: [0u8; 24] }
    }

    /// Set the interface name to `name`.
    pub fn if_name(&mut self, name: &str)
        requires
            name_fits(name),
        ensures
            name_field(final(self).if_name, name),
            final(self).ifr_ifru == old(self).ifr_ifru,
    {
        self.if_name = name_bytes(name);
    }

    /// Add `flags` to the flags word of the union (little-endian).
    pub fn if_flags(&mut self, flags: i16)
        ensures
            final(self).if_name == old(self).if_name,
            final(self).ifr_ifru[0] == old(self).ifr_ifru[0] | (flags as u8),
            final(self).ifr_ifru[1] == old(self).ifr_ifru[1] | ((flags >> 8u16) as u8),
            forall|i: int| 2 <= i < 24 ==> #[trigger] final(self).ifr_ifru[i] == old(self).ifr_ifru[i],
    {
        let lo: u8 = self.ifr_ifru[0] | (flags as u8);
        let hi: u8 = self.ifr_ifru[1] | ((flags >> 8u16) as u8);
        self.ifr_ifru[0] = lo;
        self.ifr_ifru[1] = hi;
    }

    /// The hardware address in the union: bytes 2 to 7.
    pub fn if_hwaddr(&self) -> (r: [u8; 6])
        ensures
            forall|i: int| 0 <= i < 6 ==> #[trigger] r[i] == self.ifr_ifru[i + 2],
    {
        [
            self.ifr_ifru[2],
            self.ifr_ifru[3],
            self.ifr_ifru[4],
            self.ifr_ifru[5],
            self.ifr_ifru[6],
            self.ifr_ifru[7],
        ]
    }

    /// Put the IP version 4 socket address with these octets in the union:
    /// the address family, port 0, then the address.
    pub fn if_add_ipv4(&mut self, octets: [u8; 4])
        ensures
            final(self).if_name == old(self).if_name,
            final(self).ifr_ifru[0] == af_inet_spec() as u8,
            final(self).ifr_ifru[1] == 0,
            final(self).ifr_ifru[2] == 0,
            final(self).ifr_ifru[3] == 0,
            forall|i: int| 0 <= i < 4 ==> #[trigger] final(self).ifr_ifru[i + 4] == octets[i],
            forall|i: int| 8 <= i < 24 ==> #[trigger] final(self).ifr_ifru[i] == old(self).ifr_ifru[i],
    {
        let family = af_inet();
        self.ifr_ifru[0] = family as u8;
        self.ifr_ifru[1] = 0;
        self.ifr_ifru[2] = 0;
        self.ifr_ifru[3] = 0;
        self.ifr_ifru[4] = octets[0];
        self.ifr_ifru[5] = octets[1];
        self.ifr_ifru[6] = octets[2];
        self.ifr_ifru[7] = octets[3];
    }
}

} // verus!
