//! An Ethernet II frame: its header, read in place, and the frame bytes.

use vstd::prelude::*;

use crate::addr::HwAddr;

verus! {

/// The length of an Ethernet II header.
pub const ETH_HEADER_LEN: usize = 14;

/// A parsed Ethernet II header; `data` is the whole frame it was read from.
#[derive(Debug)]
pub struct EthV2<'a> {
    pub dst_mac: HwAddr,
    pub src_mac: HwAddr,
    pub proto_type: u16,
    pub data: &'a [u8],
}

/// The 6 bytes of `b` from `start` on.
pub open spec fn six_at(b: Seq<u8>, start: int) -> HwAddr {
    [b[start], b[start + 1], b[start + 2], b[start + 3], b[start + 4], b[start + 5]]
}

/// A big-endian 16-bit number from bytes `start` and `start + 1` of `b`.
pub open spec fn be16_at(b: Seq<u8>, start: int) -> u16 {
    (b[start] as int * 256 + b[start + 1] as int) as u16
}

impl<'a> EthV2<'a> {
    /// Read the header of `frame`: destination (bytes 0 to 5), source (6 to
    /// 11) and protocol type (12 and 13, big-endian). A frame shorter than a
    /// header has none.
    pub fn parse(frame: &'a [u8]) -> (r: Option<EthV2<'a>>)
        ensures
            frame@.len() < 14 <==> r is None,
            r matches Some(e) ==> {
                &&& e.dst_mac == six_at(frame@, 0)
                &&& e.src_mac == six_at(frame@, 6)
                &&& e.proto_type == be16_at(frame@, 12)
                &&& e.data@ == frame@
            },
    {
        if frame.len() < ETH_HEADER_LEN {
            return None;
        }
        let dst_mac: HwAddr = [frame[0], frame[1], frame[2], frame[3], frame[4], frame[5]];
        let src_mac: HwAddr = [frame[6], frame[7], frame[8], frame[9], frame[10], frame[11]];
        let proto_type: u16 = (frame[12] as u16) * 256 + (frame[13] as u16);
        Some(EthV2 { dst_mac, src_mac, proto_type, data: frame })
    }
}

} // verus!
