//! Conversions between fixed-width unsigned integers and big-endian byte
//! sequences, and a fixed-offset reader for captured frames.

use vstd::prelude::*;

use crate::model::{u16_be, u16_of};
use crate::{TcpOpts, TcpSegment};

verus! {

/// Reads a 32-bit big-endian value out of a byte slice of length 4.
pub trait U8ToU32: View<V = Seq<u8>> {
    fn to_u32(&self) -> (r: Option<u32>)
        ensures
            r is Some <==> self@.len() == 4,
            r matches Some(v) ==> v == crate::model::u32_of(self@[0], self@[1], self@[2], self@[3]),
    ;
}

impl U8ToU32 for [u8] {
    fn to_u32(&self) -> (r: Option<u32>) {
        if self.len() == 4 {
            Some(
                ((self[0] as u32) << 24) | ((self[1] as u32) << 16) | ((self[2] as u32) << 8)
                    | (self[3] as u32),
            )
        } else {
            None
        }
    }
}

/// Reads a 16-bit big-endian value out of a byte slice of length 2.
pub trait U8ToU16: View<V = Seq<u8>> {
    fn to_u16(&self) -> (r: Option<u16>)
        ensures
            r is Some <==> self@.len() == 2,
            r matches Some(v) ==> v == u16_of(self@[0], self@[1]),
    ;
}

impl U8ToU16 for [u8] {
    fn to_u16(&self) -> (r: Option<u16>) {
        if self.len() == 2 {
            Some(((self[0] as u16) << 8) | (self[1] as u16))
        } else {
            None
        }
    }
}

/// Writes a 16-bit value as its two big-endian bytes.
pub trait U16ToU8: View<V = u16> {
    fn to_u8(&self) -> (r: [u8; 2])
        ensures
            r@ == u16_be(self@),
    ;
}

impl U16ToU8 for u16 {
    fn to_u8(&self) -> (r: [u8; 2]) {
        let r = [((*self >> 8) & 0xFF) as u8, (*self & 0xFF) as u8];
        proof {
            assert(r@ =~= u16_be(*self));
        }
        r
    }
}

/// Writes a 32-bit value as its four big-endian bytes.
pub trait U32ToU8: View<V = u32> {
    fn to_u8(&self) -> (r: [u8; 4])
        ensures
            r@ == crate::model::u32_be(self@),
    ;
}

impl U32ToU8 for u32 {
    fn to_u8(&self) -> (r: [u8; 4]) {
        let r = [
            ((*self >> 24) & 0xFF) as u8,
            ((*self >> 16) & 0xFF) as u8,
            ((*self >> 8) & 0xFF) as u8,
            (*self & 0xFF) as u8,
        ];
        proof {
            assert(r@ =~= crate::model::u32_be(*self));
        }
        r
    }
}

/// Splits a 32-bit value into its high and low 16-bit halves.
pub trait U32ToU16: View<V = u32> {
    fn to_u16(&self) -> (r: (u16, u16))
        ensures
            r.0 == crate::model::u32_hi(self@),
            r.1 == crate::model::u32_lo(self@),
    ;
}

impl U32ToU16 for u32 {
    fn to_u16(&self) -> (r: (u16, u16)) {
        (((*self >> 16) & 0xFFFF) as u16, (*self & 0xFFFF) as u16)
    }
}

/// Reads the TCP header fields of a captured Ethernet/IPv4 frame at their
/// fixed offsets, assuming a 20-byte IPv4 header; the option list and the
/// payload are placeholders, not decoded from the frame.
pub fn parse_pcap(data: &[u8]) -> (r: TcpSegment)
    requires
        data@.len() >= 0x36,
    ensures
        r.src_port == u16_of(data@[0x22], data@[0x23]),
        r.dest_port == u16_of(data@[0x24], data@[0x25]),
        r.seq_num == crate::model::u32_of(data@[0x26], data@[0x27], data@[0x28], data@[0x29]),
        r.ack_num == crate::model::u32_of(data@[0x2A], data@[0x2B], data@[0x2C], data@[0x2D]),
        r.data_off == (data@[0x2E] & 0xF0) >> 4,
        r.ctrl_flags == u16_of(data@[0x2E] & 0x0F, data@[0x2F]),
        r.window == u16_of(data@[0x30], data@[0x31]),
        r.checksum == u16_of(data@[0x32], data@[0x33]),
        r.urg_ptr == u16_of(data@[0x34], data@[0x35]),
        r@.options == seq![crate::model::OptModel::End],
        r@.data == seq![0u8, 1u8],
{
    let seg = TcpSegment {
        src_port: read2(data, 0x22),
        dest_port: read2(data, 0x24),
        seq_num: read4(data, 0x26),
        ack_num: read4(data, 0x2A),
        data_off: (data[0x2E] & 0xF0) >> 4,
        ctrl_flags: {
            let pair: [u8; 2] = [data[0x2E] & 0x0F, data[0x2F]];
            pair.as_slice().to_u16().unwrap()
        },
        window: read2(data, 0x30),
        checksum: read2(data, 0x32),
        urg_ptr: read2(data, 0x34),
        options: vec![TcpOpts::END],
        data: vec![0, 1],
    };
    proof {
        assert(crate::opts_view(seg.options@) =~= seq![crate::model::OptModel::End]);
        assert(seg.data@ =~= seq![0u8, 1u8]);
    }
    seg
}

/// Reads the 16-bit big-endian value at offset `i` of a frame.
fn read2(data: &[u8], i: usize) -> (r: u16)
    requires
        i + 2 <= data@.len(),
    ensures
        r == u16_of(data@[i as int], data@[i + 1]),
{
    let pair: [u8; 2] = [data[i], data[i + 1]];
    pair.as_slice().to_u16().unwrap()
}

/// Reads the 32-bit big-endian value at offset `i` of a frame.
fn read4(data: &[u8], i: usize) -> (r: u32)
    requires
        i + 4 <= data@.len(),
    ensures
        r == crate::model::u32_of(data@[i as int], data@[i + 1], data@[i + 2], data@[i + 3]),
{
    let quad: [u8; 4] = [data[i], data[i + 1], data[i + 2], data[i + 3]];
    quad.as_slice().to_u32().unwrap()
}

} // verus!
