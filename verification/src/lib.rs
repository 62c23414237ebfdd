//! Decoding, encoding and checksumming of TCP segments.
//!
//! A raw segment (20-byte fixed header, variable-length options region,
//! payload) is decoded from a byte buffer into a [`TcpSegment`] value,
//! re-encoded back to the identical byte sequence, and checksummed against an
//! IPv4 pseudo-header with the one's-complement algorithm.

use vstd::prelude::*;

pub mod checksum;
pub mod encode;
pub mod model;
mod parser;
pub mod roundtrip;
pub mod util;

pub use model::TcpParseError;

verus! {

/// ECN-nonce concealment protection control flag.
pub const NS: u16 = 0b100000000;
/// Congestion window reduced control flag.
pub const CWR: u16 = 0b010000000;
/// ECN echo control flag.
pub const ECE: u16 = 0b001000000;
/// Urgent-pointer-significant control flag.
pub const URG: u16 = 0b000100000;
/// Acknowledgment-significant control flag.
pub const ACK: u16 = 0b000010000;
/// Push control flag.
pub const PSH: u16 = 0b000001000;
/// Reset control flag.
pub const RST: u16 = 0b000000100;
/// Synchronize control flag.
pub const SYN: u16 = 0b000000010;
/// Finish control flag.
pub const FIN: u16 = 0b000000001;

/// Tag byte of the end-of-options option.
pub const END: u8 = 0x00;
/// Tag byte of the no-operation option.
pub const NOP: u8 = 0x01;
/// Tag byte of the maximum-segment-size option.
pub const MSS: u8 = 0x02;
/// Tag byte of the window-scale option.
pub const SCALE: u8 = 0x03;
/// Tag byte of the selective-acknowledgment-permitted option.
pub const SACKPERM: u8 = 0x04;
/// Tag byte of the selective-acknowledgment option.
pub const SACK: u8 = 0x05;
/// Tag byte of the timestamp option.
pub const TIME: u8 = 0x08;

/// The set of possible TCP options.
#[derive(Clone, Debug, PartialEq, Eq)]
pub enum TcpOpts {
    /// End of the option list; single byte.
    END,
    /// No operation; single byte.
    NOP,
    /// Maximum segment size; 4 bytes on the wire.
    MSS(u16),
    /// Window scale; 3 bytes on the wire.
    WindowScale(u8),
    /// Selective acknowledgment permitted; 2 bytes on the wire.
    SAckPermitted,
    /// Selective acknowledgment, 1 to 4 blocks of (left, right) edges;
    /// `2 + 8 * blocks` bytes on the wire.
    SAck(Vec<(u32, u32)>),
    /// Timestamp and echo of a previous timestamp; 10 bytes on the wire.
    TimeStamp { time: u32, echo: u32 },
}

impl View for TcpOpts {
    type V = model::OptModel;

    open spec fn view(&self) -> model::OptModel {
        match self {
            TcpOpts::END => model::OptModel::End,
            TcpOpts::NOP => model::OptModel::Nop,
            TcpOpts::MSS(v) => model::OptModel::Mss(*v),
            TcpOpts::WindowScale(s) => model::OptModel::Scale(*s),
            TcpOpts::SAckPermitted => model::OptModel::SackPerm,
            TcpOpts::SAck(ptrs) => model::OptModel::Sack(ptrs@),
            TcpOpts::TimeStamp { time, echo } => model::OptModel::Time {
                time: *time,
                echo: *echo,
            },
        }
    }
}

impl TcpOpts {
    /// The tag byte that introduces this option on the wire.
    pub fn opt_flag(&self) -> (r: u8)
        ensures
            r == model::opt_tag(self@),
    {
        match self {
            TcpOpts::END => END,
            TcpOpts::NOP => NOP,
            TcpOpts::MSS(_) => MSS,
            TcpOpts::WindowScale(_) => SCALE,
            TcpOpts::SAckPermitted => SACKPERM,
            TcpOpts::SAck(_) => SACK,
            TcpOpts::TimeStamp { .. } => TIME,
        }
    }
}

/// A TCP segment, either decoded from a byte buffer or built field by field
/// for later encoding.
#[derive(Clone, Debug, PartialEq, Eq)]
pub struct TcpSegment {
    /// Source port.
    pub src_port: u16,
    /// Destination port.
    pub dest_port: u16,
    /// Sequence number.
    pub seq_num: u32,
    /// Acknowledgment number.
    pub ack_num: u32,
    /// Data offset: size of the TCP header in 32-bit words, including
    /// options; in practice only 4 bits.
    pub data_off: u8,
    /// Control flags; 9 significant bits.
    pub ctrl_flags: u16,
    /// Window size.
    pub window: u16,
    /// Checksum as embedded in the segment.
    pub checksum: u16,
    /// Offset from the sequence number indicating the last urgent data byte.
    pub urg_ptr: u16,
    /// Options, in wire order.
    pub options: Vec<TcpOpts>,
    /// Application-layer payload.
    pub data: Vec<u8>,
}

/// The option models of a sequence of option values.
pub open spec fn opts_view(v: Seq<TcpOpts>) -> Seq<model::OptModel> {
    Seq::new(v.len(), |i: int| v[i]@)
}

impl View for TcpSegment {
    type V = model::SegModel;

    open spec fn view(&self) -> model::SegModel {
        model::SegModel {
            src_port: self.src_port,
            dest_port: self.dest_port,
            seq_num: self.seq_num,
            ack_num: self.ack_num,
            data_off: self.data_off,
            ctrl_flags: self.ctrl_flags,
            window: self.window,
            checksum: self.checksum,
            urg_ptr: self.urg_ptr,
            options: opts_view(self.options@),
            data: self.data@,
        }
    }
}

impl TcpSegment {
    /// The segment invariant of the model, lifted to the executable type.
    pub open spec fn wf(&self) -> bool {
        self@.wf()
    }

    /// Decodes the given byte buffer into a segment, all-or-nothing: a
    /// buffer shorter than 20 bytes fails with `InvalidLength`, a data
    /// offset below 5 with `InvalidDataOffset`, nonzero reserved bits with
    /// `InvalidReserved`, and a malformed or truncated options region with
    /// `InvalidOption`; otherwise the fully validated segment is returned.
    pub fn parse(segment: &[u8]) -> (r: Result<TcpSegment, TcpParseError>)
        ensures
            r is Ok <==> model::parse_seg(segment@) is Ok,
            r matches Ok(seg) ==> seg@ == model::parse_seg(segment@)->Ok_0 && seg.wf(),
            r matches Err(e) ==> model::parse_seg(segment@) == Err::<
                model::SegModel,
                TcpParseError,
            >(e),
            segment@.len() < 20 <==> r == Err::<TcpSegment, TcpParseError>(
                TcpParseError::InvalidLength,
            ),
            segment@.len() >= 20 ==> ((segment@[12] >> 4) < 5 <==> r == Err::<
                TcpSegment,
                TcpParseError,
            >(TcpParseError::InvalidDataOffset)),
            segment@.len() >= 20 && (segment@[12] >> 4) >= 5 ==> ((segment@[12] & 0x0E) != 0
                <==> r == Err::<TcpSegment, TcpParseError>(TcpParseError::InvalidReserved)),
    {
        parser::parse(segment)
    }
}

/// A pseudo-header for an IPv4 packet, used only as checksum input.
#[derive(Clone, Debug, PartialEq, Eq)]
pub struct IPv4PseudoHeader {
    pub source_addr: u32,
    pub dest_addr: u32,
    pub protocol: u8,
    pub tcp_len: u16,
}

} // verus!
