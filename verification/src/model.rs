//! Mathematical model of the wire format.
//!
//! Everything a contract states about decoding, encoding or checksumming is
//! phrased over the spec functions of this module: big-endian byte packing,
//! the tag-length-value layout of the options region, the fixed header
//! layout, and the one's-complement checksum fold.

use vstd::prelude::*;

verus! {

/// Model of one TCP option.
#[verifier::ext_equal]
pub enum OptModel {
    End,
    Nop,
    Mss(u16),
    Scale(u8),
    SackPerm,
    Sack(Seq<(u32, u32)>),
    Time { time: u32, echo: u32 },
}

/// Model of a TCP segment: the fixed header fields, the decoded option list
/// and the payload bytes.
#[verifier::ext_equal]
pub struct SegModel {
    pub src_port: u16,
    pub dest_port: u16,
    pub seq_num: u32,
    pub ack_num: u32,
    pub data_off: u8,
    pub ctrl_flags: u16,
    pub window: u16,
    pub checksum: u16,
    pub urg_ptr: u16,
    pub options: Seq<OptModel>,
    pub data: Seq<u8>,
}

// ---------------------------------------------------------------------------
// Big-endian byte packing
// ---------------------------------------------------------------------------

/// The 16-bit value encoded big-endian by the bytes `a`, `b`.
pub open spec fn u16_of(a: u8, b: u8) -> u16 {
    ((a as u16) << 8) | (b as u16)
}

/// The 32-bit value encoded big-endian by the bytes `a`, `b`, `c`, `d`.
pub open spec fn u32_of(a: u8, b: u8, c: u8, d: u8) -> u32 {
    ((a as u32) << 24) | ((b as u32) << 16) | ((c as u32) << 8) | (d as u32)
}

/// High byte of a 16-bit value.
pub open spec fn u16_hi(x: u16) -> u8 {
    ((x >> 8) & 0xFF) as u8
}

/// Low byte of a 16-bit value.
pub open spec fn u16_lo(x: u16) -> u8 {
    (x & 0xFF) as u8
}

/// Big-endian bytes of a 16-bit value.
pub open spec fn u16_be(x: u16) -> Seq<u8> {
    seq![u16_hi(x), u16_lo(x)]
}

/// Big-endian bytes of a 32-bit value.
pub open spec fn u32_be(x: u32) -> Seq<u8> {
    seq![
        ((x >> 24) & 0xFF) as u8,
        ((x >> 16) & 0xFF) as u8,
        ((x >> 8) & 0xFF) as u8,
        (x & 0xFF) as u8,
    ]
}

/// High 16-bit half of a 32-bit value.
pub open spec fn u32_hi(x: u32) -> u16 {
    ((x >> 16) & 0xFFFF) as u16
}

/// Low 16-bit half of a 32-bit value.
pub open spec fn u32_lo(x: u32) -> u16 {
    (x & 0xFFFF) as u16
}

// ---------------------------------------------------------------------------
// 16-bit word stream of a byte sequence
// ---------------------------------------------------------------------------

/// The 16-bit words obtained by pairing consecutive bytes big-endian; a final
/// odd byte becomes the high byte of a word whose low byte is zero.
pub open spec fn words_of(b: Seq<u8>) -> Seq<u16> {
    Seq::new(((b.len() + 1) / 2) as nat, |k: int|
        if 2 * k + 1 < b.len() {
            u16_of(b[2 * k], b[2 * k + 1])
        } else {
            u16_of(b[2 * k], 0)
        })
}

// ---------------------------------------------------------------------------
// Option codec
// ---------------------------------------------------------------------------

/// Wire encoding of the selective-acknowledgment blocks: each block is the
/// left edge then the right edge, big-endian.
pub open spec fn sack_enc(ps: Seq<(u32, u32)>) -> Seq<u8>
    decreases ps.len(),
{
    if ps.len() == 0 {
        Seq::empty()
    } else {
        u32_be(ps[0].0) + u32_be(ps[0].1) + sack_enc(ps.drop_first())
    }
}

/// The selective-acknowledgment blocks encoded by a byte sequence: one
/// (left, right) pair per 8 bytes.
pub open spec fn sack_parse(b: Seq<u8>) -> Seq<(u32, u32)> {
    Seq::new((b.len() / 8) as nat, |k: int|
        (
            u32_of(b[8 * k], b[8 * k + 1], b[8 * k + 2], b[8 * k + 3]),
            u32_of(b[8 * k + 4], b[8 * k + 5], b[8 * k + 6], b[8 * k + 7]),
        ))
}

/// The tag byte of an option kind.
pub open spec fn opt_tag(o: OptModel) -> u8 {
    match o {
        OptModel::End => crate::END,
        OptModel::Nop => crate::NOP,
        OptModel::Mss(_) => crate::MSS,
        OptModel::Scale(_) => crate::SCALE,
        OptModel::SackPerm => crate::SACKPERM,
        OptModel::Sack(_) => crate::SACK,
        OptModel::Time { .. } => crate::TIME,
    }
}

/// Wire encoding of one option: the tag byte, then (for every kind but End
/// and NoOp) the length byte covering the whole record, then the payload.
pub open spec fn opt_enc(o: OptModel) -> Seq<u8> {
    match o {
        OptModel::End => seq![crate::END],
        OptModel::Nop => seq![crate::NOP],
        OptModel::Mss(v) => seq![crate::MSS, 4u8] + u16_be(v),
        OptModel::Scale(s) => seq![crate::SCALE, 3u8, s],
        OptModel::SackPerm => seq![crate::SACKPERM, 2u8],
        OptModel::Sack(ps) => seq![crate::SACK, (ps.len() * 8 + 2) as u8] + sack_enc(ps),
        OptModel::Time { time, echo } => seq![crate::TIME, 10u8] + u32_be(time) + u32_be(echo),
    }
}

/// Wire encoding of an option list, in declaration order, with no padding.
pub open spec fn opts_enc(os: Seq<OptModel>) -> Seq<u8>
    decreases os.len(),
{
    if os.len() == 0 {
        Seq::empty()
    } else {
        opt_enc(os[0]) + opts_enc(os.drop_first())
    }
}

/// Prepends a parsed option to the outcome of parsing the rest.
pub open spec fn opt_cons(m: OptModel, rest: Option<Seq<OptModel>>) -> Option<Seq<OptModel>> {
    match rest {
        Some(s) => Some(seq![m] + s),
        None => None,
    }
}

/// Appends the outcome of parsing the rest of a region to the options
/// already parsed.
pub open spec fn opt_glue(pre: Seq<OptModel>, rest: Option<Seq<OptModel>>) -> Option<
    Seq<OptModel>,
> {
    match rest {
        Some(s) => Some(pre + s),
        None => None,
    }
}

/// Consuming one parsed option moves it from the unparsed suffix to the
/// parsed prefix.
pub proof fn lemma_glue_shift(pre: Seq<OptModel>, m: OptModel, rest: Option<Seq<OptModel>>)
    ensures
        opt_glue(pre, opt_cons(m, rest)) == opt_glue(pre.push(m), rest),
{
    match rest {
        Some(s) => {
            assert(pre + (seq![m] + s) =~= pre.push(m) + s);
        },
        None => {},
    }
}

/// Parses the options region: a strict tag-length-value loop that must
/// consume the whole region. `None` stands for an invalid-option failure:
/// an unrecognized tag, a wrong length for a fixed-length kind, a malformed
/// selective-acknowledgment block count, or a truncated record.
pub open spec fn parse_opts(b: Seq<u8>) -> Option<Seq<OptModel>>
    decreases b.len(),
{
    if b.len() == 0 {
        Some(Seq::empty())
    } else {
        let tag = b[0];
        if tag == crate::END {
            opt_cons(OptModel::End, parse_opts(b.skip(1)))
        } else if tag == crate::NOP {
            opt_cons(OptModel::Nop, parse_opts(b.skip(1)))
        } else if tag == crate::MSS {
            if b.len() >= 4 && b[1] == 4 {
                opt_cons(OptModel::Mss(u16_of(b[2], b[3])), parse_opts(b.skip(4)))
            } else {
                None
            }
        } else if tag == crate::SCALE {
            if b.len() >= 3 && b[1] == 3 {
                opt_cons(OptModel::Scale(b[2]), parse_opts(b.skip(3)))
            } else {
                None
            }
        } else if tag == crate::SACKPERM {
            if b.len() >= 2 && b[1] == 2 {
                opt_cons(OptModel::SackPerm, parse_opts(b.skip(2)))
            } else {
                None
            }
        } else if tag == crate::SACK {
            if b.len() >= 2 && (b[1] - 2) % 8 == 0 && 1 <= (b[1] - 2) / 8 <= 4
                && b[1] <= b.len() {
                opt_cons(
                    OptModel::Sack(sack_parse(b.subrange(2, b[1] as int))),
                    parse_opts(b.skip(b[1] as int)),
                )
            } else {
                None
            }
        } else if tag == crate::TIME {
            if b.len() >= 10 && b[1] == 10 {
                opt_cons(
                    OptModel::Time {
                        time: u32_of(b[2], b[3], b[4], b[5]),
                        echo: u32_of(b[6], b[7], b[8], b[9]),
                    },
                    parse_opts(b.skip(10)),
                )
            } else {
                None
            }
        } else {
            None
        }
    }
}

// ---------------------------------------------------------------------------
// Segment codec
// ---------------------------------------------------------------------------

/// A decode failure, detected at the earliest possible point; decode is
/// all-or-nothing.
#[derive(Clone, Copy, Debug, PartialEq, Eq)]
pub enum TcpParseError {
    /// Buffer shorter than the minimum 20-byte fixed header.
    InvalidLength,
    /// Nonzero value in the 3 reserved header bits.
    InvalidReserved,
    /// Declared data offset below 5 words.
    InvalidDataOffset,
    /// Unrecognized option tag, wrong length for a fixed-length option kind,
    /// malformed selective-acknowledgment block count, or truncated options
    /// region.
    InvalidOption,
}

/// Validity of one option: a selective-acknowledgment option carries 1 to 4
/// blocks; every other kind is valid by construction.
pub open spec fn opt_wf(o: OptModel) -> bool {
    match o {
        OptModel::Sack(ps) => 1 <= ps.len() <= 4,
        _ => true,
    }
}

/// Validity of an option list.
pub open spec fn opts_wf(os: Seq<OptModel>) -> bool {
    forall|i: int| 0 <= i < os.len() ==> opt_wf(#[trigger] os[i])
}

impl SegModel {
    /// The segment invariant: the data offset counts 32-bit words of the
    /// header including options and so determines the encoded option length,
    /// and only the 9 significant control-flag bits are set.
    pub open spec fn wf(self) -> bool {
        &&& 5 <= self.data_off <= 15
        &&& self.ctrl_flags < 0x200
        &&& opts_wf(self.options)
        &&& 20 + opts_enc(self.options).len() == 4 * self.data_off
    }
}

/// Parses a segment buffer: the fixed header fields at their fixed offsets,
/// the options region of length `4 * data_off - 20` through the option
/// codec, and the remainder as the payload.
pub open spec fn parse_seg(b: Seq<u8>) -> Result<SegModel, TcpParseError> {
    if b.len() < 20 {
        Err(TcpParseError::InvalidLength)
    } else {
        let data_off = b[12] >> 4;
        if data_off < 5 {
            Err(TcpParseError::InvalidDataOffset)
        } else if b[12] & 0x0E != 0 {
            Err(TcpParseError::InvalidReserved)
        } else if b.len() < 4 * data_off {
            Err(TcpParseError::InvalidOption)
        } else {
            match parse_opts(b.subrange(20, 4 * data_off as int)) {
                None => Err(TcpParseError::InvalidOption),
                Some(opts) => Ok(
                    SegModel {
                        src_port: u16_of(b[0], b[1]),
                        dest_port: u16_of(b[2], b[3]),
                        seq_num: u32_of(b[4], b[5], b[6], b[7]),
                        ack_num: u32_of(b[8], b[9], b[10], b[11]),
                        data_off,
                        ctrl_flags: u16_of(b[12] & 0x01, b[13]),
                        window: u16_of(b[14], b[15]),
                        checksum: u16_of(b[16], b[17]),
                        urg_ptr: u16_of(b[18], b[19]),
                        options: opts,
                        data: b.skip(4 * data_off as int),
                    },
                ),
            }
        }
    }
}

/// Serializes a segment: the header fields in their fixed order, the data
/// offset and control flags packed back into their combined 16-bit word,
/// then the encoded options, then the payload verbatim.
pub open spec fn seg_enc(s: SegModel) -> Seq<u8> {
    u16_be(s.src_port) + u16_be(s.dest_port) + u32_be(s.seq_num) + u32_be(s.ack_num)
        + u16_be((((s.data_off as u16) << 12) | (s.ctrl_flags & 0x1FF))) + u16_be(s.window)
        + u16_be(s.checksum) + u16_be(s.urg_ptr) + opts_enc(s.options) + s.data
}

// ---------------------------------------------------------------------------
// Checksum
// ---------------------------------------------------------------------------

/// One checksum addition: add the 16-bit value, then fold once if the
/// accumulator's bit 31 came on.
pub open spec fn csum_step(acc: nat, x: u16) -> nat {
    let s = acc + x;
    if s >= 0x8000_0000 {
        ((s % 0x10000) + (s / 0x10000)) as nat
    } else {
        s as nat
    }
}

/// The accumulator after adding every word of `ws` in order, starting
/// from zero.
pub open spec fn csum_sum(ws: Seq<u16>) -> nat
    decreases ws.len(),
{
    if ws.len() == 0 {
        0
    } else {
        csum_step(csum_sum(ws.drop_last()), ws.last())
    }
}

/// Folds the carry back into the low 16 bits until none is left.
pub open spec fn csum_carry(acc: nat) -> nat
    decreases acc,
{
    if acc > 0xFFFF {
        csum_carry(((acc % 0x10000) + (acc / 0x10000)) as nat)
    } else {
        acc
    }
}

/// The exact word sequence the checksum sums: the pseudo-header, the fixed
/// header fields with the combined data-offset/flags word (the embedded
/// checksum field deliberately excluded), the encoded options, then the
/// payload with a final odd byte as the high byte of a zero-padded word.
pub open spec fn csum_words(ph: crate::IPv4PseudoHeader, s: SegModel) -> Seq<u16> {
    seq![
        u32_hi(ph.source_addr),
        u32_lo(ph.source_addr),
        u32_hi(ph.dest_addr),
        u32_lo(ph.dest_addr),
        ph.protocol as u16,
        ph.tcp_len,
        s.src_port,
        s.dest_port,
        u32_hi(s.seq_num),
        u32_lo(s.seq_num),
        u32_hi(s.ack_num),
        u32_lo(s.ack_num),
        (((s.data_off as u16) << 12) | s.ctrl_flags),
        s.window,
        s.urg_ptr,
    ] + words_of(opts_enc(s.options)) + words_of(s.data)
}

/// The one's-complement checksum of a segment against a pseudo-header.
pub open spec fn checksum(ph: crate::IPv4PseudoHeader, s: SegModel) -> u16 {
    !((csum_carry(csum_sum(csum_words(ph, s))) % 0x10000) as u16)
}

// ---------------------------------------------------------------------------
// Lemmas about the encoders
// ---------------------------------------------------------------------------

pub proof fn lemma_opts_enc_snoc(os: Seq<OptModel>, m: OptModel)
    ensures
        opts_enc(os.push(m)) == opts_enc(os) + opt_enc(m),
    decreases os.len(),
{
    if os.len() == 0 {
        assert(os.push(m)[0] == m);
        assert(os.push(m).drop_first() =~= Seq::<OptModel>::empty());
        assert(opts_enc(os.push(m)) == opt_enc(m) + opts_enc(Seq::<OptModel>::empty()));
        assert(opt_enc(m) + Seq::<u8>::empty() =~= Seq::<u8>::empty() + opt_enc(m));
    } else {
        let tail = os.drop_first();
        assert(os.push(m)[0] == os[0]);
        assert(os.push(m).drop_first() =~= tail.push(m));
        lemma_opts_enc_snoc(tail, m);
        assert(opts_enc(os.push(m)) == opt_enc(os[0]) + (opts_enc(tail) + opt_enc(m)));
        assert(opt_enc(os[0]) + (opts_enc(tail) + opt_enc(m)) =~= (opt_enc(os[0]) + opts_enc(
            tail,
        )) + opt_enc(m));
    }
}

pub proof fn lemma_sack_enc_snoc(ps: Seq<(u32, u32)>, p: (u32, u32))
    ensures
        sack_enc(ps.push(p)) == sack_enc(ps) + u32_be(p.0) + u32_be(p.1),
    decreases ps.len(),
{
    if ps.len() == 0 {
        assert(ps.push(p)[0] == p);
        assert(ps.push(p).drop_first() =~= Seq::<(u32, u32)>::empty());
        assert(sack_enc(ps.push(p)) == u32_be(p.0) + u32_be(p.1) + sack_enc(
            Seq::<(u32, u32)>::empty(),
        ));
        assert(u32_be(p.0) + u32_be(p.1) + Seq::<u8>::empty() =~= (Seq::<u8>::empty() + u32_be(
            p.0,
        )) + u32_be(p.1));
    } else {
        let tail = ps.drop_first();
        assert(ps.push(p)[0] == ps[0]);
        assert(ps.push(p).drop_first() =~= tail.push(p));
        lemma_sack_enc_snoc(tail, p);
        assert(sack_enc(ps.push(p)) == u32_be(ps[0].0) + u32_be(ps[0].1) + ((sack_enc(tail)
            + u32_be(p.0)) + u32_be(p.1)));
        assert(u32_be(ps[0].0) + u32_be(ps[0].1) + ((sack_enc(tail) + u32_be(p.0)) + u32_be(p.1))
            =~= ((u32_be(ps[0].0) + u32_be(ps[0].1) + sack_enc(tail)) + u32_be(p.0)) + u32_be(
            p.1,
        ));
    }
}

/// Growing an even-length prefix of a byte sequence by a full or a final odd
/// word grows its word stream by one word.
pub proof fn lemma_words_of_extend(b: Seq<u8>, i: int)
    requires
        0 <= i,
        i % 2 == 0,
    ensures
        i + 2 <= b.len() ==> words_of(b.take(i + 2)) == words_of(b.take(i)).push(
            u16_of(b[i], b[i + 1]),
        ),
        i + 1 == b.len() ==> words_of(b.take(i + 1)) == words_of(b.take(i)).push(u16_of(b[i], 0)),
{
    if i + 2 <= b.len() {
        assert(words_of(b.take(i + 2)) =~= words_of(b.take(i)).push(u16_of(b[i], b[i + 1])));
    }
    if i + 1 == b.len() {
        assert(words_of(b.take(i + 1)) =~= words_of(b.take(i)).push(u16_of(b[i], 0)));
    }
}

/// Packing the data offset, the zero reserved bits and the 9 control-flag
/// bits back into the combined 16-bit word restores header bytes 12 and 13.
pub proof fn lemma_pack_off_flags(b12: u8, b13: u8)
    requires
        b12 & 0x0E == 0,
    ensures
        b12 >> 4 <= 15,
        u16_of(b12 & 0x01, b13) < 0x200,
        u16_of(b12 & 0x01, b13) & 0x1FF == u16_of(b12 & 0x01, b13),
        u16_hi((((b12 >> 4) as u16) << 12) | (u16_of(b12 & 0x01, b13) & 0x1FF)) == b12,
        u16_lo((((b12 >> 4) as u16) << 12) | (u16_of(b12 & 0x01, b13) & 0x1FF)) == b13,
{
    assert(b12 >> 4 <= 15) by (bit_vector);
    assert((((b12 & 0x01) as u16) << 8) | (b13 as u16) < 0x200) by (bit_vector);
    assert(((((b12 & 0x01) as u16) << 8) | (b13 as u16)) & 0x1FF == (((b12 & 0x01) as u16) << 8)
        | (b13 as u16)) by (bit_vector);
    assert(b12 & 0x0E == 0 ==> ((((((b12 >> 4) as u16) << 12) | ((((b12 & 0x01) as u16) << 8) | (
    b13 as u16))) >> 8) & 0xFF) as u8 == b12 && (((((b12 >> 4) as u16) << 12) | ((((b12
        & 0x01) as u16) << 8) | (b13 as u16))) & 0xFF) as u8 == b13) by (bit_vector);
}

pub proof fn lemma_u16_of_be(a: u8, b: u8)
    ensures
        u16_hi(u16_of(a, b)) == a,
        u16_lo(u16_of(a, b)) == b,
{
    assert((((((a as u16) << 8) | (b as u16)) >> 8) & 0xFF) == a) by (bit_vector);
    assert(((((a as u16) << 8) | (b as u16)) & 0xFF) == b) by (bit_vector);
}

pub proof fn lemma_u32_of_be(a: u8, b: u8, c: u8, d: u8)
    ensures
        u32_be(u32_of(a, b, c, d)) == seq![a, b, c, d],
{
    let x = u32_of(a, b, c, d);
    assert((((((a as u32) << 24) | ((b as u32) << 16) | ((c as u32) << 8) | (d as u32)) >> 24)
        & 0xFF) == a) by (bit_vector);
    assert((((((a as u32) << 24) | ((b as u32) << 16) | ((c as u32) << 8) | (d as u32)) >> 16)
        & 0xFF) == b) by (bit_vector);
    assert((((((a as u32) << 24) | ((b as u32) << 16) | ((c as u32) << 8) | (d as u32)) >> 8)
        & 0xFF) == c) by (bit_vector);
    assert(((((a as u32) << 24) | ((b as u32) << 16) | ((c as u32) << 8) | (d as u32)) & 0xFF)
        == d) by (bit_vector);
    assert(u32_be(x) =~= seq![a, b, c, d]);
}

} // verus!
