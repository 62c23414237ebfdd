//! Round-trip and determinism properties of the segment codec.

use vstd::prelude::*;

use crate::model::{
    lemma_pack_off_flags, lemma_u16_of_be, lemma_u32_of_be, opt_cons, opt_enc, opt_wf, opts_enc,
    opts_wf, parse_opts, parse_seg, sack_enc, sack_parse, seg_enc, u16_be, u16_of, u32_be,
    u32_of, OptModel, SegModel, TcpParseError,
};

verus! {

/// Re-encoding the selective-acknowledgment blocks decoded from a byte
/// sequence of block-aligned length restores that sequence.
pub proof fn lemma_sack_roundtrip(b: Seq<u8>)
    requires
        b.len() % 8 == 0,
    ensures
        sack_enc(sack_parse(b)) == b,
    decreases b.len(),
{
    let ps = sack_parse(b);
    if b.len() == 0 {
        assert(sack_enc(ps) =~= b);
    } else {
        assert(b.len() >= 8);
        let rest = b.skip(8);
        assert(rest.len() % 8 == 0);
        assert(ps.drop_first() =~= sack_parse(rest));
        lemma_sack_roundtrip(rest);
        lemma_u32_of_be(b[0], b[1], b[2], b[3]);
        lemma_u32_of_be(b[4], b[5], b[6], b[7]);
        assert(sack_enc(ps) == u32_be(ps[0].0) + u32_be(ps[0].1) + rest);
        assert(u32_be(ps[0].0) + u32_be(ps[0].1) + rest =~= b);
    }
}

/// Re-encoding the option list decoded from an options region restores the
/// region byte for byte; the decoded list is well-formed.
pub proof fn lemma_opts_roundtrip(b: Seq<u8>)
    requires
        parse_opts(b) is Some,
    ensures
        opts_enc(parse_opts(b)->Some_0) == b,
        opts_wf(parse_opts(b)->Some_0),
    decreases b.len(),
{
    let os = parse_opts(b)->Some_0;
    if b.len() == 0 {
        assert(opts_enc(os) =~= b);
    } else {
        let tag = b[0];
        let k: int = if tag == crate::END || tag == crate::NOP {
            1
        } else if tag == crate::MSS {
            4
        } else if tag == crate::SCALE {
            3
        } else if tag == crate::SACKPERM {
            2
        } else if tag == crate::SACK {
            b[1] as int
        } else {
            10
        };
        let m = parse_one(b);
        assert(parse_opts(b) == opt_cons(m, parse_opts(b.skip(k))));
        let rest = parse_opts(b.skip(k))->Some_0;
        assert(os == seq![m] + rest);
        lemma_opts_roundtrip(b.skip(k));
        assert(os[0] == m);
        assert(os.drop_first() =~= rest);
        assert(opts_enc(os) == opt_enc(m) + opts_enc(rest));
        lemma_one_enc(b);
        assert(opt_enc(m) + opts_enc(rest) =~= b) by {
            assert(opt_enc(m) == b.take(k));
            assert(opts_enc(rest) == b.skip(k));
        }
        assert(opts_wf(os)) by {
            assert(opt_wf(m));
            assert(forall|i: int| 0 <= i < os.len() ==> opt_wf(#[trigger] os[i])) by {
                assert(forall|i: int| 1 <= i < os.len() ==> os[i] == rest[i - 1]);
            }
        }
    }
}

/// The first option of a non-empty options region that parses.
spec fn parse_one(b: Seq<u8>) -> OptModel {
    let tag = b[0];
    if tag == crate::END {
        OptModel::End
    } else if tag == crate::NOP {
        OptModel::Nop
    } else if tag == crate::MSS {
        OptModel::Mss(u16_of(b[2], b[3]))
    } else if tag == crate::SCALE {
        OptModel::Scale(b[2])
    } else if tag == crate::SACKPERM {
        OptModel::SackPerm
    } else if tag == crate::SACK {
        OptModel::Sack(sack_parse(b.subrange(2, b[1] as int)))
    } else {
        OptModel::Time {
            time: u32_of(b[2], b[3], b[4], b[5]),
            echo: u32_of(b[6], b[7], b[8], b[9]),
        }
    }
}

/// The first decoded option of a region that parses re-encodes to exactly
/// the bytes its record occupied, and is well-formed.
proof fn lemma_one_enc(b: Seq<u8>)
    requires
        b.len() > 0,
        parse_opts(b) is Some,
    ensures
        opt_enc(parse_one(b)) == b.take(
            match parse_one(b) {
                OptModel::End => 1,
                OptModel::Nop => 1,
                OptModel::Mss(_) => 4,
                OptModel::Scale(_) => 3,
                OptModel::SackPerm => 2,
                OptModel::Sack(_) => b[1] as int,
                OptModel::Time { .. } => 10,
            },
        ),
        opt_wf(parse_one(b)),
{
    let tag = b[0];
    let m = parse_one(b);
    if tag == crate::END || tag == crate::NOP {
        assert(opt_enc(m) =~= b.take(1));
    } else if tag == crate::MSS {
        lemma_u16_of_be(b[2], b[3]);
        assert(opt_enc(m) =~= b.take(4));
    } else if tag == crate::SCALE {
        assert(opt_enc(m) =~= b.take(3));
    } else if tag == crate::SACKPERM {
        assert(opt_enc(m) =~= b.take(2));
    } else if tag == crate::SACK {
        let len: int = b[1] as int;
        let sub = b.subrange(2, len);
        let ps = sack_parse(sub);
        assert((len - 2) % 8 == 0 && 1 <= (len - 2) / 8 <= 4 && len <= b.len());
        vstd::arithmetic::div_mod::lemma_fundamental_div_mod(len - 2, 8);
        assert(8 * ((len - 2) / 8) == len - 2);
        assert(ps.len() == (len - 2) / 8);
        lemma_sack_roundtrip(sub);
        assert(ps.len() * 8 + 2 == len);
        assert(opt_enc(m) == seq![crate::SACK, (ps.len() * 8 + 2) as u8] + sack_enc(ps));
        assert(opt_enc(m) =~= b.take(len));
    } else {
        assert(tag == crate::TIME);
        lemma_u32_of_be(b[2], b[3], b[4], b[5]);
        lemma_u32_of_be(b[6], b[7], b[8], b[9]);
        assert(opt_enc(m) =~= b.take(10));
    }
}

/// Round trip: for every buffer that decodes to a segment, encoding that
/// segment restores the buffer byte for byte; the decoded segment satisfies
/// the segment invariant.
pub proof fn lemma_parse_encode_roundtrip(b: Seq<u8>)
    requires
        parse_seg(b) is Ok,
    ensures
        seg_enc(parse_seg(b)->Ok_0) == b,
        parse_seg(b)->Ok_0.wf(),
{
    let s = parse_seg(b)->Ok_0;
    let doff: int = (b[12] >> 4) as int;
    let region = b.subrange(20, 4 * doff);
    lemma_opts_roundtrip(region);
    lemma_pack_off_flags(b[12], b[13]);
    lemma_u16_of_be(b[0], b[1]);
    lemma_u16_of_be(b[2], b[3]);
    lemma_u32_of_be(b[4], b[5], b[6], b[7]);
    lemma_u32_of_be(b[8], b[9], b[10], b[11]);
    lemma_u16_of_be(b[14], b[15]);
    lemma_u16_of_be(b[16], b[17]);
    lemma_u16_of_be(b[18], b[19]);
    assert(s.wf());
    assert(u16_be((((s.data_off as u16) << 12) | (s.ctrl_flags & 0x1FF))) =~= seq![b[12], b[13]]);
    assert(seg_enc(s) =~= b);
}

/// Idempotence: decoding the same bytes twice yields field-for-field equal
/// segments, because decoding is a function of the input bytes alone.
pub proof fn lemma_parse_deterministic(b: Seq<u8>, s1: SegModel, s2: SegModel)
    requires
        parse_seg(b) == Ok::<SegModel, TcpParseError>(s1),
        parse_seg(b) == Ok::<SegModel, TcpParseError>(s2),
    ensures
        s1 == s2,
{
}

} // verus!
