//! Executable decoder for the fixed header and the options region.

use vstd::prelude::*;

use crate::model::{
    lemma_glue_shift, opt_cons, opt_glue, parse_opts, parse_seg, sack_parse, u16_of, u32_of,
    OptModel, SegModel, TcpParseError,
};
use crate::{opts_view, TcpOpts, TcpSegment};

verus! {

/// Reads the 16-bit big-endian value at offset `i`.
fn read_u16(b: &[u8], i: usize) -> (r: u16)
    requires
        i + 2 <= b@.len(),
    ensures
        r == u16_of(b@[i as int], b@[i + 1]),
{
    ((b[i] as u16) << 8) | (b[i + 1] as u16)
}

/// Reads the 32-bit big-endian value at offset `i`.
fn read_u32(b: &[u8], i: usize) -> (r: u32)
    requires
        i + 4 <= b@.len(),
    ensures
        r == u32_of(b@[i as int], b@[i + 1], b@[i + 2], b@[i + 3]),
{
    ((b[i] as u32) << 24) | ((b[i + 1] as u32) << 16) | ((b[i + 2] as u32) << 8) | (b[i
        + 3] as u32)
}

/// An index into the unparsed suffix of the options region addresses the
/// underlying buffer at the cursor plus that index.
proof fn lemma_suffix_index(b: Seq<u8>, start: int, end: int, i: int, x: int)
    requires
        0 <= start <= i,
        0 <= x,
        i + x < end,
        end <= b.len(),
    ensures
        b.subrange(start, end).skip(i - start)[x] == b[i + x],
        b.subrange(start, end).skip(i - start).len() == end - i,
{
}

/// Skipping `k` more bytes of the suffix moves the cursor by `k`.
proof fn lemma_suffix_skip(b: Seq<u8>, start: int, end: int, i: int, k: int)
    requires
        0 <= start <= i,
        0 <= k,
        i + k <= end,
        end <= b.len(),
    ensures
        b.subrange(start, end).skip(i - start).skip(k) =~= b.subrange(start, end).skip(
            i + k - start,
        ),
{
}

/// The model sequence of a pushed option list grows by the pushed model.
proof fn lemma_opts_view_push(v: Seq<TcpOpts>, o: TcpOpts)
    ensures
        opts_view(v.push(o)) == opts_view(v).push(o@),
{
    assert(opts_view(v.push(o)) =~= opts_view(v).push(o@));
}

/// Reads `count` selective-acknowledgment blocks of 8 bytes each, starting
/// at offset `start`.
fn parse_sack_blocks(b: &[u8], start: usize, count: usize) -> (v: Vec<(u32, u32)>)
    requires
        start + 8 * count <= b@.len(),
    ensures
        v@ == sack_parse(b@.subrange(start as int, start + 8 * count)),
{
    let n = b.len();
    let mut v: Vec<(u32, u32)> = Vec::new();
    let mut k: usize = 0;
    proof {
        assert(v@ =~= sack_parse(b@.subrange(start as int, start as int)));
    }
    while k < count
        invariant
            k <= count,
            start + 8 * count <= n,
            n == b@.len(),
            v@ == sack_parse(b@.subrange(start as int, start + 8 * k)),
        decreases count - k,
    {
        let left = read_u32(b, start + 8 * k);
        let right = read_u32(b, start + 8 * k + 4);
        v.push((left, right));
        proof {
            assert(v@ =~= sack_parse(b@.subrange(start as int, start + 8 * (k + 1))));
        }
        k = k + 1;
    }
    v
}

/// Decodes the options region `b[start..end]`: a strict tag-length-value
/// loop over the closed option-kind set, failing on any unrecognized tag,
/// wrong record length, malformed selective-acknowledgment block count or
/// truncated record, and only succeeding when the whole region is consumed.
#[verifier::rlimit(60)]
pub(crate) fn parse_options(b: &[u8], start: usize, end: usize) -> (r: Result<
    Vec<TcpOpts>,
    TcpParseError,
>)
    requires
        start <= end <= b@.len(),
    ensures
        ({
            let region = b@.subrange(start as int, end as int);
            match r {
                Ok(v) => parse_opts(region) == Some(opts_view(v@)),
                Err(e) => parse_opts(region) is None && e == TcpParseError::InvalidOption,
            }
        }),
{
    let ghost region = b@.subrange(start as int, end as int);
    let mut acc: Vec<TcpOpts> = Vec::new();
    let mut i: usize = start;
    proof {
        assert(region.skip(0) =~= region);
        assert(opts_view(acc@) =~= Seq::<OptModel>::empty());
        if parse_opts(region) is Some {
            assert(opts_view(acc@) + parse_opts(region)->Some_0 =~= parse_opts(region)->Some_0);
        }
    }
    while i < end
        invariant
            start <= i <= end <= b@.len(),
            region == b@.subrange(start as int, end as int),
            parse_opts(region) == opt_glue(opts_view(acc@), parse_opts(region.skip(i - start))),
        decreases end - i,
    {
        let ghost suffix = region.skip(i - start);
        proof {
            lemma_suffix_index(b@, start as int, end as int, i as int, 0);
        }
        let tag = b[i];
        if tag == crate::END || tag == crate::NOP {
            let opt = if tag == crate::END {
                TcpOpts::END
            } else {
                TcpOpts::NOP
            };
            proof {
                assert(parse_opts(suffix) == opt_cons(opt@, parse_opts(suffix.skip(1))));
                lemma_suffix_skip(b@, start as int, end as int, i as int, 1);
                lemma_glue_shift(opts_view(acc@), opt@, parse_opts(region.skip(i + 1 - start)));
                lemma_opts_view_push(acc@, opt);
            }
            acc.push(opt);
            i = i + 1;
        } else if tag == crate::MSS {
            if !(end - i >= 4 && b[i + 1] == 4) {
                proof {
                    if i + 1 < end {
                        lemma_suffix_index(b@, start as int, end as int, i as int, 1);
                    }
                    assert(parse_opts(suffix) is None);
                }
                return Err(TcpParseError::InvalidOption);
            }
            let opt = TcpOpts::MSS(read_u16(b, i + 2));
            proof {
                lemma_suffix_index(b@, start as int, end as int, i as int, 1);
                lemma_suffix_index(b@, start as int, end as int, i as int, 2);
                lemma_suffix_index(b@, start as int, end as int, i as int, 3);
                assert(parse_opts(suffix) == opt_cons(opt@, parse_opts(suffix.skip(4))));
                lemma_suffix_skip(b@, start as int, end as int, i as int, 4);
                lemma_glue_shift(opts_view(acc@), opt@, parse_opts(region.skip(i + 4 - start)));
                lemma_opts_view_push(acc@, opt);
            }
            acc.push(opt);
            i = i + 4;
        } else if tag == crate::SCALE {
            if !(end - i >= 3 && b[i + 1] == 3) {
                proof {
                    if i + 1 < end {
                        lemma_suffix_index(b@, start as int, end as int, i as int, 1);
                    }
                    assert(parse_opts(suffix) is None);
                }
                return Err(TcpParseError::InvalidOption);
            }
            let opt = TcpOpts::WindowScale(b[i + 2]);
            proof {
                lemma_suffix_index(b@, start as int, end as int, i as int, 1);
                lemma_suffix_index(b@, start as int, end as int, i as int, 2);
                assert(parse_opts(suffix) == opt_cons(opt@, parse_opts(suffix.skip(3))));
                lemma_suffix_skip(b@, start as int, end as int, i as int, 3);
                lemma_glue_shift(opts_view(acc@), opt@, parse_opts(region.skip(i + 3 - start)));
                lemma_opts_view_push(acc@, opt);
            }
            acc.push(opt);
            i = i + 3;
        } else if tag == crate::SACKPERM {
            if !(end - i >= 2 && b[i + 1] == 2) {
                proof {
                    if i + 1 < end {
                        lemma_suffix_index(b@, start as int, end as int, i as int, 1);
                    }
                    assert(parse_opts(suffix) is None);
                }
                return Err(TcpParseError::InvalidOption);
            }
            let opt = TcpOpts::SAckPermitted;
            proof {
                lemma_suffix_index(b@, start as int, end as int, i as int, 1);
                assert(parse_opts(suffix) == opt_cons(opt@, parse_opts(suffix.skip(2))));
                lemma_suffix_skip(b@, start as int, end as int, i as int, 2);
                lemma_glue_shift(opts_view(acc@), opt@, parse_opts(region.skip(i + 2 - start)));
                lemma_opts_view_push(acc@, opt);
            }
            acc.push(opt);
            i = i + 2;
        } else if tag == crate::SACK {
            if end - i < 2 {
                proof {
                    assert(suffix.len() < 2);
                    assert(parse_opts(suffix) is None);
                }
                return Err(TcpParseError::InvalidOption);
            }
            proof {
                lemma_suffix_index(b@, start as int, end as int, i as int, 1);
            }
            let lb = b[i + 1];
            let ok = 10 <= lb && lb <= 34 && (lb - 2) % 8 == 0 && (lb as usize) <= end - i;
            proof {
                let cond = (suffix[1] - 2) % 8 == 0 && 1 <= (suffix[1] - 2) / 8 <= 4
                    && suffix[1] <= suffix.len();
                if lb >= 2 {
                    assert((lb - 2) as int == suffix[1] - 2);
                } else {
                    assert(suffix[1] - 2 < 0);
                    assert((suffix[1] - 2) % 8 != 0);
                }
                assert(ok <==> cond);
            }
            if !ok {
                proof {
                    assert(parse_opts(suffix) is None);
                }
                return Err(TcpParseError::InvalidOption);
            }
            let count = ((lb - 2) / 8) as usize;
            let blocks = parse_sack_blocks(b, i + 2, count);
            let opt = TcpOpts::SAck(blocks);
            proof {
                assert(suffix.subrange(2, lb as int) =~= b@.subrange(i + 2, i + 2 + 8 * (
                count as int)));
                assert(opt@ == OptModel::Sack(sack_parse(suffix.subrange(2, suffix[1] as int))));
                assert(parse_opts(suffix) == opt_cons(opt@, parse_opts(suffix.skip(lb as int))));
                lemma_suffix_skip(b@, start as int, end as int, i as int, lb as int);
                lemma_glue_shift(
                    opts_view(acc@),
                    opt@,
                    parse_opts(region.skip(i + lb - start)),
                );
                lemma_opts_view_push(acc@, opt);
            }
            acc.push(opt);
            i = i + (lb as usize);
        } else if tag == crate::TIME {
            if !(end - i >= 10 && b[i + 1] == 10) {
                proof {
                    if i + 1 < end {
                        lemma_suffix_index(b@, start as int, end as int, i as int, 1);
                    }
                    assert(parse_opts(suffix) is None);
                }
                return Err(TcpParseError::InvalidOption);
            }
            let opt = TcpOpts::TimeStamp {
                time: read_u32(b, i + 2),
                echo: read_u32(b, i + 6),
            };
            proof {
                lemma_suffix_index(b@, start as int, end as int, i as int, 1);
                lemma_suffix_index(b@, start as int, end as int, i as int, 2);
                lemma_suffix_index(b@, start as int, end as int, i as int, 3);
                lemma_suffix_index(b@, start as int, end as int, i as int, 4);
                lemma_suffix_index(b@, start as int, end as int, i as int, 5);
                lemma_suffix_index(b@, start as int, end as int, i as int, 6);
                lemma_suffix_index(b@, start as int, end as int, i as int, 7);
                lemma_suffix_index(b@, start as int, end as int, i as int, 8);
                lemma_suffix_index(b@, start as int, end as int, i as int, 9);
                assert(parse_opts(suffix) == opt_cons(opt@, parse_opts(suffix.skip(10))));
                lemma_suffix_skip(b@, start as int, end as int, i as int, 10);
                lemma_glue_shift(opts_view(acc@), opt@, parse_opts(region.skip(i + 10 - start)));
                lemma_opts_view_push(acc@, opt);
            }
            acc.push(opt);
            i = i + 10;
        } else {
            proof {
                assert(parse_opts(suffix) is None);
            }
            return Err(TcpParseError::InvalidOption);
        }
    }
    proof {
        assert(region.skip(i - start).len() == 0);
        assert(region.skip(i - start) =~= Seq::<u8>::empty());
        assert(opts_view(acc@) + Seq::<OptModel>::empty() =~= opts_view(acc@));
    }
    Ok(acc)
}

/// Decodes a whole segment buffer: fixed header fields at their fixed
/// offsets, validation of the data offset and the reserved bits, the options
/// region through the option codec, and the remainder as the payload.
/// All-or-nothing: either a fully validated segment or exactly one error.
pub fn parse(b: &[u8]) -> (r: Result<TcpSegment, TcpParseError>)
    ensures
        r is Ok <==> parse_seg(b@) is Ok,
        r matches Ok(seg) ==> seg@ == parse_seg(b@)->Ok_0 && seg.wf(),
        r matches Err(e) ==> parse_seg(b@) == Err::<SegModel, TcpParseError>(e),
        b@.len() < 20 <==> r == Err::<TcpSegment, TcpParseError>(TcpParseError::InvalidLength),
        b@.len() >= 20 ==> ((b@[12] >> 4) < 5 <==> r == Err::<TcpSegment, TcpParseError>(
            TcpParseError::InvalidDataOffset,
        )),
        b@.len() >= 20 && (b@[12] >> 4) >= 5 ==> ((b@[12] & 0x0E) != 0 <==> r == Err::<
            TcpSegment,
            TcpParseError,
        >(TcpParseError::InvalidReserved)),
{
    if b.len() < 20 {
        return Err(TcpParseError::InvalidLength);
    }
    let b12 = b[12];
    let data_off = b12 >> 4;
    if data_off < 5 {
        return Err(TcpParseError::InvalidDataOffset);
    }
    if b12 & 0x0E != 0 {
        return Err(TcpParseError::InvalidReserved);
    }
    let hdr_len = (data_off as usize) * 4;
    if b.len() < hdr_len {
        return Err(TcpParseError::InvalidOption);
    }
    let options = match parse_options(b, 20, hdr_len) {
        Ok(v) => v,
        Err(e) => {
            return Err(e);
        },
    };
    let payload = vstd::slice::slice_subrange(b, hdr_len, b.len());
    let data = vstd::slice::slice_to_vec(payload);
    let seg = TcpSegment {
        src_port: read_u16(b, 0),
        dest_port: read_u16(b, 2),
        seq_num: read_u32(b, 4),
        ack_num: read_u32(b, 8),
        data_off,
        ctrl_flags: (((b12 & 0x01) as u16) << 8) | (b[13] as u16),
        window: read_u16(b, 14),
        checksum: read_u16(b, 16),
        urg_ptr: read_u16(b, 18),
        options,
        data,
    };
    proof {
        assert(b@.subrange(hdr_len as int, b@.len() as int) =~= b@.skip(4 * (b@[12] >> 4) as int));
        assert(seg@ =~= parse_seg(b@)->Ok_0);
        crate::roundtrip::lemma_parse_encode_roundtrip(b@);
    }
    Ok(seg)
}

} // verus!
