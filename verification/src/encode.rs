//! Executable encoder: option records, the 16-bit word stream of the
//! options, and the full segment byte stream.

use vstd::prelude::*;

use crate::model::{
    lemma_opts_enc_snoc, lemma_sack_enc_snoc, lemma_words_of_extend, opt_enc, opts_enc, opts_wf,
    sack_enc, seg_enc, u16_be, u16_of, u32_be, words_of,
};
use crate::util::{U16ToU8, U32ToU8};
use crate::{opts_view, TcpOpts, TcpSegment};

verus! {

/// Encodes one option record onto the end of `out`.
fn encode_option(out: &mut Vec<u8>, opt: &TcpOpts)
    requires
        crate::model::opt_wf(opt@),
    ensures
        final(out)@ == old(out)@ + opt_enc(opt@),
{
    let ghost prev = out@;
    out.push(opt.opt_flag());
    match opt {
        TcpOpts::END | TcpOpts::NOP => {
            proof {
                assert(out@ =~= prev + opt_enc(opt@));
            }
        },
        TcpOpts::MSS(mss) => {
            out.push(0x04);
            let bytes = mss.to_u8();
            out.push(bytes[0]);
            out.push(bytes[1]);
            proof {
                assert(out@ =~= prev + opt_enc(opt@));
            }
        },
        TcpOpts::WindowScale(scale) => {
            out.push(0x03);
            out.push(*scale);
            proof {
                assert(out@ =~= prev + opt_enc(opt@));
            }
        },
        TcpOpts::SAckPermitted => {
            out.push(0x02);
            proof {
                assert(out@ =~= prev + opt_enc(opt@));
            }
        },
        TcpOpts::SAck(ptrs) => {
            out.push((ptrs.len() as u8) * 8 + 2);
            let ghost head = out@;
            let mut k: usize = 0;
            while k < ptrs.len()
                invariant
                    k <= ptrs@.len() <= 4,
                    out@ == head + sack_enc(ptrs@.take(k as int)),
                decreases ptrs@.len() - k,
            {
                let ghost before = out@;
                let (left, right) = ptrs[k];
                let lb = left.to_u8();
                out.push(lb[0]);
                out.push(lb[1]);
                out.push(lb[2]);
                out.push(lb[3]);
                let rb = right.to_u8();
                out.push(rb[0]);
                out.push(rb[1]);
                out.push(rb[2]);
                out.push(rb[3]);
                proof {
                    lemma_sack_enc_snoc(ptrs@.take(k as int), ptrs@[k as int]);
                    assert(ptrs@.take(k + 1) =~= ptrs@.take(k as int).push(ptrs@[k as int]));
                    assert(out@ =~= head + sack_enc(ptrs@.take(k + 1)));
                }
                k = k + 1;
            }
            proof {
                assert(ptrs@.take(ptrs@.len() as int) =~= ptrs@);
                assert(out@ =~= prev + opt_enc(opt@));
            }
        },
        TcpOpts::TimeStamp { time, echo } => {
            out.push(0x0A);
            let tb = time.to_u8();
            out.push(tb[0]);
            out.push(tb[1]);
            out.push(tb[2]);
            out.push(tb[3]);
            let eb = echo.to_u8();
            out.push(eb[0]);
            out.push(eb[1]);
            out.push(eb[2]);
            out.push(eb[3]);
            proof {
                assert(out@ =~= prev + opt_enc(opt@));
            }
        },
    }
}

/// Encodes an option list in declaration order, with no added padding.
pub(crate) fn encode_options(opts: &Vec<TcpOpts>) -> (r: Vec<u8>)
    requires
        opts_wf(opts_view(opts@)),
    ensures
        r@ == opts_enc(opts_view(opts@)),
{
    let mut r: Vec<u8> = Vec::new();
    let mut j: usize = 0;
    proof {
        assert(opts_view(opts@.take(0)) =~= Seq::<crate::model::OptModel>::empty());
        assert(r@ =~= opts_enc(opts_view(opts@.take(0))));
    }
    while j < opts.len()
        invariant
            j <= opts@.len(),
            opts_wf(opts_view(opts@)),
            r@ == opts_enc(opts_view(opts@.take(j as int))),
        decreases opts@.len() - j,
    {
        proof {
            assert(opts_view(opts@)[j as int] == opts@[j as int]@);
        }
        encode_option(&mut r, &opts[j]);
        proof {
            lemma_opts_enc_snoc(opts_view(opts@.take(j as int)), opts@[j as int]@);
            assert(opts_view(opts@.take(j + 1)) =~= opts_view(opts@.take(j as int)).push(
                opts@[j as int]@,
            ));
        }
        j = j + 1;
    }
    proof {
        assert(opts_view(opts@.take(opts@.len() as int)) =~= opts_view(opts@));
    }
    r
}

/// Appends the 16-bit words of a byte sequence: consecutive bytes paired
/// big-endian, a final odd byte as the high byte of a zero-padded word.
pub(crate) fn append_byte_words(ws: &mut Vec<u16>, b: &[u8])
    ensures
        final(ws)@ == old(ws)@ + words_of(b@),
{
    let ghost head = ws@;
    let n = b.len();
    let mut i: usize = 0;
    proof {
        assert(words_of(b@.take(0)) =~= Seq::<u16>::empty());
        assert(ws@ =~= head + words_of(b@.take(0)));
    }
    while i < n && i + 1 < n
        invariant
            i <= n,
            i % 2 == 0,
            n == b@.len(),
            ws@ == head + words_of(b@.take(i as int)),
        decreases n - i,
    {
        ws.push(((b[i] as u16) << 8) | (b[i + 1] as u16));
        proof {
            lemma_words_of_extend(b@, i as int);
            assert(ws@ =~= head + words_of(b@.take(i + 2)));
        }
        i = i + 2;
    }
    if i < n {
        ws.push(((b[i] as u16) << 8) | (0u8 as u16));
        proof {
            assert(u16_of(b@[i as int], 0) == ((b@[i as int] as u16) << 8) | (0u8 as u16));
            lemma_words_of_extend(b@, i as int);
            assert(ws@ =~= head + words_of(b@.take(i + 1)));
            assert(b@.take(i + 1) =~= b@);
        }
    } else {
        proof {
            assert(b@.take(i as int) =~= b@);
        }
    }
}

/// An option list seen as the 16-bit word stream of its encoding.
pub trait TcpOptStream: View<V = Seq<TcpOpts>> {
    /// The encoded options paired into 16-bit words for checksum use; the
    /// pairing exactly mirrors the encoded byte stream.
    fn as_u16_stream(&self) -> (r: Vec<u16>)
        requires
            opts_wf(opts_view(self@)),
        ensures
            r@ == words_of(opts_enc(opts_view(self@))),
    ;
}

impl TcpOptStream for Vec<TcpOpts> {
    fn as_u16_stream(&self) -> (r: Vec<u16>) {
        let bytes = encode_options(self);
        let mut ws: Vec<u16> = Vec::new();
        append_byte_words(&mut ws, bytes.as_slice());
        proof {
            assert(ws@ =~= words_of(opts_enc(opts_view(self@))));
        }
        ws
    }
}

impl TcpSegment {
    /// Serializes this segment: the header fields in their fixed order with
    /// the data offset and control flags packed into their combined 16-bit
    /// word, then the encoded options, then the payload verbatim.
    pub fn as_bytestream(&self) -> (r: Vec<u8>)
        requires
            self.wf(),
        ensures
            r@ == seg_enc(self@),
    {
        let mut data: Vec<u8> = Vec::new();
        push_u16(&mut data, self.src_port);
        push_u16(&mut data, self.dest_port);
        push_u32(&mut data, self.seq_num);
        push_u32(&mut data, self.ack_num);
        push_u16(&mut data, ((self.data_off as u16) << 12) | (self.ctrl_flags & 0x1FF));
        push_u16(&mut data, self.window);
        push_u16(&mut data, self.checksum);
        push_u16(&mut data, self.urg_ptr);
        let ghost header = data@;
        proof {
            assert(header =~= u16_be(self.src_port) + u16_be(self.dest_port) + u32_be(
                self.seq_num,
            ) + u32_be(self.ack_num) + u16_be(
                ((self.data_off as u16) << 12) | (self.ctrl_flags & 0x1FF),
            ) + u16_be(self.window) + u16_be(self.checksum) + u16_be(self.urg_ptr));
        }
        let mut opt_bytes = encode_options(&self.options);
        data.append(&mut opt_bytes);
        let mut i: usize = 0;
        let ghost with_opts = data@;
        while i < self.data.len()
            invariant
                i <= self.data@.len(),
                data@ == with_opts + self.data@.take(i as int),
            decreases self.data@.len() - i,
        {
            data.push(self.data[i]);
            proof {
                assert(data@ =~= with_opts + self.data@.take(i + 1));
            }
            i = i + 1;
        }
        proof {
            assert(self.data@.take(self.data@.len() as int) =~= self.data@);
            assert(data@ =~= seg_enc(self@));
        }
        data
    }
}

/// Pushes the two big-endian bytes of a 16-bit value.
fn push_u16(out: &mut Vec<u8>, x: u16)
    ensures
        final(out)@ == old(out)@ + u16_be(x),
{
    let bytes = x.to_u8();
    out.push(bytes[0]);
    out.push(bytes[1]);
    proof {
        assert(out@ =~= old(out)@ + u16_be(x));
    }
}

/// Pushes the four big-endian bytes of a 32-bit value.
fn push_u32(out: &mut Vec<u8>, x: u32)
    ensures
        final(out)@ == old(out)@ + u32_be(x),
{
    let bytes = x.to_u8();
    out.push(bytes[0]);
    out.push(bytes[1]);
    out.push(bytes[2]);
    out.push(bytes[3]);
    proof {
        assert(out@ =~= old(out)@ + u32_be(x));
    }
}

} // verus!
