//! Executable one's-complement checksum with 16-bit carry folding.

use vstd::prelude::*;

use crate::encode::TcpOptStream;
use crate::model::{checksum, csum_carry, csum_step, csum_sum, csum_words};
use crate::util::U32ToU16;
use crate::{IPv4PseudoHeader, TcpSegment};

verus! {

/// The low half, the high half and the sign bit of a 32-bit value, as the
/// checksum fold reads them.
proof fn lemma_fold_parts(x: u32)
    by (bit_vector)
    ensures
        x & 0xFFFF == x % 0x10000,
        x >> 16 == x / 0x10000,
        x >> 16 <= 0xFFFF,
        (x & 0x8000_0000 != 0) <==> x >= 0x8000_0000,
{
}

/// Adds one 16-bit value to the accumulator, folding the carry back in once
/// if bit 31 came on.
fn add_word(acc: u32, x: u16) -> (r: u32)
    requires
        acc < 0x8000_0000,
    ensures
        r == csum_step(acc as nat, x),
        r < 0x8000_0000,
{
    let s = acc + (x as u32);
    proof {
        lemma_fold_parts(s);
    }
    if s & 0x8000_0000 != 0 {
        (s & 0xFFFF) + (s >> 16)
    } else {
        s
    }
}

/// Adds every word of `ws` in order, starting from zero.
fn fold_sum(ws: &Vec<u16>) -> (r: u32)
    ensures
        r == csum_sum(ws@),
        r < 0x8000_0000,
{
    let mut acc: u32 = 0;
    let mut i: usize = 0;
    proof {
        assert(ws@.take(0) =~= Seq::<u16>::empty());
    }
    while i < ws.len()
        invariant
            i <= ws@.len(),
            acc == csum_sum(ws@.take(i as int)),
            acc < 0x8000_0000,
        decreases ws@.len() - i,
    {
        acc = add_word(acc, ws[i]);
        proof {
            assert(ws@.take(i + 1).drop_last() =~= ws@.take(i as int));
            assert(ws@.take(i + 1).last() == ws@[i as int]);
        }
        i = i + 1;
    }
    proof {
        assert(ws@.take(ws@.len() as int) =~= ws@);
    }
    acc
}

/// Folds the carry back into the low 16 bits until none is left.
fn carry_fold(start: u32) -> (r: u32)
    ensures
        r == csum_carry(start as nat),
        r <= 0xFFFF,
{
    let mut acc = start;
    while acc > 0xFFFF
        invariant
            csum_carry(acc as nat) == csum_carry(start as nat),
        decreases acc,
    {
        proof {
            lemma_fold_parts(acc);
        }
        acc = (acc & 0xFFFF) + (acc >> 16);
    }
    acc
}

impl TcpSegment {
    /// Calculates the one's-complement checksum of this segment against the
    /// provided pseudo-header, summing the pseudo-header, the fixed header
    /// fields (the embedded checksum excluded), the encoded options and the
    /// payload as 16-bit words with carry folding, then complementing the
    /// folded result.
    pub fn calculate_checksum(&self, pseudo_header: IPv4PseudoHeader) -> (r: u16)
        requires
            self.wf(),
        ensures
            r == checksum(pseudo_header, self@),
    {
        let mut ws: Vec<u16> = Vec::new();
        let (src_hi, src_lo) = pseudo_header.source_addr.to_u16();
        ws.push(src_hi);
        ws.push(src_lo);
        let (dst_hi, dst_lo) = pseudo_header.dest_addr.to_u16();
        ws.push(dst_hi);
        ws.push(dst_lo);
        ws.push(pseudo_header.protocol as u16);
        ws.push(pseudo_header.tcp_len);
        ws.push(self.src_port);
        ws.push(self.dest_port);
        let (seq_hi, seq_lo) = self.seq_num.to_u16();
        ws.push(seq_hi);
        ws.push(seq_lo);
        let (ack_hi, ack_lo) = self.ack_num.to_u16();
        ws.push(ack_hi);
        ws.push(ack_lo);
        ws.push(((self.data_off as u16) << 12) | self.ctrl_flags);
        ws.push(self.window);
        ws.push(self.urg_ptr);
        let mut opt_words = self.options.as_u16_stream();
        ws.append(&mut opt_words);
        crate::encode::append_byte_words(&mut ws, self.data.as_slice());
        proof {
            assert(ws@ =~= csum_words(pseudo_header, self@));
        }
        let total = fold_sum(&ws);
        let folded = carry_fold(total);
        proof {
            assert(csum_carry(csum_sum(csum_words(pseudo_header, self@))) % 0x10000 == csum_carry(
                csum_sum(csum_words(pseudo_header, self@)),
            ));
        }
        !(folded as u16)
    }
}

} // verus!
