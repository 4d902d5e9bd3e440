//! The Fiat-Shamir transcript: an append-only byte log with a deterministic
//! challenge source.
//!
//! Every message byte is mixed into a running state, and challenges are read
//! off that state, so the challenge stream is a function of the exact byte
//! sequence written so far — the ordering of writes is part of the protocol's
//! soundness contract.

use vstd::prelude::*;

verus! {

/// Multiplier of the byte-mixing permutation.
pub const MIX_MULTIPLIER: u64 = 0x100000001b3;

/// Post-sample state separator.
pub const SAMPLE_TWEAK: u64 = 0x9e3779b97f4a7c15;

/// Mixing one byte into the challenge state.
pub open spec fn mix_spec(state: u64, b: u8) -> u64 {
    state.wrapping_mul(MIX_MULTIPLIER) ^ (b as u64)
}

/// Mixing a whole byte sequence, first byte first.
pub open spec fn mix_seq_spec(state: u64, bs: Seq<u8>) -> u64
    decreases bs.len(),
{
    if bs.len() == 0 {
        state
    } else {
        mix_seq_spec(mix_spec(state, bs[0]), bs.drop_first())
    }
}

/// The little-endian byte pair of one scalar message.
pub open spec fn scalar_bytes(x: u16) -> Seq<u8> {
    seq![(x & 0xff) as u8, (x >> 8) as u8]
}

/// The challenge read off a given state.
pub open spec fn challenge_of(state: u64) -> u16 {
    (state ^ (state >> 16)) as u16
}

/// The state after a challenge has been consumed.
pub open spec fn advance_spec(state: u64) -> u64 {
    state.wrapping_mul(MIX_MULTIPLIER) ^ SAMPLE_TWEAK
}

/// Mixing a single byte.
pub proof fn lemma_mix_one(state: u64, b: u8)
    ensures
        mix_seq_spec(state, seq![b]) == mix_spec(state, b),
{
    assert(seq![b][0] == b);
    assert(seq![b].drop_first() =~= Seq::<u8>::empty());
    assert(mix_seq_spec(mix_spec(state, b), Seq::<u8>::empty()) == mix_spec(state, b));
}

/// Mixing a concatenation mixes the parts in order.
pub proof fn lemma_mix_seq_append(state: u64, x: Seq<u8>, y: Seq<u8>)
    ensures
        mix_seq_spec(state, x + y) == mix_seq_spec(mix_seq_spec(state, x), y),
    decreases x.len(),
{
    if x.len() == 0 {
        assert(x + y =~= y);
    } else {
        assert((x + y)[0] == x[0]);
        assert((x + y).drop_first() =~= x.drop_first() + y);
        lemma_mix_seq_append(mix_spec(state, x[0]), x.drop_first(), y);
    }
}

/// Single-writer sequential message log plus the challenge state derived
/// from it.
pub struct ProverTranscript {
    pub bytes: Vec<u8>,
    pub state: u64,
}

impl ProverTranscript {
    /// Start a transcript from a caller-chosen seed.
    pub fn new(seed: u64) -> (r: Self)
        ensures
            r.bytes@ == Seq::<u8>::empty(),
            r.state == seed,
    {
        ProverTranscript { bytes: Vec::new(), state: seed }
    }

    /// Append one message byte and mix it into the challenge state.
    pub fn write_byte(&mut self, b: u8)
        ensures
            final(self).bytes@ == old(self).bytes@.push(b),
            final(self).state == mix_spec(old(self).state, b),
    {
        self.bytes.push(b);
        self.state = self.state.wrapping_mul(MIX_MULTIPLIER) ^ (b as u64);
    }

    /// Append one scalar message, low byte first.
    pub fn write_scalar(&mut self, x: u16)
        ensures
            final(self).bytes@ == old(self).bytes@ + scalar_bytes(x),
            final(self).state == mix_seq_spec(old(self).state, scalar_bytes(x)),
    {
        let ghost bs = scalar_bytes(x);
        proof {
            assert(x & 0xff < 256) by (bit_vector);
            assert(x >> 8 < 256) by (bit_vector);
        }
        let lo: u8 = (x & 0xff) as u8;
        let hi: u8 = (x >> 8) as u8;
        self.write_byte(lo);
        self.write_byte(hi);
        proof {
            let s0 = old(self).state;
            let tl = seq![bs[1]];
            assert(bs[0] == lo && bs[1] == hi);
            assert(bs.drop_first() =~= tl);
            assert(tl.drop_first() =~= Seq::<u8>::empty());
            assert(mix_seq_spec(s0, bs) == mix_seq_spec(mix_spec(s0, lo), tl));
            assert(mix_seq_spec(mix_spec(s0, lo), tl) == mix_seq_spec(
                mix_spec(mix_spec(s0, lo), hi),
                tl.drop_first(),
            ));
            assert(old(self).bytes@.push(lo).push(hi) =~= old(self).bytes@ + bs);
        }
    }

    /// Draw the next verifier challenge from the current state.
    pub fn sample(&mut self) -> (c: u16)
        ensures
            c == challenge_of(old(self).state),
            final(self).bytes@ == old(self).bytes@,
            final(self).state == advance_spec(old(self).state),
    {
        let c: u16 = ((self.state ^ (self.state >> 16)) & 0xffff) as u16;
        proof {
            let s = self.state;
            assert(((s ^ (s >> 16)) & 0xffff) as u16 == (s ^ (s >> 16)) as u16) by (bit_vector);
        }
        self.state = self.state.wrapping_mul(MIX_MULTIPLIER) ^ SAMPLE_TWEAK;
        c
    }
}

} // verus!
