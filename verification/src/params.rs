//! Codec parameters of the LZSS stream format.

use vstd::arithmetic::power2::{lemma2_to64, lemma_pow2_strictly_increases, pow2};
use vstd::bits::lemma_u32_shl_is_mul;
use vstd::prelude::*;

verus! {

/// Largest accepted number of window index bits: the window then still fits
/// every address space.
pub const MAX_INDEX_BITS: u32 = 30;

/// The parameters of one LZSS dialect.
///
/// A value of this type always satisfies [`LzssParams::wf`].
#[derive(Clone, Copy, Debug)]
pub struct LzssParams {
    window_index_bits: u32,
    length_bits: u32,
    match_threshold: u32,
    window_init_value: i32,
}

impl LzssParams {
    /// Number of bits of a window index (EI).
    pub closed spec fn ei(self) -> nat {
        self.window_index_bits as nat
    }

    /// Number of bits of an encoded run length (EJ).
    pub closed spec fn ej(self) -> nat {
        self.length_bits as nat
    }

    /// Shortest run that is stored as a back-reference, less one (P).
    pub closed spec fn threshold(self) -> nat {
        self.match_threshold as nat
    }

    /// Fill code the window is initialised from.
    pub closed spec fn fill_code(self) -> i32 {
        self.window_init_value
    }

    /// Size of the sliding window (N).
    pub open spec fn window_size(self) -> nat {
        pow2(self.ei())
    }

    /// Number of distinct encoded run lengths (F).
    pub open spec fn run_span(self) -> nat {
        pow2(self.ej())
    }

    /// Window position of the first decoded byte: `(N - F) - P`.
    pub open spec fn start_cursor(self) -> nat {
        (self.window_size() - self.run_span() - self.threshold()) as nat
    }

    /// The parameters describe a window that can be allocated and a start
    /// cursor inside it.
    #[verifier::type_invariant]
    pub open spec fn wf(self) -> bool {
        &&& self.ei() <= MAX_INDEX_BITS
        &&& self.run_span() + self.threshold() <= self.window_size()
    }

    /// The parameters every WRS archive entry is stored with: a 4096-byte
    /// window of spaces, 16 run lengths, threshold 2.
    pub closed spec fn archive() -> LzssParams {
        LzssParams {
            window_index_bits: 12,
            length_bits: 4,
            match_threshold: 2,
            window_init_value: 0x20,
        }
    }

    /// What [`LzssParams::new`] accepts.
    pub open spec fn accepts(ei: u32, ej: u32, p: u32) -> bool {
        &&& ei <= MAX_INDEX_BITS
        &&& pow2(ej as nat) + p <= pow2(ei as nat)
    }

    /// Checked constructor: `None` exactly when the window would be too
    /// large or too small to hold the start cursor.
    pub fn new(
        window_index_bits: u32,
        length_bits: u32,
        match_threshold: u32,
        window_init_value: i32,
    ) -> (r: Option<LzssParams>)
        ensures
            r is Some <==> Self::accepts(window_index_bits, length_bits, match_threshold),
            r matches Some(p) ==> {
                &&& p.wf()
                &&& p.ei() == window_index_bits
                &&& p.ej() == length_bits
                &&& p.threshold() == match_threshold
                &&& p.fill_code() == window_init_value
            },
    {
        if window_index_bits > MAX_INDEX_BITS {
            return None;
        }
        if length_bits > window_index_bits {
            proof {
                lemma_pow2_strictly_increases(window_index_bits as nat, length_bits as nat);
            }
            return None;
        }
        proof {
            lemma_pow2_bounds(window_index_bits as nat);
            lemma_pow2_bounds(length_bits as nat);
            if length_bits < window_index_bits {
                lemma_pow2_strictly_increases(length_bits as nat, window_index_bits as nat);
            }
            lemma_u32_shl_is_mul(1, window_index_bits);
            lemma_u32_shl_is_mul(1, length_bits);
        }
        let n: u32 = 1u32 << window_index_bits;
        let f: u32 = 1u32 << length_bits;
        if match_threshold > n - f {
            return None;
        }
        Some(
            LzssParams { window_index_bits, length_bits, match_threshold, window_init_value },
        )
    }

    /// Number of bits of a window index (EI).
    pub fn window_index_bits(&self) -> (r: u32)
        ensures
            r == self.ei(),
    {
        self.window_index_bits
    }

    /// Number of bits of an encoded run length (EJ).
    pub fn length_bits(&self) -> (r: u32)
        ensures
            r == self.ej(),
    {
        self.length_bits
    }

    /// Shortest run that is stored as a back-reference, less one (P).
    pub fn match_threshold(&self) -> (r: u32)
        ensures
            r == self.threshold(),
    {
        self.match_threshold
    }

    /// Fill code the window is initialised from.
    pub fn window_init_value(&self) -> (r: i32)
        ensures
            r == self.fill_code(),
    {
        self.window_init_value
    }

    /// Size of the sliding window, `1 << EI`.
    pub fn window_len(&self) -> (r: usize)
        ensures
            r == self.window_size(),
            0 < r <= 0x4000_0000,
    {
        proof {
            use_type_invariant(self);
            lemma_pow2_bounds(self.window_index_bits as nat);
            lemma_u32_shl_is_mul(1, self.window_index_bits);
        }
        (1u32 << self.window_index_bits) as usize
    }

    /// Number of distinct encoded run lengths, `1 << EJ`.
    pub fn run_len_span(&self) -> (r: u32)
        ensures
            r == self.run_span(),
            0 < r <= 0x4000_0000,
    {
        proof {
            use_type_invariant(self);
            lemma_run_span_bounded(*self);
            lemma_pow2_bounds(self.length_bits as nat);
            lemma_u32_shl_is_mul(1, self.length_bits);
        }
        1u32 << self.length_bits
    }
}

impl Default for LzssParams {
    /// The parameters every WRS archive entry is stored with.
    fn default() -> (r: LzssParams)
        ensures
            r == LzssParams::archive(),
    {
        proof {
            lemma_archive_params();
        }
        LzssParams {
            window_index_bits: 12,
            length_bits: 4,
            match_threshold: 2,
            window_init_value: 0x20,
        }
    }
}

/// The archive parameters are well formed: EI = 12, EJ = 4, P = 2, and a
/// window of spaces.
pub proof fn lemma_archive_params()
    ensures
        LzssParams::archive().wf(),
        LzssParams::archive().ei() == 12,
        LzssParams::archive().ej() == 4,
        LzssParams::archive().threshold() == 2,
        LzssParams::archive().fill_code() == 0x20,
        LzssParams::archive().window_size() == 4096,
        LzssParams::archive().run_span() == 16,
        LzssParams::archive().start_cursor() == 4078,
{
    lemma2_to64();
}

/// Powers of two up to the largest window stay within `2^30`.
proof fn lemma_pow2_bounds(e: nat)
    requires
        e <= MAX_INDEX_BITS,
    ensures
        0 < pow2(e) <= 0x4000_0000,
{
    lemma2_to64();
    if e < MAX_INDEX_BITS {
        lemma_pow2_strictly_increases(e, MAX_INDEX_BITS as nat);
    }
}

/// In well-formed parameters the run length bits do not exceed the index bits.
pub proof fn lemma_run_span_bounded(p: LzssParams)
    requires
        p.wf(),
    ensures
        p.ej() <= p.ei(),
        0 < p.run_span() <= p.window_size() <= 0x4000_0000,
        p.threshold() < p.window_size(),
        p.start_cursor() < p.window_size(),
{
    lemma_pow2_bounds(p.ei());
    if p.ej() > p.ei() {
        lemma_pow2_strictly_increases(p.ei(), p.ej());
    }
    lemma_pow2_bounds(p.ej());
}

} // verus!
