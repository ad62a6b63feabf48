//! The LZSS decoder: a mathematical model of the stream format and the
//! executable decoder that is proved to compute it.

use crate::params::{lemma_run_span_bounded, LzssParams};
use crate::window::{initial_window, new_window};
use vstd::arithmetic::power2::{lemma_pow2_pos, pow2};
use vstd::bits::{lemma_u32_low_bits_mask_is_mod, lemma_u32_shr_is_div, low_bits_mask};
use vstd::prelude::*;

verus! {

/// Why the decoding of one entry failed.
#[derive(Debug, Clone, Copy, PartialEq, Eq, Structural)]
pub enum DecodeError {
    /// The compressed stream ended after `produced` bytes, before the
    /// output was full.
    ShortDecode { produced: usize },
    /// A back-reference ran past the end of the output.
    OutputOverflow,
}

/// Where decoded bytes go: the circular window, the write cursor into it,
/// and the output so far.
pub struct Sink {
    pub window: Seq<u8>,
    pub cursor: nat,
    pub out: Seq<u8>,
}

impl Sink {
    /// One byte is appended to the output and stored at the cursor, which
    /// moves on circularly.
    pub open spec fn emit(self, c: u8) -> Sink {
        Sink {
            window: self.window.update(self.cursor as int, c),
            cursor: (self.cursor + 1) % self.window.len(),
            out: self.out.push(c),
        }
    }

    /// `count` bytes are copied from window position `from` on, one at a
    /// time: each is read from the window as the bytes before it left it, so
    /// a run may read what it has just written.
    pub open spec fn copy(self, from: nat, count: nat) -> Sink
        decreases count,
    {
        if count == 0 {
            self
        } else {
            let before = self.copy(from, (count - 1) as nat);
            before.emit(before.window[(from + count - 1) % (before.window.len() as int)])
        }
    }
}

/// The decoder between two tokens.
pub struct DecoderState {
    /// Number of input bytes consumed.
    pub pos: nat,
    /// The control register: the decisions of the current control byte that
    /// are still unused, below a run of sentinel bits.
    pub flags: nat,
    pub sink: Sink,
}

/// What one token does to the decoder.
pub enum Step {
    /// The token was decoded.
    Next(DecoderState),
    /// The input ended before or inside the token.
    End,
    /// The token does not fit the output, which is left holding these bytes.
    Overflow(Seq<u8>),
}

/// How a decode ends, with the bytes that were written.
pub enum Outcome {
    /// The output was filled.
    Complete(Seq<u8>),
    /// The input ended first.
    Short(Seq<u8>),
    /// A token ran past the end of the output.
    Overflow(Seq<u8>),
}

impl Outcome {
    /// The bytes that were written.
    pub open spec fn bytes(self) -> Seq<u8> {
        match self {
            Outcome::Complete(b) => b,
            Outcome::Short(b) => b,
            Outcome::Overflow(b) => b,
        }
    }

    /// The outcome as the decoder reports it.
    pub open spec fn status(self) -> Result<(), DecodeError> {
        match self {
            Outcome::Complete(_) => Ok(()),
            Outcome::Short(b) => Err(DecodeError::ShortDecode { produced: b.len() as usize }),
            Outcome::Overflow(_) => Err(DecodeError::OutputOverflow),
        }
    }
}

/// The control register after a control byte was loaded: the byte below
/// eight sentinel bits.
pub open spec fn reloaded(control: u8) -> nat {
    control as nat + 0xff00
}

/// Window position a back-reference copies from: the first byte, extended
/// at the top by the high bits of the second.
pub open spec fn back_ref_from(i: u8, j: u8, run_span: nat) -> nat {
    i as nat + 256 * (j as nat / run_span)
}

/// Number of bytes a back-reference copies: the low bits of its second
/// byte, plus the threshold, plus one.
pub open spec fn back_ref_count(j: u8, run_span: nat, threshold: nat) -> nat {
    j as nat % run_span + threshold + 1
}

/// The token at the input cursor, decoded under the decision in bit 0 of
/// the control register: a literal byte, or a two-byte back-reference.
pub open spec fn token(p: LzssParams, src: Seq<u8>, cap: nat, s: DecoderState) -> Step {
    if s.flags % 2 == 1 {
        if s.pos >= src.len() {
            Step::End
        } else if s.sink.out.len() >= cap {
            Step::Overflow(s.sink.out)
        } else {
            Step::Next(
                DecoderState {
                    pos: s.pos + 1,
                    flags: s.flags,
                    sink: s.sink.emit(src[s.pos as int]),
                },
            )
        }
    } else {
        if s.pos + 1 >= src.len() {
            Step::End
        } else {
            let from = back_ref_from(src[s.pos as int], src[s.pos + 1 as int], p.run_span());
            let count = back_ref_count(src[s.pos + 1 as int], p.run_span(), p.threshold());
            let room = (cap - s.sink.out.len()) as nat;
            if count > room {
                Step::Overflow(s.sink.copy(from, room).out)
            } else {
                Step::Next(
                    DecoderState {
                        pos: s.pos + 2,
                        flags: s.flags,
                        sink: s.sink.copy(from, count),
                    },
                )
            }
        }
    }
}

/// One turn of the decode loop: the control register is shifted, reloaded
/// from the input when its sentinel has run out, and one token is decoded.
pub open spec fn step(p: LzssParams, src: Seq<u8>, cap: nat, s: DecoderState) -> Step {
    let shifted = s.flags / 2;
    if (shifted / 256) % 2 == 0 {
        if s.pos >= src.len() {
            Step::End
        } else {
            token(
                p,
                src,
                cap,
                DecoderState { pos: s.pos + 1, flags: reloaded(src[s.pos as int]), sink: s.sink },
            )
        }
    } else {
        token(p, src, cap, DecoderState { pos: s.pos, flags: shifted, sink: s.sink })
    }
}

/// The decode loop from state `s` on: it stops when the output holds `cap`
/// bytes, when the input ends, or when a token overflows the output.
pub open spec fn run(p: LzssParams, src: Seq<u8>, cap: nat, s: DecoderState) -> Outcome
    decreases src.len() - s.pos,
{
    if s.sink.out.len() >= cap {
        Outcome::Complete(s.sink.out)
    } else {
        match step(p, src, cap, s) {
            Step::Next(t) => run(p, src, cap, t),
            Step::End => Outcome::Short(s.sink.out),
            Step::Overflow(bytes) => Outcome::Overflow(bytes),
        }
    }
}

/// The decoder before the first token: nothing consumed, an empty control
/// register, a fresh window with the cursor at `(N - F) - P`.
pub open spec fn initial_state(p: LzssParams) -> DecoderState {
    DecoderState {
        pos: 0,
        flags: 0,
        sink: Sink {
            window: initial_window(p.window_size(), p.fill_code()),
            cursor: p.start_cursor(),
            out: Seq::empty(),
        },
    }
}

/// What decoding `src` into an output of `cap` bytes gives.
pub open spec fn decode_spec(p: LzssParams, src: Seq<u8>, cap: nat) -> Outcome {
    run(p, src, cap, initial_state(p))
}

/// The shift-and-test handling of the control register, in arithmetic.
proof fn lemma_register_bits(flags: u32)
    requires
        flags <= 0xffff,
    ensures
        (flags >> 1u32) == flags / 2,
        (flags & 0x100 == 0) <==> ((flags / 256) % 2 == 0),
        (flags & 1 != 0) <==> (flags % 2 == 1),
{
    assert((flags >> 1u32) == flags / 2) by (bit_vector);
    assert((flags & 0x100 == 0) <==> ((flags / 256) % 2 == 0)) by (bit_vector);
    assert((flags & 1 != 0) <==> (flags % 2 == 1)) by (bit_vector);
}

/// A control byte below its sentinel bits, in arithmetic.
proof fn lemma_reload_bits(b: u8)
    ensures
        (b as u32 | 0xff00u32) == reloaded(b),
{
    assert((b as u32 | 0xff00u32) == b as u32 + 0xff00u32) by (bit_vector);
}

/// The two bytes of a back-reference, taken apart with shifts and masks,
/// give its position and its length as the model states them.
proof fn lemma_back_ref_bits(i: u8, j: u8, ej: u32, f: u32)
    requires
        ej <= 30,
        f == pow2(ej as nat),
    ensures
        (i as u32 | (((j as u32) >> ej) << 8u32)) == back_ref_from(i, j, f as nat),
        ((j as u32) & ((f - 1) as u32)) == j as nat % (f as nat),
        back_ref_from(i, j, f as nat) < 0x1_0000,
{
    let iw = i as u32;
    let jw = j as u32;
    let hi = jw >> ej;
    lemma_u32_shr_is_div(jw, ej);
    assert(hi <= jw) by (bit_vector)
        requires
            hi == jw >> ej,
            ej <= 30,
    ;
    assert((iw | (hi << 8u32)) == iw + 256 * hi) by (bit_vector)
        requires
            iw < 256,
            hi < 256,
    ;
    lemma_u32_low_bits_mask_is_mod(jw, ej as nat);
    lemma_pow2_pos(ej as nat);
}

/// Masking with `N - 1` is the remainder by the window size `N`.
proof fn lemma_wrap_bits(x: u32, ei: u32, n: u32)
    requires
        ei <= 30,
        n == pow2(ei as nat),
    ensures
        (x & ((n - 1) as u32)) == x as nat % (n as nat),
{
    lemma_u32_low_bits_mask_is_mod(x, ei as nat);
    lemma_pow2_pos(ei as nat);
}

/// Writing one byte behind the bytes decoded so far extends them by that
/// byte and leaves what lies behind untouched.
proof fn lemma_write_extends(before: Seq<u8>, after: Seq<u8>, out: Seq<u8>, at: int, c: u8)
    requires
        0 <= at < before.len(),
        out == before.take(at),
        after == before.update(at, c),
    ensures
        after.take(at + 1) == out.push(c),
        forall|k: int| at < k < before.len() ==> after[k] == before[k],
{
}

/// The written bytes and the untouched rest make up the whole buffer.
proof fn lemma_written_and_rest(now: Seq<u8>, orig: Seq<u8>, written: int)
    requires
        now.len() == orig.len(),
        0 <= written <= now.len(),
        forall|k: int| written <= k < now.len() ==> now[k] == orig[k],
    ensures
        now == now.take(written) + orig.skip(written),
{
}

/// Decodes `compressed` into `dest`, whose length is the expected size of
/// the output.
///
/// `Ok` means that `dest` was filled exactly. On `ShortDecode` the first
/// `produced` bytes of `dest` were written; on `OutputOverflow` all of it
/// was. What lies behind the written bytes is left as it was.
pub fn decode_into(compressed: &[u8], dest: &mut [u8], params: &LzssParams) -> (res: Result<
    (),
    DecodeError,
>)
    ensures
        res == decode_spec(*params, compressed@, old(dest)@.len()).status(),
        final(dest)@ == decode_spec(*params, compressed@, old(dest)@.len()).bytes() + old(
            dest,
        )@.skip(decode_spec(*params, compressed@, old(dest)@.len()).bytes().len() as int),
{
    proof {
        use_type_invariant(params);
        lemma_run_span_bounded(*params);
    }
    let cap: usize = dest.len();
    let n: usize = params.window_len();
    let ei: u32 = params.window_index_bits();
    let ej: u32 = params.length_bits();
    let f: u32 = params.run_len_span();
    let p: u32 = params.match_threshold();
    let mask: u32 = (n - 1) as u32;
    let len_mask: u32 = f - 1;
    let mut window: Vec<u8> = new_window(n, params.window_init_value());
    let mut r: u32 = (n as u32 - f) - p;
    let mut flags: u32 = 0;
    let mut src_index: usize = 0;
    let mut dest_index: usize = 0;
    let ghost mut s: DecoderState = initial_state(*params);
    loop
        invariant
            params.wf(),
            cap == dest@.len() == old(dest)@.len(),
            n == params.window_size(),
            ei == params.ei(),
            ej == params.ej(),
            ei <= 30,
            ej <= 30,
            f == params.run_span(),
            p == params.threshold(),
            f + p <= n <= 0x4000_0000,
            mask == n - 1,
            len_mask == f - 1,
            window@.len() == n,
            s.pos == src_index <= compressed@.len(),
            s.flags == flags <= 0xffff,
            s.sink.window == window@,
            s.sink.cursor == r < n,
            dest_index <= cap,
            s.sink.out == dest@.take(dest_index as int),
            forall|k: int| dest_index <= k < cap ==> dest@[k] == old(dest)@[k],
            run(*params, compressed@, cap as nat, s) == decode_spec(
                *params,
                compressed@,
                cap as nat,
            ),
        decreases compressed@.len() - src_index,
    {
        proof {
            lemma_written_and_rest(dest@, old(dest)@, dest_index as int);
        }
        if dest_index >= cap {
            return Ok(());
        }
        let ghost entry = s;
        proof {
            lemma_register_bits(flags);
        }
        flags = flags >> 1u32;
        proof {
            lemma_register_bits(flags);
        }
        if flags & 0x100 == 0 {
            if src_index >= compressed.len() {
                return Err(DecodeError::ShortDecode { produced: dest_index });
            }
            proof {
                lemma_reload_bits(compressed@[src_index as int]);
            }
            flags = compressed[src_index] as u32 | 0xff00u32;
            src_index += 1;
            proof {
                lemma_register_bits(flags);
            }
        }
        let ghost loaded = DecoderState {
            pos: src_index as nat,
            flags: flags as nat,
            sink: entry.sink,
        };
        if flags & 1 != 0 {
            if src_index >= compressed.len() {
                return Err(DecodeError::ShortDecode { produced: dest_index });
            }
            let c: u8 = compressed[src_index];
            src_index += 1;
            proof {
                lemma_write_extends(dest@, dest@.update(dest_index as int, c), s.sink.out, dest_index as int, c);
                lemma_wrap_bits((r + 1) as u32, ei, n as u32);
            }
            dest[dest_index] = c;
            dest_index += 1;
            window[r as usize] = c;
            r = (r + 1) & mask;
            proof {
                s = DecoderState {
                    pos: src_index as nat,
                    flags: flags as nat,
                    sink: entry.sink.emit(c),
                };
            }
        } else {
            if compressed.len() - src_index < 2 {
                return Err(DecodeError::ShortDecode { produced: dest_index });
            }
            let i: u8 = compressed[src_index];
            let j: u8 = compressed[src_index + 1];
            src_index += 2;
            proof {
                lemma_back_ref_bits(i, j, ej, f);
            }
            let from: u32 = i as u32 | (((j as u32) >> ej) << 8u32);
            let len: u32 = ((j as u32) & len_mask) + p;
            let ghost start = entry.sink;
            let ghost count = back_ref_count(j, f as nat, p as nat);
            let ghost room = (cap - dest_index) as nat;
            let mut k: u32 = 0;
            while k <= len
                invariant
                    cap == dest@.len() == old(dest)@.len(),
                    ei <= 30,
                    n == pow2(ei as nat),
                    n <= 0x4000_0000,
                    mask == n - 1,
                    window@.len() == n,
                    from < 0x1_0000,
                    len < 0x4000_0100,
                    count == len + 1,
                    k <= count,
                    start == entry.sink,
                    start.window.len() == n,
                    start.out.len() + room == cap,
                    room > 0,
                    s.sink == start.copy(from as nat, k as nat),
                    s.sink.window == window@,
                    s.sink.cursor == r < n,
                    dest_index == start.out.len() + k <= cap,
                    s.sink.out == dest@.take(dest_index as int),
                    forall|m: int| dest_index <= m < cap ==> dest@[m] == old(dest)@[m],
                    token(*params, compressed@, cap as nat, loaded) == if count > room {
                        Step::Overflow(start.copy(from as nat, room).out)
                    } else {
                        Step::Next(
                            DecoderState {
                                pos: src_index as nat,
                                flags: flags as nat,
                                sink: start.copy(from as nat, count),
                            },
                        )
                    },
                    run(*params, compressed@, cap as nat, entry) == decode_spec(
                        *params,
                        compressed@,
                        cap as nat,
                    ),
                    step(*params, compressed@, cap as nat, entry) == token(
                        *params,
                        compressed@,
                        cap as nat,
                        loaded,
                    ),
                decreases count - k,
            {
                proof {
                    lemma_written_and_rest(dest@, old(dest)@, dest_index as int);
                }
                if dest_index >= cap {
                    return Err(DecodeError::OutputOverflow);
                }
                proof {
                    lemma_wrap_bits((from + k) as u32, ei, n as u32);
                }
                let c: u8 = window[((from + k) & mask) as usize];
                proof {
                    lemma_write_extends(dest@, dest@.update(dest_index as int, c), s.sink.out, dest_index as int, c);
                    lemma_wrap_bits((r + 1) as u32, ei, n as u32);
                }
                dest[dest_index] = c;
                dest_index += 1;
                window[r as usize] = c;
                r = (r + 1) & mask;
                k += 1;
                proof {
                    s = DecoderState { sink: s.sink.emit(c), ..s };
                }
            }
            proof {
                s = DecoderState { pos: src_index as nat, flags: flags as nat, sink: s.sink };
            }
        }
    }
}

/// Decodes an archive entry into `dest_data`, whose length is the entry's
/// uncompressed size, with the parameters all WRS archives use.
pub fn unlzss(src_data: &[u8], dest_data: &mut [u8]) -> (res: Result<(), DecodeError>)
    ensures
        res == decode_spec(LzssParams::archive(), src_data@, old(dest_data)@.len()).status(),
        final(dest_data)@ == decode_spec(
            LzssParams::archive(),
            src_data@,
            old(dest_data)@.len(),
        ).bytes() + old(dest_data)@.skip(
            decode_spec(LzssParams::archive(), src_data@, old(dest_data)@.len()).bytes().len() as int,
        ),
{
    let params = LzssParams::default();
    decode_into(src_data, dest_data, &params)
}

/// A decoder result `res` reports the outcome `o`: the bytes of a complete
/// decode, the length of a short one, or the overflow.
pub open spec fn reports(res: Result<Vec<u8>, DecodeError>, o: Outcome) -> bool {
    match o {
        Outcome::Complete(b) => res matches Ok(v) && v@ == b,
        Outcome::Short(b) => res == Err::<Vec<u8>, DecodeError>(
            DecodeError::ShortDecode { produced: b.len() as usize },
        ),
        Outcome::Overflow(_) => res == Err::<Vec<u8>, DecodeError>(DecodeError::OutputOverflow),
    }
}

/// Decodes `compressed` to exactly `output_capacity` bytes.
///
/// Fails with `ShortDecode` when the input ends first, and with
/// `OutputOverflow` when a back-reference runs past the capacity.
pub fn decode(compressed: &[u8], output_capacity: usize, params: &LzssParams) -> (res: Result<
    Vec<u8>,
    DecodeError,
>)
    ensures
        reports(res, decode_spec(*params, compressed@, output_capacity as nat)),
        res matches Ok(v) ==> v@.len() == output_capacity,
{
    let mut out: Vec<u8> = vec![0u8; output_capacity];
    match decode_into(compressed, out.as_mut_slice(), params) {
        Ok(()) => {
            proof {
                lemma_outcome_lengths(*params, compressed@, output_capacity as nat);
            }
            Ok(out)
        },
        Err(e) => Err(e),
    }
}

/// A run of copied bytes lengthens the output by its count and leaves what
/// it held in place.
pub proof fn lemma_copy_lengths(sink: Sink, from: nat, count: nat)
    ensures
        sink.copy(from, count).out.len() == sink.out.len() + count,
        sink.copy(from, count).out.take(sink.out.len() as int) == sink.out,
    decreases count,
{
    if count > 0 {
        lemma_copy_lengths(sink, from, (count - 1) as nat);
    }
}

/// From a state whose output has not outgrown the capacity, the loop ends
/// with a full output unless the input ends first.
pub proof fn lemma_run_lengths(p: LzssParams, src: Seq<u8>, cap: nat, s: DecoderState)
    requires
        s.sink.out.len() <= cap,
    ensures
        match run(p, src, cap, s) {
            Outcome::Complete(b) => b.len() == cap,
            Outcome::Short(b) => b.len() < cap,
            Outcome::Overflow(b) => b.len() == cap,
        },
    decreases src.len() - s.pos,
{
    if s.sink.out.len() < cap {
        let shifted = s.flags / 2;
        let loaded = if (shifted / 256) % 2 == 0 {
            DecoderState { pos: s.pos + 1, flags: reloaded(src[s.pos as int]), sink: s.sink }
        } else {
            DecoderState { pos: s.pos, flags: shifted, sink: s.sink }
        };
        if loaded.flags % 2 == 0 && loaded.pos + 1 < src.len() {
            let from = back_ref_from(src[loaded.pos as int], src[loaded.pos + 1 as int], p.run_span());
            let count = back_ref_count(src[loaded.pos + 1 as int], p.run_span(), p.threshold());
            let room = (cap - s.sink.out.len()) as nat;
            lemma_copy_lengths(s.sink, from, count);
            lemma_copy_lengths(s.sink, from, room);
        }
        match step(p, src, cap, s) {
            Step::Next(t) => {
                lemma_run_lengths(p, src, cap, t);
            },
            _ => {},
        }
    }
}

/// Exact length: a complete decode holds exactly `cap` bytes, a short one
/// fewer, and an overflowing one had filled the output.
pub proof fn lemma_outcome_lengths(p: LzssParams, src: Seq<u8>, cap: nat)
    ensures
        match decode_spec(p, src, cap) {
            Outcome::Complete(b) => b.len() == cap,
            Outcome::Short(b) => b.len() < cap,
            Outcome::Overflow(b) => b.len() == cap,
        },
{
    lemma_run_lengths(p, src, cap, initial_state(p));
}

/// Decoding is a function of the compressed bytes, the capacity and the
/// parameters: two results for the same three agree, in the bytes they
/// hold or in the error they carry.
pub proof fn lemma_decode_repeatable(
    p: LzssParams,
    src: Seq<u8>,
    cap: nat,
    first: Result<Vec<u8>, DecodeError>,
    second: Result<Vec<u8>, DecodeError>,
)
    requires
        reports(first, decode_spec(p, src, cap)),
        reports(second, decode_spec(p, src, cap)),
    ensures
        first is Ok <==> second is Ok,
        first is Ok ==> first->Ok_0@ == second->Ok_0@,
        first is Err ==> first->Err_0 == second->Err_0,
{
}

/// With nothing to read, a decode to a non-empty output is short and
/// writes nothing; a decode to an empty output is complete whatever the
/// input holds.
pub proof fn lemma_decode_edges(p: LzssParams, src: Seq<u8>, cap: nat)
    ensures
        cap == 0 ==> decode_spec(p, src, cap) == Outcome::Complete(Seq::<u8>::empty()),
        cap > 0 && src.len() == 0 ==> decode_spec(p, src, cap) == Outcome::Short(
            Seq::<u8>::empty(),
        ),
{
}

} // verus!
