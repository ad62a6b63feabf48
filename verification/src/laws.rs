//! Laws of the decoder that hold of every input.

use crate::lzss::{
    back_ref_count, back_ref_from, decode_spec, initial_state, lemma_copy_lengths, reloaded, run,
    step, DecoderState, Outcome, Step,
};
use crate::lzss::Sink;
use crate::params::LzssParams;
use vstd::arithmetic::div_mod::{lemma_mod_equivalence, lemma_small_mod};
use vstd::prelude::*;

verus! {

/// The state after a literal token: one more input byte consumed, the
/// register as given, the byte emitted.
pub open spec fn after_literal(src: Seq<u8>, s: DecoderState, pos: nat, flags: nat) -> DecoderState {
    DecoderState { pos: pos + 1, flags, sink: s.sink.emit(src[pos as int]) }
}

/// While the control register still holds its sentinel and the next
/// decision bit is set, the loop takes one input byte as a literal.
pub proof fn lemma_literal_token(p: LzssParams, src: Seq<u8>, cap: nat, s: DecoderState)
    requires
        s.sink.out.len() < cap,
        s.pos < src.len(),
        (s.flags / 2 / 256) % 2 == 1,
        (s.flags / 2) % 2 == 1,
    ensures
        run(p, src, cap, s) == run(p, src, cap, after_literal(src, s, s.pos, s.flags / 2)),
{
}

/// When the sentinel has run out, the loop loads a control byte; if its
/// lowest bit is set, the byte behind it is a literal.
pub proof fn lemma_reload_literal_token(p: LzssParams, src: Seq<u8>, cap: nat, s: DecoderState)
    requires
        s.sink.out.len() < cap,
        s.pos + 1 < src.len(),
        (s.flags / 2 / 256) % 2 == 0,
        src[s.pos as int] % 2 == 1,
    ensures
        run(p, src, cap, s) == run(
            p,
            src,
            cap,
            after_literal(src, s, s.pos + 1, reloaded(src[s.pos as int])),
        ),
{
}

/// Literal round trip: a control byte of `0xFF` followed by eight bytes
/// decodes, to an output of eight bytes, to exactly those eight bytes.
pub proof fn lemma_literal_block(p: LzssParams, b: Seq<u8>)
    requires
        b.len() == 8,
    ensures
        decode_spec(p, seq![0xFFu8] + b, 8) == Outcome::Complete(b),
{
    let src = seq![0xFFu8] + b;
    let s0 = initial_state(p);
    lemma_reload_literal_token(p, src, 8, s0);
    let s1 = after_literal(src, s0, 1, 0xffff);
    lemma_literal_token(p, src, 8, s1);
    let s2 = after_literal(src, s1, 2, 0x7fff);
    lemma_literal_token(p, src, 8, s2);
    let s3 = after_literal(src, s2, 3, 0x3fff);
    lemma_literal_token(p, src, 8, s3);
    let s4 = after_literal(src, s3, 4, 0x1fff);
    lemma_literal_token(p, src, 8, s4);
    let s5 = after_literal(src, s4, 5, 0xfff);
    lemma_literal_token(p, src, 8, s5);
    let s6 = after_literal(src, s5, 6, 0x7ff);
    lemma_literal_token(p, src, 8, s6);
    let s7 = after_literal(src, s6, 7, 0x3ff);
    lemma_literal_token(p, src, 8, s7);
    let s8 = after_literal(src, s7, 8, 0x1ff);
    assert(s8.sink.out =~= b);
}

/// What a state has written stays: the bytes of the outcome begin with
/// the output of every state the loop passes through.
pub proof fn lemma_run_extends(p: LzssParams, src: Seq<u8>, cap: nat, s: DecoderState)
    ensures
        s.sink.out.is_prefix_of(run(p, src, cap, s).bytes()),
    decreases src.len() - s.pos,
{
    if s.sink.out.len() < cap {
        let shifted = s.flags / 2;
        let loaded = if (shifted / 256) % 2 == 0 {
            DecoderState { pos: s.pos + 1, flags: reloaded(src[s.pos as int]), sink: s.sink }
        } else {
            DecoderState { pos: s.pos, flags: shifted, sink: s.sink }
        };
        if loaded.flags % 2 == 0 && loaded.pos + 1 < src.len() {
            let from = back_ref_from(
                src[loaded.pos as int],
                src[loaded.pos + 1 as int],
                p.run_span(),
            );
            let count = back_ref_count(src[loaded.pos + 1 as int], p.run_span(), p.threshold());
            let room = (cap - s.sink.out.len()) as nat;
            lemma_copy_lengths(s.sink, from, count);
            lemma_copy_lengths(s.sink, from, room);
        }
        match step(p, src, cap, s) {
            Step::Next(t) => {
                lemma_run_extends(p, src, cap, t);
                let end = run(p, src, cap, t).bytes();
                assert(t.sink.out.take(s.sink.out.len() as int) == s.sink.out);
                assert(end.take(s.sink.out.len() as int) =~= end.take(t.sink.out.len() as int).take(
                    s.sink.out.len() as int,
                ));
            },
            _ => {},
        }
    }
}

/// The loop on a truncated input, from a state that both inputs allow.
proof fn lemma_run_truncated(p: LzssParams, src: Seq<u8>, cap: nat, k: int, s: DecoderState)
    requires
        0 <= k <= src.len(),
        s.pos <= k,
    ensures
        match run(p, src.take(k), cap, s) {
            Outcome::Short(b) => b.is_prefix_of(run(p, src, cap, s).bytes()),
            other => run(p, src, cap, s) == other,
        },
    decreases k - s.pos,
{
    let cut = src.take(k);
    if s.sink.out.len() < cap {
        match step(p, cut, cap, s) {
            Step::Next(t) => {
                assert(step(p, src, cap, s) == Step::Next(t));
                lemma_run_truncated(p, src, cap, k, t);
            },
            Step::End => {
                lemma_run_extends(p, src, cap, s);
            },
            Step::Overflow(b) => {
                assert(step(p, src, cap, s) == Step::Overflow(b));
            },
        }
    }
}

/// Truncated input: cutting a compressed stream short gives either the
/// same outcome, or a short decode whose bytes are the beginning of what
/// the whole stream decodes to.
pub proof fn lemma_truncated_input(p: LzssParams, src: Seq<u8>, cap: nat, k: int)
    requires
        0 <= k <= src.len(),
    ensures
        match decode_spec(p, src.take(k), cap) {
            Outcome::Short(b) => b.is_prefix_of(decode_spec(p, src, cap).bytes()),
            other => decode_spec(p, src, cap) == other,
        },
{
    lemma_run_truncated(p, src, cap, k, initial_state(p));
}

/// Congruent numbers stay congruent when the same is added to both.
proof fn lemma_congruent_shift(a: int, b: int, c: int, n: int)
    requires
        0 < n,
        a % n == b % n,
    ensures
        (a + c) % n == (b + c) % n,
{
    lemma_mod_equivalence(a, b, n);
    lemma_mod_equivalence(a + c, b + c, n);
}

/// Congruent numbers less than the modulus apart are equal.
proof fn lemma_congruent_close(a: int, b: int, n: int)
    requires
        0 < n,
        a % n == b % n,
        0 <= a - b < n,
    ensures
        a == b,
{
    lemma_mod_equivalence(a, b, n);
    lemma_small_mod((a - b) as nat, n as nat);
}

/// A remainder is congruent to the number it is the remainder of.
proof fn lemma_remainder_congruent(a: int, n: int)
    requires
        0 < n,
        0 <= a,
    ensures
        (a % n) % n == a % n,
        0 <= a % n < n,
{
    lemma_small_mod((a % n) as nat, n as nat);
}

/// After `j` copied bytes the cursor has gone `j` cells round the window.
proof fn lemma_copy_cursor(sink: Sink, from: nat, j: nat)
    requires
        sink.cursor < sink.window.len(),
    ensures
        sink.copy(from, j).window.len() == sink.window.len(),
        sink.copy(from, j).out.len() == sink.out.len() + j,
        sink.copy(from, j).cursor == (sink.cursor + j) % sink.window.len(),
    decreases j,
{
    let n = sink.window.len() as int;
    if j == 0 {
        lemma_small_mod(sink.cursor, n as nat);
    } else {
        lemma_copy_cursor(sink, from, (j - 1) as nat);
        lemma_remainder_congruent(sink.cursor + j - 1, n);
        lemma_congruent_shift((sink.cursor + j - 1) % n, sink.cursor + j - 1, 1, n);
    }
}

/// A byte that was copied stays in the output while more are copied.
proof fn lemma_copy_keeps_output(sink: Sink, from: nat, count: nat, k: int)
    requires
        0 <= k < count,
    ensures
        sink.copy(from, count).out[sink.out.len() + k] == sink.copy(from, (k + 1) as nat).out[
            sink.out.len() + k
        ],
    decreases count,
{
    lemma_copy_lengths(sink, from, (count - 1) as nat);
    if k + 1 < count {
        lemma_copy_keeps_output(sink, from, (count - 1) as nat, k);
    }
}

/// The window holds each of the last bytes copied, as many as it has
/// cells, where the cursor stood when the byte was written.
proof fn lemma_copy_written_cell(sink: Sink, from: nat, j: nat, i: int)
    requires
        sink.cursor < sink.window.len(),
        0 <= i < j,
        j - i <= sink.window.len(),
    ensures
        sink.copy(from, j).window[(sink.cursor + i) % (sink.window.len() as int)] == sink.copy(
            from,
            j,
        ).out[sink.out.len() + i],
    decreases j,
{
    let n = sink.window.len() as int;
    let before = sink.copy(from, (j - 1) as nat);
    lemma_copy_cursor(sink, from, (j - 1) as nat);
    lemma_remainder_congruent(sink.cursor + i, n);
    if i < j - 1 {
        lemma_copy_written_cell(sink, from, (j - 1) as nat, i);
        if (sink.cursor + i) % n == (sink.cursor + j - 1) % n {
            lemma_congruent_close(sink.cursor + j - 1, sink.cursor + i, n);
        }
    }
}

/// A cell that the cursor has not reached holds what it held.
proof fn lemma_copy_unwritten_cell(sink: Sink, from: nat, j: nat, x: int)
    requires
        sink.cursor < sink.window.len(),
        0 <= x < sink.window.len(),
        (x + sink.window.len() - sink.cursor) % (sink.window.len() as int) >= j,
    ensures
        sink.copy(from, j).window[x] == sink.window[x],
    decreases j,
{
    let n = sink.window.len() as int;
    if j > 0 {
        lemma_copy_unwritten_cell(sink, from, (j - 1) as nat, x);
        lemma_copy_cursor(sink, from, (j - 1) as nat);
        if x == (sink.cursor + j - 1) % n {
            lemma_remainder_congruent(sink.cursor + j - 1, n);
            lemma_congruent_shift(x, sink.cursor + j - 1, n - sink.cursor, n);
            lemma_mod_equivalence(j - 1 + n, j - 1, n);
            lemma_mod_equivalence(n, 0, n);
            lemma_remainder_congruent(j - 1, n);
            assert((j - 1) % n <= j - 1) by {
                if j - 1 < n {
                    lemma_small_mod((j - 1) as nat, n as nat);
                }
            }
        }
    }
}

/// Self-overlapping copy: a copy from `d` cells behind the cursor repeats
/// with period `d`. Its first `d` bytes are those the window held; every
/// later byte is the byte that the copy wrote `d` places earlier. So a copy
/// longer than its distance reads what it has written itself.
pub proof fn lemma_copy_repeats(sink: Sink, from: nat, count: nat, d: nat, k: int)
    requires
        sink.cursor < sink.window.len(),
        1 <= d <= sink.window.len(),
        (from + d) % sink.window.len() == sink.cursor,
        0 <= k < count,
    ensures
        sink.copy(from, count).out[sink.out.len() + k] == if k < d {
            sink.window[(from + k) % (sink.window.len() as int)]
        } else {
            sink.copy(from, count).out[sink.out.len() + k - d]
        },
{
    let n = sink.window.len() as int;
    let r = sink.cursor as int;
    let base = sink.out.len() as int;
    let read = sink.copy(from, k as nat);
    lemma_copy_keeps_output(sink, from, count, k);
    lemma_copy_cursor(sink, from, k as nat);
    assert(sink.copy(from, (k + 1) as nat).out[base + k] == read.window[(from + k) % n]);
    lemma_small_mod(sink.cursor, n as nat);
    if k < d {
        let x = (from + k) % n;
        lemma_remainder_congruent(from + k, n);
        lemma_congruent_shift(x, from + k, n - r, n);
        lemma_mod_equivalence((from + d) as int, r, n);
        lemma_mod_equivalence(from + k + n - r, n - d + k, n);
        lemma_small_mod((n - d + k) as nat, n as nat);
        lemma_copy_unwritten_cell(sink, from, k as nat, x);
    } else {
        let i = k - d;
        lemma_congruent_shift((from + d) as int, r, i, n);
        lemma_copy_written_cell(sink, from, k as nat, i);
        lemma_copy_keeps_output(sink, from, count, i);
        if i + 1 < k {
            lemma_copy_keeps_output(sink, from, k as nat, i);
        }
    }
}

} // verus!
