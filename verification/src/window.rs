//! The sliding window of the decoder and the patterns it starts from.

use vstd::prelude::*;

verus! {

/// Fill code: bytes zeroed, every eighth one from offset 6 on counting up.
pub const FILL_COUNTER: i32 = -1;

/// Fill code: each byte holds its own position.
pub const FILL_ASCENDING: i32 = -2;

/// Fill code: each byte holds its own position, written from the end.
pub const FILL_DESCENDING: i32 = -3;

/// The low eight bits of a number.
pub open spec fn low_byte(v: int) -> u8 {
    (v % 256) as u8
}

/// The byte a fill code gives to position `i` of a fresh window.
///
/// The three negative codes name patterns; every other code is a constant
/// fill with the code's low eight bits.
pub open spec fn pattern_byte(code: i32, i: int) -> u8 {
    if code == FILL_COUNTER {
        if i % 8 == 6 {
            low_byte(i / 8)
        } else {
            0u8
        }
    } else if code == FILL_ASCENDING || code == FILL_DESCENDING {
        low_byte(i)
    } else {
        low_byte(code as int)
    }
}

/// A fresh window of `n` bytes for a fill code.
pub open spec fn initial_window(n: nat, code: i32) -> Seq<u8> {
    Seq::new(n, |i: int| pattern_byte(code, i))
}

/// What [`lzss_set_window`] leaves at position `i` of a buffer that held
/// `before`: the counter pattern zeroes the whole buffer, a constant fill
/// covers the whole buffer, the positional patterns touch the window only.
pub open spec fn byte_after_set(before: Seq<u8>, window_size: nat, code: i32, i: int) -> u8 {
    if code == FILL_COUNTER {
        if i < window_size {
            pattern_byte(code, i)
        } else {
            0u8
        }
    } else if code == FILL_ASCENDING || code == FILL_DESCENDING {
        if i < window_size {
            pattern_byte(code, i)
        } else {
            before[i]
        }
    } else {
        pattern_byte(code, i)
    }
}

/// The buffer [`lzss_set_window`] leaves.
pub open spec fn window_after_set(before: Seq<u8>, window_size: nat, code: i32) -> Seq<u8> {
    Seq::new(before.len(), |i: int| byte_after_set(before, window_size, code, i))
}

/// The low eight bits of a fill code.
fn code_byte(code: i32) -> (b: u8)
    ensures
        b == low_byte(code as int),
{
    if code >= 0 {
        (code % 256) as u8
    } else {
        // code = -(m + 1) with m >= 0, and -(m + 1) = 255 - m (mod 256)
        let m: i32 = -(code + 1);
        (255 - m % 256) as u8
    }
}

/// Overwrites every byte of `buf` with `b`.
fn fill_all(buf: &mut Vec<u8>, b: u8)
    ensures
        final(buf)@ == Seq::new(old(buf)@.len(), |i: int| b),
{
    let n: usize = buf.len();
    let mut i: usize = 0;
    while i < n
        invariant
            i <= n,
            buf@.len() == n,
            n == old(buf)@.len(),
            forall|k: int| 0 <= k < i ==> buf@[k] == b,
        decreases n - i,
    {
        buf[i] = b;
        i += 1;
    }
}

/// Whether a buffer of `len` bytes has every cell that a fill code writes
/// to for a window of `window_size` bytes: the positional patterns write to
/// the whole window, the counter pattern to every eighth cell of it, and a
/// constant fill to the buffer as it is.
pub open spec fn holds_pattern(len: nat, window_size: nat, code: i32) -> bool {
    if code == FILL_COUNTER {
        window_size <= 6 || (window_size - 7) / 8 * 8 + 6 < len
    } else if code == FILL_ASCENDING || code == FILL_DESCENDING {
        window_size <= len
    } else {
        true
    }
}

/// Initialises the first `window_size` bytes of `window` for the fill code
/// `init_chr`.
///
/// The counter pattern and a constant fill also overwrite what lies behind
/// the window; the positional patterns leave it alone.
pub fn lzss_set_window(window: &mut Vec<u8>, window_size: usize, init_chr: i32)
    requires
        holds_pattern(old(window)@.len(), window_size as nat, init_chr),
    ensures
        final(window)@ == window_after_set(old(window)@, window_size as nat, init_chr),
        window_size <= old(window)@.len() ==> final(window)@.subrange(0, window_size as int)
            == initial_window(window_size as nat, init_chr),
{
    if init_chr == FILL_COUNTER {
        fill_all(window, 0);
        let mut i: usize = 0;
        loop
            invariant
                window@.len() == old(window)@.len(),
                window_size <= 6 || (window_size - 7) / 8 * 8 + 6 < window@.len(),
                i <= window_size / 8 + 1,
                i > 0 ==> (i - 1) * 8 + 6 < window_size,
                forall|k: int|
                    0 <= k < window@.len() ==> window@[k] == if k % 8 == 6 && k / 8 < i {
                        low_byte(k / 8)
                    } else {
                        0u8
                    },
            ensures
                i * 8 + 6 >= window_size,
            decreases window_size / 8 + 1 - i,
        {
            if window_size < 6 || i > (window_size - 6) / 8 || i * 8 + 6 >= window_size {
                break ;
            }
            let n: usize = i * 8 + 6;
            window[n] = (i % 256) as u8;
            i += 1;
        }
    } else if init_chr == FILL_ASCENDING {
        let mut i: usize = 0;
        while i < window_size
            invariant
                window@.len() == old(window)@.len(),
                i <= window_size <= window@.len(),
                forall|k: int| 0 <= k < i ==> window@[k] == low_byte(k),
                forall|k: int| i <= k < window@.len() ==> window@[k] == old(window)@[k],
            decreases window_size - i,
        {
            window[i] = (i % 256) as u8;
            i += 1;
        }
    } else if init_chr == FILL_DESCENDING {
        let mut i: usize = window_size;
        while i > 0
            invariant
                window@.len() == old(window)@.len(),
                i <= window_size <= window@.len(),
                forall|k: int| i <= k < window_size ==> window@[k] == low_byte(k),
                forall|k: int|
                    0 <= k < i || window_size <= k < window@.len() ==> window@[k] == old(
                        window,
                    )@[k],
            decreases i,
        {
            i -= 1;
            window[i] = (i % 256) as u8;
        }
    } else {
        fill_all(window, code_byte(init_chr));
    }
}

/// A fresh window of `window_size` bytes for the fill code `init_chr`.
pub fn new_window(window_size: usize, init_chr: i32) -> (window: Vec<u8>)
    ensures
        window@ == initial_window(window_size as nat, init_chr),
{
    let mut window: Vec<u8> = vec![0u8; window_size];
    lzss_set_window(&mut window, window_size, init_chr);
    window
}

} // verus!
