use a3conv::lzss::{decode, decode_into, unlzss, DecodeError};
use a3conv::params::LzssParams;

fn archive_params() -> LzssParams {
    LzssParams::default()
}

#[test]
fn literal_block_round_trips() {
    let src = [0xFFu8, b'A', b'B', b'C', b'D', b'E', b'F', b'G', b'H'];
    let out = decode(&src, 8, &archive_params());
    assert_eq!(out, Ok(b"ABCDEFGH".to_vec()));
}

#[test]
fn literal_block_round_trips_for_every_byte_value() {
    let params = archive_params();
    let mut base: u16 = 0;
    while base < 256 {
        let mut src = vec![0xFFu8];
        let mut expected = Vec::new();
        for k in 0..8u16 {
            let b = ((base + k * 31) % 256) as u8;
            src.push(b);
            expected.push(b);
        }
        assert_eq!(decode(&src, 8, &params), Ok(expected));
        base += 1;
    }
}

#[test]
fn literal_block_round_trips_with_other_parameters() {
    let params = LzssParams::new(10, 5, 3, 0).unwrap();
    let src = [0xFFu8, 1, 2, 3, 4, 5, 6, 7, 8];
    assert_eq!(decode(&src, 8, &params), Ok(vec![1, 2, 3, 4, 5, 6, 7, 8]));
}

#[test]
fn trailing_input_is_not_read_once_the_output_is_full() {
    let src = [0xFFu8, b'A', b'B', b'C', b'D', b'E', b'F', b'G', b'H', 0x00];
    assert_eq!(decode(&src, 8, &archive_params()), Ok(b"ABCDEFGH".to_vec()));
    // behind a full output even a literal is left alone
    let src = [0xFFu8, b'A', b'B', b'C', b'D', b'E', b'F', b'G', b'H', 0xFF, b'I'];
    assert_eq!(decode(&src, 8, &archive_params()), Ok(b"ABCDEFGH".to_vec()));
}

#[test]
fn second_control_byte_is_loaded_after_eight_tokens() {
    let src = [0xFFu8, b'A', b'B', b'C', b'D', b'E', b'F', b'G', b'H', 0x01, b'I'];
    assert_eq!(decode(&src, 9, &archive_params()), Ok(b"ABCDEFGHI".to_vec()));
}

#[test]
fn self_overlapping_copy_repeats_the_pattern() {
    // two literals at window positions 4078 and 4079, then a copy of six
    // bytes from 4078: the copy reads what it wrote two bytes earlier
    let src = [0x03u8, b'A', b'B', 0xEE, 0xF3];
    assert_eq!(decode(&src, 8, &archive_params()), Ok(b"ABABABAB".to_vec()));
}

#[test]
fn copy_at_distance_one_repeats_one_byte() {
    // one literal, then eighteen bytes from the cell just written
    let src = [0x01u8, b'x', 0xEE, 0xFF];
    assert_eq!(decode(&src, 19, &archive_params()), Ok(vec![b'x'; 19]));
}

#[test]
fn copy_of_a_three_byte_pattern() {
    let src = [0x07u8, b'a', b'b', b'c', 0xEE, 0xF4];
    assert_eq!(decode(&src, 10, &archive_params()), Ok(b"abcabcabca".to_vec()));
}

#[test]
fn copy_from_the_untouched_window_gives_the_fill_value() {
    // position 0, three bytes
    let src = [0x00u8, 0x00, 0x00];
    assert_eq!(decode(&src, 3, &archive_params()), Ok(vec![0x20; 3]));
}

#[test]
fn copy_wraps_around_the_end_of_the_window() {
    // 18 literals fill 4078..=4095; the cursor wraps to 0. A copy from 4094
    // of four bytes reads 4094, 4095, then 0 and 1, which still hold spaces.
    let mut src = vec![0xFFu8];
    src.extend_from_slice(b"abcdefgh");
    src.push(0xFF);
    src.extend_from_slice(b"ijklmnop");
    src.push(0x03);
    src.extend_from_slice(b"qr");
    src.extend_from_slice(&[0xFE, 0xF1]);
    let mut expected = b"abcdefghijklmnopqr".to_vec();
    expected.extend_from_slice(b"qrqr");
    // the copy writes at 0 and 1 before it reads them
    assert_eq!(decode(&src, 22, &archive_params()), Ok(expected));
}

#[test]
fn back_reference_fields_are_taken_apart_as_specified() {
    // i = 0x34, j = 0x12: position 0x134, length (2 + 2) + 1 = 5
    let params = LzssParams::new(12, 4, 2, -2).unwrap();
    let src = [0x00u8, 0x34, 0x12];
    assert_eq!(decode(&src, 5, &params), Ok(vec![0x34, 0x35, 0x36, 0x37, 0x38]));
}

#[test]
fn truncated_in_the_literals() {
    let src = [0xFFu8, b'A', b'B'];
    assert_eq!(
        decode(&src, 8, &archive_params()),
        Err(DecodeError::ShortDecode { produced: 2 })
    );
}

#[test]
fn truncated_before_a_control_byte() {
    let src = [0xFFu8, b'A', b'B', b'C', b'D', b'E', b'F', b'G', b'H'];
    assert_eq!(
        decode(&src, 9, &archive_params()),
        Err(DecodeError::ShortDecode { produced: 8 })
    );
}

#[test]
fn truncated_inside_a_back_reference() {
    let src = [0x01u8, b'A', 0xEE];
    assert_eq!(
        decode(&src, 4, &archive_params()),
        Err(DecodeError::ShortDecode { produced: 1 })
    );
    let src = [0x00u8];
    assert_eq!(
        decode(&src, 4, &archive_params()),
        Err(DecodeError::ShortDecode { produced: 0 })
    );
}

#[test]
fn empty_input_is_short_unless_nothing_is_expected() {
    assert_eq!(
        decode(&[], 1, &archive_params()),
        Err(DecodeError::ShortDecode { produced: 0 })
    );
    assert_eq!(decode(&[], 0, &archive_params()), Ok(Vec::new()));
    assert_eq!(decode(&[0xFF, 1], 0, &archive_params()), Ok(Vec::new()));
}

#[test]
fn back_reference_past_the_capacity_overflows() {
    let src = [0x00u8, 0xEE, 0xF0];
    assert_eq!(decode(&src, 2, &archive_params()), Err(DecodeError::OutputOverflow));
}

#[test]
fn back_reference_that_fits_exactly_is_complete() {
    let src = [0x00u8, 0xEE, 0xF0];
    assert_eq!(decode(&src, 3, &archive_params()), Ok(vec![0x20; 3]));
}

#[test]
fn decoding_twice_gives_the_same_bytes() {
    let src = [0x07u8, b'a', b'b', b'c', 0xEE, 0xF4, 0x00, 0x11];
    let params = archive_params();
    let first = decode(&src, 10, &params);
    let second = decode(&src, 10, &params);
    assert_eq!(first, second);
    let short_first = decode(&src, 40, &params);
    let short_second = decode(&src, 40, &params);
    assert_eq!(short_first, short_second);
}

#[test]
fn complete_output_has_the_declared_length() {
    let src = [0x03u8, b'A', b'B', 0xEE, 0xFF];
    let params = archive_params();
    for cap in 0..=20usize {
        match decode(&src, cap, &params) {
            Ok(bytes) => assert_eq!(bytes.len(), cap),
            Err(DecodeError::ShortDecode { produced }) => assert!(produced < cap),
            Err(DecodeError::OutputOverflow) => assert!(cap < 20),
        }
    }
    assert_eq!(decode(&src, 20, &params), Ok(b"ABABABABABABABABABAB".to_vec()));
    assert_eq!(decode(&src, 21, &params), Err(DecodeError::ShortDecode { produced: 20 }));
    assert_eq!(decode(&src, 19, &params), Err(DecodeError::OutputOverflow));
    assert_eq!(decode(&src, 2, &params), Ok(b"AB".to_vec()));
}

#[test]
fn decode_into_leaves_the_rest_of_a_short_output() {
    let src = [0xFFu8, b'A', b'B'];
    let mut dest = [0x55u8; 6];
    let res = decode_into(&src, &mut dest, &archive_params());
    assert_eq!(res, Err(DecodeError::ShortDecode { produced: 2 }));
    assert_eq!(dest, [b'A', b'B', 0x55, 0x55, 0x55, 0x55]);
}

#[test]
fn decode_into_fills_the_output_on_overflow() {
    let src = [0x01u8, b'z', 0xEE, 0xFF];
    let mut dest = [0u8; 5];
    let res = decode_into(&src, &mut dest, &archive_params());
    assert_eq!(res, Err(DecodeError::OutputOverflow));
    assert_eq!(dest, [b'z'; 5]);
}

#[test]
fn unlzss_uses_the_archive_parameters() {
    let src = [0x02u8, 0x00, 0x00, b'!'];
    let mut dest = [0u8; 4];
    assert_eq!(unlzss(&src, &mut dest), Ok(()));
    assert_eq!(dest, [0x20, 0x20, 0x20, b'!']);
}

#[test]
fn unlzss_reports_a_short_stream() {
    let src = [0xFFu8, 1, 2, 3];
    let mut dest = [9u8; 5];
    assert_eq!(unlzss(&src, &mut dest), Err(DecodeError::ShortDecode { produced: 3 }));
    assert_eq!(dest, [1, 2, 3, 9, 9]);
}

#[test]
fn threshold_sets_the_shortest_copy() {
    // P = 0: a length field of 0 copies one byte
    let params = LzssParams::new(12, 4, 0, b'.' as i32).unwrap();
    let src = [0x00u8, 0x00, 0x00];
    assert_eq!(decode(&src, 1, &params), Ok(vec![b'.']));
    // P = 5: a length field of 0 copies six bytes
    let params = LzssParams::new(12, 4, 5, b'.' as i32).unwrap();
    assert_eq!(decode(&src, 6, &params), Ok(vec![b'.'; 6]));
    assert_eq!(decode(&src, 5, &params), Err(DecodeError::OutputOverflow));
}

#[test]
fn small_window_wraps_positions() {
    // N = 16, F = 2, P = 1: the cursor starts at 13
    let params = LzssParams::new(4, 1, 1, -2).unwrap();
    // position 0x0E | ((0x01 >> 1) << 8) = 14, length (1 & 1) + 1 + 1 = 3:
    // cells 14, 15 and 0
    let src = [0x00u8, 0x0E, 0x01];
    assert_eq!(decode(&src, 3, &params), Ok(vec![14, 15, 0]));
    // position 0x123 wraps to 3
    let src = [0x00u8, 0x23, 0x02];
    assert_eq!(decode(&src, 2, &params), Ok(vec![3, 4]));
}

#[test]
fn cursor_starts_at_window_size_less_span_less_threshold() {
    // N = 16, F = 2, P = 1: the first literal goes to cell 13
    let params = LzssParams::new(4, 1, 1, 0).unwrap();
    let src = [0x01u8, b'A', 0x0D, 0x00];
    assert_eq!(decode(&src, 3, &params), Ok(vec![b'A', b'A', b'A']));
    // cell 12 still holds the fill value
    let src = [0x01u8, b'A', 0x0C, 0x00];
    assert_eq!(decode(&src, 3, &params), Ok(vec![b'A', 0, b'A']));
    // the archive parameters: cell 4078, that is 0xFEE
    let src = [0x01u8, b'A', 0xED, 0xF0];
    assert_eq!(decode(&src, 4, &LzssParams::default()), Ok(vec![b'A', b' ', b'A', b' ']));
}

#[test]
fn truncated_stream_decodes_to_the_beginning_of_the_whole() {
    let src = [
        0x7Bu8, b'a', b'b', 0xEE, 0xF1, b'c', b'd', b'e', b'f', 0xF0, 0xF2, 0x05, b'x', 0x02, 0x00,
        b'y',
    ];
    let params = LzssParams::default();
    for cap in [0usize, 1, 5, 12, 30, 80] {
        let mut whole = vec![0xAAu8; cap];
        let whole_status = decode_into(&src, &mut whole, &params);
        let whole_written = match whole_status {
            Ok(()) | Err(DecodeError::OutputOverflow) => cap,
            Err(DecodeError::ShortDecode { produced }) => produced,
        };
        for k in 0..=src.len() {
            let mut part = vec![0xAAu8; cap];
            let status = decode_into(&src[..k], &mut part, &params);
            match status {
                Err(DecodeError::ShortDecode { produced }) => {
                    assert!(produced <= whole_written);
                    assert_eq!(part[..produced], whole[..produced]);
                    assert!(part[produced..].iter().all(|&b| b == 0xAA));
                }
                other => {
                    assert_eq!(other, whole_status);
                    assert_eq!(part, whole);
                }
            }
        }
    }
}

#[test]
fn copy_repeats_with_the_period_of_its_distance() {
    // nine literals, then copies from 1, 2, 3, 5 and 9 cells behind the cursor
    for distance in [1usize, 2, 3, 5, 9] {
        let mut src = vec![0xFFu8];
        src.extend_from_slice(b"abcdefgh");
        src.push(0x01);
        src.push(b'i');
        let from = 4078 + 9 - distance;
        src.push((from & 0xFF) as u8);
        src.push((((from >> 8) << 4) | 0x0F) as u8);
        let out = decode(&src, 27, &LzssParams::default()).unwrap();
        assert_eq!(&out[..9], b"abcdefghi");
        let run = &out[9..];
        assert_eq!(run.len(), 18);
        for k in 0..run.len() {
            if k < distance {
                assert_eq!(run[k], out[9 - distance + k]);
            } else {
                assert_eq!(run[k], run[k - distance]);
            }
        }
    }
}

// The decode loop written out plainly, to hold the library against.
fn plain_decode(
    src: &[u8],
    cap: usize,
    ei: u32,
    ej: u32,
    p: usize,
    fill: u8,
) -> Result<Vec<u8>, DecodeError> {
    let n = 1usize << ei;
    let f = 1usize << ej;
    let mut window = vec![fill; n];
    let mut r = (n - f) - p;
    let mut out = Vec::new();
    let mut pos = 0usize;
    let mut flags: u32 = 0;
    while out.len() < cap {
        flags >>= 1;
        if flags & 0x100 == 0 {
            if pos >= src.len() {
                break;
            }
            flags = src[pos] as u32 | 0xFF00;
            pos += 1;
        }
        if flags & 1 != 0 {
            if pos >= src.len() {
                break;
            }
            let c = src[pos];
            pos += 1;
            out.push(c);
            window[r] = c;
            r = (r + 1) % n;
        } else {
            if pos + 1 >= src.len() {
                break;
            }
            let i = src[pos] as usize;
            let j = src[pos + 1] as usize;
            pos += 2;
            let from = i | ((j >> ej) << 8);
            let len = (j & (f - 1)) + p;
            for k in 0..=len {
                let c = window[(from + k) % n];
                if out.len() >= cap {
                    return Err(DecodeError::OutputOverflow);
                }
                out.push(c);
                window[r] = c;
                r = (r + 1) % n;
            }
        }
    }
    if out.len() == cap {
        Ok(out)
    } else {
        Err(DecodeError::ShortDecode { produced: out.len() })
    }
}

#[test]
fn decoder_agrees_with_the_plain_loop() {
    let shapes: [(u32, u32, u32); 6] =
        [(12, 4, 2), (4, 1, 1), (8, 3, 0), (10, 5, 3), (16, 4, 2), (5, 5, 0)];
    let mut seed: u64 = 0x9E37_79B9_7F4A_7C15;
    let mut next = move || {
        seed ^= seed << 13;
        seed ^= seed >> 7;
        seed ^= seed << 17;
        seed
    };
    for round in 0..600usize {
        let (ei, ej, p) = shapes[round % shapes.len()];
        let fill = (next() % 256) as u8;
        let params = LzssParams::new(ei, ej, p, fill as i32).unwrap();
        let len = (next() % 40) as usize;
        let mut src = Vec::with_capacity(len);
        for _ in 0..len {
            // control bytes with many literal bits keep the streams going
            let b = next();
            src.push(if b % 3 == 0 { (b >> 8) as u8 | 0x55 } else { (b >> 8) as u8 });
        }
        let cap = (next() % 120) as usize;
        assert_eq!(
            decode(&src, cap, &params),
            plain_decode(&src, cap, ei, ej, p as usize, fill),
        );
    }
}
