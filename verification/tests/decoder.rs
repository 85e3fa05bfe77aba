use pmbk::vadpcm::{inner_product, readaifccodebook, vdecodeframe, DecodeError, VadpcmDecoder, ORDER};
use pmbk::{Envelope, FormatError, Instrument, InstrumentType};

fn adpcm_instrument(wav_data: Vec<u8>, predictor_data: Vec<i16>) -> Instrument {
    Instrument {
        base: 0x40,
        wav_data_length: wav_data.len() as u32,
        wav_data,
        loop_predictor: 0,
        loop_start: 0,
        loop_end: 0,
        loop_count: 0,
        loop_predictor_data: Vec::new(),
        predictor: 0x80,
        dc_book_size: (predictor_data.len() * 2) as u16,
        predictor_data,
        key_base: 60,
        output_rate: 32000,
        instrument_type: InstrumentType::Adpcm,
        envelope_offset: 0,
        envelope: Envelope { offsets: Vec::new(), cmds: Vec::new() },
    }
}

/// Dequantized residuals of a frame with all-zero coefficients come out of
/// the decoder unchanged: with zero coefficients every output lane reduces
/// to `2048 * residual / 2048`.
const FRAME: [u8; 9] = [0x20, 0x12, 0x34, 0x56, 0x78, 0x8F, 0x9A, 0xBC, 0xDE];
const FRAME_SAMPLES: [i16; 16] = [
    4, 8, 12, 16, 20, 24, 28, -32, -32, -4, -28, -24, -20, -16, -12, -8,
];

#[test]
fn inner_product_exact() {
    assert_eq!(inner_product(1, &vec![2048], &vec![1]), 1);
    assert_eq!(inner_product(1, &vec![4096], &vec![3]), 6);
    assert_eq!(inner_product(2, &vec![2048, 2048], &vec![1, 2]), 3);
    // division rounds toward negative infinity, not toward zero
    assert_eq!(inner_product(1, &vec![-1], &vec![1]), -1);
    assert_eq!(inner_product(1, &vec![-2048], &vec![1]), -1);
    assert_eq!(inner_product(1, &vec![-2049], &vec![1]), -2);
    // the sum wraps as a 32-bit integer
    assert_eq!(inner_product(1, &vec![i32::MAX], &vec![2]), -1);
}

#[test]
fn codebook_unity_and_layout() {
    let data: Vec<i16> = (1..=16).collect();
    let table = readaifccodebook(&data, 2, 1).expect("build");
    assert_eq!(table.len(), 1);
    assert_eq!(table[0].len(), 8);
    for lane in 0..8 {
        assert_eq!(table[0][lane].len(), 10);
        // the two coefficient columns, row-major by column then lane
        assert_eq!(table[0][lane][0], data[lane] as i32);
        assert_eq!(table[0][lane][1], data[8 + lane] as i32);
    }
    // fixed-point unity at lane 0 of column `order`
    assert_eq!(table[0][0][2], 2048);
    for lane in 1..8 {
        // the rest of column `order` is the previous column shifted down
        assert_eq!(table[0][lane][2], data[8 + lane - 1] as i32);
    }
    // the staircase columns: zeros above the diagonal, unity on it, and the
    // shifted column below
    assert_eq!(table[0][0][3], 0);
    assert_eq!(table[0][1][3], 2048);
    assert_eq!(table[0][2][3], data[8] as i32);
    assert_eq!(table[0][6][9], 0);
    assert_eq!(table[0][7][9], 2048);

    // determinism: an identical input builds an identical table
    let again = readaifccodebook(&data, 2, 1).expect("build");
    assert_eq!(table, again);
}

#[test]
fn codebook_size_mismatch() {
    let data: Vec<i16> = vec![0; 15];
    assert_eq!(readaifccodebook(&data, 2, 1), Err(FormatError::CodebookSizeMismatch));
    // through the decoder constructor: an empty wave block uses one page,
    // which needs 16 coefficients
    let inst = adpcm_instrument(Vec::new(), vec![0; 15]);
    assert!(matches!(VadpcmDecoder::new(inst), Err(FormatError::CodebookSizeMismatch)));
}

/// A frame of zero bytes with a zero-filled codebook decodes to silence.
#[test]
fn silent_frame() {
    let inst = adpcm_instrument(vec![0; 9], vec![0; 16]);
    let mut dec = VadpcmDecoder::new(inst).expect("new");
    let samples = dec.decode_frame().expect("frame");
    assert_eq!(samples, vec![0i16; 16]);
    assert!(dec.is_complete());
}

#[test]
fn zero_codebook_decodes_residuals() {
    let inst = adpcm_instrument(FRAME.to_vec(), vec![0; 16]);
    let mut dec = VadpcmDecoder::new(inst).expect("new");
    let samples = dec.decode_frame().expect("frame");
    assert_eq!(samples, FRAME_SAMPLES.to_vec());
}

#[test]
fn vdecodeframe_exact() {
    let table = readaifccodebook(&vec![0; 16], 2, 1).expect("build");
    let mut outp = vec![0i32; 16];
    vdecodeframe(&FRAME, &mut outp, ORDER, &table);
    let expect: Vec<i32> = FRAME_SAMPLES.iter().map(|&s| s as i32).collect();
    assert_eq!(outp, expect);
}

/// One nonzero coefficient wires each output lane to the previous sample:
/// with coefficient 2048 in column 1 of lane 0, lane `k` comes out as
/// `sample[k-1] + residual[k]`, reaching back into the previous pass and the
/// previous frame through the rolling history.
#[test]
fn history_feedback_exact() {
    let mut coeffs = vec![0i16; 16];
    coeffs[8] = 2048;
    let mut wav = Vec::new();
    wav.extend_from_slice(&FRAME);
    wav.extend_from_slice(&FRAME);
    let mut dec = VadpcmDecoder::new(adpcm_instrument(wav, coeffs)).expect("new");
    let first = dec.decode_frame().expect("frame");
    assert_eq!(
        first,
        vec![4, 12, 20, 28, 36, 44, 52, -4, -36, -36, -32, -52, -44, -36, -28, -20]
    );
    // the second, identical frame starts from the first frame's history
    let second = dec.decode_frame().expect("frame");
    assert_eq!(
        second,
        vec![-16, 12, 20, 28, 36, 44, 52, -4, -36, -36, -32, -52, -44, -36, -28, -20]
    );
}

/// Identical history, codebook and frame bytes always yield identical
/// outputs.
#[test]
fn decoder_determinism() {
    let coeffs: Vec<i16> = vec![
        300, -123, 77, 1024, -2048, 5, 0, -7, 99, 1, -1, 512, -512, 256, -256, 42,
    ];
    let mut wav = Vec::new();
    wav.extend_from_slice(&FRAME);
    wav.extend_from_slice(&[0x40, 0xFF, 0x00, 0x13, 0x88, 0x21, 0x7E, 0x05, 0xA9]);
    let mut a = VadpcmDecoder::new(adpcm_instrument(wav.clone(), coeffs.clone())).expect("new");
    let mut b = VadpcmDecoder::new(adpcm_instrument(wav, coeffs)).expect("new");
    assert_eq!(a.decode_all(), b.decode_all());
}

/// Decoding fully, resetting, then decoding fully again yields the same
/// sample sequence, even when nonzero coefficients feed history across
/// frames.
#[test]
fn reset_replay() {
    let coeffs: Vec<i16> = vec![
        300, -123, 77, 1024, -2048, 5, 0, -7, 99, 1, -1, 512, -512, 256, -256, 42,
    ];
    let mut wav = Vec::new();
    wav.extend_from_slice(&FRAME);
    wav.extend_from_slice(&[0x40, 0xFF, 0x00, 0x13, 0x88, 0x21, 0x7E, 0x05, 0xA9]);
    wav.extend_from_slice(&[0x70, 0x01, 0x23, 0x45, 0x67, 0x89, 0xAB, 0xCD, 0xEF]);
    let mut dec = VadpcmDecoder::new(adpcm_instrument(wav, coeffs)).expect("new");
    let first = dec.decode_all();
    assert_eq!(first.len(), 48);
    dec.reset();
    let second = dec.decode_all();
    assert_eq!(first, second);
}

/// Once exhausted, every further request reports `Exhausted` and the
/// decoder stays exhausted.
#[test]
fn exhaustion_stability() {
    let inst = adpcm_instrument(FRAME.to_vec(), vec![0; 16]);
    let mut dec = VadpcmDecoder::new(inst).expect("new");
    assert!(!dec.is_complete());
    dec.decode_frame().expect("frame");
    assert!(dec.is_complete());
    for _ in 0..3 {
        assert_eq!(dec.decode_frame(), Err(DecodeError::Exhausted));
        assert!(dec.is_complete());
    }
    assert_eq!(dec.next_sample(), None);
}

/// A frame selecting a page beyond the clamped page count reports
/// `MalformedFrame` without advancing.
#[test]
fn malformed_frame() {
    // selector nibble 9 clamps the page count to 8, so this frame's page is
    // out of range; eight pages need 128 coefficients
    let mut wav = vec![0x09u8];
    wav.extend_from_slice(&[0; 8]);
    let inst = adpcm_instrument(wav, vec![0; 128]);
    let mut dec = VadpcmDecoder::new(inst).expect("new");
    for _ in 0..2 {
        assert_eq!(dec.decode_frame(), Err(DecodeError::MalformedFrame));
        assert!(!dec.is_complete());
    }
    assert_eq!(dec.next_sample(), None);
}

/// The pull-based stream hands out exactly the samples the eager drain
/// produces, one at a time, then reports the end.
#[test]
fn streaming_matches_bulk() {
    let coeffs: Vec<i16> = vec![
        300, -123, 77, 1024, -2048, 5, 0, -7, 99, 1, -1, 512, -512, 256, -256, 42,
    ];
    let mut wav = Vec::new();
    wav.extend_from_slice(&FRAME);
    wav.extend_from_slice(&[0x40, 0xFF, 0x00, 0x13, 0x88, 0x21, 0x7E, 0x05, 0xA9]);
    let mut bulk = VadpcmDecoder::new(adpcm_instrument(wav.clone(), coeffs.clone())).expect("new");
    let expected = bulk.decode_all();
    assert_eq!(expected.len(), 32);

    let mut stream = VadpcmDecoder::new(adpcm_instrument(wav, coeffs)).expect("new");
    let mut collected = Vec::new();
    while let Some(s) = stream.next_sample() {
        collected.push(s);
    }
    assert_eq!(collected, expected);
    assert_eq!(stream.next_sample(), None);
}

/// Fewer than nine trailing bytes are never decoded as a partial frame.
#[test]
fn trailing_bytes_are_not_a_frame() {
    let mut wav = FRAME.to_vec();
    wav.extend_from_slice(&[0x20, 0x11]); // two leftover bytes
    let inst = adpcm_instrument(wav, vec![0; 16]);
    let mut dec = VadpcmDecoder::new(inst).expect("new");
    let all = dec.decode_all();
    assert_eq!(all.len(), 16);
    assert_eq!(all, FRAME_SAMPLES.to_vec());
    assert_eq!(dec.decode_frame(), Err(DecodeError::Exhausted));
}

#[test]
fn decompressed_len() {
    let inst = adpcm_instrument(vec![0; 18], vec![0; 16]);
    let dec = VadpcmDecoder::new(inst).expect("new");
    assert_eq!(dec.decompressed_data_len(), 32);
}
