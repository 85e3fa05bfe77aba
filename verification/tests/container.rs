use pmbk::{Bk, EnvelopeCmd, FormatError, InstrumentType};

fn push_u16(buf: &mut Vec<u8>, v: u16) {
    buf.extend_from_slice(&v.to_be_bytes());
}

fn push_u32(buf: &mut Vec<u8>, v: u32) {
    buf.extend_from_slice(&v.to_be_bytes());
}

fn push_i32(buf: &mut Vec<u8>, v: i32) {
    buf.extend_from_slice(&v.to_be_bytes());
}

/// An instrument record is 0x30 bytes.
fn push_record(
    buf: &mut Vec<u8>,
    base: u32,
    wav_len: u32,
    loop_predictor: u32,
    predictor: u32,
    dc_book_size: u16,
    key_base: u16,
    ty: u8,
    envelope_offset: u32,
) {
    push_u32(buf, base);
    push_u32(buf, wav_len);
    push_u32(buf, loop_predictor);
    push_i32(buf, 2); // loop_start
    push_i32(buf, 5); // loop_end
    push_i32(buf, -1); // loop_count
    push_u32(buf, predictor);
    push_u16(buf, dc_book_size);
    push_u16(buf, key_base);
    push_i32(buf, 32000); // output_rate
    buf.push(ty);
    buf.extend_from_slice(&[0u8; 7]);
    push_u32(buf, envelope_offset);
}

/// A bank with one Adpcm instrument in slot 0: a one-frame wave block,
/// 16 loop coefficients, 16 predictor coefficients (all zero), and an
/// envelope with one offset pair and five commands.
fn single_bank() -> Vec<u8> {
    let mut buf = Vec::new();
    buf.extend_from_slice(b"BK  ");
    push_i32(&mut buf, 0); // size, patched below
    buf.extend_from_slice(b"TEST");
    buf.extend_from_slice(b"CR");
    buf.extend_from_slice(&[1, 2, 3, 4]); // reserved
    push_u16(&mut buf, 0x3C); // slot 0
    for _ in 1..16 {
        push_u16(&mut buf, 0);
    }
    push_u16(&mut buf, 0x30); // instruments_size
    push_u16(&mut buf, 0x1111); // unk_start_a
    push_u16(&mut buf, 0x2222); // unk_size_a
    push_u16(&mut buf, 0x95); // predictors_start
    push_u16(&mut buf, 0x20); // predictors_size
    assert_eq!(buf.len(), 0x3C);

    // record at 0x3C; wave at 0x6C; loop data at 0x75; coefficients at 0x95;
    // envelope at 0xB5
    push_record(&mut buf, 0x6C, 9, 0x75, 0x95, 32, 60, 0, 0xB5);
    assert_eq!(buf.len(), 0x6C);
    buf.extend_from_slice(&[0x20, 0x12, 0x34, 0x56, 0x78, 0x8F, 0x9A, 0xBC, 0xDE]);
    for i in 0..16i16 {
        buf.extend_from_slice(&i.to_be_bytes());
    }
    assert_eq!(buf.len(), 0x95);
    buf.extend_from_slice(&[0u8; 32]);
    assert_eq!(buf.len(), 0xB5);
    // envelope: count 1, padding, press 4, release 8, then the command
    // stream: three counted commands (max offset 8 / 4 + 1) and two more up
    // to the End terminator
    buf.push(1);
    buf.extend_from_slice(&[0, 0, 0]);
    push_u16(&mut buf, 4);
    push_u16(&mut buf, 8);
    buf.extend_from_slice(&[0x0A, 0x14, 0xFD, 0x05, 0xFC, 0x02, 0xFB, 0x00, 0xFF, 0x07]);

    let size = buf.len() as i32;
    buf[4..8].copy_from_slice(&size.to_be_bytes());
    buf
}

#[test]
fn round_trip() {
    let buf = single_bank();
    let bank = Bk::parse(&buf).expect("parse");
    let rewritten = bank.write();
    assert_eq!(rewritten.len(), buf.len());
    assert_eq!(rewritten, buf);
}

#[test]
fn parsed_fields() {
    let buf = single_bank();
    let bank = Bk::parse(&buf).expect("parse");
    assert_eq!(bank.name(), "TEST");
    let instruments = bank.instruments();
    assert_eq!(instruments.len(), 1);
    let inst = &instruments[0];
    assert_eq!(inst.base, 0x6C);
    assert_eq!(inst.wav_data_length, 9);
    assert_eq!(
        inst.wav_data,
        vec![0x20, 0x12, 0x34, 0x56, 0x78, 0x8F, 0x9A, 0xBC, 0xDE]
    );
    assert_eq!(inst.loop_start, 2);
    assert_eq!(inst.loop_end, 5);
    assert_eq!(inst.loop_count, -1);
    assert!(inst.has_loop());
    assert_eq!(inst.loop_predictor_data, (0..16).collect::<Vec<i16>>());
    assert_eq!(inst.dc_book_size, 32);
    assert_eq!(inst.predictor_data, vec![0i16; 16]);
    assert_eq!(inst.key_base, 60);
    assert_eq!(inst.output_rate, 32000);
    assert_eq!(inst.instrument_type, InstrumentType::Adpcm);
    assert_eq!(inst.envelope.offsets.len(), 1);
    assert_eq!(inst.envelope.offsets[0].press, 4);
    assert_eq!(inst.envelope.offsets[0].release, 8);
    assert_eq!(
        inst.envelope.cmds,
        vec![
            EnvelopeCmd::ChangeAmplitude { time: 0x0A, amplitude: 0x14 },
            EnvelopeCmd::AddMultiplier(5),
            EnvelopeCmd::StartLoop { count: 2 },
            EnvelopeCmd::EndLoop(0),
            EnvelopeCmd::End(7),
        ]
    );
}

/// Instrument order follows the slot scan order, not the records' byte
/// positions: slot 2 points past slot 9's record, yet comes out first.
#[test]
fn order_preservation() {
    let mut buf = Vec::new();
    buf.extend_from_slice(b"BK  ");
    push_i32(&mut buf, 0);
    buf.extend_from_slice(b"BANK");
    buf.extend_from_slice(b"DR");
    buf.extend_from_slice(&[0; 4]);
    for slot in 0..16u16 {
        let off = match slot {
            2 => 0x6C, // the later record in the buffer
            9 => 0x3C, // the earlier one
            _ => 0,
        };
        push_u16(&mut buf, off);
    }
    push_u16(&mut buf, 0x60);
    push_u16(&mut buf, 0);
    push_u16(&mut buf, 0);
    push_u16(&mut buf, 0);
    push_u16(&mut buf, 0);
    assert_eq!(buf.len(), 0x3C);
    push_record(&mut buf, 0, 0, 0, 0, 0, 900, 1, 0);
    push_record(&mut buf, 0, 0, 0, 0, 0, 200, 1, 0);
    let size = buf.len() as i32;
    buf[4..8].copy_from_slice(&size.to_be_bytes());

    let bank = Bk::parse(&buf).expect("parse");
    let instruments = bank.instruments();
    assert_eq!(instruments.len(), 2);
    assert_eq!(instruments[0].key_base, 200); // slot 2 first
    assert_eq!(instruments[1].key_base, 900); // slot 9 second
    assert_eq!(bank.write(), buf);
}

#[test]
fn unknown_format_tag() {
    let mut buf = single_bank();
    buf[0x0C] = b'X';
    buf[0x0D] = b'X';
    assert_eq!(Bk::parse(&buf), Err(FormatError::UnknownFormatTag));
}

#[test]
fn bad_magic() {
    let mut buf = single_bank();
    buf[0] = b'Z';
    assert_eq!(Bk::parse(&buf), Err(FormatError::BadMagic));
}

#[test]
fn truncated_header() {
    let buf = single_bank();
    assert_eq!(Bk::parse(&buf[..3]), Err(FormatError::TruncatedInput));
    assert_eq!(Bk::parse(&buf[..13]), Err(FormatError::TruncatedInput));
    assert_eq!(Bk::parse(&buf[..0x3B]), Err(FormatError::TruncatedInput));
}

#[test]
fn truncated_record() {
    // the record at slot 0 reaches past the end of the buffer
    let buf = single_bank();
    assert_eq!(Bk::parse(&buf[..0x40]), Err(FormatError::TruncatedInput));
}

#[test]
fn truncated_wave_block() {
    let mut buf = single_bank();
    // wave length now reaches past the end of the buffer
    let huge = 0x10000u32;
    buf[0x40..0x44].copy_from_slice(&huge.to_be_bytes());
    assert_eq!(Bk::parse(&buf), Err(FormatError::TruncatedInput));
}

#[test]
fn unknown_instrument_type() {
    let mut buf = single_bank();
    buf[0x3C + 36] = 7;
    assert_eq!(Bk::parse(&buf), Err(FormatError::UnknownFormatTag));
}

/// A name with an invalid UTF-8 byte decodes permissively: the parse
/// succeeds and the bad byte becomes the replacement character.
#[test]
fn lossy_name() {
    let mut buf = single_bank();
    buf[0x08..0x0C].copy_from_slice(&[0x41, 0x42, 0x43, 0xFF]);
    let bank = Bk::parse(&buf).expect("parse");
    assert_eq!(bank.name(), "ABC\u{FFFD}");
    assert_eq!(bank.write(), buf);
}

/// A predictor block outside the declared pool is reported, not rejected.
#[test]
fn predictor_pool_warning() {
    let buf = single_bank();
    let bank = Bk::parse(&buf).expect("parse");
    assert_eq!(bank.predictor_pool_warnings(), Vec::<usize>::new());

    // shrink the declared pool so the block no longer fits inside it
    let mut shrunk = buf.clone();
    shrunk[0x3A..0x3C].copy_from_slice(&0x10u16.to_be_bytes());
    let bank = Bk::parse(&shrunk).expect("parse");
    assert_eq!(bank.predictor_pool_warnings(), vec![0usize]);
}

#[test]
fn raw16_samples() {
    let mut buf = single_bank();
    buf[0x3C + 36] = 1; // type Raw16
    // wave bytes now read as little-endian samples
    buf[0x6C..0x75].copy_from_slice(&[0x01, 0x00, 0xFF, 0xFF, 0x00, 0x80, 0x10, 0x27, 0x99]);
    let bank = Bk::parse(&buf).expect("parse");
    let inst = &bank.instruments()[0];
    assert_eq!(inst.instrument_type, InstrumentType::Raw16);
    // the trailing odd byte is ignored
    assert_eq!(inst.raw16_samples(), vec![1i16, -1, -32768, 10000]);
}
