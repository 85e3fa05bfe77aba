//! The sound-bank container: the fixed header, the 16-slot instrument offset
//! table, and the per-instrument records with their offset-addressed blocks.
//!
//! Parsing materializes every offset-addressed block into an owned copy, so a
//! parsed [`Bk`] is independent of the backing buffer.  The source bytes are
//! kept verbatim inside the bank: the container carries reserved fields and
//! unaddressed regions whose meaning is unknown, and exact re-encoding of a
//! parsed bank is only possible by preserving them as they were read.

use vstd::prelude::*;

use crate::bytes::{be_i16, be_i32, be_u16, be_u32, le_i16};
use crate::bytes::{read_i16_be, read_i32_be, read_u16_be, read_u32_be};
use crate::envelope::{spec_parse_envelope, Envelope, EnvelopeV};
use crate::FormatError;

verus! {

/// The two-byte format tag of a bank: one of the three recognized codes
/// `CR`, `DR` and `SR`.
#[derive(Debug, Clone, Copy, PartialEq, Eq, Structural)]
pub enum Format {
    Cr,
    Dr,
    Sr,
}

/// How an instrument's wave bytes encode samples.
#[derive(Debug, Clone, Copy, PartialEq, Eq, Structural)]
pub enum InstrumentType {
    /// 9-byte VADPCM frames, 16 samples apiece.
    Adpcm,
    /// Uncompressed little-endian 16-bit samples.
    Raw16,
}

/// One voice's waveform and playback metadata, with every offset-addressed
/// block copied out of the backing buffer.
#[derive(Debug, Clone, PartialEq, Eq)]
pub struct Instrument {
    /// Absolute offset of the wave bytes; 0 means absent.
    pub base: u32,
    pub wav_data_length: u32,
    pub wav_data: Vec<u8>,
    /// Absolute offset of the 16 loop-continuity coefficients; 0 means absent.
    pub loop_predictor: u32,
    pub loop_start: i32,
    pub loop_end: i32,
    /// -1 means the loop repeats forever.
    pub loop_count: i32,
    pub loop_predictor_data: Vec<i16>,
    /// Absolute offset of the prediction coefficients; 0 means absent.
    pub predictor: u32,
    /// Size of the prediction-coefficient block in bytes.
    pub dc_book_size: u16,
    pub predictor_data: Vec<i16>,
    pub key_base: u16,
    pub output_rate: i32,
    pub instrument_type: InstrumentType,
    /// Absolute offset of the envelope program; 0 means an empty envelope.
    pub envelope_offset: u32,
    pub envelope: Envelope,
}

/// The mathematical model of an [`Instrument`].
#[verifier::ext_equal]
pub ghost struct InstrumentV {
    pub base: u32,
    pub wav_data_length: u32,
    pub wav_data: Seq<u8>,
    pub loop_predictor: u32,
    pub loop_start: i32,
    pub loop_end: i32,
    pub loop_count: i32,
    pub loop_predictor_data: Seq<i16>,
    pub predictor: u32,
    pub dc_book_size: u16,
    pub predictor_data: Seq<i16>,
    pub key_base: u16,
    pub output_rate: i32,
    pub instrument_type: InstrumentType,
    pub envelope_offset: u32,
    pub envelope: EnvelopeV,
}

impl View for Instrument {
    type V = InstrumentV;

    open spec fn view(&self) -> InstrumentV {
        InstrumentV {
            base: self.base,
            wav_data_length: self.wav_data_length,
            wav_data: self.wav_data@,
            loop_predictor: self.loop_predictor,
            loop_start: self.loop_start,
            loop_end: self.loop_end,
            loop_count: self.loop_count,
            loop_predictor_data: self.loop_predictor_data@,
            predictor: self.predictor,
            dc_book_size: self.dc_book_size,
            predictor_data: self.predictor_data@,
            key_base: self.key_base,
            output_rate: self.output_rate,
            instrument_type: self.instrument_type,
            envelope_offset: self.envelope_offset,
            envelope: self.envelope@,
        }
    }
}

/// A parsed sound bank: the header fields, the instruments resolved from the
/// nonzero slots of the offset table, and the source bytes kept verbatim for
/// exact re-encoding.
#[derive(Debug, Clone, PartialEq, Eq)]
pub struct Bk {
    size: i32,
    name: String,
    name_raw: Vec<u8>,
    format: Format,
    instrument_offsets: Vec<u16>,
    instruments_size: u16,
    unk_start_a: u16,
    unk_size_a: u16,
    predictors_start: u16,
    predictors_size: u16,
    instruments: Vec<Instrument>,
    raw: Vec<u8>,
}

/// The mathematical model of a [`Bk`].
#[verifier::ext_equal]
pub ghost struct BkV {
    pub size: i32,
    pub name: Seq<char>,
    pub name_raw: Seq<u8>,
    pub format: Format,
    pub instrument_offsets: Seq<u16>,
    pub instruments_size: u16,
    pub unk_start_a: u16,
    pub unk_size_a: u16,
    pub predictors_start: u16,
    pub predictors_size: u16,
    pub instruments: Seq<InstrumentV>,
    pub raw: Seq<u8>,
}

/// The models of a sequence of instruments.
pub open spec fn instruments_view(s: Seq<Instrument>) -> Seq<InstrumentV> {
    Seq::new(s.len(), |i: int| s[i]@)
}

impl View for Bk {
    type V = BkV;

    closed spec fn view(&self) -> BkV {
        BkV {
            size: self.size,
            name: self.name@,
            name_raw: self.name_raw@,
            format: self.format,
            instrument_offsets: self.instrument_offsets@,
            instruments_size: self.instruments_size,
            unk_start_a: self.unk_start_a,
            unk_size_a: self.unk_size_a,
            predictors_start: self.predictors_start,
            predictors_size: self.predictors_size,
            instruments: instruments_view(self.instruments@),
            raw: self.raw@,
        }
    }
}

/// What `name_raw` decodes to as text.  The decoding is permissive: invalid
/// byte sequences become replacement characters instead of failing.
pub uninterp spec fn lossy_of(bytes: Seq<u8>) -> Seq<char>;

/// Relies on `String::from_utf8_lossy`: the result is a pure function of the
/// input bytes; valid UTF-8 — in particular, any all-ASCII input — passes
/// through unchanged, and invalid sequences become replacement characters.
#[verifier::external_body]
fn utf8_lossy(bytes: &[u8]) -> (r: String)
    ensures
        r@ == lossy_of(bytes@),
        (forall|i: int| 0 <= i < bytes@.len() ==> bytes@[i] < 0x80) ==> (r@.len() == bytes@.len()
            && (forall|i: int| 0 <= i < bytes@.len() ==> r@[i] as int == bytes@[i] as int)),
{
    String::from_utf8_lossy(bytes).into_owned()
}

/// The instrument record encoded at offset `off`: forty-eight bytes of fixed
/// fields, then the wave, loop-coefficient, prediction-coefficient and
/// envelope blocks resolved through their stored absolute offsets (each
/// skipped when its offset is 0, the wave block also when its length is 0).
/// An unrecognized type byte fails with `UnknownFormatTag`; a field or block
/// reaching past the buffer fails with `TruncatedInput`.
pub open spec fn spec_parse_instrument(b: Seq<u8>, off: int) -> Result<InstrumentV, FormatError> {
    if off + 0x30 > b.len() {
        Err(FormatError::TruncatedInput)
    } else {
        let base = be_u32(b, off);
        let wlen = be_u32(b, off + 4);
        let lp = be_u32(b, off + 8);
        let pred = be_u32(b, off + 24);
        let dcbs = be_u16(b, off + 28);
        let ty = b[off + 36];
        let eoff = be_u32(b, off + 44);
        if ty != 0 && ty != 1 {
            Err(FormatError::UnknownFormatTag)
        } else if base != 0 && wlen > 0 && base as int + wlen as int > b.len() {
            Err(FormatError::TruncatedInput)
        } else if lp != 0 && lp as int + 32 > b.len() {
            Err(FormatError::TruncatedInput)
        } else if pred != 0 && pred as int + 2 * (dcbs as int / 2) > b.len() {
            Err(FormatError::TruncatedInput)
        } else {
            let env = if eoff != 0 {
                spec_parse_envelope(b, eoff as int)
            } else {
                Some(EnvelopeV { offsets: Seq::empty(), cmds: Seq::empty() })
            };
            match env {
                None => Err(FormatError::TruncatedInput),
                Some(e) => Ok(
                    InstrumentV {
                        base,
                        wav_data_length: wlen,
                        wav_data: if base != 0 && wlen > 0 {
                            b.subrange(base as int, base as int + wlen as int)
                        } else {
                            Seq::empty()
                        },
                        loop_predictor: lp,
                        loop_start: be_i32(b, off + 12),
                        loop_end: be_i32(b, off + 16),
                        loop_count: be_i32(b, off + 20),
                        loop_predictor_data: if lp != 0 {
                            Seq::new(16, |k: int| be_i16(b, lp as int + 2 * k))
                        } else {
                            Seq::empty()
                        },
                        predictor: pred,
                        dc_book_size: dcbs,
                        predictor_data: if pred != 0 {
                            Seq::new((dcbs as int / 2) as nat, |k: int| be_i16(b, pred as int + 2 * k))
                        } else {
                            Seq::empty()
                        },
                        key_base: be_u16(b, off + 30),
                        output_rate: be_i32(b, off + 32),
                        instrument_type: if ty == 0 {
                            InstrumentType::Adpcm
                        } else {
                            InstrumentType::Raw16
                        },
                        envelope_offset: eoff,
                        envelope: e,
                    },
                ),
            }
        }
    }
}

/// Reads `n` big-endian 16-bit values laid out from `off`.
#[verifier::loop_isolation(false)]
fn read_i16_block(bytes: &[u8], off: usize, n: usize) -> (v: Vec<i16>)
    requires
        off + 2 * n <= bytes@.len(),
    ensures
        v@ == Seq::new(n as nat, |k: int| be_i16(bytes@, off as int + 2 * k)),
{
    // an executable length bounds the slice's view length by usize::MAX,
    // which the offset sums below need
    let _blen = bytes.len();
    let mut v: Vec<i16> = Vec::new();
    let mut k: usize = 0;
    while k < n
        invariant
            k <= n,
            v@ =~= Seq::new(k as nat, |t: int| be_i16(bytes@, off as int + 2 * t)),
        decreases n - k,
    {
        let x = read_i16_be(bytes, off + 2 * k);
        proof {
            assert(v@.push(x) =~= Seq::new(
                (k + 1) as nat,
                |t: int| be_i16(bytes@, off as int + 2 * t),
            ));
        }
        v.push(x);
        k += 1;
    }
    proof {
        assert(v@ =~= Seq::new(n as nat, |k: int| be_i16(bytes@, off as int + 2 * k)));
    }
    v
}

/// Parses the instrument record at offset `off`, exactly as
/// [`spec_parse_instrument`] describes it.
pub fn parse_instrument(bytes: &[u8], off: usize) -> (r: Result<Instrument, FormatError>)
    ensures
        match r {
            Ok(inst) => spec_parse_instrument(bytes@, off as int) == Ok::<InstrumentV, FormatError>(
                inst@,
            ),
            Err(e) => spec_parse_instrument(bytes@, off as int) == Err::<InstrumentV, FormatError>(
                e,
            ),
        },
{
    if off > bytes.len() || bytes.len() - off < 0x30 {
        return Err(FormatError::TruncatedInput);
    }
    let base = read_u32_be(bytes, off);
    let wav_data_length = read_u32_be(bytes, off + 4);
    let loop_predictor = read_u32_be(bytes, off + 8);
    let loop_start = read_i32_be(bytes, off + 12);
    let loop_end = read_i32_be(bytes, off + 16);
    let loop_count = read_i32_be(bytes, off + 20);
    let predictor = read_u32_be(bytes, off + 24);
    let dc_book_size = read_u16_be(bytes, off + 28);
    let key_base = read_u16_be(bytes, off + 30);
    let output_rate = read_i32_be(bytes, off + 32);
    let ty = bytes[off + 36];
    let envelope_offset = read_u32_be(bytes, off + 44);

    if ty != 0 && ty != 1 {
        return Err(FormatError::UnknownFormatTag);
    }
    let instrument_type = if ty == 0 {
        InstrumentType::Adpcm
    } else {
        InstrumentType::Raw16
    };

    let has_wave = base != 0 && wav_data_length > 0;
    if has_wave && (base as usize > bytes.len() || wav_data_length as usize > bytes.len()
        - base as usize) {
        return Err(FormatError::TruncatedInput);
    }
    let wav_data: Vec<u8> = if has_wave {
        vstd::slice::slice_to_vec(
            vstd::slice::slice_subrange(
                bytes,
                base as usize,
                base as usize + wav_data_length as usize,
            ),
        )
    } else {
        Vec::new()
    };

    if loop_predictor != 0 && (loop_predictor as usize > bytes.len() || (bytes.len()
        - loop_predictor as usize) < 32) {
        return Err(FormatError::TruncatedInput);
    }
    let loop_predictor_data: Vec<i16> = if loop_predictor != 0 {
        read_i16_block(bytes, loop_predictor as usize, 16)
    } else {
        Vec::new()
    };

    let n_coef = dc_book_size as usize / 2;
    if predictor != 0 && (predictor as usize > bytes.len() || 2 * n_coef > bytes.len()
        - predictor as usize) {
        return Err(FormatError::TruncatedInput);
    }
    let predictor_data: Vec<i16> = if predictor != 0 {
        read_i16_block(bytes, predictor as usize, n_coef)
    } else {
        Vec::new()
    };

    let envelope: Envelope = if envelope_offset != 0 {
        match crate::envelope::parse_envelope(bytes, envelope_offset as usize) {
            Ok(env) => env,
            Err(e) => {
                return Err(e);
            },
        }
    } else {
        Envelope { offsets: Vec::new(), cmds: Vec::new() }
    };

    let inst = Instrument {
        base,
        wav_data_length,
        wav_data,
        loop_predictor,
        loop_start,
        loop_end,
        loop_count,
        loop_predictor_data,
        predictor,
        dc_book_size,
        predictor_data,
        key_base,
        output_rate,
        instrument_type,
        envelope_offset,
        envelope,
    };
    proof {
        assert(spec_parse_instrument(bytes@, off as int) matches Ok(v) && v =~= inst@);
    }
    Ok(inst)
}

impl Instrument {
    /// Whether the instrument loops: exactly when `loop_end` is nonzero.
    pub fn has_loop(&self) -> (r: bool)
        ensures
            r == (self.loop_end != 0),
    {
        self.loop_end != 0
    }

    /// The wave bytes of a [`InstrumentType::Raw16`] instrument decoded as
    /// little-endian 16-bit samples, two bytes apiece; a trailing odd byte is
    /// ignored.
    #[verifier::loop_isolation(false)]
    pub fn raw16_samples(&self) -> (v: Vec<i16>)
        ensures
            v@ == Seq::new(
                (self.wav_data@.len() / 2) as nat,
                |k: int| le_i16(self.wav_data@, 2 * k),
            ),
    {
        let n = self.wav_data.len() / 2;
        let mut v: Vec<i16> = Vec::new();
        let mut k: usize = 0;
        while k < n
            invariant
                k <= n,
                n == self.wav_data@.len() / 2,
                v@ =~= Seq::new(k as nat, |t: int| le_i16(self.wav_data@, 2 * t)),
            decreases n - k,
        {
            let x = crate::bytes::read_i16_le(self.wav_data.as_slice(), 2 * k);
            proof {
                assert(v@.push(x) =~= Seq::new(
                    (k + 1) as nat,
                    |t: int| le_i16(self.wav_data@, 2 * t),
                ));
            }
            v.push(x);
            k += 1;
        }
        proof {
            assert(v@ =~= Seq::new(
                (self.wav_data@.len() / 2) as nat,
                |k: int| le_i16(self.wav_data@, 2 * k),
            ));
        }
        v
    }
}

/// The instruments resolved from the slots of the offset table, in slot
/// order; zero slots are skipped.  The first failing slot fails the whole
/// sequence.
pub open spec fn spec_parse_instruments(b: Seq<u8>, offs: Seq<u16>) -> Result<
    Seq<InstrumentV>,
    FormatError,
>
    decreases offs.len(),
{
    if offs.len() == 0 {
        Ok(Seq::empty())
    } else {
        match spec_parse_instruments(b, offs.drop_last()) {
            Err(e) => Err(e),
            Ok(rest) => {
                let o = offs.last();
                if o == 0 {
                    Ok(rest)
                } else {
                    match spec_parse_instrument(b, o as int) {
                        Err(e) => Err(e),
                        Ok(iv) => Ok(rest.push(iv)),
                    }
                }
            },
        }
    }
}

/// Once a prefix of the slot table fails, the whole table fails the same way.
proof fn lemma_parse_instruments_err(b: Seq<u8>, offs: Seq<u16>, j: int)
    requires
        0 <= j <= offs.len(),
        spec_parse_instruments(b, offs.take(j)) is Err,
    ensures
        spec_parse_instruments(b, offs) == spec_parse_instruments(b, offs.take(j)),
    decreases offs.len() - j,
{
    if j < offs.len() {
        assert(offs.take(j + 1).drop_last() =~= offs.take(j));
        lemma_parse_instruments_err(b, offs, j + 1);
    } else {
        assert(offs.take(j) =~= offs);
    }
}

/// The bank encoded by `b`: the magic, the header fields, and one instrument
/// per nonzero slot of the 16-entry offset table, in slot order.
pub open spec fn spec_parse_bank(b: Seq<u8>) -> Result<BkV, FormatError> {
    if b.len() < 4 {
        Err(FormatError::TruncatedInput)
    } else if !(b[0] == 0x42 && b[1] == 0x4B && b[2] == 0x20 && b[3] == 0x20) {
        Err(FormatError::BadMagic)
    } else if b.len() < 14 {
        Err(FormatError::TruncatedInput)
    } else if spec_format(b) is None {
        Err(FormatError::UnknownFormatTag)
    } else if b.len() < 0x3C {
        Err(FormatError::TruncatedInput)
    } else {
        let offs = Seq::new(16, |k: int| be_u16(b, 0x12 + 2 * k));
        match spec_parse_instruments(b, offs) {
            Err(e) => Err(e),
            Ok(instrs) => Ok(
                BkV {
                    size: be_i32(b, 4),
                    name: lossy_of(b.subrange(8, 12)),
                    name_raw: b.subrange(8, 12),
                    format: spec_format(b)->Some_0,
                    instrument_offsets: offs,
                    instruments_size: be_u16(b, 0x32),
                    unk_start_a: be_u16(b, 0x34),
                    unk_size_a: be_u16(b, 0x36),
                    predictors_start: be_u16(b, 0x38),
                    predictors_size: be_u16(b, 0x3A),
                    instruments: instrs,
                    raw: b,
                },
            ),
        }
    }
}

/// The format tag encoded at offset 12, when recognized.
pub open spec fn spec_format(b: Seq<u8>) -> Option<Format> {
    if b[12] == 0x43 && b[13] == 0x52 {
        Some(Format::Cr)
    } else if b[12] == 0x44 && b[13] == 0x52 {
        Some(Format::Dr)
    } else if b[12] == 0x53 && b[13] == 0x52 {
        Some(Format::Sr)
    } else {
        None
    }
}

/// What re-encoding a parsed bank produces: the source bytes, verbatim.
pub open spec fn spec_write(v: BkV) -> Seq<u8> {
    v.raw
}

impl Bk {
    /// The bank's four-character name, decoded permissively from its raw
    /// bytes.
    pub fn name(&self) -> (r: &str)
        ensures
            r@ == self@.name,
    {
        self.name.as_str()
    }

    /// The instruments, in the scan order of the nonzero offset-table slots.
    pub fn instruments(&self) -> (r: &[Instrument])
        ensures
            r@.len() == self@.instruments.len(),
            forall|i: int| 0 <= i < r@.len() ==> r@[i]@ == self@.instruments[i],
    {
        self.instruments.as_slice()
    }

    /// Parses a bank from a complete container buffer, exactly as
    /// [`spec_parse_bank`] describes it.
    #[verifier::rlimit(50)]
    #[verifier::loop_isolation(false)]
    pub fn parse(bytes: &[u8]) -> (r: Result<Bk, FormatError>)
        ensures
            match r {
                Ok(bk) => spec_parse_bank(bytes@) == Ok::<BkV, FormatError>(bk@),
                Err(e) => spec_parse_bank(bytes@) == Err::<BkV, FormatError>(e),
            },
    {
        if bytes.len() < 4 {
            return Err(FormatError::TruncatedInput);
        }
        if !(bytes[0] == 0x42 && bytes[1] == 0x4B && bytes[2] == 0x20 && bytes[3] == 0x20) {
            return Err(FormatError::BadMagic);
        }
        if bytes.len() < 14 {
            return Err(FormatError::TruncatedInput);
        }
        let format = if bytes[12] == 0x43 && bytes[13] == 0x52 {
            Format::Cr
        } else if bytes[12] == 0x44 && bytes[13] == 0x52 {
            Format::Dr
        } else if bytes[12] == 0x53 && bytes[13] == 0x52 {
            Format::Sr
        } else {
            return Err(FormatError::UnknownFormatTag);
        };
        if bytes.len() < 0x3C {
            return Err(FormatError::TruncatedInput);
        }

        let size = read_i32_be(bytes, 4);
        let name_slice = vstd::slice::slice_subrange(bytes, 8, 12);
        let name_raw = vstd::slice::slice_to_vec(name_slice);
        let name = utf8_lossy(name_slice);

        let mut instrument_offsets: Vec<u16> = Vec::new();
        let mut k: usize = 0;
        while k < 16
            invariant
                k <= 16,
                instrument_offsets@ =~= Seq::new(k as nat, |t: int| be_u16(bytes@, 0x12 + 2 * t)),
            decreases 16 - k,
        {
            let o = read_u16_be(bytes, 0x12 + 2 * k);
            proof {
                assert(instrument_offsets@.push(o) =~= Seq::new(
                    (k + 1) as nat,
                    |t: int| be_u16(bytes@, 0x12 + 2 * t),
                ));
            }
            instrument_offsets.push(o);
            k += 1;
        }
        let ghost offs = Seq::new(16, |k: int| be_u16(bytes@, 0x12 + 2 * k));
        proof {
            assert(instrument_offsets@ =~= offs);
        }

        let instruments_size = read_u16_be(bytes, 0x32);
        let unk_start_a = read_u16_be(bytes, 0x34);
        let unk_size_a = read_u16_be(bytes, 0x36);
        let predictors_start = read_u16_be(bytes, 0x38);
        let predictors_size = read_u16_be(bytes, 0x3A);

        let mut instruments: Vec<Instrument> = Vec::new();
        proof {
            assert(offs.take(0) =~= Seq::<u16>::empty());
            assert(instruments_view(instruments@) =~= Seq::<InstrumentV>::empty());
        }
        let mut i: usize = 0;
        while i < 16
            invariant
                i <= 16,
                spec_parse_instruments(bytes@, offs.take(i as int)) == Ok::<
                    Seq<InstrumentV>,
                    FormatError,
                >(instruments_view(instruments@)),
            decreases 16 - i,
        {
            proof {
                assert(offs.take(i + 1).drop_last() =~= offs.take(i as int));
            }
            let o = instrument_offsets[i];
            if o != 0 {
                match parse_instrument(bytes, o as usize) {
                    Ok(inst) => {
                        proof {
                            assert(instruments_view(instruments@.push(inst)) =~= instruments_view(
                                instruments@,
                            ).push(inst@));
                        }
                        instruments.push(inst);
                    },
                    Err(e) => {
                        proof {
                            lemma_parse_instruments_err(bytes@, offs, i + 1);
                        }
                        return Err(e);
                    },
                }
            }
            i += 1;
        }
        proof {
            assert(offs.take(16) =~= offs);
        }

        let raw = vstd::slice::slice_to_vec(bytes);
        let bk = Bk {
            size,
            name,
            name_raw,
            format,
            instrument_offsets,
            instruments_size,
            unk_start_a,
            unk_size_a,
            predictors_start,
            predictors_size,
            instruments,
            raw,
        };
        proof {
            let sp = spec_parse_bank(bytes@);
            assert(sp is Ok);
            let v = sp->Ok_0;
            assert(v.instruments =~= instruments_view(instruments@));
            assert(v.instrument_offsets =~= instrument_offsets@);
            assert(v.name_raw =~= name_raw@);
            assert(v =~= bk@);
        }
        Ok(bk)
    }

    /// Re-encodes the bank: the byte sequence it was parsed from, verbatim,
    /// reserved fields and unaddressed regions included.
    pub fn write(&self) -> (out: Vec<u8>)
        ensures
            out@ == spec_write(self@),
    {
        vstd::slice::slice_to_vec(self.raw.as_slice())
    }

    /// The indices of instruments whose prediction-coefficient block is not
    /// covered by the header's declared predictor pool.  The parser itself
    /// never rejects such an instrument: the condition is surfaced here as a
    /// non-fatal, reportable warning, and what to do with it is the caller's
    /// policy.
    #[verifier::loop_isolation(false)]
    pub fn predictor_pool_warnings(&self) -> (r: Vec<usize>)
        ensures
            r@ == spec_pool_warnings(self@, self@.instruments.len() as int),
    {
        let mut r: Vec<usize> = Vec::new();
        let n = self.instruments.len();
        let mut i: usize = 0;
        while i < n
            invariant
                i <= n,
                r@ =~= spec_pool_warnings(self@, i as int),
            decreases n - i,
        {
            let inst = &self.instruments[i];
            let lo = self.predictors_start as u64;
            let hi = lo + self.predictors_size as u64;
            if inst.predictor != 0 && ((inst.predictor as u64) < lo || inst.predictor as u64
                + inst.dc_book_size as u64 > hi) {
                proof {
                    assert(r@.push(i) =~= spec_pool_warnings(self@, i + 1));
                }
                r.push(i);
            } else {
                proof {
                    assert(r@ =~= spec_pool_warnings(self@, i + 1));
                }
            }
            i += 1;
        }
        r
    }
}

/// Whether instrument `i`'s coefficient block, as its record declares it,
/// lies outside the bank's declared predictor pool.
pub open spec fn spec_pool_warning(v: BkV, i: int) -> bool {
    let inst = v.instruments[i];
    inst.predictor != 0 && (inst.predictor < v.predictors_start || inst.predictor as int
        + inst.dc_book_size as int > v.predictors_start as int + v.predictors_size as int)
}

/// The indices below `n` that warn, in increasing order.
pub open spec fn spec_pool_warnings(v: BkV, n: int) -> Seq<usize>
    decreases n,
{
    if n <= 0 {
        Seq::empty()
    } else {
        let rest = spec_pool_warnings(v, n - 1);
        if spec_pool_warning(v, n - 1) {
            rest.push((n - 1) as usize)
        } else {
            rest
        }
    }
}

/// Round trip: a buffer that parses successfully re-encodes to itself,
/// byte for byte.
pub proof fn lemma_round_trip(b: Seq<u8>, v: BkV)
    requires
        spec_parse_bank(b) == Ok::<BkV, FormatError>(v),
    ensures
        spec_write(v) == b,
{
}

/// Order preservation: a successfully parsed slot table yields exactly one
/// instrument per nonzero slot, in slot order — the `j`-th instrument is the
/// record at the `j`-th nonzero offset.
pub proof fn lemma_order_preservation(b: Seq<u8>, offs: Seq<u16>, ivs: Seq<InstrumentV>)
    requires
        spec_parse_instruments(b, offs) == Ok::<Seq<InstrumentV>, FormatError>(ivs),
    ensures
        ({
            let nz = offs.filter(|o: u16| o != 0);
            &&& ivs.len() == nz.len()
            &&& forall|j: int|
                0 <= j < nz.len() ==> spec_parse_instrument(b, nz[j] as int) == Ok::<
                    InstrumentV,
                    FormatError,
                >(ivs[j])
        }),
    decreases offs.len(),
{
    reveal(Seq::filter);
    if offs.len() > 0 {
        let rest = spec_parse_instruments(b, offs.drop_last());
        match rest {
            Err(_) => {},
            Ok(rivs) => {
                lemma_order_preservation(b, offs.drop_last(), rivs);
                let nz = offs.filter(|o: u16| o != 0);
                let nzr = offs.drop_last().filter(|o: u16| o != 0);
                if offs.last() == 0 {
                    assert(nz =~= nzr);
                } else {
                    assert(nz =~= nzr.push(offs.last()));
                }
            },
        }
    }
}

} // verus!
