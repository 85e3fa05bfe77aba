//! The envelope command program attached to an instrument: an ordered list of
//! (press, release) entry-point offsets and a flat command list, parsed from a
//! variable-length byte stream terminated by an `End` command.

use vstd::prelude::*;

use crate::bytes::be_u16;
use crate::FormatError;

verus! {

/// One command of an envelope program.  The first five variants are tagged by
/// a reserved opcode byte (`0xFB..=0xFF`); any other leading byte is the
/// `time` field of the untagged fallback `ChangeAmplitude`.
#[derive(Debug, Clone, Copy, PartialEq, Eq, Structural)]
pub enum EnvelopeCmd {
    EndLoop(u8),
    /// `count` of 0 means infinite.
    StartLoop { count: u8 },
    AddMultiplier(u8),
    SetMultiplier(u8),
    /// Terminates the command list.
    End(u8),
    ChangeAmplitude { time: u8, amplitude: u8 },
}

/// The pair of entry points of one envelope phase: byte offsets into the
/// command stream for the key-press and key-release programs.
#[derive(Debug, Clone, Copy, PartialEq, Eq, Structural)]
pub struct EnvelopeOffset {
    pub press: u16,
    pub release: u16,
}

/// An instrument's envelope: entry-point offsets plus the command list they
/// index into.  Built once while the instrument is parsed; immutable after.
#[derive(Debug, Clone, PartialEq, Eq)]
pub struct Envelope {
    pub offsets: Vec<EnvelopeOffset>,
    pub cmds: Vec<EnvelopeCmd>,
}

/// The mathematical model of an [`Envelope`].
#[verifier::ext_equal]
pub ghost struct EnvelopeV {
    pub offsets: Seq<EnvelopeOffset>,
    pub cmds: Seq<EnvelopeCmd>,
}

impl View for Envelope {
    type V = EnvelopeV;

    open spec fn view(&self) -> EnvelopeV {
        EnvelopeV { offsets: self.offsets@, cmds: self.cmds@ }
    }
}

/// The command encoded by the two bytes at `pos`.
pub open spec fn spec_cmd(b: Seq<u8>, pos: int) -> EnvelopeCmd {
    let op = b[pos];
    let arg = b[pos + 1];
    if op == 0xFB {
        EnvelopeCmd::EndLoop(arg)
    } else if op == 0xFC {
        EnvelopeCmd::StartLoop { count: arg }
    } else if op == 0xFD {
        EnvelopeCmd::AddMultiplier(arg)
    } else if op == 0xFE {
        EnvelopeCmd::SetMultiplier(arg)
    } else if op == 0xFF {
        EnvelopeCmd::End(arg)
    } else {
        EnvelopeCmd::ChangeAmplitude { time: op, amplitude: arg }
    }
}

/// The commands read two bytes at a time from `pos` up to and including the
/// first `End` command; `None` if the buffer ends first.
pub open spec fn spec_cmds_until_end(b: Seq<u8>, pos: int) -> Option<Seq<EnvelopeCmd>>
    decreases b.len() - pos,
{
    if pos + 2 <= b.len() {
        let c = spec_cmd(b, pos);
        if c is End {
            Some(seq![c])
        } else {
            match spec_cmds_until_end(b, pos + 2) {
                Some(rest) => Some(seq![c] + rest),
                None => None,
            }
        }
    } else {
        None
    }
}

/// The `n` offset pairs laid out four bytes apiece starting at `pos`.
pub open spec fn spec_offsets(b: Seq<u8>, pos: int, n: nat) -> Seq<EnvelopeOffset> {
    Seq::new(
        n,
        |k: int|
            EnvelopeOffset {
                press: be_u16(b, pos + 4 * k),
                release: be_u16(b, pos + 4 * k + 2),
            },
    )
}

/// The largest press or release value in `offs`; 0 when `offs` is empty.
pub open spec fn spec_max_offset(offs: Seq<EnvelopeOffset>) -> int
    decreases offs.len(),
{
    if offs.len() == 0 {
        0
    } else {
        let m = spec_max_offset(offs.drop_last());
        let o = offs.last();
        let m1 = if o.press as int > m {
            o.press as int
        } else {
            m
        };
        if o.release as int > m1 {
            o.release as int
        } else {
            m1
        }
    }
}

/// The envelope encoded at offset `off`: a count byte, three padding bytes,
/// `count` offset pairs, then at least `max_offset / 4 + 1` commands followed
/// by however many more it takes to reach an `End` command.  `None` if the
/// buffer ends before the stream is complete.
pub open spec fn spec_parse_envelope(b: Seq<u8>, off: int) -> Option<EnvelopeV> {
    if off + 4 <= b.len() {
        let count = b[off] as int;
        if off + 4 + 4 * count <= b.len() {
            let offsets = spec_offsets(b, off + 4, count as nat);
            let n1 = spec_max_offset(offsets) / 4 + 1;
            let p0 = off + 4 + 4 * count;
            if p0 + 2 * n1 <= b.len() {
                let head = Seq::new(n1 as nat, |k: int| spec_cmd(b, p0 + 2 * k));
                match spec_cmds_until_end(b, p0 + 2 * n1) {
                    Some(tail) => Some(EnvelopeV { offsets, cmds: head + tail }),
                    None => None,
                }
            } else {
                None
            }
        } else {
            None
        }
    } else {
        None
    }
}

/// Reads the command encoded by the two bytes at `pos`.
fn read_cmd(b: &[u8], pos: usize) -> (c: EnvelopeCmd)
    requires
        pos + 2 <= b@.len(),
    ensures
        c == spec_cmd(b@, pos as int),
{
    let op = b[pos];
    let arg = b[pos + 1];
    if op == 0xFB {
        EnvelopeCmd::EndLoop(arg)
    } else if op == 0xFC {
        EnvelopeCmd::StartLoop { count: arg }
    } else if op == 0xFD {
        EnvelopeCmd::AddMultiplier(arg)
    } else if op == 0xFE {
        EnvelopeCmd::SetMultiplier(arg)
    } else if op == 0xFF {
        EnvelopeCmd::End(arg)
    } else {
        EnvelopeCmd::ChangeAmplitude { time: op, amplitude: arg }
    }
}

/// Parses the envelope block at offset `off`, exactly as
/// [`spec_parse_envelope`] describes it.
#[verifier::loop_isolation(false)]
pub fn parse_envelope(bytes: &[u8], off: usize) -> (r: Result<Envelope, FormatError>)
    ensures
        match r {
            Ok(env) => spec_parse_envelope(bytes@, off as int) == Some(env@),
            Err(e) => e == FormatError::TruncatedInput && spec_parse_envelope(
                bytes@,
                off as int,
            ) is None,
        },
{
    if off > bytes.len() || bytes.len() - off < 4 {
        return Err(FormatError::TruncatedInput);
    }
    let count = bytes[off] as usize;
    if 4 * count > bytes.len() - off - 4 {
        return Err(FormatError::TruncatedInput);
    }

    let mut offsets: Vec<EnvelopeOffset> = Vec::new();
    let mut max: u16 = 0;
    let mut k: usize = 0;
    while k < count
        invariant
            k <= count,
            offsets@ =~= spec_offsets(bytes@, off as int + 4, k as nat),
            max as int == spec_max_offset(offsets@),
        decreases count - k,
    {
        let press = crate::bytes::read_u16_be(bytes, off + 4 + 4 * k);
        let release = crate::bytes::read_u16_be(bytes, off + 4 + 4 * k + 2);
        let o = EnvelopeOffset { press, release };
        proof {
            assert(offsets@.push(o).drop_last() =~= offsets@);
            assert(offsets@.push(o) =~= spec_offsets(bytes@, off as int + 4, (k + 1) as nat));
        }
        offsets.push(o);
        if press > max {
            max = press;
        }
        if release > max {
            max = release;
        }
        k += 1;
    }

    let n1: usize = max as usize / 4 + 1;
    let p0: usize = off + 4 + 4 * count;
    if 2 * n1 > bytes.len() - p0 {
        return Err(FormatError::TruncatedInput);
    }

    let mut cmds: Vec<EnvelopeCmd> = Vec::new();
    let mut k: usize = 0;
    while k < n1
        invariant
            k <= n1,
            cmds@ =~= Seq::new(k as nat, |t: int| spec_cmd(bytes@, p0 as int + 2 * t)),
        decreases n1 - k,
    {
        let c = read_cmd(bytes, p0 + 2 * k);
        proof {
            assert(cmds@.push(c) =~= Seq::new(
                (k + 1) as nat,
                |t: int| spec_cmd(bytes@, p0 as int + 2 * t),
            ));
        }
        cmds.push(c);
        k += 1;
    }
    let ghost head_seq = cmds@;

    let p1: usize = p0 + 2 * n1;
    let mut tail: Vec<EnvelopeCmd> = Vec::new();
    let mut pos: usize = p1;
    let mut done = false;
    while !done
        invariant
            p1 <= pos,
            pos <= bytes@.len(),
            !done ==> spec_cmds_until_end(bytes@, p1 as int) == (match spec_cmds_until_end(
                bytes@,
                pos as int,
            ) {
                Some(t) => Some(tail@ + t),
                None => None::<Seq<EnvelopeCmd>>,
            }),
            done ==> spec_cmds_until_end(bytes@, p1 as int) == Some(tail@),
        decreases bytes@.len() - pos + (if done { 0int } else { 2int }),
    {
        if bytes.len() - pos < 2 {
            proof {
                assert(spec_cmds_until_end(bytes@, pos as int) is None);
            }
            return Err(FormatError::TruncatedInput);
        }
        let c = read_cmd(bytes, pos);
        let ghost old_tail = tail@;
        tail.push(c);
        pos += 2;
        if let EnvelopeCmd::End(_) = c {
            proof {
                assert(spec_cmds_until_end(bytes@, pos as int - 2) == Some(seq![c]));
                assert(old_tail + seq![c] =~= tail@);
            }
            done = true;
        } else {
            proof {
                let rest = spec_cmds_until_end(bytes@, pos as int);
                if rest is Some {
                    assert(old_tail + (seq![c] + rest->Some_0) =~= tail@ + rest->Some_0);
                }
            }
        }
    }

    // The command list is the counted head followed by the terminated tail.
    let mut j: usize = 0;
    let n_tail = tail.len();
    while j < n_tail
        invariant
            j <= n_tail,
            cmds@ =~= head_seq + tail@.take(j as int),
        decreases n_tail - j,
    {
        let c = tail[j];
        proof {
            assert(tail@.take(j as int + 1) =~= tail@.take(j as int).push(tail@[j as int]));
            assert(cmds@.push(tail@[j as int]) =~= head_seq + tail@.take(j as int + 1));
        }
        cmds.push(c);
        j += 1;
    }
    proof {
        assert(tail@.take(n_tail as int) =~= tail@);
    }

    let env = Envelope { offsets, cmds };
    proof {
        assert(spec_parse_envelope(bytes@, off as int) matches Some(v) && v =~= env@);
    }
    Ok(env)
}

/// The index of the first `End` command at or after `i`, if any.
pub open spec fn first_end_at_or_after(cmds: Seq<EnvelopeCmd>, i: int) -> Option<int>
    decreases cmds.len() - i,
{
    if i >= cmds.len() {
        None
    } else if cmds[i] is End {
        Some(i)
    } else {
        first_end_at_or_after(cmds, i + 1)
    }
}

/// The exclusive upper bound of the command span that starts at `start`: the
/// index of the first `End` command from there on, or `start` itself when no
/// `End` command follows (the span is then empty).
pub open spec fn end_of_span(cmds: Seq<EnvelopeCmd>, start: int) -> int {
    match first_end_at_or_after(cmds, start) {
        Some(e) => e,
        None => start,
    }
}

/// A scan that saw no `End` command in `[start, i)` may resume at `i`.
proof fn lemma_first_end_scan(cmds: Seq<EnvelopeCmd>, start: int, i: int)
    requires
        0 <= start <= i <= cmds.len(),
        forall|j: int| start <= j < i ==> !(cmds[j] is End),
    ensures
        first_end_at_or_after(cmds, start) == first_end_at_or_after(cmds, i),
    decreases i - start,
{
    if start < i {
        lemma_first_end_scan(cmds, start + 1, i);
    }
}

impl EnvelopeOffset {
    /// The key-press command span: the commands from `press / 4` up to (and
    /// excluding) the first `End` command, or nothing when no `End` command
    /// follows that index.
    pub fn press_cmds<'a>(&self, cmds: &'a [EnvelopeCmd]) -> (r: &'a [EnvelopeCmd])
        requires
            self.press as int / 4 <= cmds@.len(),
        ensures
            r@ == cmds@.subrange(self.press as int / 4, end_of_span(cmds@, self.press as int / 4)),
    {
        let start = (self.press / 4) as usize;
        span_from(cmds, start)
    }

    /// The key-release command span, found the same way from `release / 4`.
    pub fn release_cmds<'a>(&self, cmds: &'a [EnvelopeCmd]) -> (r: &'a [EnvelopeCmd])
        requires
            self.release as int / 4 <= cmds@.len(),
        ensures
            r@ == cmds@.subrange(
                self.release as int / 4,
                end_of_span(cmds@, self.release as int / 4),
            ),
    {
        let start = (self.release / 4) as usize;
        span_from(cmds, start)
    }
}

/// Slices `cmds` from `start` up to the first `End` command at or after it,
/// yielding an empty slice when none is found.
fn span_from<'a>(cmds: &'a [EnvelopeCmd], start: usize) -> (r: &'a [EnvelopeCmd])
    requires
        start <= cmds@.len(),
    ensures
        r@ == cmds@.subrange(start as int, end_of_span(cmds@, start as int)),
{
    let n = cmds.len();
    let mut i = start;
    let mut end = start;
    let mut found = false;
    while i < n && !found
        invariant
            start <= i <= n,
            n == cmds@.len(),
            forall|j: int| start <= j < i ==> !(cmds@[j] is End),
            !found ==> end == start,
            found ==> (cmds@[i as int] is End) && end == i && i < n,
        decreases n - i + (if found { 0int } else { 1int }),
    {
        if let EnvelopeCmd::End(_) = cmds[i] {
            found = true;
            end = i;
        } else {
            i += 1;
        }
    }
    proof {
        if found {
            lemma_first_end_scan(cmds@, start as int, i as int);
            assert(first_end_at_or_after(cmds@, i as int) == Some(i as int));
        } else {
            lemma_first_end_scan(cmds@, start as int, n as int);
            assert(first_end_at_or_after(cmds@, n as int) is None);
        }
    }
    vstd::slice::slice_subrange(cmds, start, end)
}

} // verus!
