//! The speaker impulse-response set: the left- and right-ear responses of the
//! seven surround speaker directions, and the binary file through which the
//! set reaches the real-time audio processing object.
//!
//! File layout: `HRIR`, version (1), speaker count (7), response length,
//! sample rate, each a little-endian `u32`, then the samples as little-endian
//! `f32` (speaker by speaker, left ear before right ear).

use vstd::prelude::*;
use vstd::bytes::spec_u32_to_le_bytes;
use vstd::bytes::lemma_auto_spec_u32_to_from_le_bytes;

use crate::bytes::lemma_words_at_prefix;
use crate::bytes::lemma_words_at_suffix;
use crate::bytes::lemma_words_bytes;
use crate::bytes::lemma_words_at_bytes;
use crate::bytes::push_u32_le;
use crate::bytes::push_words_le;
use crate::bytes::read_words_at;
use crate::bytes::word_at;
use crate::bytes::words_at;
use crate::bytes::words_bytes;
use crate::hrtf_data::HrtfData;
use crate::hrtf_data::HrtfDataView;
use crate::convolver::ir_index;

verus! {

/// Format version written and accepted.
pub const VERSION: u32 = 1;

/// Number of speaker directions (7.1 without the LFE channel).
pub const NUM_SPEAKERS: usize = 7;

/// The bytes `HRIR` that open the file.
pub open spec fn ir_magic() -> Seq<u8> {
    seq![0x48u8, 0x52u8, 0x49u8, 0x52u8]
}

/// Size of the header in bytes.
pub open spec fn header_len() -> int {
    20
}

/// The contents of a [`SpeakerIrSet`].
pub struct SpeakerIrView<S> {
    pub irs: Seq<S>,
    pub ir_length: usize,
    pub sample_rate: u32,
}

/// Responses for the speaker directions, flat: for each speaker the left-ear
/// response followed by the right-ear response, `ir_length` samples each.
pub struct SpeakerIrSet<S> {
    pub irs: Vec<S>,
    pub ir_length: usize,
    pub sample_rate: u32,
}

impl<S> View for SpeakerIrSet<S> {
    type V = SpeakerIrView<S>;

    open spec fn view(&self) -> SpeakerIrView<S> {
        SpeakerIrView { irs: self.irs@, ir_length: self.ir_length, sample_rate: self.sample_rate }
    }
}

/// Why an impulse-response file was refused.
#[derive(Debug, Clone, Copy, PartialEq, Eq, Structural)]
pub enum IrFileError {
    /// Shorter than the 20-byte header.
    TooSmall,
    /// The first four bytes are not `HRIR`.
    InvalidMagic,
    /// The version word is not 1.
    UnsupportedVersion(u32),
    /// The speaker count is not 7.
    WrongSpeakerCount(u32),
    /// Shorter than the header and the samples it announces.
    Truncated { expected: u64, actual: usize },
}

/// The left and right responses of the chosen directions, in order.
pub open spec fn gathered_irs<S>(data: HrtfDataView<S>, dirs: Seq<usize>) -> Seq<S>
    decreases dirs.len(),
{
    if dirs.len() == 0 {
        Seq::empty()
    } else {
        gathered_irs(data, dirs.drop_last()) + data.irs[dirs.last() as int][0]
            + data.irs[dirs.last() as int][1]
    }
}

/// The header of the file image of a set.
pub open spec fn ir_header_bytes(v: SpeakerIrView<u32>) -> Seq<u8> {
    ir_magic() + spec_u32_to_le_bytes(VERSION) + spec_u32_to_le_bytes(NUM_SPEAKERS as u32)
        + spec_u32_to_le_bytes(v.ir_length as u32) + spec_u32_to_le_bytes(v.sample_rate)
}

/// The file image of a set: the header, then every sample as a
/// little-endian word.
pub open spec fn spec_ir_file_bytes(v: SpeakerIrView<u32>) -> Seq<u8> {
    ir_header_bytes(v) + words_bytes(v.irs)
}

/// The number of bytes a file must hold for a response length.
pub open spec fn expected_bytes(ir_length: u32) -> int {
    header_len() + 4 * (2 * NUM_SPEAKERS * ir_length)
}

/// The set a file holds, or why it is refused. Bytes after the samples are
/// ignored.
pub open spec fn spec_parse_ir_file(s: Seq<u8>) -> Result<SpeakerIrView<u32>, IrFileError> {
    if s.len() < header_len() {
        Err(IrFileError::TooSmall)
    } else if s.subrange(0, 4) != ir_magic() {
        Err(IrFileError::InvalidMagic)
    } else if word_at(s, 4) != VERSION {
        Err(IrFileError::UnsupportedVersion(word_at(s, 4)))
    } else if word_at(s, 8) != NUM_SPEAKERS {
        Err(IrFileError::WrongSpeakerCount(word_at(s, 8)))
    } else if s.len() < expected_bytes(word_at(s, 12)) {
        Err(
            IrFileError::Truncated {
                expected: expected_bytes(word_at(s, 12)) as u64,
                actual: s.len() as usize,
            },
        )
    } else {
        Ok(
            SpeakerIrView {
                irs: words_at(s, header_len(), (2 * NUM_SPEAKERS * word_at(s, 12)) as nat),
                ir_length: word_at(s, 12) as usize,
                sample_rate: word_at(s, 16),
            },
        )
    }
}

impl<S: Copy> SpeakerIrSet<S> {
    /// Gathers the left and right responses of the given directions (the
    /// directions closest to the seven speakers, in speaker order).
    pub fn from_hrtf_data(data: &HrtfData<S>, speaker_dirs: &[usize]) -> (r: SpeakerIrSet<S>)
        requires
            data@.wf(),
            forall|j: int| 0 <= j < speaker_dirs@.len() ==> #[trigger] speaker_dirs@[j] < data@.irs.len(),
        ensures
            r.irs@ == gathered_irs(data@, speaker_dirs@),
            r.ir_length == data@.spec_ir_length(),
            r.sample_rate == data@.sample_rate,
    {
        let ir_length = data.ir_length();
        let mut irs: Vec<S> = Vec::new();
        let mut j: usize = 0;
        assert(speaker_dirs@.subrange(0, 0) =~= Seq::<usize>::empty());
        while j < speaker_dirs.len()
            invariant
                data@.wf(),
                forall|i: int| 0 <= i < speaker_dirs@.len() ==> #[trigger] speaker_dirs@[i] < data@.irs.len(),
                j <= speaker_dirs@.len(),
                irs@ == gathered_irs(data@, speaker_dirs@.subrange(0, j as int)),
            decreases speaker_dirs@.len() - j,
        {
            let dir = speaker_dirs[j];
            let ghost before = irs@;
            let mut ear: usize = 0;
            while ear < 2
                invariant
                    data@.wf(),
                    dir < data@.irs.len(),
                    ear <= 2,
                    ear == 0 ==> irs@ == before,
                    ear == 1 ==> irs@ == before + data@.irs[dir as int][0],
                    ear == 2 ==> irs@ == before + data@.irs[dir as int][0] + data@.irs[dir as int][1],
                decreases 2 - ear,
            {
                let ir = data.get_ir(dir, ear);
                let ghost mid = irs@;
                let mut k: usize = 0;
                while k < ir.len()
                    invariant
                        k <= ir@.len(),
                        irs@ == mid + ir@.subrange(0, k as int),
                    decreases ir@.len() - k,
                {
                    irs.push(ir[k]);
                    k = k + 1;
                    assert(irs@ =~= mid + ir@.subrange(0, k as int));
                }
                assert(ir@.subrange(0, ir@.len() as int) =~= ir@);
                ear = ear + 1;
            }
            j = j + 1;
            assert(speaker_dirs@.subrange(0, j as int).drop_last() =~= speaker_dirs@.subrange(0, j - 1));
        }
        assert(speaker_dirs@.subrange(0, speaker_dirs@.len() as int) =~= speaker_dirs@);
        SpeakerIrSet { irs, ir_length, sample_rate: data.sample_rate() }
    }
}

impl SpeakerIrSet<u32> {
    /// The file image of the set (samples as their `f32` bit patterns). The
    /// response length is written as a `u32`, truncated as a cast truncates.
    pub fn to_bytes(&self) -> (r: Vec<u8>)
        ensures
            r@ == spec_ir_file_bytes(self@),
    {
        let mut out: Vec<u8> = Vec::new();
        out.push(0x48u8);
        out.push(0x52u8);
        out.push(0x49u8);
        out.push(0x52u8);
        assert(out@ =~= ir_magic());
        push_u32_le(&mut out, VERSION);
        push_u32_le(&mut out, NUM_SPEAKERS as u32);
        push_u32_le(&mut out, self.ir_length as u32);
        push_u32_le(&mut out, self.sample_rate);
        push_words_le(&mut out, self.irs.as_slice());
        out
    }

    /// Reads a set from a file image.
    pub fn from_bytes(data: &[u8]) -> (r: Result<SpeakerIrSet<u32>, IrFileError>)
        ensures
            match r {
                Ok(v) => spec_parse_ir_file(data@) == Ok::<SpeakerIrView<u32>, IrFileError>(v@),
                Err(e) => spec_parse_ir_file(data@) == Err::<SpeakerIrView<u32>, IrFileError>(e),
            },
    {
        let ghost s = data@;
        let len = data.len();
        if len < 20 {
            return Err(IrFileError::TooSmall);
        }
        if data[0] != 0x48u8 || data[1] != 0x52u8 || data[2] != 0x49u8 || data[3] != 0x52u8 {
            proof {
                if s.subrange(0, 4) == ir_magic() {
                    assert(s.subrange(0, 4)[0] == s[0]);
                    assert(s.subrange(0, 4)[1] == s[1]);
                    assert(s.subrange(0, 4)[2] == s[2]);
                    assert(s.subrange(0, 4)[3] == s[3]);
                }
            }
            return Err(IrFileError::InvalidMagic);
        }
        assert(s.subrange(0, 4) =~= ir_magic());
        let header = read_words_at(data, 4, 4);
        let version = header[0];
        let n_speakers = header[1];
        let ir_length = header[2];
        let sample_rate = header[3];
        if version != VERSION {
            return Err(IrFileError::UnsupportedVersion(version));
        }
        if n_speakers != NUM_SPEAKERS as u32 {
            return Err(IrFileError::WrongSpeakerCount(n_speakers));
        }
        let expected_floats: u64 = 14 * (ir_length as u64);
        let expected: u64 = 20 + expected_floats * 4;
        if (len as u64) < expected {
            return Err(IrFileError::Truncated { expected, actual: len });
        }
        let irs = read_words_at(data, 20, expected_floats as usize);
        Ok(SpeakerIrSet { irs, ir_length: ir_length as usize, sample_rate })
    }
}

/// A saved set loads back unchanged, whatever follows it in the file, when it
/// holds 14 responses of `ir_length` samples and `ir_length` fits the header.
pub proof fn lemma_ir_file_roundtrip(v: SpeakerIrView<u32>, rest: Seq<u8>)
    requires
        v.irs.len() == 2 * NUM_SPEAKERS * v.ir_length,
        v.ir_length <= u32::MAX,
    ensures
        spec_parse_ir_file(spec_ir_file_bytes(v) + rest) == Ok::<SpeakerIrView<u32>, IrFileError>(v),
{
    lemma_auto_spec_u32_to_from_le_bytes();
    lemma_words_bytes(v.irs);
    let h = ir_header_bytes(v);
    let w = words_bytes(v.irs);
    let s = spec_ir_file_bytes(v) + rest;
    assert(s =~= h + (w + rest));
    assert(h.len() == 20);
    assert(s.subrange(0, 4) =~= ir_magic());
    assert(s.subrange(4, 8) =~= spec_u32_to_le_bytes(VERSION));
    assert(s.subrange(8, 12) =~= spec_u32_to_le_bytes(NUM_SPEAKERS as u32));
    assert(s.subrange(12, 16) =~= spec_u32_to_le_bytes(v.ir_length as u32));
    assert(s.subrange(16, 20) =~= spec_u32_to_le_bytes(v.sample_rate));
    assert(word_at(s, 12) == v.ir_length);
    lemma_words_at_prefix(w, rest, 0, v.irs.len());
    lemma_words_at_suffix(h, w + rest, 0, v.irs.len());
    assert(words_at(s, 20, v.irs.len()) == v.irs);
}

/// A loaded set saves back to the start of the file it came from: the header
/// and the samples that the header announces.
pub proof fn lemma_ir_file_reproduced(s: Seq<u8>)
    requires
        spec_parse_ir_file(s) is Ok,
    ensures
        spec_ir_file_bytes(spec_parse_ir_file(s)->Ok_0) == s.subrange(
            0,
            expected_bytes(word_at(s, 12)),
        ),
{
    lemma_auto_spec_u32_to_from_le_bytes();
    let v = spec_parse_ir_file(s)->Ok_0;
    let n = (2 * NUM_SPEAKERS * word_at(s, 12)) as nat;
    lemma_words_at_bytes(s, 20, n);
    assert(s.subrange(4, 8).len() == 4);
    assert(s.subrange(8, 12).len() == 4);
    assert(s.subrange(12, 16).len() == 4);
    assert(s.subrange(16, 20).len() == 4);
    assert(spec_u32_to_le_bytes(word_at(s, 4)) == s.subrange(4, 8));
    assert(spec_u32_to_le_bytes(word_at(s, 8)) == s.subrange(8, 12));
    assert(spec_u32_to_le_bytes(word_at(s, 12)) == s.subrange(12, 16));
    assert(spec_u32_to_le_bytes(word_at(s, 16)) == s.subrange(16, 20));
    assert(spec_ir_file_bytes(v) =~= s.subrange(0, expected_bytes(word_at(s, 12))));
}

/// Gathering only appends: the responses of the first directions stay where
/// they are.
proof fn lemma_gathered_prefix<S>(data: HrtfDataView<S>, dirs: Seq<usize>, n: nat, len: nat)
    requires
        n <= dirs.len(),
        forall|j: int|
            0 <= j < dirs.len() ==> data.irs[#[trigger] dirs[j] as int][0].len() == len
                && data.irs[dirs[j] as int][1].len() == len,
    ensures
        gathered_irs(data, dirs.subrange(0, n as int)).len() == 2 * n * len,
        forall|j: int, e: int, k: int|
            0 <= j < n && 0 <= e < 2 && 0 <= k < len ==> #[trigger] gathered_irs(
                data,
                dirs.subrange(0, n as int),
            )[ir_index(j, e, len as int, k)] == data.irs[dirs[j] as int][e][k],
    decreases n,
{
    let g = gathered_irs(data, dirs.subrange(0, n as int));
    if n > 0 {
        let m = (n - 1) as nat;
        lemma_gathered_prefix(data, dirs, m, len);
        assert(dirs.subrange(0, n as int).drop_last() =~= dirs.subrange(0, m as int));
        assert(dirs.subrange(0, n as int).last() == dirs[m as int]);
        let g0 = gathered_irs(data, dirs.subrange(0, m as int));
        let d = dirs[m as int] as int;
        assert(g == g0 + data.irs[d][0] + data.irs[d][1]);
        assert(2 * n * len == 2 * m * len + 2 * len) by (nonlinear_arith)
            requires
                n == m + 1,
        ;
        assert forall|j: int, e: int, k: int|
            0 <= j < n && 0 <= e < 2 && 0 <= k < len implies #[trigger] g[ir_index(j, e, len as int, k)]
            == data.irs[dirs[j] as int][e][k] by {
            let idx = ir_index(j, e, len as int, k);
            if j < m {
                assert(0 <= idx < 2 * m * len) by (nonlinear_arith)
                    requires
                        idx == (2 * j + e) * len + k,
                        0 <= j < m,
                        0 <= e < 2,
                        0 <= k < len,
                ;
                assert(g[idx] == g0[idx]);
                assert(g0[ir_index(j, e, len as int, k)] == data.irs[dirs[j] as int][e][k]);
            } else {
                assert(idx == 2 * m * len + e * len + k) by (nonlinear_arith)
                    requires
                        idx == (2 * j + e) * len + k,
                        j == m,
                ;
                let a = g0 + data.irs[d][0];
                assert(a.len() == 2 * m * len + len);
                assert(g == a + data.irs[d][1]);
                if e == 0 {
                    assert(idx == 2 * m * len + k) by (nonlinear_arith)
                        requires
                            idx == 2 * m * len + e * len + k,
                            e == 0,
                    ;
                    assert(a[idx] == data.irs[d][0][k]);
                    assert(g[idx] == a[idx]);
                } else {
                    assert(idx == 2 * m * len + len + k) by (nonlinear_arith)
                        requires
                            idx == 2 * m * len + e * len + k,
                            e == 1,
                    ;
                    assert(idx == a.len() + k);
                    assert(g[idx] == data.irs[d][1][k]);
                }
            }
        }
    }
}

/// When every chosen response has `len` samples, the gathered set holds
/// `2 * dirs.len() * len` samples, and tap `k` of ear `e` of speaker `j` lies
/// where the convolver reads it ([`ir_index`]).
pub proof fn lemma_gathered_layout<S>(data: HrtfDataView<S>, dirs: Seq<usize>, len: nat)
    requires
        forall|j: int|
            0 <= j < dirs.len() ==> data.irs[#[trigger] dirs[j] as int][0].len() == len
                && data.irs[dirs[j] as int][1].len() == len,
    ensures
        gathered_irs(data, dirs).len() == 2 * dirs.len() * len,
        forall|j: int, e: int, k: int|
            0 <= j < dirs.len() && 0 <= e < 2 && 0 <= k < len ==> #[trigger] gathered_irs(data, dirs)[ir_index(
                j,
                e,
                len as int,
                k,
            )] == data.irs[dirs[j] as int][e][k],
{
    lemma_gathered_prefix(data, dirs, dirs.len(), len);
    assert(dirs.subrange(0, dirs.len() as int) =~= dirs);
}

/// The set gathered for the seven speakers from data whose responses all
/// have the same length (as the synthesiser produces them) is a well-formed
/// set: it saves and loads back unchanged.
pub proof fn lemma_gathered_set_roundtrip<S>(data: HrtfDataView<u32>, dirs: Seq<usize>, rest: Seq<u8>)
    requires
        data.wf(),
        data.irs.len() > 0,
        dirs.len() == NUM_SPEAKERS,
        forall|j: int| 0 <= j < dirs.len() ==> #[trigger] dirs[j] < data.irs.len(),
        forall|d: int, e: int|
            0 <= d < data.irs.len() && 0 <= e < 2 ==> (#[trigger] data.irs[d][e]).len() == data.spec_ir_length(),
        data.spec_ir_length() <= u32::MAX,
    ensures
        ({
            let v = SpeakerIrView {
                irs: gathered_irs(data, dirs),
                ir_length: data.spec_ir_length() as usize,
                sample_rate: data.sample_rate,
            };
            spec_parse_ir_file(spec_ir_file_bytes(v) + rest) == Ok::<SpeakerIrView<u32>, IrFileError>(v)
        }),
{
    let len = data.spec_ir_length();
    assert forall|j: int| 0 <= j < dirs.len() implies data.irs[#[trigger] dirs[j] as int][0].len() == len
        && data.irs[dirs[j] as int][1].len() == len by {
        assert(data.irs[dirs[j] as int][0].len() == len);
        assert(data.irs[dirs[j] as int][1].len() == len);
    }
    lemma_gathered_layout(data, dirs, len);
    let v = SpeakerIrView {
        irs: gathered_irs(data, dirs),
        ir_length: len as usize,
        sample_rate: data.sample_rate,
    };
    lemma_ir_file_roundtrip(v, rest);
}

} // verus!
