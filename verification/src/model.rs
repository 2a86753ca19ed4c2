//! The binary HRTF model file: `HRTF` magic, a version word, the dimensions,
//! one network record per direction and ear, the source positions and the
//! interaural-time-difference reference table.
//!
//! Every value is little-endian. The file stores IEEE-754 single precision
//! numbers; this module keeps them as their 32-bit patterns (`u32`), exactly as
//! they appear in the file, and leaves their interpretation to the caller.

use vstd::prelude::*;
use vstd::bytes::u32_from_le_bytes;

use crate::bytes::word_at;
use crate::bytes::words_at;
use crate::bytes::read_words_at;
use crate::bytes::lemma_word_at_prefix;
use crate::bytes::lemma_words_at_prefix;
use crate::bytes::words_bytes;
use crate::bytes::lemma_words_at_bytes;

verus! {

/// Why a model file was refused.
#[derive(Debug, Clone, Copy, PartialEq, Eq, Structural)]
pub enum ModelError {
    /// The data ended before the structure that the header announces.
    UnexpectedEof,
    /// The first four bytes are not `HRTF`.
    InvalidMagic,
    /// The version word is not 1.
    UnsupportedVersion(u32),
    /// The dimensions are inconsistent. The parser never reports it: a file
    /// whose counts run past its end is `UnexpectedEof`.
    InvalidDimensions,
}

/// Reading a word at `pos`: the word and the offset after it, or nothing when
/// fewer than four bytes remain.
pub open spec fn spec_read_u32(s: Seq<u8>, pos: int) -> Option<(u32, int)> {
    if 0 <= pos && pos + 4 <= s.len() {
        Some((word_at(s, pos), pos + 4))
    } else {
        None
    }
}

/// Reading a flag byte at `pos`: any nonzero byte is `true`.
pub open spec fn spec_read_bool(s: Seq<u8>, pos: int) -> Option<(bool, int)> {
    if 0 <= pos && pos < s.len() {
        Some((s[pos] != 0, pos + 1))
    } else {
        None
    }
}

/// Reads a little-endian `u32` at `*pos` and moves `*pos` past it.
pub fn read_u32(data: &[u8], pos: &mut usize) -> (r: Result<u32, ModelError>)
    ensures
        match spec_read_u32(data@, *old(pos) as int) {
            Some((v, next)) => r == Ok::<u32, ModelError>(v) && *final(pos) == next,
            None => r == Err::<u32, ModelError>(ModelError::UnexpectedEof) && *final(pos) == *old(pos),
        },
{
    let p = *pos;
    if p <= data.len() && data.len() - p >= 4 {
        let v = u32_from_le_bytes(&data[p..p + 4]);
        *pos = p + 4;
        Ok(v)
    } else {
        Err(ModelError::UnexpectedEof)
    }
}

/// Reads one flag byte at `*pos` (nonzero means `true`) and moves `*pos` past it.
pub fn read_bool(data: &[u8], pos: &mut usize) -> (r: Result<bool, ModelError>)
    ensures
        match spec_read_bool(data@, *old(pos) as int) {
            Some((v, next)) => r == Ok::<bool, ModelError>(v) && *final(pos) == next,
            None => r == Err::<bool, ModelError>(ModelError::UnexpectedEof) && *final(pos) == *old(pos),
        },
{
    let p = *pos;
    if p < data.len() {
        let b = data[p];
        *pos = p + 1;
        Ok(b != 0)
    } else {
        Err(ModelError::UnexpectedEof)
    }
}

/// Reading `n` consecutive words at `pos`: all of them, or nothing when the
/// data ends first.
pub open spec fn spec_read_words(s: Seq<u8>, pos: int, n: nat) -> Option<(Seq<u32>, int)> {
    if 0 <= pos && pos + 4 * n <= s.len() {
        Some((words_at(s, pos, n), pos + 4 * n))
    } else {
        None
    }
}

/// Reads `count` consecutive little-endian words at `*pos` and moves `*pos`
/// past them. On failure nothing is consumed.
pub fn read_words(data: &[u8], pos: &mut usize, count: u64) -> (r: Result<Vec<u32>, ModelError>)
    ensures
        match spec_read_words(data@, *old(pos) as int, count as nat) {
            Some((v, next)) => r is Ok && r->Ok_0@ == v && *final(pos) == next,
            None => r == Err::<Vec<u32>, ModelError>(ModelError::UnexpectedEof) && *final(pos) == *old(pos),
        },
{
    let p0 = *pos;
    if p0 > data.len() || count > ((data.len() - p0) / 4) as u64 {
        return Err(ModelError::UnexpectedEof);
    }
    let n = count as usize;
    let out = read_words_at(data, p0, n);
    *pos = p0 + 4 * n;
    Ok(out)
}

/// Units of the hidden layer of every network.
pub const HIDDEN_UNITS: usize = 20;

/// Inputs of every network (head width, head depth, six ear parameters).
pub const NETWORK_INPUTS: usize = 8;

/// Outputs of every network.
pub const NETWORK_OUTPUTS: usize = 12;

/// Byte offset, inside a record, of the flag that announces input normalisation.
pub open spec fn flag_offset() -> int { 1728 }

/// One network record as stored in the file: the hidden layer (20 x 8 weights,
/// row-major, and 20 biases), the output layer (12 x 20 weights and 12
/// biases), the optional input normalisation (8 means, 8 deviations), the
/// output range (`n_pca` minima and maxima, then the target range), and the PCA
/// basis of the direction and ear (`n_freq x n_pca` coefficients, row-major,
/// and `n_freq` means). Values are bit patterns of `f32`.
pub struct ChannelView {
    pub hidden_weights: Seq<u32>,
    pub hidden_bias: Seq<u32>,
    pub output_weights: Seq<u32>,
    pub output_bias: Seq<u32>,
    pub input_norm: Option<(Seq<u32>, Seq<u32>)>,
    pub xmin: Seq<u32>,
    pub xmax: Seq<u32>,
    pub ymin: u32,
    pub ymax: u32,
    pub pca_coeffs: Seq<u32>,
    pub pca_mean: Seq<u32>,
}

/// Where the output-range part of a record starts, given the flag.
pub open spec fn tail_start(pos: int, flag: bool) -> int {
    pos + flag_offset() + 1 + if flag { 64int } else { 0int }
}

/// The offset just after a record at `pos` whose flag is `flag`.
pub open spec fn record_end(pos: int, flag: bool, n_freq: nat, n_pca: nat, n_coeff: nat) -> int {
    tail_start(pos, flag) + 4 * n_pca + 4 * n_pca + 8 + 4 * n_coeff + 4 * n_freq
}

/// Reading one network record at `pos` (`n_coeff` is `n_freq * n_pca`): the
/// record and the offset after it, or nothing when the data ends first.
pub open spec fn spec_read_channel(s: Seq<u8>, pos: int, n_freq: nat, n_pca: nat, n_coeff: nat)
    -> Option<(ChannelView, int)>
{
    if !(0 <= pos && pos + flag_offset() + 1 <= s.len()) {
        None
    } else {
        let flag = s[pos + flag_offset()] != 0;
        let t = tail_start(pos, flag);
        let end = record_end(pos, flag, n_freq, n_pca, n_coeff);
        if end <= s.len() {
            Some((
                ChannelView {
                    hidden_weights: words_at(s, pos, 160),
                    hidden_bias: words_at(s, pos + 640, 20),
                    output_weights: words_at(s, pos + 720, 240),
                    output_bias: words_at(s, pos + 1680, 12),
                    input_norm: if flag {
                        Some((words_at(s, pos + 1729, 8), words_at(s, pos + 1761, 8)))
                    } else {
                        None
                    },
                    xmin: words_at(s, t, n_pca),
                    xmax: words_at(s, t + 4 * n_pca, n_pca),
                    ymin: word_at(s, t + 8 * n_pca),
                    ymax: word_at(s, t + 8 * n_pca + 4),
                    pca_coeffs: words_at(s, t + 8 * n_pca + 8, n_coeff),
                    pca_mean: words_at(s, t + 8 * n_pca + 8 + 4 * n_coeff, n_freq),
                },
                end,
            ))
        } else {
            None
        }
    }
}

/// Words taken by the two layers of a network: hidden weights and biases,
/// then output weights and biases.
pub open spec fn network_words() -> int {
    HIDDEN_UNITS * NETWORK_INPUTS + HIDDEN_UNITS + NETWORK_OUTPUTS * HIDDEN_UNITS + NETWORK_OUTPUTS
}

/// A record has the shape of the network: a hidden layer of `HIDDEN_UNITS`
/// rows of `NETWORK_INPUTS` weights and `HIDDEN_UNITS` biases, an output layer
/// of `NETWORK_OUTPUTS` rows of `HIDDEN_UNITS` weights and `NETWORK_OUTPUTS`
/// biases, `NETWORK_INPUTS` means and deviations where it normalises its
/// input, `n_pca` output minima and maxima, and a PCA basis of `n_coeff`
/// coefficients and `n_freq` means.
pub open spec fn channel_shaped(c: ChannelView, n_freq: nat, n_pca: nat, n_coeff: nat) -> bool {
    &&& c.hidden_weights.len() == HIDDEN_UNITS * NETWORK_INPUTS
    &&& c.hidden_bias.len() == HIDDEN_UNITS
    &&& c.output_weights.len() == NETWORK_OUTPUTS * HIDDEN_UNITS
    &&& c.output_bias.len() == NETWORK_OUTPUTS
    &&& match c.input_norm {
        Some((m, d)) => m.len() == NETWORK_INPUTS && d.len() == NETWORK_INPUTS,
        None => true,
    }
    &&& c.xmin.len() == n_pca
    &&& c.xmax.len() == n_pca
    &&& c.pca_coeffs.len() == n_coeff
    &&& c.pca_mean.len() == n_freq
}

/// The bytes of the optional input normalisation: the means, then the
/// deviations, or nothing.
pub open spec fn norm_bytes(n: Option<(Seq<u32>, Seq<u32>)>) -> Seq<u8> {
    match n {
        Some((m, d)) => words_bytes(m) + words_bytes(d),
        None => Seq::empty(),
    }
}

/// A record written out field by field, in file order, with `flag` as the
/// byte that announces input normalisation.
pub open spec fn channel_bytes(c: ChannelView, flag: u8) -> Seq<u8> {
    words_bytes(c.hidden_weights) + words_bytes(c.hidden_bias) + words_bytes(c.output_weights)
        + words_bytes(c.output_bias) + seq![flag] + norm_bytes(c.input_norm) + words_bytes(c.xmin)
        + words_bytes(c.xmax) + words_bytes(seq![c.ymin, c.ymax]) + words_bytes(c.pca_coeffs)
        + words_bytes(c.pca_mean)
}

/// One network record of the file (see [`ChannelView`]).
pub struct ChannelRecord {
    pub hidden_weights: Vec<u32>,
    pub hidden_bias: Vec<u32>,
    pub output_weights: Vec<u32>,
    pub output_bias: Vec<u32>,
    pub input_norm: Option<(Vec<u32>, Vec<u32>)>,
    pub xmin: Vec<u32>,
    pub xmax: Vec<u32>,
    pub ymin: u32,
    pub ymax: u32,
    pub pca_coeffs: Vec<u32>,
    pub pca_mean: Vec<u32>,
}

impl View for ChannelRecord {
    type V = ChannelView;

    open spec fn view(&self) -> ChannelView {
        ChannelView {
            hidden_weights: self.hidden_weights@,
            hidden_bias: self.hidden_bias@,
            output_weights: self.output_weights@,
            output_bias: self.output_bias@,
            input_norm: match self.input_norm {
                Some((m, d)) => Some((m@, d@)),
                None => None,
            },
            xmin: self.xmin@,
            xmax: self.xmax@,
            ymin: self.ymin,
            ymax: self.ymax,
            pca_coeffs: self.pca_coeffs@,
            pca_mean: self.pca_mean@,
        }
    }
}

/// Reads one network record at `*pos` for a model with `n_freq` frequency bins
/// and `n_pca` principal components, and moves `*pos` past it.
pub fn read_channel(data: &[u8], pos: &mut usize, n_freq: u32, n_pca: u32) -> (r: Result<
    ChannelRecord,
    ModelError,
>)
    ensures
        match spec_read_channel(data@, *old(pos) as int, n_freq as nat, n_pca as nat, (n_freq * n_pca) as nat) {
            Some((c, next)) => r is Ok && r->Ok_0@ == c && *final(pos) == next,
            None => r is Err && r->Err_0 == ModelError::UnexpectedEof,
        },
        r is Ok ==> channel_shaped(r->Ok_0@, n_freq as nat, n_pca as nat, (n_freq * n_pca) as nat),
        r is Ok ==> data@.subrange(*old(pos) as int, *final(pos) as int) == channel_bytes(
            r->Ok_0@,
            data@[*old(pos) + 4 * network_words()],
        ),
{
    let ghost s = data@;
    let ghost p0 = *pos as int;
    assert((n_freq as int) * (n_pca as int) <= 0xffff_ffff_ffff_ffff) by (nonlinear_arith)
        requires
            n_freq <= 0xffff_ffffu32,
            n_pca <= 0xffff_ffffu32,
    ;
    let n_coeff: u64 = (n_freq as u64) * (n_pca as u64);
    let hidden_weights = read_words(data, pos, 160)?;
    let hidden_bias = read_words(data, pos, 20)?;
    let output_weights = read_words(data, pos, 240)?;
    let output_bias = read_words(data, pos, 12)?;
    let has_input_norm = read_bool(data, pos)?;
    let input_norm = if has_input_norm {
        let mean = read_words(data, pos, 8)?;
        let std = read_words(data, pos, 8)?;
        Some((mean, std))
    } else {
        None
    };
    let xmin = read_words(data, pos, n_pca as u64)?;
    let xmax = read_words(data, pos, n_pca as u64)?;
    let ymin = read_u32(data, pos)?;
    let ymax = read_u32(data, pos)?;
    let pca_coeffs = read_words(data, pos, n_coeff)?;
    let pca_mean = read_words(data, pos, n_freq as u64)?;
    let rec = ChannelRecord {
        hidden_weights,
        hidden_bias,
        output_weights,
        output_bias,
        input_norm,
        xmin,
        xmax,
        ymin,
        ymax,
        pca_coeffs,
        pca_mean,
    };
    proof {
        assert(has_input_norm == (s[p0 + flag_offset()] != 0));
        assert(rec@ == spec_read_channel(s, p0, n_freq as nat, n_pca as nat, (n_freq * n_pca) as nat).unwrap().0);
        lemma_channel_record_layout(s, p0, n_freq as nat, n_pca as nat, (n_freq * n_pca) as nat);
    }
    Ok(rec)
}

/// A piece of a sequence is its first part followed by its second part.
proof fn lemma_split(s: Seq<u8>, a: int, b: int, c: int)
    requires
        0 <= a <= b <= c <= s.len(),
    ensures
        s.subrange(a, c) == s.subrange(a, b) + s.subrange(b, c),
{
    assert(s.subrange(a, c) =~= s.subrange(a, b) + s.subrange(b, c));
}

/// The layout of a network record. A record that is read has the shape of
/// the network, its flag byte is nonzero exactly when it normalises its input,
/// and the bytes it was read from are its fields written out in file order:
/// hidden weights, hidden biases, output weights, output biases, the flag, the
/// normalisation, the output range and the PCA basis.
pub proof fn lemma_channel_record_layout(s: Seq<u8>, pos: int, n_freq: nat, n_pca: nat, n_coeff: nat)
    requires
        spec_read_channel(s, pos, n_freq, n_pca, n_coeff) is Some,
    ensures
        ({
            let c = spec_read_channel(s, pos, n_freq, n_pca, n_coeff)->Some_0.0;
            let end = spec_read_channel(s, pos, n_freq, n_pca, n_coeff)->Some_0.1;
            let flag = s[pos + 4 * network_words()];
            &&& channel_shaped(c, n_freq, n_pca, n_coeff)
            &&& (flag != 0) == (c.input_norm is Some)
            &&& s.subrange(pos, end) == channel_bytes(c, flag)
        }),
{
    let c = spec_read_channel(s, pos, n_freq, n_pca, n_coeff)->Some_0.0;
    let end = spec_read_channel(s, pos, n_freq, n_pca, n_coeff)->Some_0.1;
    assert(network_words() == 432);
    let flag = s[pos + 1728];
    let q1 = pos + 640;
    let q2 = pos + 720;
    let q3 = pos + 1680;
    let q4 = pos + 1728;
    let q5 = pos + 1729;
    let t = tail_start(pos, flag != 0);
    let q7 = t + 4 * n_pca;
    let q8 = q7 + 4 * n_pca;
    let q9 = q8 + 8;
    let q10 = q9 + 4 * n_coeff;
    assert(end == q10 + 4 * n_freq);
    lemma_words_at_bytes(s, pos, 160);
    lemma_words_at_bytes(s, q1, 20);
    lemma_words_at_bytes(s, q2, 240);
    lemma_words_at_bytes(s, q3, 12);
    assert(s.subrange(q4, q5) =~= seq![flag]);
    if flag != 0 {
        lemma_words_at_bytes(s, q5, 8);
        lemma_words_at_bytes(s, q5 + 32, 8);
        lemma_split(s, q5, q5 + 32, t);
    } else {
        assert(s.subrange(q5, t) =~= Seq::<u8>::empty());
    }
    assert(s.subrange(q5, t) == norm_bytes(c.input_norm));
    lemma_words_at_bytes(s, t, n_pca);
    lemma_words_at_bytes(s, q7, n_pca);
    lemma_words_at_bytes(s, q8, 2);
    assert(words_at(s, q8, 2) =~= seq![c.ymin, c.ymax]);
    lemma_words_at_bytes(s, q9, n_coeff);
    lemma_words_at_bytes(s, q10, n_freq);
    lemma_split(s, pos, q1, q2);
    lemma_split(s, pos, q2, q3);
    lemma_split(s, pos, q3, q4);
    lemma_split(s, pos, q4, q5);
    lemma_split(s, pos, q5, t);
    lemma_split(s, pos, t, q7);
    lemma_split(s, pos, q7, q8);
    lemma_split(s, pos, q8, q9);
    lemma_split(s, pos, q9, q10);
    lemma_split(s, pos, q10, end);
}

/// Reading `k` consecutive network records at `pos`.
pub open spec fn spec_read_channels(
    s: Seq<u8>,
    pos: int,
    k: nat,
    n_freq: nat,
    n_pca: nat,
    n_coeff: nat,
) -> Option<(Seq<ChannelView>, int)>
    decreases k,
{
    if k == 0 {
        Some((Seq::empty(), pos))
    } else {
        match spec_read_channels(s, pos, (k - 1) as nat, n_freq, n_pca, n_coeff) {
            None => None,
            Some((cs, p)) => match spec_read_channel(s, p, n_freq, n_pca, n_coeff) {
                None => None,
                Some((c, q)) => Some((cs.push(c), q)),
            },
        }
    }
}

/// Reading the records of `k` consecutive directions at `pos`, `n_ch` records
/// (one per ear) each.
pub open spec fn spec_read_dirs(
    s: Seq<u8>,
    pos: int,
    k: nat,
    n_ch: nat,
    n_freq: nat,
    n_pca: nat,
    n_coeff: nat,
) -> Option<(Seq<Seq<ChannelView>>, int)>
    decreases k,
{
    if k == 0 {
        Some((Seq::empty(), pos))
    } else {
        match spec_read_dirs(s, pos, (k - 1) as nat, n_ch, n_freq, n_pca, n_coeff) {
            None => None,
            Some((ds, p)) => match spec_read_channels(s, p, n_ch, n_freq, n_pca, n_coeff) {
                None => None,
                Some((cs, q)) => Some((ds.push(cs), q)),
            },
        }
    }
}

proof fn lemma_channels_fail_stays(
    s: Seq<u8>,
    pos: int,
    k1: nat,
    k2: nat,
    n_freq: nat,
    n_pca: nat,
    n_coeff: nat,
)
    requires
        k1 <= k2,
        spec_read_channels(s, pos, k1, n_freq, n_pca, n_coeff) is None,
    ensures
        spec_read_channels(s, pos, k2, n_freq, n_pca, n_coeff) is None,
    decreases k2,
{
    if k1 < k2 {
        lemma_channels_fail_stays(s, pos, k1, (k2 - 1) as nat, n_freq, n_pca, n_coeff);
    }
}

proof fn lemma_dirs_fail_stays(
    s: Seq<u8>,
    pos: int,
    k1: nat,
    k2: nat,
    n_ch: nat,
    n_freq: nat,
    n_pca: nat,
    n_coeff: nat,
)
    requires
        k1 <= k2,
        spec_read_dirs(s, pos, k1, n_ch, n_freq, n_pca, n_coeff) is None,
    ensures
        spec_read_dirs(s, pos, k2, n_ch, n_freq, n_pca, n_coeff) is None,
    decreases k2,
{
    if k1 < k2 {
        lemma_dirs_fail_stays(s, pos, k1, (k2 - 1) as nat, n_ch, n_freq, n_pca, n_coeff);
    }
}

/// The records of one direction, by their views.
pub open spec fn view_dir(d: Vec<ChannelRecord>) -> Seq<ChannelView> {
    d@.map_values(|c: ChannelRecord| c@)
}

/// The records of all directions, by their views.
pub open spec fn view_dirs(ds: Seq<Vec<ChannelRecord>>) -> Seq<Seq<ChannelView>> {
    ds.map_values(|d: Vec<ChannelRecord>| view_dir(d))
}

/// `n` position triples (azimuth, elevation, distance) stored at `pos`.
pub open spec fn positions_at(s: Seq<u8>, pos: int, n: nat) -> Seq<(u32, u32, u32)> {
    Seq::new(
        n,
        |i: int| (word_at(s, pos + 12 * i), word_at(s, pos + 12 * i + 4), word_at(s, pos + 12 * i + 8)),
    )
}

/// Reads `n` position triples at `*pos` and moves `*pos` past them.
pub fn read_positions(data: &[u8], pos: &mut usize, n: u32) -> (r: Result<
    Vec<(u32, u32, u32)>,
    ModelError,
>)
    ensures
        *old(pos) + 12 * n <= data@.len() ==> r is Ok && r->Ok_0@ == positions_at(
            data@,
            *old(pos) as int,
            n as nat,
        ) && *final(pos) == *old(pos) + 12 * n,
        !(*old(pos) + 12 * n <= data@.len()) ==> r is Err && r->Err_0 == ModelError::UnexpectedEof,
{
    let p0 = *pos;
    if p0 > data.len() || n as u64 > ((data.len() - p0) / 12) as u64 {
        return Err(ModelError::UnexpectedEof);
    }
    let mut out: Vec<(u32, u32, u32)> = Vec::new();
    let mut i: u32 = 0;
    while i < n
        invariant
            p0 + 12 * n <= data@.len(),
            i <= n,
            *pos == p0 + 12 * i,
            out@ == positions_at(data@, p0 as int, i as nat),
        decreases n - i,
    {
        let az = read_u32(data, pos);
        let el = read_u32(data, pos);
        let dist = read_u32(data, pos);
        match (az, el, dist) {
            (Ok(a), Ok(e), Ok(d)) => {
                out.push((a, e, d));
            },
            _ => {
                assert(false);
            },
        }
        i = i + 1;
        assert(out@ =~= positions_at(data@, p0 as int, i as nat));
    }
    Ok(out)
}

/// The interaural-time-difference reference table of a model: one time
/// difference per measured position, those positions, and the head width and
/// depth of the reference subject. Values are bit patterns of `f32`.
pub struct ItdView {
    pub itd: Seq<u32>,
    pub positions: Seq<(u32, u32, u32)>,
    pub ref_width: u32,
    pub ref_depth: u32,
}

/// The reference table of a model (see [`ItdView`]).
pub struct ItdDatabase {
    pub itd: Vec<u32>,
    pub positions: Vec<(u32, u32, u32)>,
    pub ref_width: u32,
    pub ref_depth: u32,
}

impl View for ItdDatabase {
    type V = ItdView;

    open spec fn view(&self) -> ItdView {
        ItdView {
            itd: self.itd@,
            positions: self.positions@,
            ref_width: self.ref_width,
            ref_depth: self.ref_depth,
        }
    }
}

impl ItdDatabase {
    /// Assembles a reference table from its parts.
    pub fn new(itd: Vec<u32>, positions: Vec<(u32, u32, u32)>, ref_width: u32, ref_depth: u32) -> (r:
        ItdDatabase)
        ensures
            r@ == (ItdView { itd: itd@, positions: positions@, ref_width, ref_depth }),
    {
        ItdDatabase { itd, positions, ref_width, ref_depth }
    }
}

/// A whole model file: the records by direction and ear, the source position
/// of each direction, the reference table, and the numbers of frequency bins
/// and principal components.
pub struct ModelView {
    pub networks: Seq<Seq<ChannelView>>,
    pub positions: Seq<(u32, u32, u32)>,
    pub itd_ref: ItdView,
    pub n_freq_bins: u32,
    pub n_pca: u32,
}

/// The bytes `HRTF` that open a model file.
pub open spec fn model_magic() -> Seq<u8> {
    seq![0x48u8, 0x52u8, 0x54u8, 0x46u8]
}

/// The model a file holds, or the reason it is refused. Bytes after the
/// structure are ignored.
///
/// Layout: magic, version (1), then four words `n_dirs`, `n_ch`, `n_freq`,
/// `n_pca`; `n_dirs` groups of `n_ch` records (see [`spec_read_channel`]);
/// `n_dirs` position triples; a word `n_itd`; `n_itd` time differences;
/// `n_itd` position triples; the reference width and depth.
pub open spec fn spec_parse_model(s: Seq<u8>) -> Result<ModelView, ModelError> {
    if s.len() < 4 {
        Err(ModelError::UnexpectedEof)
    } else if s.subrange(0, 4) != model_magic() {
        Err(ModelError::InvalidMagic)
    } else if s.len() < 8 {
        Err(ModelError::UnexpectedEof)
    } else if word_at(s, 4) != 1 {
        Err(ModelError::UnsupportedVersion(word_at(s, 4)))
    } else if s.len() < 24 {
        Err(ModelError::UnexpectedEof)
    } else {
        let n_dirs = word_at(s, 8);
        let n_ch = word_at(s, 12);
        let n_freq = word_at(s, 16);
        let n_pca = word_at(s, 20);
        match spec_read_dirs(
            s,
            24,
            n_dirs as nat,
            n_ch as nat,
            n_freq as nat,
            n_pca as nat,
            (n_freq * n_pca) as nat,
        ) {
            None => Err(ModelError::UnexpectedEof),
            Some((networks, p)) => {
                let p1 = p + 12 * n_dirs;
                if p1 + 4 > s.len() {
                    Err(ModelError::UnexpectedEof)
                } else {
                    let n_itd = word_at(s, p1);
                    let p2 = p1 + 4;
                    let p3 = p2 + 4 * n_itd;
                    let p4 = p3 + 12 * n_itd;
                    if p4 + 8 > s.len() {
                        Err(ModelError::UnexpectedEof)
                    } else {
                        Ok(
                            ModelView {
                                networks,
                                positions: positions_at(s, p, n_dirs as nat),
                                itd_ref: ItdView {
                                    itd: words_at(s, p2, n_itd as nat),
                                    positions: positions_at(s, p3, n_itd as nat),
                                    ref_width: word_at(s, p4),
                                    ref_depth: word_at(s, p4 + 4),
                                },
                                n_freq_bins: n_freq,
                                n_pca,
                            },
                        )
                    }
                }
            },
        }
    }
}

/// A parsed HRTF model file.
pub struct HrtfModel {
    networks: Vec<Vec<ChannelRecord>>,
    positions: Vec<(u32, u32, u32)>,
    itd_ref: ItdDatabase,
    n_freq_bins: u32,
    n_pca: u32,
}

impl View for HrtfModel {
    type V = ModelView;

    closed spec fn view(&self) -> ModelView {
        ModelView {
            networks: view_dirs(self.networks@),
            positions: self.positions@,
            itd_ref: self.itd_ref@,
            n_freq_bins: self.n_freq_bins,
            n_pca: self.n_pca,
        }
    }
}

impl HrtfModel {
    /// Parses a model file held in memory.
    pub fn from_bytes(data: &[u8]) -> (r: Result<HrtfModel, ModelError>)
        ensures
            match r {
                Ok(m) => spec_parse_model(data@) == Ok::<ModelView, ModelError>(m@),
                Err(e) => spec_parse_model(data@) == Err::<ModelView, ModelError>(e),
            },
    {
        let ghost s = data@;
        if data.len() < 4 {
            return Err(ModelError::UnexpectedEof);
        }
        if data[0] != 0x48u8 || data[1] != 0x52u8 || data[2] != 0x54u8 || data[3] != 0x46u8 {
            proof {
                if s.subrange(0, 4) == model_magic() {
                    assert(s.subrange(0, 4)[0] == s[0]);
                    assert(s.subrange(0, 4)[1] == s[1]);
                    assert(s.subrange(0, 4)[2] == s[2]);
                    assert(s.subrange(0, 4)[3] == s[3]);
                }
            }
            return Err(ModelError::InvalidMagic);
        }
        assert(s.subrange(0, 4) =~= model_magic());
        let mut pos: usize = 4;
        let version = read_u32(data, &mut pos)?;
        if version != 1 {
            return Err(ModelError::UnsupportedVersion(version));
        }
        let n_dirs = read_u32(data, &mut pos)?;
        let n_ch = read_u32(data, &mut pos)?;
        let n_freq = read_u32(data, &mut pos)?;
        let n_pca = read_u32(data, &mut pos)?;
        let ghost n_coeff = (n_freq * n_pca) as nat;
        assert(pos == 24);
        let mut networks: Vec<Vec<ChannelRecord>> = Vec::new();
        let mut d: u32 = 0;
        while d < n_dirs
            invariant
                s == data@,
                s.len() >= 24,
                s.subrange(0, 4) == model_magic(),
                word_at(s, 4) == 1,
                n_dirs == word_at(s, 8),
                n_ch == word_at(s, 12),
                n_freq == word_at(s, 16),
                n_pca == word_at(s, 20),
                n_coeff == (n_freq * n_pca) as nat,
                d <= n_dirs,
                spec_read_dirs(s, 24, d as nat, n_ch as nat, n_freq as nat, n_pca as nat, n_coeff)
                    == Some((view_dirs(networks@), pos as int)),
            decreases n_dirs - d,
        {
            let ghost pd = pos as int;
            let mut dir_networks: Vec<ChannelRecord> = Vec::new();
            let mut c: u32 = 0;
            while c < n_ch
                invariant
                    s == data@,
                    s.len() >= 24,
                    s.subrange(0, 4) == model_magic(),
                    word_at(s, 4) == 1,
                    n_freq == word_at(s, 16),
                    n_pca == word_at(s, 20),
                    n_ch == word_at(s, 12),
                    n_coeff == (n_freq * n_pca) as nat,
                    c <= n_ch,
                    d < n_dirs,
                    n_dirs == word_at(s, 8),
                    spec_read_dirs(s, 24, d as nat, n_ch as nat, n_freq as nat, n_pca as nat, n_coeff)
                        == Some((view_dirs(networks@), pd)),
                    spec_read_channels(s, pd, c as nat, n_freq as nat, n_pca as nat, n_coeff)
                        == Some((view_dir(dir_networks), pos as int)),
                decreases n_ch - c,
            {
                let ghost pc = pos as int;
                match read_channel(data, &mut pos, n_freq, n_pca) {
                    Ok(rec) => {
                        let ghost before = view_dir(dir_networks);
                        dir_networks.push(rec);
                        assert(view_dir(dir_networks) =~= before.push(rec@));
                    },
                    Err(e) => {
                        proof {
                            assert(spec_read_channel(s, pc, n_freq as nat, n_pca as nat, n_coeff) is None);
                            assert(spec_read_channels(s, pd, (c + 1) as nat, n_freq as nat, n_pca as nat, n_coeff) is None);
                            lemma_channels_fail_stays(
                                s,
                                pd,
                                (c + 1) as nat,
                                n_ch as nat,
                                n_freq as nat,
                                n_pca as nat,
                                n_coeff,
                            );
                            assert(spec_read_dirs(s, 24, (d + 1) as nat, n_ch as nat, n_freq as nat, n_pca as nat, n_coeff) is None);
                            lemma_dirs_fail_stays(
                                s,
                                24,
                                (d + 1) as nat,
                                n_dirs as nat,
                                n_ch as nat,
                                n_freq as nat,
                                n_pca as nat,
                                n_coeff,
                            );
                        }
                        return Err(e);
                    },
                }
                c = c + 1;
            }
            let ghost before = view_dirs(networks@);
            networks.push(dir_networks);
            assert(view_dirs(networks@) =~= before.push(view_dir(dir_networks)));
            d = d + 1;
        }
        let positions = read_positions(data, &mut pos, n_dirs)?;
        let n_itd = read_u32(data, &mut pos)?;
        let itd = read_words(data, &mut pos, n_itd as u64)?;
        let itd_positions = read_positions(data, &mut pos, n_itd)?;
        let ref_width = read_u32(data, &mut pos)?;
        let ref_depth = read_u32(data, &mut pos)?;
        let itd_ref = ItdDatabase::new(itd, itd_positions, ref_width, ref_depth);
        let model = HrtfModel { networks, positions, itd_ref, n_freq_bins: n_freq, n_pca };
        Ok(model)
    }

    /// The number of source directions.
    pub fn num_directions(&self) -> (r: usize)
        ensures
            r == self@.positions.len(),
    {
        self.positions.len()
    }

    /// The number of ears a synthesis uses: 2.
    pub fn num_channels(&self) -> (r: usize)
        ensures
            r == 2,
    {
        2
    }

    /// The number of frequency bins of each magnitude spectrum.
    pub fn num_freq_bins(&self) -> (r: usize)
        ensures
            r == self@.n_freq_bins,
    {
        self.n_freq_bins as usize
    }

    /// The number of principal components.
    pub fn num_pca(&self) -> (r: usize)
        ensures
            r == self@.n_pca,
    {
        self.n_pca as usize
    }

    /// The position (azimuth, elevation, distance) of a direction.
    pub fn get_position(&self, dir_idx: usize) -> (r: (u32, u32, u32))
        requires
            dir_idx < self@.positions.len(),
        ensures
            r == self@.positions[dir_idx as int],
    {
        self.positions[dir_idx]
    }

    /// The positions of all directions.
    pub fn positions(&self) -> (r: &[(u32, u32, u32)])
        ensures
            r@ == self@.positions,
    {
        self.positions.as_slice()
    }

    /// The reference table.
    pub fn itd_ref(&self) -> (r: &ItdDatabase)
        ensures
            r@ == self@.itd_ref,
    {
        &self.itd_ref
    }

    /// The network records, by direction and then by ear.
    pub fn networks(&self) -> (r: &Vec<Vec<ChannelRecord>>)
        ensures
            view_dirs(r@) == self@.networks,
    {
        &self.networks
    }
}

proof fn lemma_channel_prefix(s: Seq<u8>, t: Seq<u8>, pos: int, n_freq: nat, n_pca: nat, n_coeff: nat)
    requires
        spec_read_channel(s, pos, n_freq, n_pca, n_coeff) is Some,
    ensures
        spec_read_channel(s + t, pos, n_freq, n_pca, n_coeff) == spec_read_channel(
            s,
            pos,
            n_freq,
            n_pca,
            n_coeff,
        ),
{
    let flag = s[pos + flag_offset()] != 0;
    assert((s + t)[pos + flag_offset()] == s[pos + flag_offset()]);
    let ti = tail_start(pos, flag);
    lemma_words_at_prefix(s, t, pos, 160);
    lemma_words_at_prefix(s, t, pos + 640, 20);
    lemma_words_at_prefix(s, t, pos + 720, 240);
    lemma_words_at_prefix(s, t, pos + 1680, 12);
    if flag {
        lemma_words_at_prefix(s, t, pos + 1729, 8);
        lemma_words_at_prefix(s, t, pos + 1761, 8);
    }
    lemma_words_at_prefix(s, t, ti, n_pca);
    lemma_words_at_prefix(s, t, ti + 4 * n_pca, n_pca);
    lemma_word_at_prefix(s, t, ti + 8 * n_pca);
    lemma_word_at_prefix(s, t, ti + 8 * n_pca + 4);
    lemma_words_at_prefix(s, t, ti + 8 * n_pca + 8, n_coeff);
    lemma_words_at_prefix(s, t, ti + 8 * n_pca + 8 + 4 * n_coeff, n_freq);
}

proof fn lemma_channels_prefix(
    s: Seq<u8>,
    t: Seq<u8>,
    pos: int,
    k: nat,
    n_freq: nat,
    n_pca: nat,
    n_coeff: nat,
)
    requires
        spec_read_channels(s, pos, k, n_freq, n_pca, n_coeff) is Some,
    ensures
        spec_read_channels(s + t, pos, k, n_freq, n_pca, n_coeff) == spec_read_channels(
            s,
            pos,
            k,
            n_freq,
            n_pca,
            n_coeff,
        ),
    decreases k,
{
    if k > 0 {
        lemma_channels_prefix(s, t, pos, (k - 1) as nat, n_freq, n_pca, n_coeff);
        let (cs, p) = spec_read_channels(s, pos, (k - 1) as nat, n_freq, n_pca, n_coeff).unwrap();
        lemma_channel_prefix(s, t, p, n_freq, n_pca, n_coeff);
    }
}

proof fn lemma_dirs_prefix(
    s: Seq<u8>,
    t: Seq<u8>,
    pos: int,
    k: nat,
    n_ch: nat,
    n_freq: nat,
    n_pca: nat,
    n_coeff: nat,
)
    requires
        spec_read_dirs(s, pos, k, n_ch, n_freq, n_pca, n_coeff) is Some,
    ensures
        spec_read_dirs(s + t, pos, k, n_ch, n_freq, n_pca, n_coeff) == spec_read_dirs(
            s,
            pos,
            k,
            n_ch,
            n_freq,
            n_pca,
            n_coeff,
        ),
    decreases k,
{
    if k > 0 {
        lemma_dirs_prefix(s, t, pos, (k - 1) as nat, n_ch, n_freq, n_pca, n_coeff);
        let (ds, p) = spec_read_dirs(s, pos, (k - 1) as nat, n_ch, n_freq, n_pca, n_coeff).unwrap();
        lemma_channels_prefix(s, t, p, n_ch, n_freq, n_pca, n_coeff);
    }
}

proof fn lemma_positions_at_prefix(s: Seq<u8>, t: Seq<u8>, pos: int, n: nat)
    requires
        0 <= pos,
        pos + 12 * n <= s.len(),
    ensures
        positions_at(s + t, pos, n) == positions_at(s, pos, n),
{
    assert forall|i: int| 0 <= i < n implies #[trigger] positions_at(s + t, pos, n)[i] == positions_at(
        s,
        pos,
        n,
    )[i] by {
        assert(pos + 12 * i + 12 <= pos + 12 * n);
        lemma_word_at_prefix(s, t, pos + 12 * i);
        lemma_word_at_prefix(s, t, pos + 12 * i + 4);
        lemma_word_at_prefix(s, t, pos + 12 * i + 8);
    }
    assert(positions_at(s + t, pos, n) =~= positions_at(s, pos, n));
}

proof fn lemma_channels_advance(s: Seq<u8>, pos: int, k: nat, n_freq: nat, n_pca: nat, n_coeff: nat)
    requires
        spec_read_channels(s, pos, k, n_freq, n_pca, n_coeff) is Some,
    ensures
        spec_read_channels(s, pos, k, n_freq, n_pca, n_coeff)->Some_0.1 >= pos,
    decreases k,
{
    if k > 0 {
        lemma_channels_advance(s, pos, (k - 1) as nat, n_freq, n_pca, n_coeff);
    }
}

proof fn lemma_dirs_advance(
    s: Seq<u8>,
    pos: int,
    k: nat,
    n_ch: nat,
    n_freq: nat,
    n_pca: nat,
    n_coeff: nat,
)
    requires
        spec_read_dirs(s, pos, k, n_ch, n_freq, n_pca, n_coeff) is Some,
    ensures
        spec_read_dirs(s, pos, k, n_ch, n_freq, n_pca, n_coeff)->Some_0.1 >= pos,
    decreases k,
{
    if k > 0 {
        lemma_dirs_advance(s, pos, (k - 1) as nat, n_ch, n_freq, n_pca, n_coeff);
        let (ds, p) = spec_read_dirs(s, pos, (k - 1) as nat, n_ch, n_freq, n_pca, n_coeff).unwrap();
        lemma_channels_advance(s, p, n_ch, n_freq, n_pca, n_coeff);
    }
}

proof fn lemma_channels_len(s: Seq<u8>, pos: int, k: nat, n_freq: nat, n_pca: nat, n_coeff: nat)
    requires
        spec_read_channels(s, pos, k, n_freq, n_pca, n_coeff) is Some,
    ensures
        spec_read_channels(s, pos, k, n_freq, n_pca, n_coeff)->Some_0.0.len() == k,
        forall|i: int|
            0 <= i < k ==> channel_shaped(
                #[trigger] spec_read_channels(s, pos, k, n_freq, n_pca, n_coeff)->Some_0.0[i],
                n_freq,
                n_pca,
                n_coeff,
            ),
    decreases k,
{
    if k > 0 {
        lemma_channels_len(s, pos, (k - 1) as nat, n_freq, n_pca, n_coeff);
        let p = spec_read_channels(s, pos, (k - 1) as nat, n_freq, n_pca, n_coeff)->Some_0.1;
        lemma_channel_record_layout(s, p, n_freq, n_pca, n_coeff);
    }
}

proof fn lemma_dirs_shape(
    s: Seq<u8>,
    pos: int,
    k: nat,
    n_ch: nat,
    n_freq: nat,
    n_pca: nat,
    n_coeff: nat,
)
    requires
        spec_read_dirs(s, pos, k, n_ch, n_freq, n_pca, n_coeff) is Some,
    ensures
        ({
            let ds = spec_read_dirs(s, pos, k, n_ch, n_freq, n_pca, n_coeff)->Some_0.0;
            &&& ds.len() == k
            &&& forall|d: int| 0 <= d < k ==> (#[trigger] ds[d]).len() == n_ch
            &&& forall|d: int, e: int|
                0 <= d < k && 0 <= e < n_ch ==> channel_shaped(#[trigger] ds[d][e], n_freq, n_pca, n_coeff)
        }),
    decreases k,
{
    if k > 0 {
        lemma_dirs_shape(s, pos, (k - 1) as nat, n_ch, n_freq, n_pca, n_coeff);
        let (ds, p) = spec_read_dirs(s, pos, (k - 1) as nat, n_ch, n_freq, n_pca, n_coeff).unwrap();
        lemma_channels_len(s, p, n_ch, n_freq, n_pca, n_coeff);
    }
}

/// A parsed model has a position and one record per announced channel for
/// every direction, every record has the shape of the network and of the
/// announced PCA basis, and its reference table has a position per time
/// difference.
pub proof fn lemma_model_shape(s: Seq<u8>)
    requires
        spec_parse_model(s) is Ok,
    ensures
        ({
            let m = spec_parse_model(s)->Ok_0;
            &&& m.networks.len() == m.positions.len()
            &&& m.positions.len() == word_at(s, 8)
            &&& forall|d: int| 0 <= d < m.networks.len() ==> (#[trigger] m.networks[d]).len() == word_at(s, 12)
            &&& forall|d: int, e: int|
                0 <= d < m.networks.len() && 0 <= e < word_at(s, 12) ==> channel_shaped(
                    #[trigger] m.networks[d][e],
                    m.n_freq_bins as nat,
                    m.n_pca as nat,
                    (m.n_freq_bins * m.n_pca) as nat,
                )
            &&& m.itd_ref.itd.len() == m.itd_ref.positions.len()
        }),
{
    let n_freq = word_at(s, 16);
    let n_pca = word_at(s, 20);
    lemma_dirs_shape(
        s,
        24,
        word_at(s, 8) as nat,
        word_at(s, 12) as nat,
        n_freq as nat,
        n_pca as nat,
        (n_freq * n_pca) as nat,
    );
}

/// Bytes after a model's structure do not change what is read: a file that
/// parses still parses to the same model with anything appended.
pub proof fn lemma_model_ignores_trailing(s: Seq<u8>, t: Seq<u8>)
    requires
        spec_parse_model(s) is Ok,
    ensures
        spec_parse_model(s + t) == spec_parse_model(s),
{
    let u = s + t;
    assert(u.subrange(0, 4) =~= s.subrange(0, 4));
    lemma_word_at_prefix(s, t, 4);
    lemma_word_at_prefix(s, t, 8);
    lemma_word_at_prefix(s, t, 12);
    lemma_word_at_prefix(s, t, 16);
    lemma_word_at_prefix(s, t, 20);
    let n_dirs = word_at(s, 8);
    let n_ch = word_at(s, 12);
    let n_freq = word_at(s, 16);
    let n_pca = word_at(s, 20);
    let n_coeff = (n_freq * n_pca) as nat;
    lemma_dirs_prefix(s, t, 24, n_dirs as nat, n_ch as nat, n_freq as nat, n_pca as nat, n_coeff);
    lemma_dirs_advance(s, 24, n_dirs as nat, n_ch as nat, n_freq as nat, n_pca as nat, n_coeff);
    let (networks, p) = spec_read_dirs(
        s,
        24,
        n_dirs as nat,
        n_ch as nat,
        n_freq as nat,
        n_pca as nat,
        n_coeff,
    ).unwrap();
    let p1 = p + 12 * n_dirs;
    lemma_word_at_prefix(s, t, p1);
    let n_itd = word_at(s, p1);
    let p2 = p1 + 4;
    let p3 = p2 + 4 * n_itd;
    let p4 = p3 + 12 * n_itd;
    lemma_positions_at_prefix(s, t, p, n_dirs as nat);
    lemma_words_at_prefix(s, t, p2, n_itd as nat);
    lemma_positions_at_prefix(s, t, p3, n_itd as nat);
    lemma_word_at_prefix(s, t, p4);
    lemma_word_at_prefix(s, t, p4 + 4);
}

} // verus!
