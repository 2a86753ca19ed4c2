//! The channel layout and the delay lines of the real-time convolver.
//!
//! The convolver takes interleaved 7.1 input (WAVEFORMATEXTENSIBLE order: FL,
//! FR, FC, LFE, RL, RR, SL, SR) and convolves each of the seven speaker
//! channels with a left- and a right-ear response. For every speaker it keeps
//! a circular delay line of the last `ir_length` input samples; the
//! multiply-accumulate over those taps is floating-point arithmetic done by the
//! caller through [`DelayLines::tap`].

use vstd::prelude::*;
use vstd::arithmetic::div_mod::lemma_small_mod;
use vstd::arithmetic::div_mod::lemma_sub_mod_noop;
use vstd::arithmetic::div_mod::lemma_mod_twice;
use vstd::arithmetic::div_mod::lemma_mod_multiples_vanish;

verus! {

/// Number of speaker channels convolved (7.1 without the LFE channel).
pub const ACTIVE_SPEAKERS: usize = 7;

/// Number of interleaved input channels.
pub const INPUT_CHANNELS: usize = 8;

/// Input channel of the low-frequency effects signal, mixed to both ears
/// without convolution.
pub const LFE_CHANNEL: usize = 3;

/// A loudspeaker position of the 7.1 layout.
pub enum SpeakerPosition {
    FrontLeft,
    FrontRight,
    FrontCenter,
    LowFrequency,
    RearLeft,
    RearRight,
    SideLeft,
    SideRight,
}

/// The position carried by each interleaved input channel, in
/// WAVEFORMATEXTENSIBLE order: FL, FR, FC, LFE, RL, RR, SL, SR.
pub open spec fn wfx_channel_position(channel: int) -> SpeakerPosition {
    if channel == 0 {
        SpeakerPosition::FrontLeft
    } else if channel == 1 {
        SpeakerPosition::FrontRight
    } else if channel == 2 {
        SpeakerPosition::FrontCenter
    } else if channel == 3 {
        SpeakerPosition::LowFrequency
    } else if channel == 4 {
        SpeakerPosition::RearLeft
    } else if channel == 5 {
        SpeakerPosition::RearRight
    } else if channel == 6 {
        SpeakerPosition::SideLeft
    } else {
        SpeakerPosition::SideRight
    }
}

/// The position rendered by each speaker of the response set, in the order in
/// which the responses are synthesised: FR, SR, RR, FC, FL, SL, RL.
pub open spec fn response_speaker_position(speaker: int) -> SpeakerPosition {
    if speaker == 0 {
        SpeakerPosition::FrontRight
    } else if speaker == 1 {
        SpeakerPosition::SideRight
    } else if speaker == 2 {
        SpeakerPosition::RearRight
    } else if speaker == 3 {
        SpeakerPosition::FrontCenter
    } else if speaker == 4 {
        SpeakerPosition::FrontLeft
    } else if speaker == 5 {
        SpeakerPosition::SideLeft
    } else {
        SpeakerPosition::RearLeft
    }
}

/// The nominal direction of a position in whole degrees, clockwise from the
/// front; the low-frequency channel has none.
pub open spec fn position_azimuth(p: SpeakerPosition) -> Option<int> {
    match p {
        SpeakerPosition::FrontLeft => Some(330),
        SpeakerPosition::FrontRight => Some(30),
        SpeakerPosition::FrontCenter => Some(0),
        SpeakerPosition::LowFrequency => None,
        SpeakerPosition::RearLeft => Some(210),
        SpeakerPosition::RearRight => Some(150),
        SpeakerPosition::SideLeft => Some(250),
        SpeakerPosition::SideRight => Some(110),
    }
}

/// The azimuth, in degrees, at which the response of each speaker is
/// synthesised: 30, 110, 150, 0, 330, 250, 210.
pub open spec fn response_speaker_azimuth(speaker: int) -> int {
    if speaker == 0 {
        30
    } else if speaker == 1 {
        110
    } else if speaker == 2 {
        150
    } else if speaker == 3 {
        0
    } else if speaker == 4 {
        330
    } else if speaker == 5 {
        250
    } else {
        210
    }
}

/// Input channel of each speaker, in the speaker order of the response set
/// (FR, SR, RR, FC, FL, SL, RL).
pub open spec fn spec_input_channel(speaker: int) -> int {
    if speaker == 0 {
        1
    } else if speaker == 1 {
        7
    } else if speaker == 2 {
        5
    } else if speaker == 3 {
        2
    } else if speaker == 4 {
        0
    } else if speaker == 5 {
        6
    } else {
        4
    }
}

/// The speaker that an input channel feeds (the inverse of
/// [`spec_input_channel`]; the LFE channel feeds none).
pub open spec fn spec_speaker_of_channel(channel: int) -> int {
    if channel == 0 {
        4
    } else if channel == 1 {
        0
    } else if channel == 2 {
        3
    } else if channel == 4 {
        6
    } else if channel == 5 {
        2
    } else if channel == 6 {
        5
    } else if channel == 7 {
        1
    } else {
        -1
    }
}

/// The input channel that feeds a speaker's delay line.
pub fn input_channel(speaker: usize) -> (r: usize)
    requires
        speaker < ACTIVE_SPEAKERS,
    ensures
        r == spec_input_channel(speaker as int),
        r < INPUT_CHANNELS,
        r != LFE_CHANNEL,
        wfx_channel_position(r as int) == response_speaker_position(speaker as int),
        position_azimuth(wfx_channel_position(r as int)) == Some(response_speaker_azimuth(speaker as int)),
{
    match speaker {
        0 => 1,
        1 => 7,
        2 => 5,
        3 => 2,
        4 => 0,
        5 => 6,
        _ => 4,
    }
}

/// Every non-LFE input channel feeds exactly one speaker.
pub proof fn lemma_channel_map_bijective()
    ensures
        forall|a: int, b: int|
            0 <= a < 7 && 0 <= b < 7 && a != b ==> #[trigger] spec_input_channel(a)
                != #[trigger] spec_input_channel(b),
        forall|c: int|
            0 <= c < 8 && c != 3 ==> {
                &&& 0 <= #[trigger] spec_speaker_of_channel(c) < 7
                &&& spec_input_channel(spec_speaker_of_channel(c)) == c
            },
        forall|s: int| 0 <= s < 7 ==> #[trigger] spec_input_channel(s) != 3,
{
    assert(spec_input_channel(4) == 0);
    assert(spec_input_channel(0) == 1);
    assert(spec_input_channel(3) == 2);
    assert(spec_input_channel(6) == 4);
    assert(spec_input_channel(2) == 5);
    assert(spec_input_channel(5) == 6);
    assert(spec_input_channel(1) == 7);
}

/// Each speaker is fed by the input channel that carries its own position:
/// the channel's WAVEFORMATEXTENSIBLE position is the position the speaker's
/// response renders, and its nominal azimuth is the azimuth at which that
/// response was synthesised. In particular the side-right speaker takes
/// channel 7 and the side-left speaker channel 6, so no side is mirrored.
pub proof fn lemma_input_channel_positions()
    ensures
        forall|s: int|
            0 <= s < 7 ==> wfx_channel_position(#[trigger] spec_input_channel(s))
                == response_speaker_position(s),
        forall|s: int|
            0 <= s < 7 ==> position_azimuth(wfx_channel_position(#[trigger] spec_input_channel(s)))
                == Some(response_speaker_azimuth(s)),
        forall|c: int, s: int|
            0 <= c < 8 && 0 <= s < 7 && #[trigger] wfx_channel_position(c)
                == #[trigger] response_speaker_position(s) ==> spec_input_channel(s) == c,
{
    assert forall|c: int, s: int|
        0 <= c < 8 && 0 <= s < 7 && #[trigger] wfx_channel_position(c)
            == #[trigger] response_speaker_position(s) implies spec_input_channel(s) == c by {
        if c == 0 {
        } else if c == 1 {
        } else if c == 2 {
        } else if c == 3 {
        } else if c == 4 {
        } else if c == 5 {
        } else if c == 6 {
        } else {
        }
    }
}

/// A line one frame later: every sample one tap older, and the oldest sample
/// in the newest slot, where the next write replaces it.
pub open spec fn age<S>(line: Seq<S>) -> Seq<S> {
    seq![line.last()] + line.drop_last()
}

/// A line after one frame per sample of `ys`: each frame ages the line and
/// then writes the frame's sample.
pub open spec fn after_frames<S>(line: Seq<S>, ys: Seq<S>) -> Seq<S>
    decreases ys.len(),
{
    if ys.len() == 0 {
        line
    } else {
        age(after_frames(line, ys.drop_last())).update(0, ys.last())
    }
}

/// A line keeps its length from frame to frame.
pub proof fn lemma_after_frames_len<S>(line: Seq<S>, ys: Seq<S>)
    requires
        line.len() > 0,
    ensures
        after_frames(line, ys).len() == line.len(),
    decreases ys.len(),
{
    if ys.len() > 0 {
        lemma_after_frames_len(line, ys.drop_last());
    }
}

/// What a delay line is for: a sample written at some frame is the tap at
/// delay `m` exactly `m` frames later, for every `m` below the line length.
pub proof fn lemma_delay_line_tap<S>(line: Seq<S>, x: S, ys: Seq<S>)
    requires
        ys.len() < line.len(),
    ensures
        after_frames(line.update(0, x), ys)[ys.len() as int] == x,
    decreases ys.len(),
{
    lemma_after_frames_len(line.update(0, x), ys);
    if ys.len() > 0 {
        let prev = ys.drop_last();
        lemma_delay_line_tap(line, x, prev);
        lemma_after_frames_len(line.update(0, x), prev);
        let a = after_frames(line.update(0, x), prev);
        assert(age(a)[ys.len() as int] == a[prev.len() as int]);
    }
}

/// The circular delay lines of the seven speakers. Seen from outside, each
/// line is the sequence of its last `ir_length` samples, the newest first.
pub struct DelayLines<S> {
    lines: Vec<S>,
    write_pos: usize,
    ir_length: usize,
}

/// Where a line starts in the flat buffer.
proof fn lemma_line_index(speaker: int, ir_length: int, r: int)
    requires
        0 <= speaker < 7,
        0 <= r < ir_length,
    ensures
        0 <= speaker * ir_length + r < 7 * ir_length,
        speaker * ir_length + ir_length <= 7 * ir_length,
{
    assert(0 <= speaker * ir_length + r < 7 * ir_length) by (nonlinear_arith)
        requires
            0 <= speaker < 7,
            0 <= r < ir_length,
    ;
    assert(speaker * ir_length + ir_length <= 7 * ir_length) by (nonlinear_arith)
        requires
            0 <= speaker < 7,
            0 <= r < ir_length,
    ;
}

impl<S> DelayLines<S> {
    /// The flat buffer is well formed.
    pub closed spec fn wf(&self) -> bool {
        &&& self.lines@.len() == 7 * self.ir_length
        &&& (self.ir_length > 0 ==> self.write_pos < self.ir_length)
        &&& (self.ir_length == 0 ==> self.write_pos == 0)
    }

    /// The number of taps of each line.
    pub closed spec fn spec_ir_length(&self) -> nat {
        self.ir_length as nat
    }

    /// The `k`-th newest sample of a speaker's line.
    pub closed spec fn spec_tap(&self, speaker: int, k: int) -> S {
        self.lines@[speaker * self.ir_length + (self.write_pos - k) % (self.ir_length as int)]
    }

    /// A speaker's line, the newest sample first.
    pub open spec fn line(&self, speaker: int) -> Seq<S> {
        Seq::new(self.spec_ir_length(), |k: int| self.spec_tap(speaker, k))
    }

    /// All seven lines.
    pub open spec fn lines_view(&self) -> Seq<Seq<S>> {
        Seq::new(7, |s: int| self.line(s))
    }
}

impl<S: Copy> DelayLines<S> {
    /// Seven lines of `ir_length` taps, all holding `zero`.
    pub fn new(ir_length: usize, zero: S) -> (r: DelayLines<S>)
        requires
            7 * ir_length <= usize::MAX,
        ensures
            r.wf(),
            r.spec_ir_length() == ir_length,
            r.lines_view() == Seq::new(7, |s: int| Seq::new(ir_length as nat, |k: int| zero)),
    {
        let n = 7 * ir_length;
        let mut lines: Vec<S> = Vec::new();
        let mut i: usize = 0;
        while i < n
            invariant
                n == 7 * ir_length,
                i <= n,
                lines@ == Seq::new(i as nat, |j: int| zero),
            decreases n - i,
        {
            lines.push(zero);
            i = i + 1;
            assert(lines@ =~= Seq::new(i as nat, |j: int| zero));
        }
        let r = DelayLines { lines, write_pos: 0, ir_length };
        assert forall|s: int, k: int| 0 <= s < 7 && 0 <= k < ir_length implies #[trigger] r.spec_tap(s, k) == zero by {
            let m = (0 - k) % (ir_length as int);
            assert(0 <= m < ir_length);
            lemma_line_index(s, ir_length as int, m);
        }
        assert forall|s: int| 0 <= s < 7 implies #[trigger] r.line(s) == Seq::new(ir_length as nat, |k: int| zero) by {
            assert(r.line(s) =~= Seq::new(ir_length as nat, |k: int| zero));
        }
        assert(r.lines_view() =~= Seq::new(7, |s: int| Seq::new(ir_length as nat, |k: int| zero)));
        r
    }

    /// The number of taps of each line.
    pub fn ir_length(&self) -> (r: usize)
        ensures
            r == self.spec_ir_length(),
    {
        self.ir_length
    }

    /// The flat storage of all lines (for locking it in memory).
    pub fn buffer(&self) -> (r: &[S])
        requires
            self.wf(),
        ensures
            r@.len() == 7 * self.spec_ir_length(),
    {
        self.lines.as_slice()
    }

    /// Stores `sample` as the newest sample of a speaker's line, replacing
    /// the oldest one; the other lines do not change.
    pub fn write(&mut self, speaker: usize, sample: S)
        requires
            old(self).wf(),
            old(self).spec_ir_length() > 0,
            speaker < ACTIVE_SPEAKERS,
        ensures
            final(self).wf(),
            final(self).spec_ir_length() == old(self).spec_ir_length(),
            final(self).lines_view() == old(self).lines_view().update(
                speaker as int,
                old(self).line(speaker as int).update(0, sample),
            ),
    {
        let ghost old_self = *self;
        let l = self.ir_length;
        let _n = self.lines.len();
        proof {
            lemma_line_index(speaker as int, l as int, self.write_pos as int);
        }
        let idx = speaker * l + self.write_pos;
        self.lines.set(idx, sample);
        proof {
            lemma_small_mod(self.write_pos as nat, l as nat);
            assert forall|s: int, k: int| 0 <= s < 7 && 0 <= k < l implies #[trigger] self.spec_tap(s, k) == (
            if s == speaker && k == 0 {
                sample
            } else {
                old_self.spec_tap(s, k)
            }) by {
                let m = (self.write_pos - k) % (l as int);
                lemma_line_index(s, l as int, m);
                if s != speaker {
                    if s < speaker {
                        assert(s * l + m < speaker * l) by (nonlinear_arith)
                            requires
                                s < speaker,
                                0 <= m < l,
                        ;
                    } else {
                        assert(s * l + m > speaker * l + self.write_pos) by (nonlinear_arith)
                            requires
                                s > speaker,
                                0 <= m < l,
                                self.write_pos < l,
                        ;
                    }
                } else if k != 0 {
                    if self.write_pos >= k {
                        lemma_small_mod((self.write_pos - k) as nat, l as nat);
                    } else {
                        lemma_mod_multiples_vanish(1, self.write_pos - k, l as int);
                        lemma_small_mod((l + self.write_pos - k) as nat, l as nat);
                    }
                }
            }
            assert forall|s: int| 0 <= s < 7 implies #[trigger] self.line(s) == old_self.lines_view().update(
                speaker as int,
                old_self.line(speaker as int).update(0, sample),
            )[s] by {
                assert(self.line(s) =~= old_self.lines_view().update(
                    speaker as int,
                    old_self.line(speaker as int).update(0, sample),
                )[s]);
            }
            assert(self.lines_view() =~= old_self.lines_view().update(
                speaker as int,
                old_self.line(speaker as int).update(0, sample),
            ));
        }
    }

    /// The `k`-th newest sample of a speaker's line (`k == 0` is the newest).
    pub fn tap(&self, speaker: usize, k: usize) -> (r: S)
        requires
            self.wf(),
            speaker < ACTIVE_SPEAKERS,
            k < self.spec_ir_length(),
        ensures
            r == self.lines_view()[speaker as int][k as int],
    {
        let l = self.ir_length;
        let _n = self.lines.len();
        let read_pos = if self.write_pos >= k {
            self.write_pos - k
        } else {
            l - (k - self.write_pos)
        };
        proof {
            if self.write_pos >= k {
                lemma_small_mod((self.write_pos - k) as nat, l as nat);
            } else {
                lemma_mod_multiples_vanish(1, self.write_pos - k, l as int);
                lemma_small_mod((l + self.write_pos - k) as nat, l as nat);
            }
            lemma_line_index(speaker as int, l as int, read_pos as int);
        }
        self.lines[speaker * l + read_pos]
    }

    /// Moves on by one frame: every line ages by one sample, and its oldest
    /// sample becomes the slot that the next write fills.
    pub fn advance(&mut self)
        requires
            old(self).wf(),
            old(self).spec_ir_length() > 0,
        ensures
            final(self).wf(),
            final(self).spec_ir_length() == old(self).spec_ir_length(),
            forall|s: int| 0 <= s < 7 ==> #[trigger] final(self).line(s) == age(old(self).line(s)),
    {
        let ghost old_self = *self;
        let l = self.ir_length;
        self.write_pos = (self.write_pos + 1) % l;
        proof {
            let li = l as int;
            let w = old_self.write_pos as int;
            assert forall|s: int| 0 <= s < 7 implies #[trigger] self.line(s) == age(old_self.line(s)) by {
                assert forall|k: int| 0 <= k < li implies #[trigger] self.spec_tap(s, k) == (
                if k == 0 {
                    old_self.spec_tap(s, li - 1)
                } else {
                    old_self.spec_tap(s, k - 1)
                }) by {
                    lemma_sub_mod_noop(w + 1, k, li);
                    lemma_mod_twice(w + 1, li);
                    lemma_small_mod(k as nat, l as nat);
                    if k == 0 {
                        lemma_mod_multiples_vanish(-1, w + 1, li);
                    }
                }
                assert(self.line(s) =~= age(old_self.line(s)));
            }
        }
    }

    /// Sets every tap of every line to `zero` and restarts at the first slot.
    pub fn reset(&mut self, zero: S)
        requires
            old(self).wf(),
        ensures
            final(self).wf(),
            final(self).spec_ir_length() == old(self).spec_ir_length(),
            final(self).lines_view() == Seq::new(
                7,
                |s: int| Seq::new(old(self).spec_ir_length(), |k: int| zero),
            ),
    {
        let l = self.ir_length;
        let n = self.lines.len();
        let mut i: usize = 0;
        while i < n
            invariant
                n == self.lines@.len(),
                n == 7 * l,
                l == self.ir_length,
                i <= n,
                forall|j: int| 0 <= j < i ==> #[trigger] self.lines@[j] == zero,
            decreases n - i,
        {
            self.lines.set(i, zero);
            i = i + 1;
        }
        self.write_pos = 0;
        proof {
            assert forall|s: int, k: int| 0 <= s < 7 && 0 <= k < l implies #[trigger] self.spec_tap(s, k) == zero by {
                let m = (0 - k) % (l as int);
                lemma_line_index(s, l as int, m);
            }
            assert forall|s: int| 0 <= s < 7 implies #[trigger] self.line(s) == Seq::new(l as nat, |k: int| zero) by {
                assert(self.line(s) =~= Seq::new(l as nat, |k: int| zero));
            }
            assert(self.lines_view() =~= Seq::new(7, |s: int| Seq::new(l as nat, |k: int| zero)));
        }
    }
}

/// The state of the real-time convolver: the speaker responses, flat (for
/// each speaker the left-ear response followed by the right-ear response,
/// `ir_length` taps each), and one delay line per speaker. The convolution
/// sums themselves are formed by the caller from [`HrtfConvolver::ir_tap`]
/// and [`HrtfConvolver::delayed`].
pub struct HrtfConvolver<S> {
    irs: Vec<S>,
    delay_lines: DelayLines<S>,
    ir_length: usize,
}

impl<S> HrtfConvolver<S> {
    /// The responses and the delay lines have matching lengths.
    pub closed spec fn wf(&self) -> bool {
        &&& self.irs@.len() == 2 * 7 * self.ir_length
        &&& self.delay_lines.wf()
        &&& self.delay_lines.spec_ir_length() == self.ir_length
    }

    /// The number of taps of each response.
    pub closed spec fn spec_ir_length(&self) -> nat {
        self.ir_length as nat
    }

    /// The flat responses.
    pub closed spec fn spec_irs(&self) -> Seq<S> {
        self.irs@
    }

    /// The delay lines, newest sample first.
    pub closed spec fn spec_lines(&self) -> Seq<Seq<S>> {
        self.delay_lines.lines_view()
    }
}

/// Where tap `k` of the response for a speaker and ear lies in the flat
/// response buffer.
pub open spec fn ir_index(speaker: int, ear: int, ir_length: int, k: int) -> int {
    (2 * speaker + ear) * ir_length + k
}

impl<S: Copy> HrtfConvolver<S> {
    /// A convolver for the given responses (7 speakers x 2 ears x
    /// `ir_length` taps) with silent delay lines.
    pub fn new(irs_flat: Vec<S>, ir_length: usize, zero: S) -> (r: HrtfConvolver<S>)
        requires
            irs_flat@.len() == 2 * 7 * ir_length,
        ensures
            r.wf(),
            r.spec_ir_length() == ir_length,
            r.spec_irs() == irs_flat@,
            r.spec_lines() == Seq::new(7, |s: int| Seq::new(ir_length as nat, |k: int| zero)),
    {
        let n = irs_flat.len();
        assert(7 * ir_length <= n) by (nonlinear_arith)
            requires
                n == 2 * 7 * ir_length,
        ;
        let delay_lines = DelayLines::new(ir_length, zero);
        HrtfConvolver { irs: irs_flat, delay_lines, ir_length }
    }

    /// The number of taps of each response.
    pub fn ir_length(&self) -> (r: usize)
        ensures
            r == self.spec_ir_length(),
    {
        self.ir_length
    }

    /// The flat responses.
    pub fn irs(&self) -> (r: &[S])
        ensures
            r@ == self.spec_irs(),
    {
        self.irs.as_slice()
    }

    /// The flat storage of the delay lines (for locking it in memory).
    pub fn delay_buffer(&self) -> (r: &[S])
        requires
            self.wf(),
        ensures
            r@.len() == 7 * self.spec_ir_length(),
    {
        self.delay_lines.buffer()
    }

    /// Tap `k` of the response of a speaker (0..7) for an ear (0 left,
    /// 1 right).
    pub fn ir_tap(&self, speaker: usize, ear: usize, k: usize) -> (r: S)
        requires
            self.wf(),
            speaker < ACTIVE_SPEAKERS,
            ear < 2,
            k < self.spec_ir_length(),
        ensures
            r == self.spec_irs()[ir_index(speaker as int, ear as int, self.spec_ir_length() as int, k as int)],
    {
        let l = self.ir_length;
        let _n = self.irs.len();
        proof {
            assert(0 <= (2 * speaker + ear) * l + k < 14 * l) by (nonlinear_arith)
                requires
                    speaker < 7,
                    ear < 2,
                    k < l,
            ;
            assert(0 <= (2 * speaker + ear) * l <= 14 * l) by (nonlinear_arith)
                requires
                    speaker < 7,
                    ear < 2,
            ;
        }
        self.irs[(2 * speaker + ear) * l + k]
    }

    /// Feeds the current frame's sample of a speaker into its delay line.
    pub fn push_sample(&mut self, speaker: usize, sample: S)
        requires
            old(self).wf(),
            old(self).spec_ir_length() > 0,
            speaker < ACTIVE_SPEAKERS,
        ensures
            final(self).wf(),
            final(self).spec_ir_length() == old(self).spec_ir_length(),
            final(self).spec_irs() == old(self).spec_irs(),
            final(self).spec_lines() == old(self).spec_lines().update(
                speaker as int,
                old(self).spec_lines()[speaker as int].update(0, sample),
            ),
    {
        self.delay_lines.write(speaker, sample);
    }

    /// The sample a speaker received `k` frames ago (`k == 0`: this frame).
    pub fn delayed(&self, speaker: usize, k: usize) -> (r: S)
        requires
            self.wf(),
            speaker < ACTIVE_SPEAKERS,
            k < self.spec_ir_length(),
        ensures
            r == self.spec_lines()[speaker as int][k as int],
    {
        self.delay_lines.tap(speaker, k)
    }

    /// Ends the current frame.
    pub fn advance(&mut self)
        requires
            old(self).wf(),
            old(self).spec_ir_length() > 0,
        ensures
            final(self).wf(),
            final(self).spec_ir_length() == old(self).spec_ir_length(),
            final(self).spec_irs() == old(self).spec_irs(),
            final(self).spec_lines() == Seq::new(7, |s: int| age(old(self).spec_lines()[s])),
    {
        let ghost before = self.delay_lines.lines_view();
        self.delay_lines.advance();
        assert(self.delay_lines.lines_view() =~= Seq::new(7, |s: int| age(before[s])));
    }

    /// Silences every delay line (e.g. on a format change); the responses stay.
    pub fn reset(&mut self, zero: S)
        requires
            old(self).wf(),
        ensures
            final(self).wf(),
            final(self).spec_ir_length() == old(self).spec_ir_length(),
            final(self).spec_irs() == old(self).spec_irs(),
            final(self).spec_lines() == Seq::new(
                7,
                |s: int| Seq::new(old(self).spec_ir_length(), |k: int| zero),
            ),
    {
        self.delay_lines.reset(zero);
    }
}

/// Position of channel `c` of frame `f` in an interleaved buffer of
/// `channels` channels.
pub open spec fn frame_index(f: int, channels: int, c: int) -> int {
    f * channels + c
}

proof fn lemma_frame_index_bounds(f: int, n: int, channels: int, c: int)
    requires
        0 <= f < n,
        0 <= c < channels,
    ensures
        0 <= frame_index(f, channels, c) < n * channels,
        frame_index(f, channels, c) < (f + 1) * channels,
        f * channels <= frame_index(f, channels, c),
{
    assert(0 <= f * channels + c < n * channels) by (nonlinear_arith)
        requires
            0 <= f < n,
            0 <= c < channels,
    ;
    assert((f + 1) * channels == f * channels + channels) by (nonlinear_arith);
    assert(0 <= f * channels) by (nonlinear_arith)
        requires
            0 <= f,
            0 <= c < channels,
    ;
}

proof fn lemma_frame_index_order(f1: int, c1: int, f2: int, c2: int, channels: int)
    requires
        0 <= f1 < f2,
        0 <= c1 < channels,
        0 <= c2,
    ensures
        frame_index(f1, channels, c1) < frame_index(f2, channels, c2),
{
    assert(f1 * channels + c1 < f2 * channels + c2) by (nonlinear_arith)
        requires
            0 <= f1 < f2,
            0 <= c1 < channels,
            0 <= c2,
    ;
}

/// The channel-copying fallback of the processing entry point, used when the
/// channel counts are not 8 in and 2 out: for each of `n_frames` frames, the
/// first `min(in_channels, out_channels)` channels are copied and the other
/// output channels are set to `zero`. Output beyond the frames is untouched.
pub fn passthrough<S: Copy>(
    input: &[S],
    output: &mut [S],
    n_frames: usize,
    in_channels: usize,
    out_channels: usize,
    zero: S,
)
    requires
        n_frames * in_channels <= input@.len(),
        n_frames * out_channels <= old(output)@.len(),
    ensures
        final(output)@.len() == old(output)@.len(),
        forall|f: int, c: int|
            0 <= f < n_frames && 0 <= c < out_channels ==> #[trigger] final(output)@[frame_index(
                f,
                out_channels as int,
                c,
            )] == if c < in_channels {
                input@[frame_index(f, in_channels as int, c)]
            } else {
                zero
            },
        forall|i: int|
            n_frames * out_channels <= i < old(output)@.len() ==> #[trigger] final(output)@[i]
                == old(output)@[i],
{
    let copy_ch = if in_channels < out_channels {
        in_channels
    } else {
        out_channels
    };
    let ghost orig = output@;
    let out_len = output.len();
    let in_len = input.len();
    let mut f: usize = 0;
    while f < n_frames
        invariant
            n_frames * in_channels <= input@.len(),
            n_frames * out_channels <= orig.len(),
            output@.len() == orig.len(),
            out_len == orig.len(),
            in_len == input@.len(),
            copy_ch <= in_channels,
            copy_ch <= out_channels,
            copy_ch == in_channels || copy_ch == out_channels,
            f <= n_frames,
            forall|f2: int, c: int|
                0 <= f2 < f && 0 <= c < out_channels ==> #[trigger] output@[frame_index(
                    f2,
                    out_channels as int,
                    c,
                )] == if c < in_channels {
                    input@[frame_index(f2, in_channels as int, c)]
                } else {
                    zero
                },
            forall|i: int| f * out_channels <= i < orig.len() ==> #[trigger] output@[i] == orig[i],
        decreases n_frames - f,
    {
        let mut c: usize = 0;
        while c < out_channels
            invariant
                n_frames * in_channels <= input@.len(),
                n_frames * out_channels <= orig.len(),
                output@.len() == orig.len(),
                out_len == orig.len(),
                in_len == input@.len(),
                copy_ch <= in_channels,
                copy_ch <= out_channels,
                copy_ch == in_channels || copy_ch == out_channels,
                f < n_frames,
                c <= out_channels,
                forall|f2: int, c2: int|
                    0 <= f2 < f && 0 <= c2 < out_channels ==> #[trigger] output@[frame_index(
                        f2,
                        out_channels as int,
                        c2,
                    )] == if c2 < in_channels {
                        input@[frame_index(f2, in_channels as int, c2)]
                    } else {
                        zero
                    },
                forall|c2: int|
                    0 <= c2 < c ==> #[trigger] output@[frame_index(f as int, out_channels as int, c2)]
                        == if c2 < in_channels {
                        input@[frame_index(f as int, in_channels as int, c2)]
                    } else {
                        zero
                    },
                forall|i: int| f * out_channels + c <= i < orig.len() ==> #[trigger] output@[i] == orig[i],
            decreases out_channels - c,
        {
            proof {
                lemma_frame_index_bounds(f as int, n_frames as int, out_channels as int, c as int);
                assert forall|f2: int, c2: int|
                    0 <= f2 < f && 0 <= c2 < out_channels implies frame_index(
                    f2,
                    out_channels as int,
                    c2,
                ) < frame_index(f as int, out_channels as int, c as int) by {
                    lemma_frame_index_order(f2, c2, f as int, c as int, out_channels as int);
                }
            }
            let out_idx = f * out_channels + c;
            if c < copy_ch {
                proof {
                    lemma_frame_index_bounds(f as int, n_frames as int, in_channels as int, c as int);
                }
                let in_idx = f * in_channels + c;
                output[out_idx] = input[in_idx];
            } else {
                output[out_idx] = zero;
            }
            c = c + 1;
        }
        proof {
            assert((f + 1) * out_channels == f * out_channels + out_channels) by (nonlinear_arith);
        }
        f = f + 1;
    }
}

} // verus!
