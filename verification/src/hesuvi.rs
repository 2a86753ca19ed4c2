//! The HeSuVi export layout: a 14-channel stream holding, for each of the
//! seven speaker directions, the left-ear and then the right-ear response
//! (channel order FR_L, FR_R, SR_L, SR_R, RR_L, RR_R, FC_L, FC_R, FL_L, FL_R,
//! SL_L, SL_R, RL_L, RL_R), interleaved sample by sample.

use vstd::prelude::*;

use crate::hrtf_data::HrtfData;
use crate::hrtf_data::HrtfDataView;

verus! {

/// Number of speaker directions in a HeSuVi file.
pub const HESUVI_SPEAKERS: usize = 7;

/// Number of channels in a HeSuVi file (two ears per speaker).
pub const HESUVI_CHANNELS: usize = 14;

/// Why an export was refused.
#[derive(Debug, Clone, Copy, PartialEq, Eq, Structural)]
pub enum HeSuViError {
    /// The speaker layout does not have exactly seven speakers.
    InvalidSpeakers,
}

/// The `i`-th value of the interleaved stream: frame `i / 14`, speaker
/// `(i % 14) / 2`, ear `i % 2`.
pub open spec fn hesuvi_sample<S>(data: HrtfDataView<S>, dirs: Seq<usize>, i: int) -> S {
    data.irs[dirs[(i % 14) / 2] as int][i % 2][i / 14]
}

/// The interleaved 14-channel samples for the directions chosen for the seven
/// speakers (in speaker order), one frame per sample of the response length.
/// Scaling is left to the caller.
pub fn hesuvi_interleave<S: Copy>(data: &HrtfData<S>, speaker_dirs: &[usize]) -> (r: Result<
    Vec<S>,
    HeSuViError,
>)
    requires
        data@.wf(),
        speaker_dirs@.len() == HESUVI_SPEAKERS && data@.spec_ir_length() > 0 ==> forall|j: int|
            0 <= j < HESUVI_SPEAKERS ==> {
                &&& #[trigger] speaker_dirs@[j] < data@.irs.len()
                &&& data@.irs[speaker_dirs@[j] as int][0].len() >= data@.spec_ir_length()
                &&& data@.irs[speaker_dirs@[j] as int][1].len() >= data@.spec_ir_length()
            },
    ensures
        speaker_dirs@.len() != HESUVI_SPEAKERS ==> r == Err::<Vec<S>, HeSuViError>(HeSuViError::InvalidSpeakers),
        speaker_dirs@.len() == HESUVI_SPEAKERS ==> {
            &&& r is Ok
            &&& r->Ok_0@.len() == HESUVI_CHANNELS * data@.spec_ir_length()
            &&& forall|i: int|
                0 <= i < r->Ok_0@.len() ==> #[trigger] r->Ok_0@[i] == hesuvi_sample(data@, speaker_dirs@, i)
        },
{
    if speaker_dirs.len() != 7 {
        return Err(HeSuViError::InvalidSpeakers);
    }
    let ir_len = data.ir_length();
    let mut out: Vec<S> = Vec::new();
    let mut t: usize = 0;
    while t < ir_len
        invariant
            data@.wf(),
            speaker_dirs@.len() == 7,
            ir_len == data@.spec_ir_length(),
            ir_len > 0 ==> forall|j: int|
                0 <= j < 7 ==> {
                    &&& #[trigger] speaker_dirs@[j] < data@.irs.len()
                    &&& data@.irs[speaker_dirs@[j] as int][0].len() >= ir_len
                    &&& data@.irs[speaker_dirs@[j] as int][1].len() >= ir_len
                },
            t <= ir_len,
            out@.len() == 14 * t,
            forall|i: int| 0 <= i < out@.len() ==> #[trigger] out@[i] == hesuvi_sample(data@, speaker_dirs@, i),
        decreases ir_len - t,
    {
        let mut j: usize = 0;
        while j < 7
            invariant
                data@.wf(),
                speaker_dirs@.len() == 7,
                ir_len == data@.spec_ir_length(),
                forall|j: int|
                    0 <= j < 7 ==> {
                        &&& #[trigger] speaker_dirs@[j] < data@.irs.len()
                        &&& data@.irs[speaker_dirs@[j] as int][0].len() >= ir_len
                        &&& data@.irs[speaker_dirs@[j] as int][1].len() >= ir_len
                    },
                t < ir_len,
                j <= 7,
                out@.len() == 14 * t + 2 * j,
                forall|i: int| 0 <= i < out@.len() ==> #[trigger] out@[i] == hesuvi_sample(data@, speaker_dirs@, i),
            decreases 7 - j,
        {
            let dir = speaker_dirs[j];
            let ghost k = 14 * t + 2 * j;
            assert(speaker_dirs@[j as int] < data@.irs.len());
            let left = data.get_sample(dir, 0, t);
            let right = data.get_sample(dir, 1, t);
            out.push(left);
            out.push(right);
            assert(k / 14 == t && (k % 14) / 2 == j && k % 2 == 0);
            assert((k + 1) / 14 == t && ((k + 1) % 14) / 2 == j && (k + 1) % 2 == 1);
            j = j + 1;
        }
        t = t + 1;
    }
    Ok(out)
}

/// Channel `2j + e` of the stream is the response of speaker `j` for ear `e`:
/// reading every fourteenth sample from there gives the response, up to the
/// export length.
pub proof fn lemma_hesuvi_channel<S>(data: HrtfDataView<S>, dirs: Seq<usize>, j: int, e: int, len: nat)
    requires
        0 <= j < 7,
        0 <= e < 2,
        data.irs[dirs[j] as int][e].len() >= len,
    ensures
        Seq::new(len, |t: int| hesuvi_sample(data, dirs, 14 * t + 2 * j + e)) == data.irs[dirs[j] as int][e].subrange(
            0,
            len as int,
        ),
{
    assert forall|t: int| 0 <= t < len implies #[trigger] hesuvi_sample(data, dirs, 14 * t + 2 * j + e)
        == data.irs[dirs[j] as int][e][t] by {
        let i = 14 * t + 2 * j + e;
        assert(i / 14 == t && (i % 14) / 2 == j && i % 2 == e);
    }
    assert(Seq::new(len, |t: int| hesuvi_sample(data, dirs, 14 * t + 2 * j + e)) =~= data.irs[dirs[j] as int][e].subrange(
        0,
        len as int,
    ));
}

} // verus!
