//! The container of synthesised impulse responses: for every source direction,
//! a position and one impulse response per ear.
//!
//! The container is generic over the sample type `S`; the synthesiser fills it
//! with `f32` samples.

use vstd::prelude::*;

verus! {

/// The contents of an [`HrtfData`]: responses by direction and ear
/// (`irs[d][0]` left, `irs[d][1]` right), positions (azimuth, elevation,
/// distance) by direction, and the sample rate.
pub struct HrtfDataView<S> {
    pub irs: Seq<Seq<Seq<S>>>,
    pub positions: Seq<(S, S, S)>,
    pub sample_rate: u32,
}

impl<S> HrtfDataView<S> {
    /// Every direction has a position and exactly two responses.
    pub open spec fn wf(self) -> bool {
        &&& self.irs.len() == self.positions.len()
        &&& forall|d: int| 0 <= d < self.irs.len() ==> (#[trigger] self.irs[d]).len() == 2
    }

    /// The length of the first response, or 0 when there is none.
    pub open spec fn spec_ir_length(self) -> nat {
        if self.irs.len() == 0 || self.irs[0].len() == 0 {
            0
        } else {
            self.irs[0][0].len()
        }
    }
}

/// Synthesised responses for a set of directions.
pub struct HrtfData<S> {
    irs: Vec<Vec<Vec<S>>>,
    positions: Vec<(S, S, S)>,
    sample_rate: u32,
}

/// The responses of one direction, by their views.
pub open spec fn view_ears<S>(d: Vec<Vec<S>>) -> Seq<Seq<S>> {
    d@.map_values(|e: Vec<S>| e@)
}

impl<S> View for HrtfData<S> {
    type V = HrtfDataView<S>;

    closed spec fn view(&self) -> HrtfDataView<S> {
        HrtfDataView {
            irs: self.irs@.map_values(|d: Vec<Vec<S>>| view_ears(d)),
            positions: self.positions@,
            sample_rate: self.sample_rate,
        }
    }
}

impl<S: Copy> HrtfData<S> {
    /// A container for `n_directions` directions whose responses are
    /// `n_samples` copies of `zero` and whose positions are `zero` triples.
    pub fn new(n_directions: usize, n_samples: usize, sample_rate: u32, zero: S) -> (r: HrtfData<S>)
        ensures
            r@.wf(),
            r@.irs == Seq::new(
                n_directions as nat,
                |d: int| Seq::new(2, |c: int| Seq::new(n_samples as nat, |k: int| zero)),
            ),
            r@.positions == Seq::new(n_directions as nat, |d: int| (zero, zero, zero)),
            r@.sample_rate == sample_rate,
    {
        let ghost ir_spec = Seq::new(n_samples as nat, |k: int| zero);
        let ghost dir_spec = Seq::new(2, |c: int| ir_spec);
        let mut irs: Vec<Vec<Vec<S>>> = Vec::new();
        let mut positions: Vec<(S, S, S)> = Vec::new();
        let mut d: usize = 0;
        while d < n_directions
            invariant
                ir_spec == Seq::new(n_samples as nat, |k: int| zero),
                dir_spec == Seq::new(2, |c: int| ir_spec),
                d <= n_directions,
                irs@.len() == d,
                positions@.len() == d,
                forall|i: int| 0 <= i < d ==> view_ears(#[trigger] irs@[i]) == dir_spec,
                forall|i: int| 0 <= i < d ==> #[trigger] positions@[i] == (zero, zero, zero),
            decreases n_directions - d,
        {
            let mut dir: Vec<Vec<S>> = Vec::new();
            let mut c: usize = 0;
            while c < 2
                invariant
                    ir_spec == Seq::new(n_samples as nat, |i: int| zero),
                    c <= 2,
                    dir@.len() == c,
                    forall|j: int| 0 <= j < c ==> (#[trigger] dir@[j])@ == ir_spec,
                decreases 2 - c,
            {
                let mut ir: Vec<S> = Vec::new();
                let mut k: usize = 0;
                while k < n_samples
                    invariant
                        ir_spec == Seq::new(n_samples as nat, |i: int| zero),
                        k <= n_samples,
                        ir@ == Seq::new(k as nat, |i: int| zero),
                    decreases n_samples - k,
                {
                    ir.push(zero);
                    k = k + 1;
                    assert(ir@ =~= Seq::new(k as nat, |i: int| zero));
                }
                assert(ir@ =~= ir_spec);
                dir.push(ir);
                c = c + 1;
            }
            assert(view_ears(dir) =~= dir_spec);
            irs.push(dir);
            positions.push((zero, zero, zero));
            d = d + 1;
        }
        let r = HrtfData { irs, positions, sample_rate };
        assert(r@.irs =~= Seq::new(n_directions as nat, |d: int| dir_spec));
        assert(r@.positions =~= Seq::new(n_directions as nat, |d: int| (zero, zero, zero)));
        r
    }

    /// The number of directions.
    pub fn num_directions(&self) -> (r: usize)
        ensures
            r == self@.irs.len(),
    {
        self.irs.len()
    }

    /// The length of the first response (that of every response, for data
    /// filled by the synthesiser), or 0 when there is none.
    pub fn ir_length(&self) -> (r: usize)
        ensures
            r == self@.spec_ir_length(),
    {
        if self.irs.len() == 0 || self.irs[0].len() == 0 {
            0
        } else {
            self.irs[0][0].len()
        }
    }

    /// The sample rate.
    pub fn sample_rate(&self) -> (r: u32)
        ensures
            r == self@.sample_rate,
    {
        self.sample_rate
    }

    /// The positions of all directions.
    pub fn positions(&self) -> (r: &[(S, S, S)])
        ensures
            r@ == self@.positions,
    {
        self.positions.as_slice()
    }

    /// Sets the position of one direction; nothing else changes.
    pub fn set_position(&mut self, dir_idx: usize, azimuth: S, elevation: S, distance: S)
        requires
            dir_idx < old(self)@.positions.len(),
        ensures
            final(self)@ == (HrtfDataView {
                positions: old(self)@.positions.update(dir_idx as int, (azimuth, elevation, distance)),
                ..old(self)@
            }),
    {
        self.positions.set(dir_idx, (azimuth, elevation, distance));
    }

    /// Replaces the response of one direction and ear; nothing else changes.
    pub fn set_ir(&mut self, dir_idx: usize, channel: usize, ir: Vec<S>)
        requires
            old(self)@.wf(),
            dir_idx < old(self)@.irs.len(),
            channel < 2,
        ensures
            final(self)@ == with_ir(old(self)@, dir_idx as int, channel as int, ir@),
            final(self)@.wf(),
    {
        let ghost old_irs = self@.irs;
        assert(old_irs[dir_idx as int].len() == 2);
        let ghost old_dir = self.irs@[dir_idx as int];
        self.irs[dir_idx][channel] = ir;
        assert(self.irs@[dir_idx as int]@ == old_dir@.update(channel as int, ir));
        assert(view_ears(self.irs@[dir_idx as int]) =~= view_ears(old_dir).update(channel as int, ir@));
        assert(self@.irs =~= old_irs.update(dir_idx as int, old_irs[dir_idx as int].update(channel as int, ir@)));
    }

    /// One sample of one response.
    pub fn get_sample(&self, dir_idx: usize, channel: usize, sample_idx: usize) -> (r: S)
        requires
            dir_idx < self@.irs.len(),
            channel < self@.irs[dir_idx as int].len(),
            sample_idx < self@.irs[dir_idx as int][channel as int].len(),
        ensures
            r == self@.irs[dir_idx as int][channel as int][sample_idx as int],
    {
        self.irs[dir_idx][channel][sample_idx]
    }

    /// One response.
    pub fn get_ir(&self, dir_idx: usize, channel: usize) -> (r: &[S])
        requires
            dir_idx < self@.irs.len(),
            channel < self@.irs[dir_idx as int].len(),
        ensures
            r@ == self@.irs[dir_idx as int][channel as int],
    {
        self.irs[dir_idx][channel].as_slice()
    }
}

/// The contents after [`HrtfData::set_ir`].
pub open spec fn with_ir<S>(v: HrtfDataView<S>, d: int, c: int, ir: Seq<S>) -> HrtfDataView<S> {
    HrtfDataView { irs: v.irs.update(d, v.irs[d].update(c, ir)), ..v }
}

/// A response reads back as it was set, and setting one response changes no
/// other response, no position and not the sample rate.
pub proof fn lemma_set_ir_get_ir<S>(v: HrtfDataView<S>, d: int, c: int, ir: Seq<S>)
    requires
        v.wf(),
        0 <= d < v.irs.len(),
        0 <= c < 2,
    ensures
        with_ir(v, d, c, ir).wf(),
        with_ir(v, d, c, ir).irs[d][c] == ir,
        forall|d2: int, c2: int|
            0 <= d2 < v.irs.len() && 0 <= c2 < 2 && (d2 != d || c2 != c) ==> #[trigger] with_ir(
                v,
                d,
                c,
                ir,
            ).irs[d2][c2] == v.irs[d2][c2],
        with_ir(v, d, c, ir).positions == v.positions,
        with_ir(v, d, c, ir).sample_rate == v.sample_rate,
{
}

} // verus!
