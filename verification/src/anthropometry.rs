//! Anthropometric measurements and the input vectors built from them.

use vstd::prelude::*;

verus! {

/// Measurements of a listener: head width (between the ear canals) and depth,
/// and for each ear the six pinna parameters d1, d2, d3, d5, d7, d8.
pub struct Anthropometry<S> {
    pub head_width: S,
    pub head_depth: S,
    pub ear_params_left: [S; 6],
    pub ear_params_right: [S; 6],
}

impl<S: Copy> Anthropometry<S> {
    /// The network input for the left ear: head width, head depth, then the
    /// six left-ear parameters in order.
    pub fn to_input_left(&self) -> (r: Vec<S>)
        ensures
            r@ == seq![self.head_width, self.head_depth] + self.ear_params_left@,
    {
        let mut v: Vec<S> = Vec::new();
        v.push(self.head_width);
        v.push(self.head_depth);
        let mut i: usize = 0;
        while i < 6
            invariant
                i <= 6,
                v@ == seq![self.head_width, self.head_depth] + self.ear_params_left@.subrange(0, i as int),
            decreases 6 - i,
        {
            v.push(self.ear_params_left[i]);
            i = i + 1;
            assert(v@ =~= seq![self.head_width, self.head_depth] + self.ear_params_left@.subrange(0, i as int));
        }
        assert(self.ear_params_left@.subrange(0, 6) =~= self.ear_params_left@);
        v
    }

    /// The network input for the right ear: head width, head depth, then the
    /// six right-ear parameters in order.
    pub fn to_input_right(&self) -> (r: Vec<S>)
        ensures
            r@ == seq![self.head_width, self.head_depth] + self.ear_params_right@,
    {
        let mut v: Vec<S> = Vec::new();
        v.push(self.head_width);
        v.push(self.head_depth);
        let mut i: usize = 0;
        while i < 6
            invariant
                i <= 6,
                v@ == seq![self.head_width, self.head_depth] + self.ear_params_right@.subrange(0, i as int),
            decreases 6 - i,
        {
            v.push(self.ear_params_right[i]);
            i = i + 1;
            assert(v@ =~= seq![self.head_width, self.head_depth] + self.ear_params_right@.subrange(0, i as int));
        }
        assert(self.ear_params_right@.subrange(0, 6) =~= self.ear_params_right@);
        v
    }
}

} // verus!
