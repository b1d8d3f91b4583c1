//! The clipping stage of the limiter.
//!
//! The transform of one sample `x` under threshold `T` and gain `G` is
//! `clip(x) / T * G`, where `clip` holds `x` between `-T` and `T`. This
//! module is `clip`: on one sample, on one channel and on a block of paired
//! channels. It keeps no state between calls; the threshold is read from the
//! bank at each call. The division and the multiplication are
//! single-precision arithmetic and are the caller's to do, with
//! `ParameterBank::threshold` and `ParameterBank::gain`.

use vstd::prelude::*;
use crate::binary32::{exact, le, negate, spec_is_nan, spec_negate, ZERO};
use crate::params::{lemma_floors_within, within, ParameterBank, THRESHOLD, THRESHOLD_FLOOR};

verus! {

/// The sample `x` held between `-t` and `t`: `x` itself where its magnitude
/// is at most `t`, and `t` with the sign of `x` where it is more. A word that
/// holds no number gives `-t`.
pub open spec fn clipped(x: u32, t: u32) -> u32 {
    if spec_is_nan(x) {
        spec_negate(t)
    } else if exact(x) >= 0 {
        if exact(x) <= exact(t) {
            x
        } else {
            t
        }
    } else {
        if exact(x) >= -exact(t) {
            x
        } else {
            spec_negate(t)
        }
    }
}

/// How many positions two buffers share: the length of the shorter.
pub open spec fn spec_paired(inputs: int, outputs: int) -> int {
    if inputs < outputs {
        inputs
    } else {
        outputs
    }
}

/// One output channel after its input channel was clipped into it: the
/// clipped input as far as the input reaches, and what the output held
/// before from there on.
pub open spec fn channel_after(input: Seq<u32>, before: Seq<u32>, t: u32) -> Seq<u32> {
    Seq::new(
        before.len(),
        |j: int|
            if j < spec_paired(input.len() as int, before.len() as int) {
                clipped(input[j], t)
            } else {
                before[j]
            },
    )
}

/// The output channels after a block was clipped into them: each output
/// channel that has an input channel at its position is paired with it, and
/// the others are as they were.
pub open spec fn block_after(inputs: Seq<Seq<u32>>, before: Seq<Seq<u32>>, t: u32) -> Seq<Seq<u32>> {
    Seq::new(
        before.len(),
        |c: int|
            if c < spec_paired(inputs.len() as int, before.len() as int) {
                channel_after(inputs[c], before[c], t)
            } else {
                before[c]
            },
    )
}

/// A clipped sample is a number between minus the threshold and the
/// threshold, whatever the sample was.
pub proof fn lemma_clipped_bounded(x: u32, t: u32)
    requires
        within(t, THRESHOLD_FLOOR),
    ensures
        !spec_is_nan(clipped(x, t)),
        -exact(t) <= exact(clipped(x, t)) <= exact(t),
{
    lemma_floors_within(THRESHOLD as int);
}

/// What clipping does to a number: a zero stays that zero, a sample whose
/// magnitude is at most the threshold stays as it is, and a sample beyond the
/// threshold becomes the threshold with the sample's sign.
pub proof fn lemma_clipped_cases(x: u32, t: u32)
    requires
        within(t, THRESHOLD_FLOOR),
        !spec_is_nan(x),
    ensures
        exact(x) == 0 ==> clipped(x, t) == x,
        -exact(t) <= exact(x) <= exact(t) ==> clipped(x, t) == x,
        exact(x) > exact(t) ==> clipped(x, t) == t,
        exact(x) < -exact(t) ==> clipped(x, t) == spec_negate(t) && exact(clipped(x, t)) == -exact(t),
{
    lemma_floors_within(THRESHOLD as int);
}

/// Clipping a clipped sample changes nothing.
pub proof fn lemma_clipped_idempotent(x: u32, t: u32)
    requires
        within(t, THRESHOLD_FLOOR),
    ensures
        clipped(clipped(x, t), t) == clipped(x, t),
{
    lemma_floors_within(THRESHOLD as int);
}

/// Every paired position of a block holds the clipped input sample, whatever
/// the output held before, and every other position holds what it held
/// before.
pub proof fn lemma_block_pointwise(inputs: Seq<Seq<u32>>, before: Seq<Seq<u32>>, t: u32, c: int, j: int)
    requires
        0 <= c < before.len(),
        0 <= j < before[c].len(),
    ensures
        block_after(inputs, before, t).len() == before.len(),
        block_after(inputs, before, t)[c].len() == before[c].len(),
        c < inputs.len() && j < inputs[c].len() ==> block_after(inputs, before, t)[c][j] == clipped(
            inputs[c][j],
            t,
        ),
        !(c < inputs.len() && j < inputs[c].len()) ==> block_after(inputs, before, t)[c][j] == before[c][j],
{
}

/// Processing is repeatable: the same input under the same threshold, clipped
/// once more into the outputs that the first pass left, leaves them as they
/// are.
pub proof fn lemma_block_repeatable(inputs: Seq<Seq<u32>>, before: Seq<Seq<u32>>, t: u32)
    ensures
        block_after(inputs, block_after(inputs, before, t), t) == block_after(inputs, before, t),
{
    let once = block_after(inputs, before, t);
    let twice = block_after(inputs, once, t);
    assert(twice.len() == once.len());
    assert forall|c: int| 0 <= c < once.len() implies twice[c] == once[c] by {
        assert(twice[c] =~= once[c]);
    }
    assert(twice =~= once);
}

/// The paired positions of the result depend on the input and the threshold
/// alone: two passes over the same input into output buffers of the same
/// shape agree wherever an input sample was written.
pub proof fn lemma_block_determined(
    inputs: Seq<Seq<u32>>,
    first: Seq<Seq<u32>>,
    second: Seq<Seq<u32>>,
    t: u32,
    c: int,
    j: int,
)
    requires
        0 <= c < first.len(),
        0 <= c < second.len(),
        c < inputs.len(),
        0 <= j < inputs[c].len(),
        j < first[c].len(),
        j < second[c].len(),
    ensures
        block_after(inputs, first, t)[c][j] == block_after(inputs, second, t)[c][j],
{
}

/// How many positions an input side of `inputs` items and an output side of
/// `outputs` items share: the smaller of the two. Channels are paired so, and
/// the samples within a pair of channels.
pub fn paired(inputs: usize, outputs: usize) -> (n: usize)
    ensures
        n == spec_paired(inputs as int, outputs as int),
{
    if inputs < outputs {
        inputs
    } else {
        outputs
    }
}

/// Holds the sample `x` between minus the threshold and the threshold.
pub fn clip_sample(bank: &ParameterBank, x: u32) -> (y: u32)
    ensures
        y == clipped(x, bank@[THRESHOLD as int]),
{
    let t: u32 = bank.threshold();
    if le(ZERO, x) {
        if le(x, t) {
            x
        } else {
            t
        }
    } else {
        let low: u32 = negate(t);
        if le(low, x) {
            x
        } else {
            low
        }
    }
}

/// Clips one input channel into its output channel. Where the two differ in
/// length only the shorter length is written, and the rest of the output
/// stays as it was.
pub fn clip_channel(bank: &ParameterBank, input: &Vec<u32>, output: &mut Vec<u32>)
    ensures
        final(output)@ == channel_after(input@, old(output)@, bank@[THRESHOLD as int]),
{
    let ghost t: u32 = bank@[THRESHOLD as int];
    let n: usize = paired(input.len(), output.len());
    let mut j: usize = 0;
    while j < n
        invariant
            j <= n,
            n <= input.len(),
            n <= output.len(),
            output.len() == old(output).len(),
            forall|k: int| 0 <= k < j ==> output@[k] == clipped(input@[k], t),
            forall|k: int| j <= k < output.len() ==> output@[k] == old(output)@[k],
            t == bank@[THRESHOLD as int],
        decreases n - j,
    {
        let y: u32 = clip_sample(bank, input[j]);
        output[j] = y;
        j += 1;
    }
    assert(output@ =~= channel_after(input@, old(output)@, t));
}

/// Clips a block: input and output channels are paired by position. Where
/// there are more channels on one side than on the other, only the paired
/// ones are processed; within a pair, only the shorter length. Everything
/// else in `outputs` stays as it was.
pub fn clip_block(bank: &ParameterBank, inputs: &Vec<Vec<u32>>, outputs: &mut Vec<Vec<u32>>)
    ensures
        final(outputs).deep_view() == block_after(
            inputs.deep_view(),
            old(outputs).deep_view(),
            bank@[THRESHOLD as int],
        ),
{
    let ghost t: u32 = bank@[THRESHOLD as int];
    let pairs: usize = paired(inputs.len(), outputs.len());
    let mut c: usize = 0;
    while c < pairs
        invariant
            c <= pairs,
            pairs <= inputs.len(),
            pairs <= outputs.len(),
            outputs.len() == old(outputs).len(),
            forall|k: int| 0 <= k < c ==> outputs@[k]@ == channel_after(inputs@[k]@, old(outputs)@[k]@, t),
            forall|k: int| c <= k < outputs.len() ==> outputs@[k] == old(outputs)@[k],
            t == bank@[THRESHOLD as int],
        decreases pairs - c,
    {
        clip_channel(bank, &inputs[c], &mut outputs[c]);
        c += 1;
    }
    proof {
        let after = outputs.deep_view();
        let wanted = block_after(inputs.deep_view(), old(outputs).deep_view(), t);
        assert(after.len() == wanted.len());
        assert forall|k: int| 0 <= k < after.len() implies after[k] == wanted[k] by {
            assert(outputs@[k].deep_view() =~= outputs@[k]@);
            assert(old(outputs)@[k].deep_view() =~= old(outputs)@[k]@);
            if k < inputs.len() {
                assert(inputs@[k].deep_view() =~= inputs@[k]@);
            }
        }
        assert(after =~= wanted);
    }
}

} // verus!
