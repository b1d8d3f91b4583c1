//! The parameter bank: two normalized values that a host reads and writes by
//! index, the threshold first and the gain second.
//!
//! Values are single-precision bit patterns (see `binary32`). A write is
//! never rejected: the value is clamped into the unit interval, the threshold
//! further kept at or above its floor, and an index outside the bank is
//! ignored.

use vstd::prelude::*;
use vstd::arithmetic::power2::{lemma2_to64, lemma_pow2_adds, lemma_pow2_pos, pow2};
use crate::binary32::{
    exact, is_nan, is_negative, le, lemma_one_exact, lemma_weight_order, spec_is_nan, spec_magnitude, HIDDEN_BIT,
    ONE, ZERO,
};

verus! {

/// How many parameters the bank holds.
pub const PARAMETER_COUNT: i32 = 2;

/// The index of the threshold.
pub const THRESHOLD: i32 = 0;

/// The index of the gain.
pub const GAIN: i32 = 1;

/// The lowest threshold that is ever stored: the single-precision number
/// nearest to one hundredth. It keeps the threshold usable as a divisor.
pub const THRESHOLD_FLOOR: u32 = 0x3C23_D70A;

/// Whether `index` names a parameter of the bank.
pub open spec fn in_range(index: int) -> bool {
    0 <= index < PARAMETER_COUNT
}

/// The lowest value that the parameter at `index` may hold.
pub open spec fn floor_of(index: int) -> u32 {
    if index == THRESHOLD {
        THRESHOLD_FLOOR
    } else {
        ZERO
    }
}

/// Whether `w` is a number from `floor` to one, written without a sign bit.
pub open spec fn within(w: u32, floor: u32) -> bool {
    &&& !spec_is_nan(w)
    &&& !is_negative(w)
    &&& exact(floor) <= exact(w) <= exact(ONE)
}

/// The value that is stored when `value` is written to a parameter with the
/// given floor: the floor for anything at or below it and for a word that
/// holds no number, one for anything at or above one, and `value` itself in
/// between.
pub open spec fn clamped(value: u32, floor: u32) -> u32 {
    if spec_is_nan(value) || exact(value) <= exact(floor) {
        floor
    } else if exact(value) >= exact(ONE) {
        ONE
    } else {
        value
    }
}

/// Whether `s` can be the content of a bank: one value per parameter, each
/// within its own floor and one.
pub open spec fn valid(s: Seq<u32>) -> bool {
    &&& s.len() == PARAMETER_COUNT
    &&& forall|i: int| 0 <= i < s.len() ==> within(#[trigger] s[i], floor_of(i))
}

/// What a read of `index` returns from the content `s`: the stored value, or
/// zero for an index outside the bank.
pub open spec fn read(s: Seq<u32>, index: int) -> u32 {
    if 0 <= index < s.len() {
        s[index]
    } else {
        ZERO
    }
}

/// The content after `value` is written to `index`: the clamped value in that
/// place, or `s` unchanged for an index outside the bank.
pub open spec fn written(s: Seq<u32>, index: int, value: u32) -> Seq<u32> {
    if 0 <= index < s.len() {
        s.update(index, clamped(value, floor_of(index)))
    } else {
        s
    }
}

/// The name of the parameter at `index`, empty outside the bank.
pub open spec fn name_of(index: int) -> Seq<char> {
    if index == THRESHOLD {
        "Threshold"@
    } else if index == GAIN {
        "Gain"@
    } else {
        Seq::empty()
    }
}

/// The unit of the parameter at `index`, empty outside the bank.
pub open spec fn unit_of(index: int) -> Seq<char> {
    if in_range(index) {
        "%"@
    } else {
        Seq::empty()
    }
}

/// Both floors are themselves numbers from zero to one.
pub proof fn lemma_floors_within(index: int)
    ensures
        within(floor_of(index), ZERO),
        within(floor_of(index), floor_of(index)),
        within(ONE, floor_of(index)),
        exact(ZERO) == 0,
        0 < exact(THRESHOLD_FLOOR) < exact(ONE),
{
    lemma_weight_order(0, THRESHOLD_FLOOR);
    lemma_weight_order(THRESHOLD_FLOOR, ONE);
    lemma_weight_order(0, ONE);
}

/// The floor is the single-precision number nearest to one hundredth: it
/// lies just below it, and the next number up lies further away above it.
pub proof fn lemma_floor_is_nearest_hundredth()
    ensures
        100 * exact(THRESHOLD_FLOOR) <= exact(ONE) < 100 * exact((THRESHOLD_FLOOR + 1) as u32),
        exact(ONE) - 100 * exact(THRESHOLD_FLOOR) < 100 * exact((THRESHOLD_FLOOR + 1) as u32) - exact(ONE),
{
    let p = pow2(119) as int;
    lemma_pow2_pos(119);
    lemma2_to64();
    lemma_pow2_adds(30, 119);
    lemma_one_exact();
    assert(THRESHOLD_FLOOR / HIDDEN_BIT == 120 && THRESHOLD_FLOOR % HIDDEN_BIT == 2348810);
    assert((THRESHOLD_FLOOR + 1) / HIDDEN_BIT as int == 120 && (THRESHOLD_FLOOR + 1) % HIDDEN_BIT as int == 2348811);
    assert(exact(THRESHOLD_FLOOR) == 10737418 * p);
    assert(exact((THRESHOLD_FLOOR + 1) as u32) == 10737419 * p);
    assert(exact(ONE) == 1073741824 * p);
    assert(100 * (10737418 * p) == 1073741800 * p) by (nonlinear_arith);
    assert(100 * (10737419 * p) == 1073741900 * p) by (nonlinear_arith);
    assert(1073741800 * p <= 1073741824 * p < 1073741900 * p) by (nonlinear_arith)
        requires
            p > 0,
    ;
    assert(1073741824 * p - 1073741800 * p < 1073741900 * p - 1073741824 * p) by (nonlinear_arith)
        requires
            p > 0,
    ;
}

/// Whatever is written, what is stored lies within the parameter's floor and
/// one.
pub proof fn lemma_clamped_within(value: u32, index: int)
    ensures
        within(clamped(value, floor_of(index)), floor_of(index)),
{
    lemma_floors_within(index);
}

/// A write leaves a valid content valid, with every other parameter as it
/// was.
pub proof fn lemma_written_valid(s: Seq<u32>, index: int, value: u32)
    requires
        valid(s),
    ensures
        valid(written(s, index, value)),
        forall|j: int| j != index ==> read(written(s, index, value), j) == read(s, j),
{
    lemma_clamped_within(value, index);
}

/// Writing a number from zero to one to the threshold and reading it back
/// gives a number at or above the floor: the floor itself where the number
/// was below it, and the number as it was written otherwise.
pub proof fn lemma_threshold_keeps_floor(s: Seq<u32>, value: u32)
    requires
        valid(s),
        !spec_is_nan(value),
        0 <= exact(value) <= exact(ONE),
    ensures
        exact(read(written(s, THRESHOLD as int, value), THRESHOLD as int)) >= exact(THRESHOLD_FLOOR),
        exact(value) < exact(THRESHOLD_FLOOR) ==> read(written(s, THRESHOLD as int, value), THRESHOLD as int)
            == THRESHOLD_FLOOR,
        exact(value) > exact(THRESHOLD_FLOOR) ==> read(written(s, THRESHOLD as int, value), THRESHOLD as int)
            == value,
{
    lemma_floors_within(THRESHOLD as int);
    // a value that weighs as much as one is the word one
    lemma_weight_order(spec_magnitude(value), ONE);
}

/// Writing a number outside zero to one and reading it back gives the near
/// end of the parameter's range: its floor for a number below zero, one for a
/// number above one.
pub proof fn lemma_outside_is_clamped(s: Seq<u32>, index: int, value: u32)
    requires
        valid(s),
        in_range(index),
        !spec_is_nan(value),
        exact(value) < 0 || exact(value) > exact(ONE),
    ensures
        within(read(written(s, index, value), index), floor_of(index)),
        exact(value) < 0 ==> read(written(s, index, value), index) == floor_of(index),
        exact(value) > exact(ONE) ==> read(written(s, index, value), index) == ONE,
{
    lemma_floors_within(index);
}

/// The two normalized values of the limiter.
pub struct ParameterBank {
    threshold: u32,
    gain: u32,
}

impl View for ParameterBank {
    type V = Seq<u32>;

    /// The stored values in index order.
    closed spec fn view(&self) -> Seq<u32> {
        seq![self.threshold, self.gain]
    }
}

/// Brings `value` between `floor` and one.
fn clamp(value: u32, floor: u32) -> (r: u32)
    requires
        within(floor, ZERO),
    ensures
        r == clamped(value, floor),
        within(r, floor),
{
    proof {
        lemma_weight_order(0, ONE);
    }
    if is_nan(value) || le(value, floor) {
        floor
    } else if le(ONE, value) {
        ONE
    } else {
        value
    }
}

impl ParameterBank {
    #[verifier::type_invariant]
    spec fn stored_within(self) -> bool {
        &&& within(self.threshold, THRESHOLD_FLOOR)
        &&& within(self.gain, ZERO)
    }

    /// A bank at its defaults: threshold one and gain one, which leave the
    /// signal as it is.
    pub fn new() -> (bank: Self)
        ensures
            bank@ == seq![ONE, ONE],
            valid(bank@),
    {
        proof {
            lemma_floors_within(THRESHOLD as int);
            lemma_floors_within(GAIN as int);
        }
        ParameterBank { threshold: ONE, gain: ONE }
    }

    /// The number of parameters.
    pub fn count(&self) -> (n: i32)
        ensures
            n == PARAMETER_COUNT,
            n == self@.len(),
    {
        PARAMETER_COUNT
    }

    /// The normalized value at `index`, or zero for an index outside the
    /// bank.
    pub fn get(&self, index: i32) -> (value: u32)
        ensures
            value == read(self@, index as int),
            valid(self@),
    {
        proof {
            use_type_invariant(self);
        }
        if index == THRESHOLD {
            self.threshold
        } else if index == GAIN {
            self.gain
        } else {
            ZERO
        }
    }

    /// Stores `value` at `index`, clamped between the parameter's floor and
    /// one. An index outside the bank changes nothing.
    pub fn set(&mut self, index: i32, value: u32)
        ensures
            final(self)@ == written(old(self)@, index as int, value),
            valid(final(self)@),
    {
        proof {
            use_type_invariant(&*self);
            lemma_floors_within(THRESHOLD as int);
            lemma_floors_within(GAIN as int);
        }
        if index == THRESHOLD {
            self.threshold = clamp(value, THRESHOLD_FLOOR);
        } else if index == GAIN {
            self.gain = clamp(value, ZERO);
        }
        assert(final(self)@ =~= written(old(self)@, index as int, value));
    }

    /// The threshold as the transform uses it: at least the floor, so never
    /// zero.
    pub fn threshold(&self) -> (t: u32)
        ensures
            t == self@[THRESHOLD as int],
            within(t, THRESHOLD_FLOOR),
            exact(t) > 0,
    {
        proof {
            use_type_invariant(self);
            lemma_floors_within(THRESHOLD as int);
        }
        self.threshold
    }

    /// The gain as the transform uses it: the stored value.
    pub fn gain(&self) -> (g: u32)
        ensures
            g == self@[GAIN as int],
            within(g, ZERO),
    {
        proof {
            use_type_invariant(self);
        }
        self.gain
    }

    /// The name of the parameter at `index`, empty for an index outside the
    /// bank.
    pub fn name(&self, index: i32) -> (text: String)
        ensures
            text@ == name_of(index as int),
    {
        if index == THRESHOLD {
            "Threshold".to_owned()
        } else if index == GAIN {
            "Gain".to_owned()
        } else {
            String::new()
        }
    }

    /// The unit in which the parameter at `index` is displayed, empty for an
    /// index outside the bank.
    pub fn unit(&self, index: i32) -> (text: String)
        ensures
            text@ == unit_of(index as int),
    {
        if index == THRESHOLD || index == GAIN {
            "%".to_owned()
        } else {
            String::new()
        }
    }

    /// The text displayed for the parameter at `index`. The caller renders
    /// the stored value as a percentage, one hundred times `get(index)` in
    /// its shortest decimal form, and passes it as `percentage`; it is
    /// returned for a parameter of the bank, and nothing for an index outside
    /// it.
    pub fn display_text(&self, index: i32, percentage: &str) -> (text: String)
        ensures
            text@ == (if in_range(index as int) {
                percentage@
            } else {
                Seq::empty()
            }),
    {
        if index == THRESHOLD || index == GAIN {
            percentage.to_owned()
        } else {
            String::new()
        }
    }
}

impl Default for ParameterBank {
    /// The same bank as `new` gives.
    fn default() -> (bank: Self)
        ensures
            bank@ == seq![ONE, ONE],
            valid(bank@),
    {
        ParameterBank::new()
    }
}

} // verus!
