use vstd::prelude::*;
use vstd::arithmetic::div_mod::{
    lemma_div_is_ordered, lemma_div_multiples_vanish, lemma_fundamental_div_mod, lemma_mod_bound,
};
use vstd::arithmetic::mul::lemma_mul_inequality;

verus! {

/// Scale of a percentage component: percentages carry four decimal digits,
/// so one hundred percent is `100_0000`.
pub const PERCENT_SCALE: u64 = 1000000;

/// Mathematical model of one column profile.
#[verifier::ext_equal]
pub ghost struct FieldModel {
    pub pos: nat,
    pub max_width: nat,
    pub title: Seq<char>,
    pub ints: nat,
    pub floats: nat,
    pub texts: nat,
    pub nonempty: bool,
}

impl FieldModel {
    /// Total number of cells folded into the modelled profile.
    pub open spec fn tally(self) -> nat {
        self.ints + self.floats + self.texts
    }
}

/// Accumulated statistics for one column position of the scanned input.
pub struct Field {
    /// Zero-based column position, assigned in order of first appearance.
    pub pos: usize,
    /// Largest trimmed width, in characters, seen in any cell at this position.
    pub max_len: usize,
    /// Column label taken from the header row, or a placeholder.
    pub title: String,
    /// How many cells at this position classified as (integer, float, text).
    pub types: (u64, u64, u64),
    /// One-way latch: true once any cell at this position had a non-empty
    /// trimmed value.
    pub has_value: bool,
}

impl View for Field {
    type V = FieldModel;

    open spec fn view(&self) -> FieldModel {
        FieldModel {
            pos: self.pos as nat,
            max_width: self.max_len as nat,
            title: self.title@,
            ints: self.types.0 as nat,
            floats: self.types.1 as nat,
            texts: self.types.2 as nat,
            nonempty: self.has_value,
        }
    }
}

impl Field {
    /// Total number of cells folded into this profile so far.
    pub open spec fn tally_sum(self) -> int {
        self.types.0 + self.types.1 + self.types.2
    }

    /// The percentage profile of the column: how much of the tally each of
    /// the integer, float and text counters holds, each percentage scaled by
    /// ten thousand (so `25.0000%` is `250000`) and rounded down. A profile
    /// whose tally sum is zero — one exposed before any cell was folded —
    /// reports `(0, 0, 0)` rather than failing.
    pub fn build_profile(&self) -> (p: (u64, u64, u64))
        requires
            self.tally_sum() <= u64::MAX,
        ensures
            self.tally_sum() == 0 ==> p == (0u64, 0u64, 0u64),
            self.tally_sum() > 0 ==> p.0 == self.types.0 as int * PERCENT_SCALE as int / self.tally_sum(),
            self.tally_sum() > 0 ==> p.1 == self.types.1 as int * PERCENT_SCALE as int / self.tally_sum(),
            self.tally_sum() > 0 ==> p.2 == self.types.2 as int * PERCENT_SCALE as int / self.tally_sum(),
    {
        let sum: u64 = self.types.0 + self.types.1 + self.types.2;
        if sum == 0 {
            return (0, 0, 0);
        }
        let p0 = percent_part(self.types.0, sum);
        let p1 = percent_part(self.types.1, sum);
        let p2 = percent_part(self.types.2, sum);
        (p0, p1, p2)
    }

    /// Record whether the current cell held a value. The flag is a one-way
    /// latch: once set it never clears, however many empty cells follow.
    pub fn has_value(&mut self, v: bool)
        ensures
            final(self).has_value == (old(self).has_value || v),
            final(self).pos == old(self).pos,
            final(self).max_len == old(self).max_len,
            final(self).title == old(self).title,
            final(self).types == old(self).types,
    {
        if self.has_value {
            return;
        }
        self.has_value = v;
    }
}

/// One scaled percentage component: `count` out of `sum`, as a percentage
/// with four decimal digits, rounded down.
fn percent_part(count: u64, sum: u64) -> (p: u64)
    requires
        count <= sum,
        sum >= 1,
    ensures
        p == count as int * PERCENT_SCALE as int / sum as int,
{
    proof {
        lemma_mul_inequality(count as int, sum as int, PERCENT_SCALE as int);
        lemma_div_is_ordered(
            count as int * PERCENT_SCALE as int,
            sum as int * PERCENT_SCALE as int,
            sum as int,
        );
        lemma_div_multiples_vanish(PERCENT_SCALE as int, sum as int);
    }
    ((count as u128) * (PERCENT_SCALE as u128) / (sum as u128)) as u64
}

/// The percentage components of a profile account for the whole column: for
/// any tally with sum at least one, the three rounded-down scaled percentages
/// add up to one hundred percent, short at most two units in the last of the
/// four decimal digits.
pub proof fn lemma_profile_parts_sum(i: int, f: int, t: int)
    requires
        0 <= i,
        0 <= f,
        0 <= t,
        i + f + t >= 1,
    ensures
        ({
            let s = i + f + t;
            let total = i * PERCENT_SCALE / s + f * PERCENT_SCALE / s + t * PERCENT_SCALE / s;
            PERCENT_SCALE - 2 <= total <= PERCENT_SCALE
        }),
{
    let s = i + f + t;
    let k = PERCENT_SCALE as int;
    let q0 = i * k / s;
    let q1 = f * k / s;
    let q2 = t * k / s;
    let r0 = i * k % s;
    let r1 = f * k % s;
    let r2 = t * k % s;
    lemma_fundamental_div_mod(i * k, s);
    lemma_fundamental_div_mod(f * k, s);
    lemma_fundamental_div_mod(t * k, s);
    lemma_mod_bound(i * k, s);
    lemma_mod_bound(f * k, s);
    lemma_mod_bound(t * k, s);
    assert(i * k + f * k + t * k == s * k) by (nonlinear_arith)
        requires
            s == i + f + t,
    ;
    assert(s * k == s * q0 + s * q1 + s * q2 + (r0 + r1 + r2));
    assert(s * (k - (q0 + q1 + q2)) == r0 + r1 + r2) by (nonlinear_arith)
        requires
            s * k == s * q0 + s * q1 + s * q2 + (r0 + r1 + r2),
    ;
    let x = k - (q0 + q1 + q2);
    assert(0 <= x < 3) by (nonlinear_arith)
        requires
            s >= 1,
            s * x == r0 + r1 + r2,
            0 <= r0 < s,
            0 <= r1 < s,
            0 <= r2 < s,
    ;
}

/// Law: the three components [`Field::build_profile`] returns account for the
/// whole column. Whenever the profile has folded at least one cell, they add
/// up to one hundred percent, short at most two units in the last of the four
/// decimal digits.
pub proof fn lemma_build_profile_sums(fd: Field, p: (u64, u64, u64))
    requires
        1 <= fd.tally_sum() <= u64::MAX,
        p.0 == fd.types.0 as int * PERCENT_SCALE as int / fd.tally_sum(),
        p.1 == fd.types.1 as int * PERCENT_SCALE as int / fd.tally_sum(),
        p.2 == fd.types.2 as int * PERCENT_SCALE as int / fd.tally_sum(),
    ensures
        PERCENT_SCALE - 2 <= p.0 + p.1 + p.2 <= PERCENT_SCALE,
{
    lemma_profile_parts_sum(fd.types.0 as int, fd.types.1 as int, fd.types.2 as int);
}

} // verus!
