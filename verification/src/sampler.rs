use rand::rngs::ThreadRng;
use rand::Rng;
use vstd::prelude::*;

verus! {

/// `rand`'s per-thread generator, carried opaquely.
#[verifier::external_type_specification]
#[verifier::external_body]
pub struct ExThreadRng(rand::rngs::ThreadRng);

/// `rand::Rng::gen_range` on the range `0..n` of a `ThreadRng`: a value drawn at
/// random below `n`. The crate panics on an empty range, so `n` must be positive;
/// which value comes back is chance and is not stated.
#[verifier::external_body]
fn draw_below(rng: &mut ThreadRng, n: u32) -> (res: u32)
    requires
        n > 0,
    ensures
        res < n,
{
    rng.gen_range(0..n)
}

/// The stratum that follows `s` among `d` strata, wrapping round after the last.
pub open spec fn next_stratum(s: int, d: int) -> int {
    (s + 1) % d
}

/// Where a stratified sampler stands: the stratum of the next single number among
/// `division`, and the cell of the next pair in a `division_sqrt` by
/// `division_sqrt` grid (column and row advance together).
pub struct Strata {
    pub division: u32,
    pub division_sqrt: u32,
    pub curr_ind: u32,
    pub curr_ind_x: u32,
    pub curr_ind_y: u32,
}

impl Strata {
    /// There are strata, and the current ones are among them.
    pub open spec fn wf(&self) -> bool {
        &&& 0 < self.division
        &&& 0 < self.division_sqrt
        &&& self.curr_ind < self.division
        &&& self.curr_ind_x < self.division_sqrt
        &&& self.curr_ind_y < self.division_sqrt
    }

    /// Starts at strata drawn at random from `rng`.
    pub fn new(rng: &mut ThreadRng, division: u32, division_sqrt: u32) -> (res: Self)
        requires
            division > 0,
            division_sqrt > 0,
        ensures
            res.wf(),
            res.division == division,
            res.division_sqrt == division_sqrt,
    {
        let curr_ind = draw_below(rng, division);
        let curr_ind_x = draw_below(rng, division_sqrt);
        let curr_ind_y = draw_below(rng, division_sqrt);
        Strata { division, division_sqrt, curr_ind, curr_ind_x, curr_ind_y }
    }

    /// Moves to the next stratum of single numbers and returns it.
    pub fn next_1d(&mut self) -> (res: u32)
        requires
            old(self).wf(),
        ensures
            final(self).wf(),
            res == next_stratum(old(self).curr_ind as int, old(self).division as int),
            *final(self) == (Strata { curr_ind: res, ..*old(self) }),
    {
        proof {
            lemma_next_stratum(self.curr_ind as int, self.division as int);
        }
        self.curr_ind = if self.curr_ind + 1 == self.division {
            0
        } else {
            self.curr_ind + 1
        };
        self.curr_ind
    }

    /// Moves to the next cell for pairs (column and row each to their next
    /// stratum) and returns it.
    pub fn next_2d(&mut self) -> (res: (u32, u32))
        requires
            old(self).wf(),
        ensures
            final(self).wf(),
            res.0 == next_stratum(old(self).curr_ind_x as int, old(self).division_sqrt as int),
            res.1 == next_stratum(old(self).curr_ind_y as int, old(self).division_sqrt as int),
            *final(self) == (Strata { curr_ind_x: res.0, curr_ind_y: res.1, ..*old(self) }),
    {
        proof {
            lemma_next_stratum(self.curr_ind_x as int, self.division_sqrt as int);
            lemma_next_stratum(self.curr_ind_y as int, self.division_sqrt as int);
        }
        self.curr_ind_x = if self.curr_ind_x + 1 == self.division_sqrt {
            0
        } else {
            self.curr_ind_x + 1
        };
        self.curr_ind_y = if self.curr_ind_y + 1 == self.division_sqrt {
            0
        } else {
            self.curr_ind_y + 1
        };
        (self.curr_ind_x, self.curr_ind_y)
    }
}

proof fn lemma_next_stratum(s: int, d: int)
    requires
        0 <= s < d,
    ensures
        next_stratum(s, d) == if s + 1 == d { 0 } else { s + 1 },
{
    if s + 1 == d {
        vstd::arithmetic::div_mod::lemma_mod_self_0(d);
    } else {
        vstd::arithmetic::div_mod::lemma_small_mod((s + 1) as nat, d as nat);
    }
}

/// The stratum reached from `s` after `k` steps among `d` strata.
pub open spec fn stratum_after(s: int, k: nat, d: int) -> int
    decreases k,
{
    if k == 0 {
        s
    } else {
        next_stratum(stratum_after(s, (k - 1) as nat, d), d)
    }
}

/// How many steps lead from stratum `s` to stratum `t` among `d`: between 1 and `d`.
pub open spec fn steps_to(s: int, t: int, d: int) -> nat {
    if t > s {
        (t - s) as nat
    } else {
        (t + d - s) as nat
    }
}

/// Stepping through the strata: after `k` steps from stratum `s` the sampler is at
/// `(s + k) mod d`, so any `d` consecutive steps visit every stratum exactly once:
/// stratum `t` after [`steps_to`] steps, and no stratum twice.
pub proof fn strata_visit_each_once(s: int, d: int)
    requires
        0 <= s < d,
    ensures
        forall|k: nat| #[trigger] stratum_after(s, k, d) == (s + k) % d,
        forall|t: int| 0 <= t < d ==> 1 <= #[trigger] steps_to(s, t, d) <= d && stratum_after(s, steps_to(s, t, d), d) == t,
        forall|k1: nat, k2: nat|
            1 <= k1 < k2 <= d ==> #[trigger] stratum_after(s, k1, d) != #[trigger] stratum_after(s, k2, d),
{
    assert forall|k: nat| #[trigger] stratum_after(s, k, d) == (s + k) % d by {
        lemma_stratum_after(s, k, d);
    }
    assert forall|t: int| 0 <= t < d implies 1 <= #[trigger] steps_to(s, t, d) <= d && stratum_after(s, steps_to(s, t, d), d) == t by {
        let k = steps_to(s, t, d);
        lemma_stratum_after(s, k, d);
        if t > s {
            vstd::arithmetic::div_mod::lemma_small_mod(t as nat, d as nat);
        } else {
            vstd::arithmetic::div_mod::lemma_mod_add_multiples_vanish(t, d);
            vstd::arithmetic::div_mod::lemma_small_mod(t as nat, d as nat);
        }
        assert(stratum_after(s, k, d) == t);
    }
    assert forall|k1: nat, k2: nat| 1 <= k1 < k2 <= d implies #[trigger] stratum_after(s, k1, d) != #[trigger] stratum_after(s, k2, d) by {
        lemma_stratum_after(s, k1, d);
        lemma_stratum_after(s, k2, d);
        lemma_mod_window(s + k1, d);
        lemma_mod_window(s + k2, d);
    }
}

/// Pairs step their column and row together, so the difference between column
/// and row (mod `d`) never changes: from one start, the pairs visit only `d` of the
/// `d * d` cells of the grid.
pub proof fn strata_pairs_keep_diagonal(x: int, y: int, d: int, k: nat)
    requires
        0 <= x < d,
        0 <= y < d,
    ensures
        (stratum_after(x, k, d) - stratum_after(y, k, d)) % d == (x - y) % d,
{
    lemma_stratum_after(x, k, d);
    lemma_stratum_after(y, k, d);
    vstd::arithmetic::div_mod::lemma_sub_mod_noop(x + k, y + k, d);
    assert((x + k) - (y + k) == x - y);
}

/// Within `[0, 2d)`, reduction mod `d` subtracts `d` from the upper half.
proof fn lemma_mod_window(a: int, d: int)
    requires
        0 < d,
        0 <= a < 2 * d,
    ensures
        a % d == if a < d { a } else { a - d },
{
    if a < d {
        vstd::arithmetic::div_mod::lemma_small_mod(a as nat, d as nat);
    } else {
        vstd::arithmetic::div_mod::lemma_mod_add_multiples_vanish(a - d, d);
        vstd::arithmetic::div_mod::lemma_small_mod((a - d) as nat, d as nat);
    }
}

proof fn lemma_stratum_after(s: int, k: nat, d: int)
    requires
        0 <= s < d,
    ensures
        stratum_after(s, k, d) == (s + k) % d,
    decreases k,
{
    if k == 0 {
        vstd::arithmetic::div_mod::lemma_small_mod(s as nat, d as nat);
    } else {
        lemma_stratum_after(s, (k - 1) as nat, d);
        vstd::arithmetic::div_mod::lemma_add_mod_noop_right(1, s + k - 1, d);
        assert(next_stratum((s + k - 1) % d, d) == (s + k) % d);
    }
}

/// Which random sampler `sampler_from` asks for; the caller seeds it.
#[derive(Debug, Clone, Copy, PartialEq, Eq, Structural)]
pub enum SamplerChoice {
    /// Independent uniform numbers.
    Random,
    /// Numbers stratified into `division` strata.
    Jittered { division: u32 },
    /// An additive quasi-random recurrence.
    Recurrence,
}

/// Chooses the sampler named `ty` (`random`, `jittered` with `sample_counts`
/// strata, or `recurrence`).
pub fn sampler_from(ty: &str, sample_counts: u32) -> (res: SamplerChoice)
    requires
        ty@ == "random"@ || ty@ == "jittered"@ || ty@ == "recurrence"@,
    ensures
        ty@ == "random"@ ==> res == SamplerChoice::Random,
        ty@ == "jittered"@ ==> res == (SamplerChoice::Jittered { division: sample_counts }),
        ty@ == "recurrence"@ ==> res == SamplerChoice::Recurrence,
{
    proof {
        reveal_strlit("random");
        reveal_strlit("jittered");
        reveal_strlit("recurrence");
        assert("jittered"@.len() != "random"@.len());
        assert("recurrence"@.len() != "random"@.len());
        assert("recurrence"@.len() != "jittered"@.len());
    }
    let t = ty.to_owned();
    if crate::params::text_is(&t, "random") {
        SamplerChoice::Random
    } else if crate::params::text_is(&t, "jittered") {
        SamplerChoice::Jittered { division: sample_counts }
    } else {
        SamplerChoice::Recurrence
    }
}

} // verus!
