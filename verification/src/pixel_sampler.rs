use vstd::prelude::*;

use crate::error::{result_view, LoadError, LoadErrorView};
use crate::material::and_then;
use crate::params::{InputParams, ParamsView, text_is};

verus! {

/// Draws `spp` independent uniformly random offsets in each pixel.
#[derive(Debug, Clone, Copy, PartialEq, Eq, Structural)]
pub struct RandomSampler {
    pub spp: u32,
    pub curr_index: u32,
}

/// Splits each pixel into `division_x` by `division_y` cells and draws one offset
/// in each cell, row by row.
#[derive(Debug, Clone, Copy, PartialEq, Eq, Structural)]
pub struct JitteredSampler {
    pub division_x: u32,
    pub division_y: u32,
    pub curr_ind_x: u32,
    pub curr_ind_y: u32,
}

/// Places `spp` offsets per pixel along an additive quasi-random recurrence; the
/// recurrence itself carries on from pixel to pixel.
#[derive(Debug, Clone, Copy, PartialEq, Eq, Structural)]
pub struct AdditiveRecurrenceSampler {
    pub spp: u32,
    pub curr_index: u32,
}

/// One of the pixel samplers. `next_sample` hands out the cell `(x, y)` of the
/// cell grid in which the next offset of the current pixel is drawn (the grid is a
/// single cell but for the jittered sampler), or `None` once the pixel is done.
#[derive(Debug, Clone, Copy, PartialEq, Eq, Structural)]
pub enum PixelSampler {
    RandomSampler(RandomSampler),
    JitteredSampler(JitteredSampler),
    AdditiveRecurrenceSampler(AdditiveRecurrenceSampler),
}

/// One step of a counting sampler: the cell handed out and the new count.
pub open spec fn counting_step(spp: u32, curr: u32) -> (Option<(u32, u32)>, u32) {
    if curr < spp {
        (Some((0u32, 0u32)), (curr + 1) as u32)
    } else {
        (None, curr)
    }
}

/// One step of the jittered sampler from cell `(x, y)`: the cell handed out and the
/// next position. The pixel is over only at position `(division_x, division_y)`.
pub open spec fn jittered_step(division_x: u32, division_y: u32, x: u32, y: u32) -> (
    Option<(u32, u32)>,
    (u32, u32),
) {
    if x == division_x && y == division_y {
        (None, (x, y))
    } else if x + 1 == division_x {
        (Some((x, y)), (0u32, (y + 1) as u32))
    } else {
        (Some((x, y)), ((x + 1) as u32, y))
    }
}

/// The step from `(x, y)` stays within `u32`.
pub open spec fn jittered_can_step(division_x: u32, division_y: u32, x: u32, y: u32) -> bool {
    (x == division_x && y == division_y) || (if x + 1 == division_x {
        y < u32::MAX
    } else {
        x < u32::MAX
    })
}

impl RandomSampler {
    pub fn new(spp: u32) -> (res: Self)
        ensures
            res == (RandomSampler { spp, curr_index: 0 }),
    {
        Self { spp, curr_index: 0 }
    }

    /// Reads the sample count `spp`, taken modulo 2^32 as the integer cast does.
    pub fn load(params: &mut InputParams) -> (res: Result<Self, LoadError>)
        requires
            old(params).wf(),
        ensures
            final(params).wf(),
            (final(params)@, result_view(res)) == load_random(old(params)@),
    {
        let spp = params.get_int("spp")? as u32;
        Ok(Self::new(spp))
    }

    pub fn spp(&self) -> (res: u32)
        ensures
            res == self.spp,
    {
        self.spp
    }

    pub fn start_pixel(&mut self)
        ensures
            *final(self) == (RandomSampler { curr_index: 0, ..*old(self) }),
    {
        self.curr_index = 0;
    }

    pub fn next_sample(&mut self) -> (res: Option<(u32, u32)>)
        ensures
            (res, final(self).curr_index) == counting_step(old(self).spp, old(self).curr_index),
            final(self).spp == old(self).spp,
    {
        if self.curr_index < self.spp {
            self.curr_index = self.curr_index + 1;
            Some((0, 0))
        } else {
            None
        }
    }
}

impl AdditiveRecurrenceSampler {
    pub fn new(spp: u32) -> (res: Self)
        ensures
            res == (AdditiveRecurrenceSampler { spp, curr_index: 0 }),
    {
        Self { spp, curr_index: 0 }
    }

    /// Reads the sample count `spp`, taken modulo 2^32 as the integer cast does.
    pub fn load(params: &mut InputParams) -> (res: Result<Self, LoadError>)
        requires
            old(params).wf(),
        ensures
            final(params).wf(),
            (final(params)@, result_view(res)) == load_recurrence(old(params)@),
    {
        let spp = params.get_int("spp")? as u32;
        Ok(Self::new(spp))
    }

    pub fn spp(&self) -> (res: u32)
        ensures
            res == self.spp,
    {
        self.spp
    }

    pub fn start_pixel(&mut self)
        ensures
            *final(self) == (AdditiveRecurrenceSampler { curr_index: 0, ..*old(self) }),
    {
        self.curr_index = 0;
    }

    pub fn next_sample(&mut self) -> (res: Option<(u32, u32)>)
        ensures
            (res, final(self).curr_index) == counting_step(old(self).spp, old(self).curr_index),
            final(self).spp == old(self).spp,
    {
        if self.curr_index < self.spp {
            self.curr_index = self.curr_index + 1;
            Some((0, 0))
        } else {
            None
        }
    }
}

impl JitteredSampler {
    pub fn new(division_x: u32, division_y: u32) -> (res: Self)
        ensures
            res == (JitteredSampler { division_x, division_y, curr_ind_x: 0, curr_ind_y: 0 }),
    {
        Self { division_x, division_y, curr_ind_x: 0, curr_ind_y: 0 }
    }

    /// Reads `division_x` and `division_y`, each taken modulo 2^32 as the integer
    /// cast does.
    pub fn load(params: &mut InputParams) -> (res: Result<Self, LoadError>)
        requires
            old(params).wf(),
        ensures
            final(params).wf(),
            (final(params)@, result_view(res)) == load_jittered(old(params)@),
    {
        let division_x = params.get_int("division_x")? as u32;
        let division_y = params.get_int("division_y")? as u32;
        Ok(Self::new(division_x, division_y))
    }

    /// Offsets per pixel: one per cell.
    pub fn spp(&self) -> (res: u32)
        requires
            self.division_x * self.division_y <= u32::MAX,
        ensures
            res == self.division_x * self.division_y,
    {
        self.division_x * self.division_y
    }

    pub fn start_pixel(&mut self)
        ensures
            *final(self) == (JitteredSampler { curr_ind_x: 0, curr_ind_y: 0, ..*old(self) }),
    {
        self.curr_ind_x = 0;
        self.curr_ind_y = 0;
    }

    pub fn next_sample(&mut self) -> (res: Option<(u32, u32)>)
        requires
            jittered_can_step(
                old(self).division_x,
                old(self).division_y,
                old(self).curr_ind_x,
                old(self).curr_ind_y,
            ),
        ensures
            (res, (final(self).curr_ind_x, final(self).curr_ind_y)) == jittered_step(
                old(self).division_x,
                old(self).division_y,
                old(self).curr_ind_x,
                old(self).curr_ind_y,
            ),
            final(self).division_x == old(self).division_x,
            final(self).division_y == old(self).division_y,
    {
        if self.curr_ind_x == self.division_x && self.curr_ind_y == self.division_y {
            None
        } else {
            let cell = (self.curr_ind_x, self.curr_ind_y);
            self.curr_ind_x = self.curr_ind_x + 1;
            if self.curr_ind_x == self.division_x {
                self.curr_ind_x = 0;
                self.curr_ind_y = self.curr_ind_y + 1;
            }
            Some(cell)
        }
    }
}

pub open spec fn load_random(p: ParamsView) -> (ParamsView, Result<RandomSampler, LoadErrorView>) {
    and_then(p.get_int("spp"@), |q: ParamsView, v: i64| (q, Ok(RandomSampler { spp: v as u32, curr_index: 0 })))
}

pub open spec fn load_recurrence(p: ParamsView) -> (ParamsView, Result<AdditiveRecurrenceSampler, LoadErrorView>) {
    and_then(
        p.get_int("spp"@),
        |q: ParamsView, v: i64| (q, Ok(AdditiveRecurrenceSampler { spp: v as u32, curr_index: 0 })),
    )
}

pub open spec fn load_jittered(p: ParamsView) -> (ParamsView, Result<JitteredSampler, LoadErrorView>) {
    and_then(
        p.get_int("division_x"@),
        |q: ParamsView, dx: i64|
            and_then(
                q.get_int("division_y"@),
                |q2: ParamsView, dy: i64|
                    (
                        q2,
                        Ok(
                            JitteredSampler {
                                division_x: dx as u32,
                                division_y: dy as u32,
                                curr_ind_x: 0,
                                curr_ind_y: 0,
                            },
                        ),
                    ),
            ),
    )
}

impl PixelSampler {
    /// Whether [`PixelSampler::spp`] is representable.
    pub open spec fn spp_fits(self) -> bool {
        match self {
            PixelSampler::JitteredSampler(s) => s.division_x * s.division_y <= u32::MAX,
            _ => true,
        }
    }

    /// Whether the next step stays within `u32`.
    pub open spec fn can_step(self) -> bool {
        match self {
            PixelSampler::JitteredSampler(s) => jittered_can_step(
                s.division_x,
                s.division_y,
                s.curr_ind_x,
                s.curr_ind_y,
            ),
            _ => true,
        }
    }

    /// One step: the cell handed out and the new state.
    pub open spec fn step(self) -> (Option<(u32, u32)>, PixelSampler) {
        match self {
            PixelSampler::RandomSampler(s) => {
                let (c, i) = counting_step(s.spp, s.curr_index);
                (c, PixelSampler::RandomSampler(RandomSampler { curr_index: i, ..s }))
            },
            PixelSampler::AdditiveRecurrenceSampler(s) => {
                let (c, i) = counting_step(s.spp, s.curr_index);
                (c, PixelSampler::AdditiveRecurrenceSampler(AdditiveRecurrenceSampler { curr_index: i, ..s }))
            },
            PixelSampler::JitteredSampler(s) => {
                let (c, (x, y)) = jittered_step(s.division_x, s.division_y, s.curr_ind_x, s.curr_ind_y);
                (c, PixelSampler::JitteredSampler(JitteredSampler { curr_ind_x: x, curr_ind_y: y, ..s }))
            },
        }
    }

    /// The state at the start of a pixel.
    pub open spec fn started(self) -> PixelSampler {
        match self {
            PixelSampler::RandomSampler(s) => PixelSampler::RandomSampler(RandomSampler { curr_index: 0, ..s }),
            PixelSampler::AdditiveRecurrenceSampler(s) => PixelSampler::AdditiveRecurrenceSampler(
                AdditiveRecurrenceSampler { curr_index: 0, ..s },
            ),
            PixelSampler::JitteredSampler(s) => PixelSampler::JitteredSampler(
                JitteredSampler { curr_ind_x: 0, curr_ind_y: 0, ..s },
            ),
        }
    }

    pub open spec fn spec_spp(self) -> int {
        match self {
            PixelSampler::RandomSampler(s) => s.spp as int,
            PixelSampler::AdditiveRecurrenceSampler(s) => s.spp as int,
            PixelSampler::JitteredSampler(s) => s.division_x * s.division_y,
        }
    }

    pub fn spp(&self) -> (res: u32)
        requires
            self.spp_fits(),
        ensures
            res == self.spec_spp(),
    {
        match self {
            PixelSampler::RandomSampler(s) => s.spp(),
            PixelSampler::JitteredSampler(s) => s.spp(),
            PixelSampler::AdditiveRecurrenceSampler(s) => s.spp(),
        }
    }

    pub fn start_pixel(&mut self)
        ensures
            *final(self) == old(self).started(),
    {
        match self {
            PixelSampler::RandomSampler(s) => s.start_pixel(),
            PixelSampler::JitteredSampler(s) => s.start_pixel(),
            PixelSampler::AdditiveRecurrenceSampler(s) => s.start_pixel(),
        }
    }

    pub fn next_sample(&mut self) -> (res: Option<(u32, u32)>)
        requires
            old(self).can_step(),
        ensures
            (res, *final(self)) == old(self).step(),
    {
        match self {
            PixelSampler::RandomSampler(s) => s.next_sample(),
            PixelSampler::JitteredSampler(s) => s.next_sample(),
            PixelSampler::AdditiveRecurrenceSampler(s) => s.next_sample(),
        }
    }
}

/// Loading a sampler block: the new state of the block and the outcome.
pub open spec fn create_sampler(p: ParamsView) -> (ParamsView, Result<PixelSampler, LoadErrorView>) {
    let p0 = ParamsView { name: "sampler"@, ..p };
    and_then(
        p0.get_str("type"@),
        |p1: ParamsView, ty: Seq<char>|
            {
                let p2 = ParamsView { name: "sampler"@ + "-"@ + ty, ..p1 };
                if ty == "random"@ {
                    and_then(load_random(p2), |q: ParamsView, s: RandomSampler| (q, Ok(PixelSampler::RandomSampler(s))))
                } else if ty == "jittered"@ {
                    and_then(load_jittered(p2), |q: ParamsView, s: JitteredSampler| (q, Ok(PixelSampler::JitteredSampler(s))))
                } else if ty == "recurrence"@ {
                    and_then(
                        load_recurrence(p2),
                        |q: ParamsView, s: AdditiveRecurrenceSampler| (q, Ok(PixelSampler::AdditiveRecurrenceSampler(s))),
                    )
                } else {
                    (p2, Err(LoadErrorView::UnknownType { env: p2.name, ty }))
                }
            },
    )
}

/// Loads the pixel sampler block: reads `type`, renames the block `sampler-<type>`
/// and reads that sampler's parameters. Keys left unread are for the caller to
/// report through [`InputParams::check_unused_keys`].
pub fn create_sampler_from_params(params: &mut InputParams) -> (res: Result<PixelSampler, LoadError>)
    requires
        old(params).wf(),
    ensures
        final(params).wf(),
        (final(params)@, result_view(res)) == create_sampler(old(params)@),
{
    params.set_name("sampler".to_owned());
    let ty = params.get_str("type")?;
    let mut name = "sampler".to_owned();
    name.append("-");
    name.append(ty.as_str());
    params.set_name(name);
    if text_is(&ty, "random") {
        Ok(PixelSampler::RandomSampler(RandomSampler::load(params)?))
    } else if text_is(&ty, "jittered") {
        Ok(PixelSampler::JitteredSampler(JitteredSampler::load(params)?))
    } else if text_is(&ty, "recurrence") {
        Ok(PixelSampler::AdditiveRecurrenceSampler(AdditiveRecurrenceSampler::load(params)?))
    } else {
        Err(LoadError::UnknownType { env: params.name().to_owned(), ty })
    }
}

/// The state after `k` steps.
pub open spec fn steps(s: PixelSampler, k: nat) -> PixelSampler
    decreases k,
{
    if k == 0 {
        s
    } else {
        steps(s, (k - 1) as nat).step().1
    }
}

/// The cell handed out by step number `k` (counting from 0).
pub open spec fn output(s: PixelSampler, k: nat) -> Option<(u32, u32)> {
    steps(s, k).step().0
}

/// A counting sampler started on a pixel hands out exactly `spp` offsets and then
/// reports the end of the pixel at every later call.
pub proof fn counting_sampler_hands_out_spp(s: PixelSampler, k: nat)
    requires
        !(s is JitteredSampler),
    ensures
        output(s.started(), k) is Some <==> k < s.spec_spp(),
    decreases k,
{
    lemma_counting_steps(s, k);
}

proof fn lemma_counting_steps(s: PixelSampler, k: nat)
    requires
        !(s is JitteredSampler),
    ensures
        match steps(s.started(), k) {
            PixelSampler::RandomSampler(t) => t.spp == s.spec_spp() && t.curr_index == if k
                < t.spp {
                k
            } else {
                t.spp as nat
            },
            PixelSampler::AdditiveRecurrenceSampler(t) => t.spp == s.spec_spp() && t.curr_index == if k
                < t.spp {
                k
            } else {
                t.spp as nat
            },
            PixelSampler::JitteredSampler(_) => false,
        },
    decreases k,
{
    if k > 0 {
        lemma_counting_steps(s, (k - 1) as nat);
    }
}

/// A jittered sampler started on a pixel with `division_x > 0` hands out the cells
/// row by row, cell `(k % division_x, k / division_x)` at step `k`, and never
/// reports the end of the pixel: after the last row it carries on below the grid.
/// Only with both divisions 0 does a pixel end, at once.
pub proof fn jittered_sampler_cells(s: JitteredSampler, k: nat)
    requires
        s.division_x > 0,
        k / (s.division_x as nat) < u32::MAX,
    ensures
        output(PixelSampler::JitteredSampler(s).started(), k) == Some(
            ((k % (s.division_x as nat)) as u32, (k / (s.division_x as nat)) as u32),
        ),
    decreases k,
{
    lemma_jittered_steps(s, k);
}

proof fn lemma_jittered_steps(s: JitteredSampler, k: nat)
    requires
        s.division_x > 0,
        k / (s.division_x as nat) < u32::MAX,
    ensures
        steps(PixelSampler::JitteredSampler(s).started(), k) == PixelSampler::JitteredSampler(
            JitteredSampler {
                curr_ind_x: (k % (s.division_x as nat)) as u32,
                curr_ind_y: (k / (s.division_x as nat)) as u32,
                ..s
            },
        ),
    decreases k,
{
    let d = s.division_x as nat;
    if k == 0 {
        assert(0nat % d == 0 && 0nat / d == 0) by (nonlinear_arith)
            requires
                d > 0,
        ;
    } else {
        let j = (k - 1) as nat;
        assert(j / d <= k / d) by (nonlinear_arith)
            requires
                j < k,
                d > 0,
        ;
        lemma_jittered_steps(s, j);
        assert(j % d < d) by (nonlinear_arith)
            requires
                d > 0,
        ;
        let prev = steps(PixelSampler::JitteredSampler(s).started(), j);
        assert(steps(PixelSampler::JitteredSampler(s).started(), k) == prev.step().1);
        if j % d + 1 == d {
            assert(k % d == 0 && k / d == j / d + 1) by (nonlinear_arith)
                requires
                    k == j + 1,
                    j % d + 1 == d,
                    d > 0,
            ;
        } else {
            assert(k % d == j % d + 1 && k / d == j / d) by (nonlinear_arith)
                requires
                    k == j + 1,
                    j % d + 1 < d,
                    d > 0,
            ;
        }
    }
}

/// With both divisions 0 a started jittered sampler ends the pixel at once.
pub proof fn jittered_sampler_empty_grid(s: JitteredSampler)
    requires
        s.division_x == 0,
        s.division_y == 0,
    ensures
        output(PixelSampler::JitteredSampler(s).started(), 0) is None,
{
}


/// A jittered sampler's sample count is the number of offsets a started pixel
/// hands out inside its grid: step `k` hands out a cell of the grid (a row below
/// `division_y`) exactly when `k` is below the sample count.
pub proof fn jittered_spp_counts_grid_cells(s: JitteredSampler, k: nat)
    requires
        s.division_x > 0,
        k / (s.division_x as nat) < u32::MAX,
    ensures
        (output(PixelSampler::JitteredSampler(s).started(), k) matches Some(c) && c.1 < s.division_y) <==> k
            < PixelSampler::JitteredSampler(s).spec_spp(),
{
    jittered_sampler_cells(s, k);
    let d = s.division_x as nat;
    let h = s.division_y as nat;
    assert((k / d < h) <==> (k < d * h)) by (nonlinear_arith)
        requires
            d > 0,
    {
        if k / d < h {
            assert(k / d + 1 <= h);
            assert(d * (k / d + 1) <= d * h);
            assert(k == d * (k / d) + k % d);
            assert(k % d < d);
        } else {
            assert(k / d >= h);
            assert(d * (k / d) >= d * h);
            assert(k == d * (k / d) + k % d);
            assert(k % d >= 0);
        }
    }
}


/// Parameter `key` holds the integer `v`.
pub open spec fn holds_int(p: ParamsView, key: Seq<char>, v: i64) -> bool {
    p.lookup(key) == Some(crate::params::ParamValueView::Int(v))
}

/// A sampler block that loads gives the sampler its `type` names, with the
/// counts its keys hold (taken modulo 2^32), at the start of a pixel.
pub proof fn loaded_sampler_reads_its_keys(p: ParamsView)
    ensures
        create_sampler(p).1 matches Ok(s) ==> p.lookup("type"@) matches Some(crate::params::ParamValueView::Str(ty))
            && match s {
            PixelSampler::RandomSampler(t) => ty == "random"@ && t.curr_index == 0 && exists|v: i64|
                holds_int(p, "spp"@, v) && t.spp == v as u32,
            PixelSampler::AdditiveRecurrenceSampler(t) => ty == "recurrence"@ && t.curr_index == 0 && exists|v: i64|
                holds_int(p, "spp"@, v) && t.spp == v as u32,
            PixelSampler::JitteredSampler(t) => ty == "jittered"@ && t.curr_ind_x == 0 && t.curr_ind_y == 0 && exists|
                vx: i64,
                vy: i64,
            | holds_int(p, "division_x"@, vx) && holds_int(p, "division_y"@, vy) && t.division_x == vx as u32
                && t.division_y == vy as u32,
        },
{
    let p0 = ParamsView { name: "sampler"@, ..p };
    let (p1, ty) = p0.get_str("type"@);
    if let Ok(ty) = ty {
        let p2 = ParamsView { name: "sampler"@ + "-"@ + ty, ..p1 };
        assert(p2.keys == p.keys && p2.values == p.values);
        if let Ok(v) = p2.get_int("spp"@).1 {
            assert(holds_int(p, "spp"@, v));
        }
        if let Ok(vx) = p2.get_int("division_x"@).1 {
            let q = p2.get_int("division_x"@).0;
            assert(q.keys == p.keys && q.values == p.values);
            if let Ok(vy) = q.get_int("division_y"@).1 {
                assert(holds_int(p, "division_x"@, vx) && holds_int(p, "division_y"@, vy));
            }
        }
    }
}

} // verus!
