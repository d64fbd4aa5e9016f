//! The stages of the pipeline after reduction, each its own type: the total
//! view of a category, its per-channel views, and their means by sweep value.
//! Each stage is made only from the one before it.
use vstd::prelude::*;
use core::marker::PhantomData;

use crate::identifier::{spec_sweep_value, tagged_number};
use crate::job_type::JobType;
use crate::mean::{lemma_sweep_keys_distinct, mean_by_sweep, sweep_group, sweep_keys};
use crate::reduce::{befores, finals, firsts, run_group, run_keys, reduced_matches, RawTable, ReducedRecord, RawRecord, RunKey};
use crate::value::{scaled_step, spec_mean, spec_scaled_step, spec_slope, spec_sub, spec_sum, Value};

verus! {

/// A marker for the types that are stages of the pipeline.
pub trait ViewType {}

/// One run and channel with its response.
#[derive(Debug, Clone, Copy, PartialEq, Eq, Structural)]
pub struct TotalRow {
    pub channel: Option<u32>,
    /// The sweep value (`U`).
    pub sweep: Option<i32>,
    /// `S1 - S0`.
    pub delta_first: Value,
    /// `SF - S0`.
    pub delta_final: Value,
    /// `step * magnitude / (S1 - S0)`.
    pub slope_first: Value,
    /// `step * magnitude / (SF - S0)`.
    pub slope_final: Value,
    /// `step * magnitude`: the perturbation applied.
    pub perturbation: Value,
    /// `slope_first - slope_final` (`n1-nF`).
    pub response: Value,
}

/// The slopes, perturbation and response of a reduced run, with
/// `magnitude` the perturbation per step.
pub open spec fn spec_derive(
    channel: Option<u32>,
    sweep: Option<i32>,
    step: Option<i32>,
    delta_first: Value,
    delta_final: Value,
    magnitude: i64,
) -> TotalRow {
    let a = spec_slope(step, magnitude, delta_first);
    let b = spec_slope(step, magnitude, delta_final);
    TotalRow {
        channel,
        sweep,
        delta_first,
        delta_final,
        slope_first: a,
        slope_final: b,
        perturbation: spec_scaled_step(step, magnitude),
        response: spec_sub(a, b),
    }
}

/// The total row of the group with key `k` of `rows`.
pub open spec fn spec_total_row(rows: Seq<RawRecord>, k: RunKey, tag: Seq<char>, magnitude: i64) -> TotalRow {
    let g = run_group(rows, k);
    let s0 = spec_sum(befores(g));
    spec_derive(
        k.1,
        spec_sweep_value(k.0),
        tagged_number(k.0, tag),
        spec_sub(spec_sum(firsts(g)), s0),
        spec_sub(spec_sum(finals(g)), s0),
        magnitude,
    )
}

/// Appends the slopes, perturbation and response to a reduced run.
pub fn derive_row<T: JobType>(r: &ReducedRecord, magnitude: i64) -> (t: TotalRow)
    ensures
        t == spec_derive(r.channel, r.sweep, r.step, r.delta_first, r.delta_final, magnitude),
{
    let slopes = T::slope_expr(r.step, magnitude, r.delta_first, r.delta_final);
    let a = slopes[0];
    let b = slopes[1];
    TotalRow {
        channel: r.channel,
        sweep: r.sweep,
        delta_first: r.delta_first,
        delta_final: r.delta_final,
        slope_first: a,
        slope_final: b,
        perturbation: scaled_step(r.step, magnitude),
        response: a.sub(b),
    }
}

/// A category's table after reduction and derivation.
#[derive(Debug)]
pub struct TotalView<T: JobType> {
    rows: Vec<TotalRow>,
    job: PhantomData<T>,
}

impl<T: JobType> ViewType for TotalView<T> {}

impl<T: JobType> RawTable<T> {
    /// Reduces the table and derives each run's slopes and response, with
    /// `perturb_val` the perturbation per step (in units of `1 / SCALE`).
    pub fn process_data(&self, perturb_val: i64) -> (r: TotalView<T>)
        ensures
            r.spec_rows().len() == run_keys(self.spec_rows()).len(),
            forall|j: int|
                0 <= j < r.spec_rows().len() ==> #[trigger] r.spec_rows()[j] == spec_total_row(
                    self.spec_rows(),
                    run_keys(self.spec_rows())[j],
                    T::spec_perturb_tag(),
                    perturb_val,
                ),
    {
        let reduced = self.reduce();
        let mut rows: Vec<TotalRow> = Vec::new();
        let mut j: usize = 0;
        while j < reduced.len()
            invariant
                j <= reduced@.len(),
                reduced@.len() == run_keys(self.spec_rows()).len(),
                forall|t: int|
                    0 <= t < reduced@.len() ==> reduced_matches(
                        #[trigger] reduced@[t],
                        self.spec_rows(),
                        run_keys(self.spec_rows())[t],
                        T::spec_perturb_tag(),
                    ),
                rows@.len() == j,
                forall|t: int|
                    0 <= t < j ==> #[trigger] rows@[t] == spec_total_row(
                        self.spec_rows(),
                        run_keys(self.spec_rows())[t],
                        T::spec_perturb_tag(),
                        perturb_val,
                    ),
            decreases reduced@.len() - j,
        {
            proof {
                assert(reduced_matches(
                    reduced@[j as int],
                    self.spec_rows(),
                    run_keys(self.spec_rows())[j as int],
                    T::spec_perturb_tag(),
                ));
            }
            rows.push(derive_row::<T>(&reduced[j], perturb_val));
            j = j + 1;
        }
        TotalView { rows, job: PhantomData }
    }
}

/// The channels of `rows`, each once, in order of first appearance; rows
/// without a channel are left out.
pub open spec fn channel_ids(rows: Seq<TotalRow>) -> Seq<u32>
    decreases rows.len(),
{
    if rows.len() == 0 {
        Seq::empty()
    } else {
        let ks = channel_ids(rows.drop_last());
        match rows.last().channel {
            Some(c) => if ks.contains(c) {
                ks
            } else {
                ks.push(c)
            },
            None => ks,
        }
    }
}

/// One row of a channel view.
#[derive(Debug, Clone, Copy, PartialEq, Eq, Structural)]
pub struct ChannelRow {
    pub sweep: Option<i32>,
    pub perturbation: Value,
    pub response: Value,
}

pub open spec fn channel_row_of(r: TotalRow) -> ChannelRow {
    ChannelRow { sweep: r.sweep, perturbation: r.perturbation, response: r.response }
}

/// The rows of channel `id`, projected to a channel view, in order.
pub open spec fn channel_rows(rows: Seq<TotalRow>, id: u32) -> Seq<ChannelRow>
    decreases rows.len(),
{
    if rows.len() == 0 {
        Seq::empty()
    } else {
        let g = channel_rows(rows.drop_last(), id);
        if rows.last().channel == Some(id) {
            g.push(channel_row_of(rows.last()))
        } else {
            g
        }
    }
}

pub open spec fn sweeps_of(rows: Seq<ChannelRow>) -> Seq<Option<i32>> {
    rows.map_values(|r: ChannelRow| r.sweep)
}

pub open spec fn responses_of(rows: Seq<ChannelRow>) -> Seq<Value> {
    rows.map_values(|r: ChannelRow| r.response)
}

/// The mean response of `rows` at each sweep value, in order of first
/// appearance; rows whose sweep value is missing are left out.
pub open spec fn channel_means(rows: Seq<ChannelRow>) -> Seq<MeanRow> {
    let ks = sweep_keys(sweeps_of(rows));
    Seq::new(
        ks.len(),
        |j: int|
            MeanRow {
                sweep: ks[j],
                response: spec_mean(sweep_group(sweeps_of(rows), responses_of(rows), ks[j])),
            },
    )
}

/// A channel's means have one row per sweep value present: their sweep
/// values are pairwise distinct, each occurs in the channel's rows, and each
/// sweep value of the rows has its row.
pub proof fn lemma_channel_means_one_row_per_sweep(rows: Seq<ChannelRow>)
    ensures
        forall|i: int, j: int|
            0 <= i < j < channel_means(rows).len() ==> channel_means(rows)[i].sweep
                != channel_means(rows)[j].sweep,
        forall|i: int|
            0 <= i < channel_means(rows).len() ==> sweeps_of(rows).contains(
                Some(#[trigger] channel_means(rows)[i].sweep),
            ),
        forall|t: int|
            0 <= t < rows.len() && rows[t].sweep is Some ==> exists|i: int|
                0 <= i < channel_means(rows).len() && #[trigger] channel_means(rows)[i].sweep
                    == rows[t].sweep->0,
{
    let s = sweeps_of(rows);
    lemma_sweep_keys_distinct(s);
    assert forall|t: int| 0 <= t < rows.len() && rows[t].sweep is Some implies exists|i: int|
        0 <= i < channel_means(rows).len() && #[trigger] channel_means(rows)[i].sweep
            == rows[t].sweep->0 by {
        assert(s[t] == rows[t].sweep);
        assert(sweep_keys(s).contains(s[t]->0));
        let i = choose|i: int| 0 <= i < sweep_keys(s).len() && sweep_keys(s)[i] == s[t]->0;
        assert(channel_means(rows)[i].sweep == sweep_keys(s)[i]);
    }
}

/// The rows of one channel of a category: sweep value, perturbation and
/// response.
#[derive(Debug)]
pub struct ChannelView<T: JobType> {
    rows: Vec<ChannelRow>,
    job: PhantomData<T>,
}

impl<T: JobType> ViewType for ChannelView<T> {}

impl<T: JobType> TotalView<T> {
    pub closed spec fn spec_rows(&self) -> Seq<TotalRow> {
        self.rows@
    }

    /// The rows.
    pub fn data(&self) -> (r: &Vec<TotalRow>)
        ensures
            r@ == self.spec_rows(),
    {
        &self.rows
    }

    /// The channels present, each once, in order of first appearance.
    pub fn channels(&self) -> (r: Vec<u32>)
        ensures
            r@ == channel_ids(self.spec_rows()),
    {
        let rows = &self.rows;
        let mut keys: Vec<u32> = Vec::new();
        let mut i: usize = 0;
        while i < rows.len()
            invariant
                i <= rows@.len(),
                keys@ == channel_ids(rows@.subrange(0, i as int)),
            decreases rows@.len() - i,
        {
            proof {
                assert(rows@.subrange(0, i + 1).drop_last() =~= rows@.subrange(0, i as int));
            }
            match rows[i].channel {
                Some(c) => {
                    let mut found = false;
                    let mut j: usize = 0;
                    while j < keys.len()
                        invariant
                            j <= keys@.len(),
                            found == exists|t: int| 0 <= t < j && keys@[t] == c,
                        decreases keys@.len() - j,
                    {
                        if keys[j] == c {
                            found = true;
                        }
                        j = j + 1;
                    }
                    proof {
                        if keys@.contains(c) {
                            let t = choose|t: int| 0 <= t < keys@.len() && keys@[t] == c;
                            assert(found);
                        }
                    }
                    if !found {
                        keys.push(c);
                    }
                },
                None => {},
            }
            i = i + 1;
        }
        proof {
            assert(rows@.subrange(0, rows@.len() as int) =~= rows@);
        }
        keys
    }

    /// The rows of channel `channel_id`, keeping sweep value, perturbation
    /// and response.
    pub fn to_channel_view(&self, channel_id: u32) -> (r: ChannelView<T>)
        ensures
            r.spec_rows() == channel_rows(self.spec_rows(), channel_id),
    {
        let rows = &self.rows;
        let mut out: Vec<ChannelRow> = Vec::new();
        let mut i: usize = 0;
        while i < rows.len()
            invariant
                i <= rows@.len(),
                out@ == channel_rows(rows@.subrange(0, i as int), channel_id),
            decreases rows@.len() - i,
        {
            proof {
                assert(rows@.subrange(0, i + 1).drop_last() =~= rows@.subrange(0, i as int));
            }
            let r = rows[i];
            if r.channel == Some(channel_id) {
                out.push(ChannelRow { sweep: r.sweep, perturbation: r.perturbation, response: r.response });
            }
            i = i + 1;
        }
        proof {
            assert(rows@.subrange(0, rows@.len() as int) =~= rows@);
        }
        ChannelView { rows: out, job: PhantomData }
    }
}

/// One row of a channel's means.
#[derive(Debug, Clone, Copy, PartialEq, Eq, Structural)]
pub struct MeanRow {
    pub sweep: i32,
    pub response: Value,
}

/// The mean response of one channel of a category at each sweep value.
#[derive(Debug)]
pub struct ChannelMeanView<T: JobType> {
    rows: Vec<MeanRow>,
    job: PhantomData<T>,
}

impl<T: JobType> ViewType for ChannelMeanView<T> {}

impl<T: JobType> ChannelView<T> {
    pub closed spec fn spec_rows(&self) -> Seq<ChannelRow> {
        self.rows@
    }

    /// The rows.
    pub fn data(&self) -> (r: &Vec<ChannelRow>)
        ensures
            r@ == self.spec_rows(),
    {
        &self.rows
    }

    pub(crate) fn columns(&self) -> (r: (Vec<Option<i32>>, Vec<Value>, Vec<Value>))
        ensures
            r.0@ == sweeps_of(self.spec_rows()),
            r.1@ == self.spec_rows().map_values(|c: ChannelRow| c.perturbation),
            r.2@ == responses_of(self.spec_rows()),
    {
        let mut s: Vec<Option<i32>> = Vec::new();
        let mut p: Vec<Value> = Vec::new();
        let mut v: Vec<Value> = Vec::new();
        let mut i: usize = 0;
        while i < self.rows.len()
            invariant
                i <= self.rows@.len(),
                s@ == sweeps_of(self.rows@.subrange(0, i as int)),
                p@ == self.rows@.subrange(0, i as int).map_values(|c: ChannelRow| c.perturbation),
                v@ == responses_of(self.rows@.subrange(0, i as int)),
            decreases self.rows@.len() - i,
        {
            let r = self.rows[i];
            s.push(r.sweep);
            p.push(r.perturbation);
            v.push(r.response);
            i = i + 1;
            proof {
                assert(s@ =~= sweeps_of(self.rows@.subrange(0, i as int)));
                assert(p@ =~= self.rows@.subrange(0, i as int).map_values(|c: ChannelRow| c.perturbation));
                assert(v@ =~= responses_of(self.rows@.subrange(0, i as int)));
            }
        }
        proof {
            assert(self.rows@.subrange(0, self.rows@.len() as int) =~= self.rows@);
        }
        (s, p, v)
    }

    /// Groups the rows by sweep value in order of first appearance and takes
    /// the mean response of each group.
    pub fn to_mean_view(self) -> (r: ChannelMeanView<T>)
        ensures
            r.spec_rows() == channel_means(self.spec_rows()),
    {
        let (s, _p, v) = self.columns();
        let (keys, means) = mean_by_sweep(&s, &v);
        let mut rows: Vec<MeanRow> = Vec::new();
        let mut j: usize = 0;
        while j < keys.len()
            invariant
                j <= keys@.len(),
                means@.len() == keys@.len(),
                rows@.len() == j,
                forall|t: int|
                    0 <= t < j ==> (#[trigger] rows@[t]).sweep == keys@[t] && rows@[t].response
                        == means@[t],
            decreases keys@.len() - j,
        {
            rows.push(MeanRow { sweep: keys[j], response: means[j] });
            j = j + 1;
        }
        proof {
            assert(rows@ =~= channel_means(self.spec_rows()));
        }
        ChannelMeanView { rows, job: PhantomData }
    }
}

impl<T: JobType> ChannelMeanView<T> {
    pub closed spec fn spec_rows(&self) -> Seq<MeanRow> {
        self.rows@
    }

    /// The rows.
    pub fn data(&self) -> (r: &Vec<MeanRow>)
        ensures
            r@ == self.spec_rows(),
    {
        &self.rows
    }
}

} // verus!
