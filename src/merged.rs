//! Side-by-side merge of a U channel view with an alpha channel view, and
//! the means of the merged view.
use vstd::prelude::*;

use crate::job_type::{Alpha, U};
use crate::mean::{mean_by_sweep, sweep_group, sweep_keys};
use crate::value::{spec_mean, Value};
use crate::views::{channel_ids, channel_rows, ChannelRow, ChannelView, TotalView, ViewType};

verus! {

/// The views to merge do not have the same number of rows.
#[derive(Debug, Clone, Copy, PartialEq, Eq, Structural)]
pub struct ShapeMismatch {
    pub u_rows: usize,
    pub alpha_rows: usize,
}

/// One row of a merged channel view: the U row's columns, then the alpha
/// row's perturbation and response.
#[derive(Debug, Clone, Copy, PartialEq, Eq, Structural)]
pub struct MergedRow {
    pub sweep: Option<i32>,
    pub u_perturbation: Value,
    pub u_response: Value,
    pub alpha_perturbation: Value,
    pub alpha_response: Value,
}

pub open spec fn merged_row_of(u: ChannelRow, a: ChannelRow) -> MergedRow {
    MergedRow {
        sweep: u.sweep,
        u_perturbation: u.perturbation,
        u_response: u.response,
        alpha_perturbation: a.perturbation,
        alpha_response: a.response,
    }
}

/// `u` and `a` side by side, row by row (`u.len() == a.len()`).
pub open spec fn merged_rows(u: Seq<ChannelRow>, a: Seq<ChannelRow>) -> Seq<MergedRow> {
    Seq::new(u.len(), |i: int| merged_row_of(u[i], a[i]))
}

/// The mean U and alpha responses of `rows` at each sweep value, in order
/// of first appearance.
pub open spec fn merged_means(rows: Seq<MergedRow>) -> Seq<MergedMeanRow> {
    let s = merged_sweeps(rows);
    let ks = sweep_keys(s);
    Seq::new(
        ks.len(),
        |j: int|
            MergedMeanRow {
                sweep: ks[j],
                u_response: spec_mean(sweep_group(s, u_responses(rows), ks[j])),
                alpha_response: spec_mean(sweep_group(s, alpha_responses(rows), ks[j])),
            },
    )
}

/// A U channel view and an alpha channel view side by side, row by row.
#[derive(Debug)]
pub struct ChannelMergedView {
    rows: Vec<MergedRow>,
}

impl ViewType for ChannelMergedView {}

/// One row of the means of a merged view.
#[derive(Debug, Clone, Copy, PartialEq, Eq, Structural)]
pub struct MergedMeanRow {
    pub sweep: i32,
    pub u_response: Value,
    pub alpha_response: Value,
}

/// The mean U and alpha responses of one channel at each sweep value.
#[derive(Debug)]
pub struct ChannelMergedMeanView {
    rows: Vec<MergedMeanRow>,
}

impl ViewType for ChannelMergedMeanView {}

pub open spec fn merged_sweeps(rows: Seq<MergedRow>) -> Seq<Option<i32>> {
    rows.map_values(|r: MergedRow| r.sweep)
}

pub open spec fn u_responses(rows: Seq<MergedRow>) -> Seq<Value> {
    rows.map_values(|r: MergedRow| r.u_response)
}

pub open spec fn alpha_responses(rows: Seq<MergedRow>) -> Seq<Value> {
    rows.map_values(|r: MergedRow| r.alpha_response)
}

impl ChannelView<U> {
    /// Puts `alpha`'s perturbation and response columns to the right of
    /// this view's columns, row by row.  Fails when the row counts differ:
    /// rows are never dropped or padded.
    pub fn concat_alpha(self, alpha: ChannelView<Alpha>) -> (r: Result<ChannelMergedView, ShapeMismatch>)
        ensures
            self.spec_rows().len() != alpha.spec_rows().len() ==> r == Err::<ChannelMergedView, ShapeMismatch>(
                ShapeMismatch {
                    u_rows: self.spec_rows().len() as usize,
                    alpha_rows: alpha.spec_rows().len() as usize,
                },
            ),
            self.spec_rows().len() == alpha.spec_rows().len() ==> r is Ok && r->Ok_0.spec_rows()
                == merged_rows(self.spec_rows(), alpha.spec_rows()),
    {
        let u_rows = self.data();
        let a_rows = alpha.data();
        if u_rows.len() != a_rows.len() {
            return Err(ShapeMismatch { u_rows: u_rows.len(), alpha_rows: a_rows.len() });
        }
        let mut rows: Vec<MergedRow> = Vec::new();
        let mut i: usize = 0;
        while i < u_rows.len()
            invariant
                i <= u_rows@.len(),
                u_rows@.len() == a_rows@.len(),
                rows@.len() == i,
                forall|t: int|
                    0 <= t < i ==> #[trigger] rows@[t] == merged_row_of(u_rows@[t], a_rows@[t]),
            decreases u_rows@.len() - i,
        {
            let u = u_rows[i];
            proof {
                assert(rows@.push(merged_row_of(u, a_rows@[i as int])).len() == i + 1);
            }
            let a = a_rows[i];
            rows.push(
                MergedRow {
                    sweep: u.sweep,
                    u_perturbation: u.perturbation,
                    u_response: u.response,
                    alpha_perturbation: a.perturbation,
                    alpha_response: a.response,
                },
            );
            i = i + 1;
        }
        proof {
            assert(rows@ =~= merged_rows(u_rows@, a_rows@));
        }
        Ok(ChannelMergedView { rows })
    }
}

impl ChannelMergedView {
    pub closed spec fn spec_rows(&self) -> Seq<MergedRow> {
        self.rows@
    }

    /// The rows.
    pub fn data(&self) -> (r: &Vec<MergedRow>)
        ensures
            r@ == self.spec_rows(),
    {
        &self.rows
    }

    fn columns(&self) -> (r: (Vec<Option<i32>>, Vec<Value>, Vec<Value>))
        ensures
            r.0@ == merged_sweeps(self.spec_rows()),
            r.1@ == u_responses(self.spec_rows()),
            r.2@ == alpha_responses(self.spec_rows()),
    {
        let mut s: Vec<Option<i32>> = Vec::new();
        let mut u: Vec<Value> = Vec::new();
        let mut a: Vec<Value> = Vec::new();
        let mut i: usize = 0;
        while i < self.rows.len()
            invariant
                i <= self.rows@.len(),
                s@ == merged_sweeps(self.rows@.subrange(0, i as int)),
                u@ == u_responses(self.rows@.subrange(0, i as int)),
                a@ == alpha_responses(self.rows@.subrange(0, i as int)),
            decreases self.rows@.len() - i,
        {
            let r = self.rows[i];
            s.push(r.sweep);
            u.push(r.u_response);
            a.push(r.alpha_response);
            i = i + 1;
            proof {
                assert(s@ =~= merged_sweeps(self.rows@.subrange(0, i as int)));
                assert(u@ =~= u_responses(self.rows@.subrange(0, i as int)));
                assert(a@ =~= alpha_responses(self.rows@.subrange(0, i as int)));
            }
        }
        proof {
            assert(self.rows@.subrange(0, self.rows@.len() as int) =~= self.rows@);
        }
        (s, u, a)
    }

    /// Groups the rows by sweep value in order of first appearance and takes
    /// the mean U and alpha responses of each group.
    pub fn view_mean(self) -> (r: ChannelMergedMeanView)
        ensures
            r.spec_rows() == merged_means(self.spec_rows()),
    {
        let (s, u, a) = self.columns();
        let (keys, u_means) = mean_by_sweep(&s, &u);
        let (_keys, a_means) = mean_by_sweep(&s, &a);
        let mut rows: Vec<MergedMeanRow> = Vec::new();
        let mut j: usize = 0;
        while j < keys.len()
            invariant
                j <= keys@.len(),
                u_means@.len() == keys@.len(),
                a_means@.len() == keys@.len(),
                rows@.len() == j,
                forall|t: int|
                    0 <= t < j ==> (#[trigger] rows@[t]).sweep == keys@[t] && rows@[t].u_response
                        == u_means@[t] && rows@[t].alpha_response == a_means@[t],
            decreases keys@.len() - j,
        {
            rows.push(MergedMeanRow { sweep: keys[j], u_response: u_means[j], alpha_response: a_means[j] });
            j = j + 1;
        }
        proof {
            assert(rows@ =~= merged_means(self.spec_rows()));
        }
        ChannelMergedMeanView { rows }
    }
}

impl ChannelMergedMeanView {
    pub closed spec fn spec_rows(&self) -> Seq<MergedMeanRow> {
        self.rows@
    }

    /// The rows.
    pub fn data(&self) -> (r: &Vec<MergedMeanRow>)
        ensures
            r@ == self.spec_rows(),
    {
        &self.rows
    }
}

/// The merged means of each channel: the `i`-th channel of `u` is paired
/// with the `i`-th channel of `alpha` (channel numbering is the caller's
/// concern), up to the shorter of the two lists.  A channel whose views
/// cannot be merged gives its error without stopping the others.
pub fn merge_u_alpha_channel_view(u: &TotalView<U>, alpha: &TotalView<Alpha>) -> (r: Vec<
    (u32, Result<ChannelMergedMeanView, ShapeMismatch>),
>)
    ensures
        r@.len() == if channel_ids(u.spec_rows()).len() <= channel_ids(alpha.spec_rows()).len() {
            channel_ids(u.spec_rows()).len()
        } else {
            channel_ids(alpha.spec_rows()).len()
        },
        forall|i: int|
            0 <= i < r@.len() ==> {
                let cu = channel_ids(u.spec_rows())[i];
                let ca = channel_ids(alpha.spec_rows())[i];
                let nu = channel_rows(u.spec_rows(), cu).len();
                let na = channel_rows(alpha.spec_rows(), ca).len();
                &&& (#[trigger] r@[i]).0 == cu
                &&& (nu != na ==> r@[i].1 == Err::<ChannelMergedMeanView, ShapeMismatch>(
                    ShapeMismatch { u_rows: nu as usize, alpha_rows: na as usize },
                ))
                &&& (nu == na ==> r@[i].1 is Ok && r@[i].1->Ok_0.spec_rows() == merged_means(
                    merged_rows(channel_rows(u.spec_rows(), cu), channel_rows(alpha.spec_rows(), ca)),
                ))
            },
{
    let cu = u.channels();
    let ca = alpha.channels();
    let mut out: Vec<(u32, Result<ChannelMergedMeanView, ShapeMismatch>)> = Vec::new();
    let mut i: usize = 0;
    while i < cu.len() && i < ca.len()
        invariant
            i <= cu@.len(),
            i <= ca@.len(),
            cu@ == channel_ids(u.spec_rows()),
            ca@ == channel_ids(alpha.spec_rows()),
            out@.len() == i,
            forall|t: int|
                0 <= t < i ==> {
                    let nu = channel_rows(u.spec_rows(), cu@[t]).len();
                    let na = channel_rows(alpha.spec_rows(), ca@[t]).len();
                    &&& (#[trigger] out@[t]).0 == cu@[t]
                    &&& (nu != na ==> out@[t].1 == Err::<ChannelMergedMeanView, ShapeMismatch>(
                        ShapeMismatch { u_rows: nu as usize, alpha_rows: na as usize },
                    ))
                    &&& (nu == na ==> out@[t].1 is Ok && out@[t].1->Ok_0.spec_rows() == merged_means(
                        merged_rows(
                            channel_rows(u.spec_rows(), cu@[t]),
                            channel_rows(alpha.spec_rows(), ca@[t]),
                        ),
                    ))
                },
        decreases cu@.len() - i,
    {
        let merged = u.to_channel_view(cu[i]).concat_alpha(alpha.to_channel_view(ca[i]));
        let res = match merged {
            Ok(m) => Ok(m.view_mean()),
            Err(e) => Err(e),
        };
        out.push((cu[i], res));
        i = i + 1;
    }
    out
}

} // verus!
