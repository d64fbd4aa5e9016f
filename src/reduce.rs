//! Ingestion and reduction: keep the perturbed runs, sum the rows that share
//! a run identifier and channel (the spin components), and read the sweep
//! value and perturbation step off the identifier.
use vstd::prelude::*;
use core::marker::PhantomData;

use crate::identifier::{is_perturbed_id, is_perturbed_run, spec_sweep_value, sweep_value, tagged_number};
use crate::job_type::JobType;
use crate::value::{spec_sub, spec_sum, sum_column, Value};

verus! {

/// One row of a raw result table.
#[derive(Debug)]
pub struct RawRecord {
    /// The run identifier (`Jobname`).
    pub run_id: String,
    /// The channel (`Channel ID`); `None` when the cell was not a `u32`.
    pub channel: Option<u32>,
    /// `Before SCF`.
    pub scf_before: Value,
    /// `1st SCF`.
    pub scf_first: Value,
    /// `Last SCF`.
    pub scf_final: Value,
}

/// A run and channel: the key rows are grouped by.
pub type RunKey = (Seq<char>, Option<u32>);

pub open spec fn key_of(r: RawRecord) -> RunKey {
    (r.run_id@, r.channel)
}

/// The row belongs to a perturbed run and takes part in the reduction.
pub open spec fn selected(r: RawRecord) -> bool {
    is_perturbed_id(r.run_id@)
}

/// The keys of the selected rows, each once, in order of first appearance.
pub open spec fn run_keys(rows: Seq<RawRecord>) -> Seq<RunKey>
    decreases rows.len(),
{
    if rows.len() == 0 {
        Seq::empty()
    } else {
        let ks = run_keys(rows.drop_last());
        let r = rows.last();
        if selected(r) && !ks.contains(key_of(r)) {
            ks.push(key_of(r))
        } else {
            ks
        }
    }
}

/// The selected rows with key `k`, in order.
pub open spec fn run_group(rows: Seq<RawRecord>, k: RunKey) -> Seq<RawRecord>
    decreases rows.len(),
{
    if rows.len() == 0 {
        Seq::empty()
    } else {
        let g = run_group(rows.drop_last(), k);
        let r = rows.last();
        if selected(r) && key_of(r) == k {
            g.push(r)
        } else {
            g
        }
    }
}

pub open spec fn befores(g: Seq<RawRecord>) -> Seq<Value> {
    g.map_values(|r: RawRecord| r.scf_before)
}

pub open spec fn firsts(g: Seq<RawRecord>) -> Seq<Value> {
    g.map_values(|r: RawRecord| r.scf_first)
}

pub open spec fn finals(g: Seq<RawRecord>) -> Seq<Value> {
    g.map_values(|r: RawRecord| r.scf_final)
}

/// Grouping keeps one entry per run and channel: the keys are pairwise
/// distinct, each belongs to a perturbed row, and each perturbed row's key
/// is among them.
pub proof fn lemma_run_keys_distinct(rows: Seq<RawRecord>)
    ensures
        forall|i: int, j: int|
            0 <= i < j < run_keys(rows).len() ==> run_keys(rows)[i] != run_keys(rows)[j],
        forall|i: int|
            0 <= i < run_keys(rows).len() ==> exists|t: int|
                0 <= t < rows.len() && selected(rows[t]) && key_of(rows[t]) == #[trigger] run_keys(
                    rows,
                )[i],
        forall|t: int|
            0 <= t < rows.len() && selected(rows[t]) ==> run_keys(rows).contains(
                #[trigger] key_of(rows[t]),
            ),
    decreases rows.len(),
{
    if rows.len() > 0 {
        let p = rows.drop_last();
        lemma_run_keys_distinct(p);
        let ks = run_keys(p);
        assert forall|i: int| 0 <= i < run_keys(rows).len() implies exists|t: int|
            0 <= t < rows.len() && selected(rows[t]) && key_of(rows[t]) == #[trigger] run_keys(
                rows,
            )[i] by {
            if i < ks.len() {
                let t = choose|t: int|
                    0 <= t < p.len() && selected(p[t]) && key_of(p[t]) == #[trigger] ks[i];
                assert(rows[t] == p[t]);
            } else {
                assert(rows[rows.len() - 1] == rows.last());
            }
        }
        assert forall|t: int| 0 <= t < rows.len() && selected(rows[t]) implies run_keys(
            rows,
        ).contains(#[trigger] key_of(rows[t])) by {
            if t < p.len() {
                assert(p[t] == rows[t]);
                let u = choose|u: int| 0 <= u < ks.len() && ks[u] == key_of(p[t]);
                assert(run_keys(rows)[u] == ks[u]);
            } else if !ks.contains(key_of(rows.last())) {
                assert(run_keys(rows)[ks.len() as int] == key_of(rows[t]));
            }
        }
    }
}

/// One run and channel after reduction.
#[derive(Debug)]
pub struct ReducedRecord {
    pub run_id: String,
    pub channel: Option<u32>,
    /// The sweep value (`U_<digits>`), if the identifier has one.
    pub sweep: Option<i32>,
    /// The perturbation step (category tag), if the identifier has one.
    pub step: Option<i32>,
    /// Sum of `Before SCF` over the group.
    pub s0: Value,
    /// Sum of `1st SCF` over the group.
    pub s1: Value,
    /// Sum of `Last SCF` over the group.
    pub sf: Value,
    /// `S1 - S0`.
    pub delta_first: Value,
    /// `SF - S0`.
    pub delta_final: Value,
}

/// The reduction of the group with key `k` of `rows`, for a category whose
/// perturbation step follows `tag`.
pub open spec fn reduced_matches(r: ReducedRecord, rows: Seq<RawRecord>, k: RunKey, tag: Seq<char>) -> bool {
    let g = run_group(rows, k);
    &&& r.run_id@ == k.0
    &&& r.channel == k.1
    &&& r.sweep == spec_sweep_value(k.0)
    &&& r.step == tagged_number(k.0, tag)
    &&& r.s0 == spec_sum(befores(g))
    &&& r.s1 == spec_sum(firsts(g))
    &&& r.sf == spec_sum(finals(g))
    &&& r.delta_first == spec_sub(r.s1, r.s0)
    &&& r.delta_final == spec_sub(r.sf, r.s0)
}

/// The raw result table of one category.
#[derive(Debug)]
pub struct RawTable<T: JobType> {
    rows: Vec<RawRecord>,
    job: PhantomData<T>,
}

fn same_channel(a: Option<u32>, b: Option<u32>) -> (r: bool)
    ensures
        r == (a == b),
{
    match (a, b) {
        (Some(x), Some(y)) => x == y,
        (None, None) => true,
        _ => false,
    }
}

proof fn lemma_prefix_step(rows: Seq<RawRecord>, i: int)
    requires
        0 <= i < rows.len(),
    ensures
        rows.subrange(0, i + 1).drop_last() == rows.subrange(0, i),
        rows.subrange(0, i + 1).last() == rows[i],
{
    assert(rows.subrange(0, i + 1).drop_last() =~= rows.subrange(0, i));
}

impl<T: JobType> RawTable<T> {
    pub closed spec fn spec_rows(&self) -> Seq<RawRecord> {
        self.rows@
    }

    pub fn new(rows: Vec<RawRecord>) -> (r: Self)
        ensures
            r.spec_rows() == rows@,
    {
        RawTable { rows, job: PhantomData }
    }

    /// The rows.
    pub fn data(&self) -> (r: &Vec<RawRecord>)
        ensures
            r@ == self.spec_rows(),
    {
        &self.rows
    }

    /// The keys of the perturbed rows in order of first appearance, and
    /// for each row whether it is perturbed.
    fn keys(&self) -> (r: (Vec<String>, Vec<Option<u32>>, Vec<bool>))
        ensures
            r.0@.len() == r.1@.len(),
            r.0@.len() == run_keys(self.rows@).len(),
            forall|j: int|
                0 <= j < r.0@.len() ==> (#[trigger] r.0@[j]@, r.1@[j]) == run_keys(self.rows@)[j],
            r.2@.len() == self.rows@.len(),
            forall|i: int| 0 <= i < r.2@.len() ==> #[trigger] r.2@[i] == selected(self.rows@[i]),
    {
        let rows = &self.rows;
        let mut ids: Vec<String> = Vec::new();
        let mut chans: Vec<Option<u32>> = Vec::new();
        let mut keep: Vec<bool> = Vec::new();
        let mut i: usize = 0;
        while i < rows.len()
            invariant
                i <= rows@.len(),
                ids@.len() == chans@.len(),
                ids@.len() == run_keys(rows@.subrange(0, i as int)).len(),
                forall|j: int|
                    0 <= j < ids@.len() ==> (#[trigger] ids@[j]@, chans@[j]) == run_keys(
                        rows@.subrange(0, i as int),
                    )[j],
                keep@.len() == i,
                forall|t: int| 0 <= t < i ==> #[trigger] keep@[t] == selected(rows@[t]),
            decreases rows@.len() - i,
        {
            proof {
                lemma_prefix_step(rows@, i as int);
            }
            let row = &rows[i];
            let sel = is_perturbed_run(row.run_id.as_str());
            keep.push(sel);
            if sel {
                let ghost ks = run_keys(rows@.subrange(0, i as int));
                let mut found = false;
                let mut j: usize = 0;
                while j < ids.len()
                    invariant
                        j <= ids@.len(),
                        ids@.len() == chans@.len(),
                        ids@.len() == ks.len(),
                        forall|t: int|
                            0 <= t < ids@.len() ==> (#[trigger] ids@[t]@, chans@[t]) == ks[t],
                        found == exists|t: int| 0 <= t < j && ks[t] == key_of(*row),
                    decreases ids@.len() - j,
                {
                    if ids[j] == row.run_id && same_channel(chans[j], row.channel) {
                        found = true;
                    }
                    proof {
                        assert(ks[j as int] == (ids@[j as int]@, chans@[j as int]));
                    }
                    j = j + 1;
                }
                proof {
                    if ks.contains(key_of(*row)) {
                        let t = choose|t: int| 0 <= t < ks.len() && ks[t] == key_of(*row);
                        assert(found);
                    }
                }
                if !found {
                    ids.push(row.run_id.clone());
                    chans.push(row.channel);
                }
            }
            i = i + 1;
        }
        proof {
            assert(rows@.subrange(0, rows@.len() as int) =~= rows@);
        }
        (ids, chans, keep)
    }

    /// The three SCF columns of the perturbed rows with the given key.
    fn group_columns(&self, keep: &Vec<bool>, id: &String, chan: Option<u32>) -> (r: (
        Vec<Value>,
        Vec<Value>,
        Vec<Value>,
    ))
        requires
            keep@.len() == self.rows@.len(),
            forall|i: int| 0 <= i < keep@.len() ==> #[trigger] keep@[i] == selected(self.rows@[i]),
        ensures
            r.0@ == befores(run_group(self.rows@, (id@, chan))),
            r.1@ == firsts(run_group(self.rows@, (id@, chan))),
            r.2@ == finals(run_group(self.rows@, (id@, chan))),
    {
        let rows = &self.rows;
        let ghost k = (id@, chan);
        let mut b: Vec<Value> = Vec::new();
        let mut f: Vec<Value> = Vec::new();
        let mut l: Vec<Value> = Vec::new();
        let mut i: usize = 0;
        while i < rows.len()
            invariant
                i <= rows@.len(),
                keep@.len() == rows@.len(),
                forall|t: int| 0 <= t < keep@.len() ==> #[trigger] keep@[t] == selected(rows@[t]),
                k == (id@, chan),
                b@ == befores(run_group(rows@.subrange(0, i as int), k)),
                f@ == firsts(run_group(rows@.subrange(0, i as int), k)),
                l@ == finals(run_group(rows@.subrange(0, i as int), k)),
            decreases rows@.len() - i,
        {
            proof {
                lemma_prefix_step(rows@, i as int);
            }
            let row = &rows[i];
            if keep[i] && row.run_id == *id && same_channel(row.channel, chan) {
                b.push(row.scf_before);
                f.push(row.scf_first);
                l.push(row.scf_final);
                proof {
                    let g = run_group(rows@.subrange(0, i as int), k);
                    assert(befores(g.push(*row)) =~= befores(g).push(row.scf_before));
                    assert(firsts(g.push(*row)) =~= firsts(g).push(row.scf_first));
                    assert(finals(g.push(*row)) =~= finals(g).push(row.scf_final));
                }
            }
            i = i + 1;
        }
        proof {
            assert(rows@.subrange(0, rows@.len() as int) =~= rows@);
        }
        (b, f, l)
    }

    /// Keeps the perturbed runs (identifiers with three `/`), groups their
    /// rows by run identifier and channel in order of first appearance, sums
    /// the SCF columns of each group and reads the sweep value and
    /// perturbation step off the identifier.
    pub fn reduce(&self) -> (r: Vec<ReducedRecord>)
        ensures
            r@.len() == run_keys(self.spec_rows()).len(),
            forall|j: int|
                0 <= j < r@.len() ==> reduced_matches(
                    #[trigger] r@[j],
                    self.spec_rows(),
                    run_keys(self.spec_rows())[j],
                    T::spec_perturb_tag(),
                ),
    {
        let (ids, chans, keep) = self.keys();
        let ghost ks = run_keys(self.rows@);
        let mut out: Vec<ReducedRecord> = Vec::new();
        let mut j: usize = 0;
        while j < ids.len()
            invariant
                j <= ids@.len(),
                ids@.len() == chans@.len(),
                ids@.len() == ks.len(),
                ks == run_keys(self.rows@),
                forall|t: int| 0 <= t < ids@.len() ==> (#[trigger] ids@[t]@, chans@[t]) == ks[t],
                keep@.len() == self.rows@.len(),
                forall|i: int| 0 <= i < keep@.len() ==> #[trigger] keep@[i] == selected(self.rows@[i]),
                out@.len() == j,
                forall|t: int|
                    0 <= t < j ==> reduced_matches(
                        #[trigger] out@[t],
                        self.rows@,
                        ks[t],
                        T::spec_perturb_tag(),
                    ),
            decreases ids@.len() - j,
        {
            let id = &ids[j];
            let chan = chans[j];
            proof {
                assert((ids@[j as int]@, chans@[j as int]) == ks[j as int]);
            }
            let (b, f, l) = self.group_columns(&keep, id, chan);
            let s0 = sum_column(&b);
            let s1 = sum_column(&f);
            let sf = sum_column(&l);
            let rec = ReducedRecord {
                run_id: id.clone(),
                channel: chan,
                sweep: sweep_value(id.as_str()),
                step: T::perturb_expr(id.as_str()),
                s0,
                s1,
                sf,
                delta_first: s1.sub(s0),
                delta_final: sf.sub(s0),
            };
            out.push(rec);
            j = j + 1;
        }
        out
    }
}

} // verus!
