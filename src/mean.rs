//! Grouping by sweep value with the arithmetic mean of a response column.
use vstd::prelude::*;

use crate::value::{mean_column, spec_mean, Value};

verus! {

/// The sweep values present in `s`, each once, in order of first
/// appearance; missing sweep values are left out.
pub open spec fn sweep_keys(s: Seq<Option<i32>>) -> Seq<i32>
    decreases s.len(),
{
    if s.len() == 0 {
        Seq::empty()
    } else {
        let ks = sweep_keys(s.drop_last());
        match s.last() {
            Some(k) => if ks.contains(k) {
                ks
            } else {
                ks.push(k)
            },
            None => ks,
        }
    }
}

/// The entries of `vals` on the rows whose sweep value is `k`, in order.
pub open spec fn sweep_group(sweeps: Seq<Option<i32>>, vals: Seq<Value>, k: i32) -> Seq<Value>
    decreases sweeps.len(),
{
    if sweeps.len() == 0 || vals.len() == 0 {
        Seq::empty()
    } else {
        let g = sweep_group(sweeps.drop_last(), vals.drop_last(), k);
        if sweeps.last() == Some(k) {
            g.push(vals.last())
        } else {
            g
        }
    }
}

/// The sweep values are pairwise distinct, and each is one of `s`.
pub proof fn lemma_sweep_keys_distinct(s: Seq<Option<i32>>)
    ensures
        forall|i: int, j: int|
            0 <= i < j < sweep_keys(s).len() ==> sweep_keys(s)[i] != sweep_keys(s)[j],
        forall|i: int| 0 <= i < sweep_keys(s).len() ==> s.contains(Some(#[trigger] sweep_keys(s)[i])),
        forall|i: int| 0 <= i < s.len() && s[i] is Some ==> sweep_keys(s).contains(#[trigger] s[i]->0),
    decreases s.len(),
{
    if s.len() > 0 {
        let p = s.drop_last();
        lemma_sweep_keys_distinct(p);
        let ks = sweep_keys(p);
        assert forall|i: int| 0 <= i < sweep_keys(s).len() implies s.contains(
            Some(#[trigger] sweep_keys(s)[i]),
        ) by {
            if i < ks.len() {
                let t = choose|t: int| 0 <= t < p.len() && p[t] == Some(ks[i]);
                assert(s[t] == p[t]);
            } else {
                assert(s[s.len() - 1] == Some(sweep_keys(s)[i]));
            }
        }
        assert forall|i: int| 0 <= i < s.len() && s[i] is Some implies sweep_keys(s).contains(
            #[trigger] s[i]->0,
        ) by {
            if i < p.len() {
                assert(p[i] == s[i]);
                let t = choose|t: int| 0 <= t < ks.len() && ks[t] == p[i]->0;
                assert(sweep_keys(s)[t] == ks[t]);
            } else {
                if !ks.contains(s[i]->0) {
                    assert(sweep_keys(s)[ks.len() as int] == s[i]->0);
                }
            }
        }
    }
}

/// Groups the rows by sweep value in order of first appearance (rows whose
/// sweep value is missing are left out) and takes the mean of `vals` in each
/// group.
pub fn mean_by_sweep(sweeps: &Vec<Option<i32>>, vals: &Vec<Value>) -> (r: (Vec<i32>, Vec<Value>))
    requires
        sweeps@.len() == vals@.len(),
    ensures
        r.0@ == sweep_keys(sweeps@),
        r.1@.len() == r.0@.len(),
        forall|j: int|
            0 <= j < r.1@.len() ==> #[trigger] r.1@[j] == spec_mean(
                sweep_group(sweeps@, vals@, r.0@[j]),
            ),
{
    let mut keys: Vec<i32> = Vec::new();
    let mut i: usize = 0;
    while i < sweeps.len()
        invariant
            i <= sweeps@.len(),
            keys@ == sweep_keys(sweeps@.subrange(0, i as int)),
        decreases sweeps@.len() - i,
    {
        proof {
            assert(sweeps@.subrange(0, i + 1).drop_last() =~= sweeps@.subrange(0, i as int));
        }
        match sweeps[i] {
            Some(k) => {
                let mut found = false;
                let mut j: usize = 0;
                while j < keys.len()
                    invariant
                        j <= keys@.len(),
                        found == exists|t: int| 0 <= t < j && keys@[t] == k,
                    decreases keys@.len() - j,
                {
                    if keys[j] == k {
                        found = true;
                    }
                    j = j + 1;
                }
                proof {
                    if keys@.contains(k) {
                        let t = choose|t: int| 0 <= t < keys@.len() && keys@[t] == k;
                        assert(found);
                    }
                }
                if !found {
                    keys.push(k);
                }
            },
            None => {},
        }
        i = i + 1;
    }
    proof {
        assert(sweeps@.subrange(0, sweeps@.len() as int) =~= sweeps@);
    }
    let mut means: Vec<Value> = Vec::new();
    let mut j: usize = 0;
    while j < keys.len()
        invariant
            j <= keys@.len(),
            sweeps@.len() == vals@.len(),
            keys@ == sweep_keys(sweeps@),
            means@.len() == j,
            forall|t: int|
                0 <= t < j ==> #[trigger] means@[t] == spec_mean(
                    sweep_group(sweeps@, vals@, keys@[t]),
                ),
        decreases keys@.len() - j,
    {
        let k = keys[j];
        let g = group_of(sweeps, vals, k);
        means.push(mean_column(&g));
        j = j + 1;
    }
    (keys, means)
}

fn group_of(sweeps: &Vec<Option<i32>>, vals: &Vec<Value>, k: i32) -> (r: Vec<Value>)
    requires
        sweeps@.len() == vals@.len(),
    ensures
        r@ == sweep_group(sweeps@, vals@, k),
{
    let mut g: Vec<Value> = Vec::new();
    let mut i: usize = 0;
    while i < sweeps.len()
        invariant
            i <= sweeps@.len(),
            sweeps@.len() == vals@.len(),
            g@ == sweep_group(sweeps@.subrange(0, i as int), vals@.subrange(0, i as int), k),
        decreases sweeps@.len() - i,
    {
        proof {
            assert(sweeps@.subrange(0, i + 1).drop_last() =~= sweeps@.subrange(0, i as int));
            assert(vals@.subrange(0, i + 1).drop_last() =~= vals@.subrange(0, i as int));
        }
        if sweeps[i] == Some(k) {
            g.push(vals[i]);
        }
        i = i + 1;
    }
    proof {
        assert(sweeps@.subrange(0, sweeps@.len() as int) =~= sweeps@);
        assert(vals@.subrange(0, vals@.len() as int) =~= vals@);
    }
    g
}

} // verus!
