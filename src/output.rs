//! What the final stages hand on: column names, CSV text, plot series and
//! file names.
use vstd::prelude::*;
use vstd::string::*;

use crate::args::Mode;
use crate::job_type::{category_text, text, Alpha, JobType, U};
use crate::merged::{ChannelMergedMeanView, ChannelMergedView, MergedMeanRow};
use crate::text::{decimal_int, decimal_nat, fixed_text, fixed_to_text, int_text, push_decimal};
use crate::value::Value;
use crate::views::{ChannelMeanView, ChannelRow, ChannelView, MeanRow, TotalView};

verus! {

broadcast use vstd::string::group_string_axioms;

pub open spec fn strings_view(v: Seq<String>) -> Seq<Seq<char>> {
    v.map_values(|s: String| s@)
}

/// The column names of a stage of the pipeline.
pub trait ViewColumn {
    spec fn spec_column_names() -> Seq<Seq<char>>;

    fn column_names() -> (r: Vec<String>)
        ensures
            strings_view(r@) == Self::spec_column_names(),
    ;
}

/// The text of a cell holding `v`: nine fractional digits when finite,
/// `NaN` when not, empty when missing.
pub open spec fn value_text(v: Value) -> Seq<char> {
    match v {
        Value::Finite(x) => fixed_text(x as int),
        Value::NonFinite => "NaN"@,
        Value::Missing => Seq::empty(),
    }
}

/// The text of a cell holding `v` (see `value_text`).
pub fn value_to_text(v: Value) -> (r: String)
    ensures
        r@ == value_text(v),
{
    match v {
        Value::Finite(x) => fixed_to_text(x),
        Value::NonFinite => String::from_str("NaN"),
        Value::Missing => String::new(),
    }
}

/// `cells` joined by `,`.
pub open spec fn join_cells(cells: Seq<Seq<char>>) -> Seq<char>
    decreases cells.len(),
{
    if cells.len() == 0 {
        Seq::empty()
    } else if cells.len() == 1 {
        cells[0]
    } else {
        join_cells(cells.drop_last()) + seq![','] + cells.last()
    }
}

/// One CSV line.
pub open spec fn csv_line(cells: Seq<Seq<char>>) -> Seq<char> {
    join_cells(cells) + seq!['\n']
}

fn push_line(s: &mut String, cells: &Vec<String>)
    ensures
        final(s)@ == old(s)@ + csv_line(strings_view(cells@)),
{
    let ghost start = s@;
    let mut i: usize = 0;
    while i < cells.len()
        invariant
            i <= cells@.len(),
            s@ == start + join_cells(strings_view(cells@.subrange(0, i as int))),
        decreases cells@.len() - i,
    {
        proof {
            reveal_strlit(",");
            assert(strings_view(cells@.subrange(0, i + 1)).drop_last() =~= strings_view(
                cells@.subrange(0, i as int),
            ));
            assert(strings_view(cells@.subrange(0, i + 1)).last() == cells@[i as int]@);
            assert(strings_view(cells@.subrange(0, i + 1)).len() == i + 1);
            if i == 0 {
                assert(strings_view(cells@.subrange(0, i + 1))[0] == cells@[0]@);
            }
        }
        if i > 0 {
            s.append(",");
        }
        s.append(cells[i].as_str());
        proof {
            assert(s@ =~= start + join_cells(strings_view(cells@.subrange(0, i + 1))));
        }
        i = i + 1;
    }
    s.append("\n");
    proof {
        reveal_strlit("\n");
        assert(cells@.subrange(0, cells@.len() as int) =~= cells@);
        assert(s@ =~= start + csv_line(strings_view(cells@)));
    }
}

/// A sweep value's cell: empty when missing.
pub open spec fn sweep_text(s: Option<i32>) -> Seq<char> {
    match s {
        Some(k) => decimal_int(k as int),
        None => Seq::empty(),
    }
}

fn sweep_to_text(s: Option<i32>) -> (r: String)
    ensures
        r@ == sweep_text(s),
{
    match s {
        Some(k) => int_text(k as i64),
        None => String::new(),
    }
}

pub open spec fn channel_row_cells(r: ChannelRow) -> Seq<Seq<char>> {
    seq![sweep_text(r.sweep), value_text(r.perturbation), value_text(r.response)]
}

pub open spec fn mean_row_cells(r: MeanRow) -> Seq<Seq<char>> {
    seq![decimal_int(r.sweep as int), value_text(r.response)]
}

pub open spec fn merged_mean_row_cells(r: MergedMeanRow) -> Seq<Seq<char>> {
    seq![decimal_int(r.sweep as int), value_text(r.u_response), value_text(r.alpha_response)]
}

/// The CSV lines of `rows`, each rendered by `cells`.
pub open spec fn csv_body<R>(rows: Seq<R>, cells: spec_fn(R) -> Seq<Seq<char>>) -> Seq<char>
    decreases rows.len(),
{
    if rows.len() == 0 {
        Seq::empty()
    } else {
        csv_body(rows.drop_last(), cells) + csv_line(cells(rows.last()))
    }
}

fn two(a: String, b: String) -> (r: Vec<String>)
    ensures
        strings_view(r@) == seq![a@, b@],
{
    let mut v: Vec<String> = Vec::new();
    v.push(a);
    v.push(b);
    proof {
        assert(strings_view(v@) =~= seq![a@, b@]);
    }
    v
}

fn three(a: String, b: String, c: String) -> (r: Vec<String>)
    ensures
        strings_view(r@) == seq![a@, b@, c@],
{
    let mut v: Vec<String> = Vec::new();
    v.push(a);
    v.push(b);
    v.push(c);
    proof {
        assert(strings_view(v@) =~= seq![a@, b@, c@]);
    }
    v
}

impl<T: JobType> ViewColumn for TotalView<T> {
    open spec fn spec_column_names() -> Seq<Seq<char>> {
        let t = T::spec_hubbard_type();
        seq![
            "Channel ID"@,
            "U"@,
            "S1-S0"@,
            "SF-S0"@,
            category_text(t, "u/S1-S0"@, "alpha/S1-S0"@),
            category_text(t, "u/SF-S0"@, "alpha/SF-S0"@),
            category_text(t, "u_pert"@, "alpha_pert"@),
            "n1-nF"@,
        ]
    }

    fn column_names() -> (r: Vec<String>) {
        let mut v: Vec<String> = Vec::new();
        v.push(text("Channel ID"));
        v.push(text("U"));
        v.push(text("S1-S0"));
        v.push(text("SF-S0"));
        v.push(T::slope_first_col_alias());
        v.push(T::slope_final_col_alias());
        v.push(T::nth_perturb_col_alias());
        v.push(text("n1-nF"));
        proof {
            assert(strings_view(v@) =~= Self::spec_column_names());
        }
        v
    }
}

impl<T: JobType> ViewColumn for ChannelView<T> {
    open spec fn spec_column_names() -> Seq<Seq<char>> {
        let t = T::spec_hubbard_type();
        seq!["U"@, category_text(t, "u_pert"@, "alpha_pert"@), category_text(t, "n1-nF_U"@, "n1-nF_Alpha"@)]
    }

    fn column_names() -> (r: Vec<String>) {
        three(text("U"), T::nth_perturb_col_alias(), T::delta_slope_col_alias())
    }
}

impl<T: JobType> ViewColumn for ChannelMeanView<T> {
    open spec fn spec_column_names() -> Seq<Seq<char>> {
        seq!["U"@, category_text(T::spec_hubbard_type(), "n1-nF_U"@, "n1-nF_Alpha"@)]
    }

    fn column_names() -> (r: Vec<String>) {
        two(text("U"), T::delta_slope_col_alias())
    }
}

impl ViewColumn for ChannelMergedView {
    open spec fn spec_column_names() -> Seq<Seq<char>> {
        seq!["U"@, "u_pert"@, "n1-nF_U"@, "alpha_pert"@, "n1-nF_Alpha"@]
    }

    fn column_names() -> (r: Vec<String>) {
        let mut v: Vec<String> = Vec::new();
        v.push(text("U"));
        v.push(U::nth_perturb_col_alias());
        v.push(U::delta_slope_col_alias());
        v.push(Alpha::nth_perturb_col_alias());
        v.push(Alpha::delta_slope_col_alias());
        proof {
            assert(strings_view(v@) =~= Self::spec_column_names());
        }
        v
    }
}

impl ViewColumn for ChannelMergedMeanView {
    open spec fn spec_column_names() -> Seq<Seq<char>> {
        seq!["U"@, "n1-nF_U"@, "n1-nF_Alpha"@]
    }

    fn column_names() -> (r: Vec<String>) {
        three(text("U"), U::delta_slope_col_alias(), Alpha::delta_slope_col_alias())
    }
}

impl<T: JobType> ChannelView<T> {
    /// The table as CSV text: the column names, then one line per row.
    pub fn to_csv(&self) -> (r: String)
        ensures
            r@ == csv_line(Self::spec_column_names()) + csv_body(
                self.spec_rows(),
                |m: ChannelRow| channel_row_cells(m),
            ),
    {
        let rows = self.data();
        let mut s = String::new();
        push_line(&mut s, &Self::column_names());
        let ghost head = s@;
        let mut i: usize = 0;
        while i < rows.len()
            invariant
                i <= rows@.len(),
                s@ == head + csv_body(rows@.subrange(0, i as int), |m: ChannelRow| channel_row_cells(m)),
            decreases rows@.len() - i,
        {
            proof {
                assert(rows@.subrange(0, i + 1).drop_last() =~= rows@.subrange(0, i as int));
            }
            let r = rows[i];
            push_line(
                &mut s,
                &three(sweep_to_text(r.sweep), value_to_text(r.perturbation), value_to_text(r.response)),
            );
            proof {
                assert(s@ =~= head + csv_body(
                    rows@.subrange(0, i + 1),
                    |m: ChannelRow| channel_row_cells(m),
                ));
            }
            i = i + 1;
        }
        proof {
            assert(rows@.subrange(0, rows@.len() as int) =~= rows@);
        }
        s
    }
}

impl<T: JobType> ChannelMeanView<T> {
    /// The table as CSV text: the column names, then one line per row.
    pub fn to_csv(&self) -> (r: String)
        ensures
            r@ == csv_line(Self::spec_column_names()) + csv_body(
                self.spec_rows(),
                |m: MeanRow| mean_row_cells(m),
            ),
    {
        let rows = self.data();
        let mut s = String::new();
        push_line(&mut s, &Self::column_names());
        let ghost head = s@;
        let mut i: usize = 0;
        while i < rows.len()
            invariant
                i <= rows@.len(),
                s@ == head + csv_body(rows@.subrange(0, i as int), |m: MeanRow| mean_row_cells(m)),
            decreases rows@.len() - i,
        {
            proof {
                assert(rows@.subrange(0, i + 1).drop_last() =~= rows@.subrange(0, i as int));
            }
            let r = rows[i];
            push_line(&mut s, &two(int_text(r.sweep as i64), value_to_text(r.response)));
            proof {
                assert(s@ =~= head + csv_body(rows@.subrange(0, i + 1), |m: MeanRow| mean_row_cells(m)));
            }
            i = i + 1;
        }
        proof {
            assert(rows@.subrange(0, rows@.len() as int) =~= rows@);
        }
        s
    }
}

impl ChannelMergedMeanView {
    /// The table as CSV text: the column names, then one line per row.
    pub fn to_csv(&self) -> (r: String)
        ensures
            r@ == csv_line(Self::spec_column_names()) + csv_body(
                self.spec_rows(),
                |m: MergedMeanRow| merged_mean_row_cells(m),
            ),
    {
        let rows = self.data();
        let mut s = String::new();
        push_line(&mut s, &Self::column_names());
        let ghost head = s@;
        let mut i: usize = 0;
        while i < rows.len()
            invariant
                i <= rows@.len(),
                s@ == head + csv_body(rows@.subrange(0, i as int), |m: MergedMeanRow| merged_mean_row_cells(m)),
            decreases rows@.len() - i,
        {
            proof {
                assert(rows@.subrange(0, i + 1).drop_last() =~= rows@.subrange(0, i as int));
            }
            let r = rows[i];
            push_line(
                &mut s,
                &three(int_text(r.sweep as i64), value_to_text(r.u_response), value_to_text(r.alpha_response)),
            );
            proof {
                assert(s@ =~= head + csv_body(
                    rows@.subrange(0, i + 1),
                    |m: MergedMeanRow| merged_mean_row_cells(m),
                ));
            }
            i = i + 1;
        }
        proof {
            assert(rows@.subrange(0, rows@.len() as int) =~= rows@);
        }
        s
    }
}

pub open spec fn series_view(v: Seq<(String, Vec<Value>)>) -> Seq<(Seq<char>, Seq<Value>)> {
    v.map_values(|p: (String, Vec<Value>)| (p.0@, p.1@))
}

/// What a plot of a final table needs: the sweep values as labels of the
/// x axis, and named series of responses.
pub trait HubbardUPlot {
    spec fn spec_xs(&self) -> Seq<Seq<char>>;

    spec fn spec_ys(&self) -> Seq<(Seq<char>, Seq<Value>)>;

    fn xs(&self) -> (r: Vec<String>)
        ensures
            strings_view(r@) == self.spec_xs(),
    ;

    fn ys(&self) -> (r: Vec<(String, Vec<Value>)>)
        ensures
            series_view(r@) == self.spec_ys(),
    ;
}

fn sweep_labels(sweeps: &Vec<i32>) -> (r: Vec<String>)
    ensures
        strings_view(r@) == sweeps@.map_values(|k: i32| decimal_int(k as int)),
{
    let mut out: Vec<String> = Vec::new();
    let mut i: usize = 0;
    while i < sweeps.len()
        invariant
            i <= sweeps@.len(),
            strings_view(out@) == sweeps@.subrange(0, i as int).map_values(|k: i32| decimal_int(k as int)),
        decreases sweeps@.len() - i,
    {
        let t = int_text(sweeps[i] as i64);
        proof {
            assert(t@ == decimal_int(sweeps@[i as int] as int));
            assert(sweeps@.subrange(0, i + 1).map_values(|k: i32| decimal_int(k as int)) =~= sweeps@.subrange(
                0,
                i as int,
            ).map_values(|k: i32| decimal_int(k as int)).push(t@));
        }
        out.push(t);
        i = i + 1;
        proof {
            assert(strings_view(out@) =~= sweeps@.subrange(0, i as int).map_values(
                |k: i32| decimal_int(k as int),
            ));
        }
    }
    proof {
        assert(sweeps@.subrange(0, sweeps@.len() as int) =~= sweeps@);
    }
    out
}

impl<T: JobType> ChannelMeanView<T> {
    fn columns(&self) -> (r: (Vec<i32>, Vec<Value>))
        ensures
            r.0@ == self.spec_rows().map_values(|m: MeanRow| m.sweep),
            r.1@ == self.spec_rows().map_values(|m: MeanRow| m.response),
    {
        let rows = self.data();
        let mut s: Vec<i32> = Vec::new();
        let mut v: Vec<Value> = Vec::new();
        let mut i: usize = 0;
        while i < rows.len()
            invariant
                i <= rows@.len(),
                s@ == rows@.subrange(0, i as int).map_values(|m: MeanRow| m.sweep),
                v@ == rows@.subrange(0, i as int).map_values(|m: MeanRow| m.response),
            decreases rows@.len() - i,
        {
            s.push(rows[i].sweep);
            v.push(rows[i].response);
            i = i + 1;
            proof {
                assert(s@ =~= rows@.subrange(0, i as int).map_values(|m: MeanRow| m.sweep));
                assert(v@ =~= rows@.subrange(0, i as int).map_values(|m: MeanRow| m.response));
            }
        }
        proof {
            assert(rows@.subrange(0, rows@.len() as int) =~= rows@);
        }
        (s, v)
    }
}

impl<T: JobType> HubbardUPlot for ChannelMeanView<T> {
    open spec fn spec_xs(&self) -> Seq<Seq<char>> {
        self.spec_rows().map_values(|m: MeanRow| decimal_int(m.sweep as int))
    }

    open spec fn spec_ys(&self) -> Seq<(Seq<char>, Seq<Value>)> {
        seq![
            (
                category_text(T::spec_hubbard_type(), "n1-nF_U"@, "n1-nF_Alpha"@),
                self.spec_rows().map_values(|m: MeanRow| m.response),
            ),
        ]
    }

    fn xs(&self) -> (r: Vec<String>) {
        let (s, _v) = self.columns();
        let r = sweep_labels(&s);
        proof {
            assert(strings_view(r@) =~= self.spec_xs());
        }
        r
    }

    fn ys(&self) -> (r: Vec<(String, Vec<Value>)>) {
        let (_s, v) = self.columns();
        let mut r: Vec<(String, Vec<Value>)> = Vec::new();
        r.push((T::delta_slope_col_alias(), v));
        proof {
            assert(series_view(r@) =~= self.spec_ys());
        }
        r
    }
}

impl ChannelMergedMeanView {
    fn columns(&self) -> (r: (Vec<i32>, Vec<Value>, Vec<Value>))
        ensures
            r.0@ == self.spec_rows().map_values(|m: MergedMeanRow| m.sweep),
            r.1@ == self.spec_rows().map_values(|m: MergedMeanRow| m.u_response),
            r.2@ == self.spec_rows().map_values(|m: MergedMeanRow| m.alpha_response),
    {
        let rows = self.data();
        let mut s: Vec<i32> = Vec::new();
        let mut u: Vec<Value> = Vec::new();
        let mut a: Vec<Value> = Vec::new();
        let mut i: usize = 0;
        while i < rows.len()
            invariant
                i <= rows@.len(),
                s@ == rows@.subrange(0, i as int).map_values(|m: MergedMeanRow| m.sweep),
                u@ == rows@.subrange(0, i as int).map_values(|m: MergedMeanRow| m.u_response),
                a@ == rows@.subrange(0, i as int).map_values(|m: MergedMeanRow| m.alpha_response),
            decreases rows@.len() - i,
        {
            s.push(rows[i].sweep);
            u.push(rows[i].u_response);
            a.push(rows[i].alpha_response);
            i = i + 1;
            proof {
                assert(s@ =~= rows@.subrange(0, i as int).map_values(|m: MergedMeanRow| m.sweep));
                assert(u@ =~= rows@.subrange(0, i as int).map_values(|m: MergedMeanRow| m.u_response));
                assert(a@ =~= rows@.subrange(0, i as int).map_values(
                    |m: MergedMeanRow| m.alpha_response,
                ));
            }
        }
        proof {
            assert(rows@.subrange(0, rows@.len() as int) =~= rows@);
        }
        (s, u, a)
    }
}

impl HubbardUPlot for ChannelMergedMeanView {
    open spec fn spec_xs(&self) -> Seq<Seq<char>> {
        self.spec_rows().map_values(|m: MergedMeanRow| decimal_int(m.sweep as int))
    }

    open spec fn spec_ys(&self) -> Seq<(Seq<char>, Seq<Value>)> {
        seq![
            ("n1-nF_U"@, self.spec_rows().map_values(|m: MergedMeanRow| m.u_response)),
            ("n1-nF_Alpha"@, self.spec_rows().map_values(|m: MergedMeanRow| m.alpha_response)),
        ]
    }

    fn xs(&self) -> (r: Vec<String>) {
        let (s, _u, _a) = self.columns();
        let r = sweep_labels(&s);
        proof {
            assert(strings_view(r@) =~= self.spec_xs());
        }
        r
    }

    fn ys(&self) -> (r: Vec<(String, Vec<Value>)>) {
        let (_s, u, a) = self.columns();
        let mut r: Vec<(String, Vec<Value>)> = Vec::new();
        r.push((U::delta_slope_col_alias(), u));
        r.push((Alpha::delta_slope_col_alias(), a));
        proof {
            assert(series_view(r@) =~= self.spec_ys());
        }
        r
    }
}

/// The name of a channel's mean table: `channel_<id>_mean.csv` when both
/// categories are merged, else `channel_<id>_mean_<category>.csv`.
pub open spec fn spec_mean_csv_filename(channel_id: u32, mode: Mode) -> Seq<char> {
    "channel_"@ + decimal_nat(channel_id as nat) + match mode {
        Mode::Both => "_mean.csv"@,
        Mode::U => "_mean_U.csv"@,
        Mode::Alpha => "_mean_Alpha.csv"@,
    }
}

/// The name of a channel's mean table (see `spec_mean_csv_filename`).
pub fn mean_csv_filename(channel_id: u32, mode: Mode) -> (r: String)
    ensures
        r@ == spec_mean_csv_filename(channel_id, mode),
{
    let mut s = String::from_str("channel_");
    push_decimal(&mut s, channel_id as u64);
    match mode {
        Mode::Both => s.append("_mean.csv"),
        Mode::U => s.append("_mean_U.csv"),
        Mode::Alpha => s.append("_mean_Alpha.csv"),
    }
    s
}

/// The name of a channel's view table: `channel_<id>_total.csv`.
pub fn total_csv_filename(channel_id: u32) -> (r: String)
    ensures
        r@ == "channel_"@ + decimal_nat(channel_id as nat) + "_total.csv"@,
{
    let mut s = String::from_str("channel_");
    push_decimal(&mut s, channel_id as u64);
    s.append("_total.csv");
    s
}

} // verus!
