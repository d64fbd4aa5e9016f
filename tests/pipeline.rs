use hubbard_data::{
    mean_csv_filename, merge_u_alpha_channel_view, total_csv_filename, Alpha, ChannelMeanView,
    ChannelMergedMeanView, ChannelView, Column, HubbardUPlot, Mode, PerturbValue,
    PerturbValueConversionError, RawTable, SchemaError, ShapeMismatch, TotalView, Value,
    ViewColumn, U,
};

use hubbard_data::output::value_to_text;

const HEADER: &str = "Jobname,Channel ID,Before SCF,1st SCF,Last SCF\n";

fn fin(x: f64) -> Value {
    Value::Finite((x * 1e9).round() as i64)
}

fn table<T: hubbard_data::JobType>(body: &str) -> RawTable<T> {
    RawTable::<T>::from_csv(&format!("{HEADER}{body}")).unwrap()
}

#[test]
fn reduction_sums_duplicate_spin_rows() {
    let t: RawTable<U> = table(
        "./r/U_2_u_1/X,1,10.0,20.0,30.0\n./r/U_2_u_1/X,1,5.0,5.0,5.0\n",
    );
    let reduced = t.reduce();
    assert_eq!(reduced.len(), 1);
    let r = &reduced[0];
    assert_eq!(r.run_id, "./r/U_2_u_1/X");
    assert_eq!(r.channel, Some(1));
    assert_eq!(r.sweep, Some(2));
    assert_eq!(r.step, Some(1));
    assert_eq!(r.s0, fin(15.0));
    assert_eq!(r.s1, fin(25.0));
    assert_eq!(r.sf, fin(35.0));
    assert_eq!(r.delta_first, fin(10.0));
    assert_eq!(r.delta_final, fin(20.0));
}

#[test]
fn reduction_keeps_first_seen_order_and_filters_depth() {
    let t: RawTable<U> = table(
        "./r/U_4_u_1/X,2,1,2,3\n./U_0_u/X,1,1,1,1\n./r/U_0_u_1/X,1,1,2,3\n./r/U_4_u_1/X,1,1,2,3\n./r/U_4_u_1/X,2,1,2,3\n",
    );
    let reduced = t.reduce();
    let keys: Vec<(String, Option<u32>)> =
        reduced.iter().map(|r| (r.run_id.clone(), r.channel)).collect();
    assert_eq!(
        keys,
        vec![
            ("./r/U_4_u_1/X".to_string(), Some(2)),
            ("./r/U_0_u_1/X".to_string(), Some(1)),
            ("./r/U_4_u_1/X".to_string(), Some(1)),
        ]
    );
    assert_eq!(reduced[0].s0, fin(2.0));
}

#[test]
fn derived_slopes_and_response() {
    // S1 - S0 = 2, SF - S0 = -2, step 1, magnitude 0.05
    let t: RawTable<U> = table("./r/U_0_u_1/X,1,1.0,3.0,-1.0\n");
    let total = t.process_data(50_000_000);
    let row = total.data()[0];
    assert_eq!(row.slope_first, fin(0.025));
    assert_eq!(row.slope_final, fin(-0.025));
    assert_eq!(row.response, fin(0.05));
    assert_eq!(row.perturbation, fin(0.05));
    assert_eq!(row.sweep, Some(0));
    assert_eq!(row.channel, Some(1));
}

#[test]
fn missing_cells_propagate() {
    let t: RawTable<U> = table("./r/U_0_u_1/X,x,1.0,oops,2.0\n./r/no_tags/X,1,1,2,3\n");
    let total = t.process_data(50_000_000);
    let rows = total.data();
    assert_eq!(rows[0].channel, None);
    assert_eq!(rows[0].delta_first, Value::Missing);
    assert_eq!(rows[0].slope_first, Value::Missing);
    assert_eq!(rows[0].response, Value::Missing);
    assert_eq!(rows[0].delta_final, fin(1.0));
    assert_eq!(rows[1].sweep, None);
    assert_eq!(rows[1].perturbation, Value::Missing);
    assert_eq!(total.channels(), vec![1]);
}

#[test]
fn zero_denominator_propagates() {
    let t: RawTable<U> = table("./r/U_0_u_1/X,1,1.0,1.0,2.0\n");
    let total = t.process_data(50_000_000);
    assert_eq!(total.data()[0].slope_first, Value::NonFinite);
    assert_eq!(total.data()[0].response, Value::NonFinite);
    let mean = total.to_channel_view(1).to_mean_view();
    assert_eq!(mean.data()[0].response, Value::NonFinite);
}

#[test]
fn schema_error_names_first_missing_column() {
    let r = RawTable::<U>::from_csv("Jobname,Before SCF,1st SCF,Last SCF\n./a/b/c,1,2,3\n");
    assert!(matches!(r, Err(SchemaError { missing: Column::ChannelId })));
    let r = RawTable::<U>::from_csv("");
    assert!(matches!(r, Err(SchemaError { missing: Column::Jobname })));
    let r = RawTable::<Alpha>::from_csv("Jobname,Channel ID,Before SCF,1st SCF\n");
    assert!(matches!(r, Err(SchemaError { missing: Column::LastScf })));
}

#[test]
fn csv_columns_by_name_crlf_and_blank_lines() {
    let text = "Last SCF,Spin,Jobname,1st SCF,Channel ID,Before SCF\r\n3.0,1,./r/U_0_u_1/X,2.0,7,1.0\r\n\r\n";
    let t = RawTable::<U>::from_csv(text).unwrap();
    assert_eq!(t.data().len(), 1);
    let rec = &t.data()[0];
    assert_eq!(rec.run_id, "./r/U_0_u_1/X");
    assert_eq!(rec.channel, Some(7));
    assert_eq!(rec.scf_before, fin(1.0));
    assert_eq!(rec.scf_first, fin(2.0));
    assert_eq!(rec.scf_final, fin(3.0));
    let short = RawTable::<U>::from_csv(&format!("{HEADER}./r/U_0_u_1/X,7\n")).unwrap();
    assert_eq!(short.data()[0].scf_before, Value::Missing);
}

#[test]
fn channels_are_distinct_in_first_seen_order() {
    let t: RawTable<U> = table(
        "./r/U_0_u_1/X,3,1,2,3\n./r/U_0_u_1/X,1,1,2,3\n./r/U_0_u_2/X,3,1,2,3\n./r/U_0_u_2/X,2,1,2,3\n",
    );
    let total = t.process_data(50_000_000);
    assert_eq!(total.channels(), vec![3, 1, 2]);
    let view = total.to_channel_view(3);
    assert_eq!(view.data().len(), 2);
    assert_eq!(view.data()[1].perturbation, fin(0.1));
}

fn channel_view_u(runs: usize) -> ChannelView<U> {
    let mut body = String::new();
    for i in 0..runs {
        body.push_str(&format!("./r/U_{}_u_1/X,1,1,2,3\n", 2 * i));
    }
    table::<U>(&body).process_data(50_000_000).to_channel_view(1)
}

fn channel_view_alpha(runs: usize) -> ChannelView<Alpha> {
    let mut body = String::new();
    for i in 0..runs {
        body.push_str(&format!("./r/U_{}_alpha_1/X,1,1,3,5\n", 2 * i));
    }
    table::<Alpha>(&body).process_data(50_000_000).to_channel_view(1)
}

#[test]
fn merge_row_count_mismatch_fails() {
    let r = channel_view_u(3).concat_alpha(channel_view_alpha(2));
    assert!(matches!(r, Err(ShapeMismatch { u_rows: 3, alpha_rows: 2 })));
}

#[test]
fn merge_side_by_side() {
    let merged = channel_view_u(2).concat_alpha(channel_view_alpha(2)).unwrap();
    let rows = merged.data();
    assert_eq!(rows.len(), 2);
    assert_eq!(rows[1].sweep, Some(2));
    // u: 0.05 / 1 - 0.05 / 2; alpha: 0.05 / 2 - 0.05 / 4
    assert_eq!(rows[0].u_response, fin(0.025));
    assert_eq!(rows[0].alpha_response, fin(0.0125));
    let mean = merged.view_mean();
    assert_eq!(mean.data().len(), 2);
    assert_eq!(mean.data()[0].sweep, 0);
    assert_eq!(mean.data()[1].u_response, fin(0.025));
}

#[test]
fn mean_aggregation_with_duplicates() {
    // responses 2.0 (step 1) and 4.0 (step 2) at sweep 4; magnitude 1.0
    let t: RawTable<U> = table(
        "./r/U_6_u_1/X,1,0,1,2\n./r/U_4_u_1/X,1,0,0.25,0.5\n./r/U_4_u_2/X,1,0,0.25,0.5\n",
    );
    let total = t.process_data(1_000_000_000);
    let view = total.to_channel_view(1);
    let responses: Vec<Value> = view.data().iter().map(|r| r.response).collect();
    assert_eq!(responses, vec![fin(0.5), fin(2.0), fin(4.0)]);
    let mean: ChannelMeanView<U> = view.to_mean_view();
    let rows = mean.data();
    assert_eq!(rows.len(), 2);
    assert_eq!((rows[0].sweep, rows[0].response), (6, fin(0.5)));
    assert_eq!((rows[1].sweep, rows[1].response), (4, fin(3.0)));
}

#[test]
fn end_to_end_identifiers_of_depth_two_are_filtered() {
    let t: RawTable<U> = table("./U_0_u_0/X,1,1.0,1.5,2.0\n./U_0_u_1/X,1,1.0,1.5,2.0\n");
    let total = t.process_data(50_000_000);
    assert_eq!(total.data().len(), 0);
}

#[test]
fn end_to_end_single_row_per_sweep() {
    let t: RawTable<U> =
        table("./run/U_0_u_0/X,1,1.0,1.5,2.0\n./run/U_0_u_1/X,1,1.0,1.5,2.0\n");
    let total = t.process_data(50_000_000);
    let steps: Vec<Option<i32>> = t.reduce().iter().map(|r| r.step).collect();
    assert_eq!(steps, vec![Some(0), Some(1)]);
    assert!(t.reduce().iter().all(|r| r.sweep == Some(0)));
    let mean = total.to_channel_view(1).to_mean_view();
    assert_eq!(mean.data().len(), 1);
    assert_eq!(mean.data()[0].sweep, 0);
    // (0 + (0.05 / 0.5 - 0.05 / 1.0)) / 2
    assert_eq!(mean.data()[0].response, fin(0.025));
    assert_eq!(mean.to_csv(), "U,n1-nF_U\n0,0.025000000\n");
    assert_eq!(mean.xs(), vec!["0".to_string()]);
    let ys = mean.ys();
    assert_eq!(ys[0].0, "n1-nF_U");
    assert_eq!(ys[0].1, vec![fin(0.025)]);
}

#[test]
fn lib_it_works() {
    let u = table::<U>("./r/U_0_u_1/X,1,1,2,3\n./r/U_0_u_1/X,2,1,2,3\n./r/U_2_u_1/X,2,1,2,3\n")
        .process_data(50_000_000);
    let alpha = table::<Alpha>(
        "./r/U_0_alpha_1/X,5,1,3,5\n./r/U_0_alpha_1/X,6,1,3,5\n./r/U_2_alpha_1/X,6,1,3,5\n",
    )
    .process_data(50_000_000);
    let merged = merge_u_alpha_channel_view(&u, &alpha);
    assert_eq!(merged.len(), 2);
    assert_eq!(merged[0].0, 1);
    let first: &ChannelMergedMeanView = merged[0].1.as_ref().unwrap();
    assert_eq!(first.to_csv(), "U,n1-nF_U,n1-nF_Alpha\n0,0.025000000,0.012500000\n");
    let second = merged[1].1.as_ref().unwrap();
    assert_eq!(second.xs(), vec!["0".to_string(), "2".to_string()]);
    assert_eq!(second.ys().len(), 2);
    assert_eq!(second.ys()[1].0, "n1-nF_Alpha");
}

#[test]
fn merge_per_channel_isolates_failures() {
    let u = table::<U>("./r/U_0_u_1/X,1,1,2,3\n./r/U_2_u_1/X,1,1,2,3\n./r/U_0_u_1/X,2,1,2,3\n")
        .process_data(50_000_000);
    let alpha = table::<Alpha>("./r/U_0_alpha_1/X,1,1,3,5\n./r/U_0_alpha_1/X,2,1,3,5\n")
        .process_data(50_000_000);
    let merged = merge_u_alpha_channel_view(&u, &alpha);
    assert!(matches!(merged[0].1, Err(ShapeMismatch { u_rows: 2, alpha_rows: 1 })));
    assert!(merged[1].1.is_ok());
}

#[test]
fn column_names_of_each_stage() {
    assert_eq!(
        TotalView::<Alpha>::column_names(),
        vec!["Channel ID", "U", "S1-S0", "SF-S0", "alpha/S1-S0", "alpha/SF-S0", "alpha_pert", "n1-nF"]
    );
    assert_eq!(ChannelView::<U>::column_names(), vec!["U", "u_pert", "n1-nF_U"]);
    assert_eq!(ChannelMeanView::<Alpha>::column_names(), vec!["U", "n1-nF_Alpha"]);
    assert_eq!(
        hubbard_data::ChannelMergedView::column_names(),
        vec!["U", "u_pert", "n1-nF_U", "alpha_pert", "n1-nF_Alpha"]
    );
    assert_eq!(ChannelMergedMeanView::column_names(), vec!["U", "n1-nF_U", "n1-nF_Alpha"]);
}

#[test]
fn output_file_names() {
    assert_eq!(mean_csv_filename(12, Mode::Both), "channel_12_mean.csv");
    assert_eq!(mean_csv_filename(0, Mode::U), "channel_0_mean_U.csv");
    assert_eq!(mean_csv_filename(3, Mode::Alpha), "channel_3_mean_Alpha.csv");
    assert_eq!(total_csv_filename(7), "channel_7_total.csv");
}

#[test]
fn mode_and_perturb_values() {
    assert_eq!(Mode::default(), Mode::Both);
    let both = PerturbValue::perturb_value(Mode::Both, 1, 2);
    assert_eq!(both.try_into_both(), Ok((1, 2)));
    assert_eq!(both.try_into_single(), Err(PerturbValueConversionError::NotSingle));
    let single = PerturbValue::perturb_value(Mode::Alpha, 1, 2);
    assert_eq!(single.try_into_single(), Ok(2));
    assert_eq!(single.try_into_both(), Err(PerturbValueConversionError::NotBoth));
    assert_eq!(PerturbValue::perturb_value(Mode::U, 1, 2).try_into_single(), Ok(1));
    assert_eq!(PerturbValueConversionError::NotBoth.message(), "The mode is not `Both`");
}

#[test]
fn value_cells_as_text() {
    assert_eq!(value_to_text(fin(-1.5)), "-1.500000000");
    assert_eq!(value_to_text(Value::NonFinite), "NaN");
    assert_eq!(value_to_text(Value::Missing), "");
}

#[test]
fn channel_view_as_csv() {
    let t: RawTable<U> = table("./r/U_0_u_1/X,1,1.0,3.0,-1.0\n./r/no/X,1,1,2,3\n");
    let view = t.process_data(50_000_000).to_channel_view(1);
    assert_eq!(view.to_csv(), "U,u_pert,n1-nF_U\n0,0.050000000,0.050000000\n,,\n");
}
