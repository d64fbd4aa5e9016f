use hubbard_data::identifier::{count_occurrences, extract_tagged_number, is_perturbed_run, sweep_value};
use hubbard_data::text::{chars_of, fixed_to_text, int_text, parse_u32, parse_value, split_chars};
use hubbard_data::value::{mean_column, scaled_step, slope, sum_column};
use hubbard_data::{Alpha, JobType, Value, U};

fn cell(s: &str) -> Vec<char> {
    s.chars().collect()
}

fn fin(x: f64) -> Value {
    Value::Finite((x * 1e9).round() as i64)
}

#[test]
fn parse_decimal_cells() {
    assert_eq!(parse_value(&cell("10.0")), Value::Finite(10_000_000_000));
    assert_eq!(parse_value(&cell("-2.5")), Value::Finite(-2_500_000_000));
    assert_eq!(parse_value(&cell("+3")), Value::Finite(3_000_000_000));
    assert_eq!(parse_value(&cell(".5")), Value::Finite(500_000_000));
    assert_eq!(parse_value(&cell("5.")), Value::Finite(5_000_000_000));
    assert_eq!(parse_value(&cell("0.1234567899")), Value::Finite(123_456_789));
    assert_eq!(parse_value(&cell("-0.05")), Value::Finite(-50_000_000));
}

#[test]
fn parse_decimal_rejects_malformed_cells() {
    assert_eq!(parse_value(&cell("")), Value::Missing);
    assert_eq!(parse_value(&cell("-")), Value::Missing);
    assert_eq!(parse_value(&cell(".")), Value::Missing);
    assert_eq!(parse_value(&cell("abc")), Value::Missing);
    assert_eq!(parse_value(&cell("1.2.3")), Value::Missing);
    assert_eq!(parse_value(&cell("1e")), Value::Missing);
    assert_eq!(parse_value(&cell("e5")), Value::Missing);
    assert_eq!(parse_value(&cell("1e+")), Value::Missing);
    assert_eq!(parse_value(&cell("1e5x")), Value::Missing);
    assert_eq!(parse_value(&cell(" 1")), Value::Missing);
}

#[test]
fn parse_exponent_cells() {
    assert_eq!(parse_value(&cell("1e5")), Value::Finite(100_000_000_000_000));
    assert_eq!(parse_value(&cell("1.5e-3")), Value::Finite(1_500_000));
    assert_eq!(parse_value(&cell("2E+2")), Value::Finite(200_000_000_000));
    assert_eq!(parse_value(&cell("-2.5E-1")), Value::Finite(-250_000_000));
    assert_eq!(parse_value(&cell("1e-10")), Value::Finite(0));
    assert_eq!(parse_value(&cell("123456e-14")), Value::Finite(1));
    assert_eq!(parse_value(&cell("-0.0")), Value::Finite(0));
    assert_eq!(parse_value(&cell("1e400")), Value::NonFinite);
    assert_eq!(parse_value(&cell("0e999999999999999999999999999999999")), Value::Finite(0));
    assert_eq!(parse_value(&cell("7e-999999999999999999999999999999999")), Value::Finite(0));
    assert_eq!(parse_value(&cell("7e999999999999999999999999999999999")), Value::NonFinite);
}

#[test]
fn parse_non_finite_words() {
    assert_eq!(parse_value(&cell("NaN")), Value::NonFinite);
    assert_eq!(parse_value(&cell("-inf")), Value::NonFinite);
    assert_eq!(parse_value(&cell("+Infinity")), Value::NonFinite);
    assert_eq!(parse_value(&cell("nan1")), Value::Missing);
    assert_eq!(parse_value(&cell("--inf")), Value::Missing);
}

#[test]
fn parse_decimal_out_of_range_is_non_finite() {
    assert_eq!(parse_value(&cell("12345678901234567890")), Value::NonFinite);
    assert_eq!(parse_value(&cell("-9300000000")), Value::NonFinite);
    assert_eq!(parse_value(&cell("9223372036.854775807")), Value::Finite(i64::MAX));
}

#[test]
fn parse_channel_cells() {
    assert_eq!(parse_u32(&cell("1")), Some(1));
    assert_eq!(parse_u32(&cell("007")), Some(7));
    assert_eq!(parse_u32(&cell("4294967295")), Some(u32::MAX));
    assert_eq!(parse_u32(&cell("4294967296")), None);
    assert_eq!(parse_u32(&cell("-1")), None);
    assert_eq!(parse_u32(&cell("")), None);
    assert_eq!(parse_u32(&cell("1.0")), None);
}

#[test]
fn duplicate_spin_rows_sum() {
    let s0 = sum_column(&vec![fin(10.0), fin(5.0)]);
    let s1 = sum_column(&vec![fin(20.0), fin(5.0)]);
    let sf = sum_column(&vec![fin(30.0), fin(5.0)]);
    assert_eq!(s0, fin(15.0));
    assert_eq!(s1, fin(25.0));
    assert_eq!(sf, fin(35.0));
}

#[test]
fn sum_leaves_missing_out_and_never_fabricates_zero() {
    assert_eq!(sum_column(&vec![Value::Missing, fin(2.0)]), fin(2.0));
    assert_eq!(sum_column(&vec![Value::Missing, Value::Missing]), Value::Missing);
    assert_eq!(sum_column(&vec![]), Value::Missing);
    assert_eq!(sum_column(&vec![Value::NonFinite, fin(2.0)]), Value::NonFinite);
    assert_eq!(
        sum_column(&vec![Value::Finite(i64::MAX), Value::Finite(1)]),
        Value::NonFinite
    );
}

#[test]
fn slope_sign_convention() {
    let m = 50_000_000; // 0.05
    let first = slope(Some(1), m, fin(2.0));
    let last = slope(Some(1), m, fin(-2.0));
    assert_eq!(first, fin(0.025));
    assert_eq!(last, fin(-0.025));
    assert_eq!(first.sub(last), fin(0.05));
}

#[test]
fn slope_zero_denominator_is_non_finite() {
    assert_eq!(slope(Some(1), 50_000_000, Value::Finite(0)), Value::NonFinite);
    assert_eq!(slope(Some(0), 50_000_000, Value::Finite(0)), Value::NonFinite);
    assert_eq!(slope(None, 50_000_000, fin(1.0)), Value::Missing);
    assert_eq!(slope(Some(1), 50_000_000, Value::Missing), Value::Missing);
    assert_eq!(slope(Some(2), 50_000_000, Value::NonFinite), Value::NonFinite);
    // 0.05 / 3 rounds towards zero at the ninth digit
    assert_eq!(slope(Some(1), 50_000_000, fin(3.0)), Value::Finite(16_666_666));
    assert_eq!(slope(Some(-1), 50_000_000, fin(3.0)), Value::Finite(-16_666_666));
}

#[test]
fn scaled_step_is_step_times_magnitude() {
    assert_eq!(scaled_step(Some(3), 50_000_000), fin(0.15));
    assert_eq!(scaled_step(None, 50_000_000), Value::Missing);
}

#[test]
fn mean_of_duplicates() {
    assert_eq!(mean_column(&vec![fin(2.0), fin(4.0)]), fin(3.0));
    assert_eq!(mean_column(&vec![fin(2.0), Value::Missing, fin(4.0)]), fin(3.0));
    assert_eq!(mean_column(&vec![Value::Missing]), Value::Missing);
    assert_eq!(mean_column(&vec![fin(2.0), Value::NonFinite]), Value::NonFinite);
    assert_eq!(mean_column(&vec![Value::Finite(-1), Value::Finite(-2)]), Value::Finite(-1));
    assert_eq!(
        mean_column(&vec![Value::Finite(i64::MAX), Value::Finite(i64::MAX)]),
        Value::Finite(i64::MAX)
    );
}

#[test]
fn value_add_and_sub() {
    assert_eq!(fin(1.5).add(fin(2.0)), fin(3.5));
    assert_eq!(fin(1.5).sub(fin(2.0)), fin(-0.5));
    assert_eq!(fin(1.5).sub(Value::Missing), Value::Missing);
    assert_eq!(Value::NonFinite.add(fin(1.0)), Value::NonFinite);
    assert_eq!(Value::Finite(i64::MIN).sub(Value::Finite(1)), Value::NonFinite);
    assert_eq!(fin(2.0).finite(), Some(2_000_000_000));
}

#[test]
fn run_identifier_depth() {
    assert_eq!(count_occurrences("./a/b/c", '/'), 3);
    assert!(is_perturbed_run("./U_0/U_0_u_1/ZnO_LR"));
    assert!(!is_perturbed_run("./U_0_u/ZnO_LR"));
    assert!(!is_perturbed_run(""));
}

#[test]
fn run_identifier_numbers() {
    assert_eq!(sweep_value("./U_12_u_3/X"), Some(12));
    assert_eq!(U::perturb_expr("./U_12_u_3/X"), Some(3));
    assert_eq!(Alpha::perturb_expr("./U_4_alpha_2/X"), Some(2));
    assert_eq!(U::perturb_expr("./U_4_alpha_2/X"), None);
    assert_eq!(sweep_value("./u_1/X"), None);
    assert_eq!(sweep_value("./U_x_U_7/X"), Some(7));
    assert_eq!(sweep_value("./U_99999999999/X"), None);
    assert_eq!(extract_tagged_number("ab_0012c", "b_"), Some(12));
}

#[test]
fn text_helpers() {
    assert_eq!(int_text(-42), "-42");
    assert_eq!(int_text(0), "0");
    assert_eq!(int_text(i64::MIN), "-9223372036854775808");
    assert_eq!(fixed_to_text(3_000_000_000), "3.000000000");
    assert_eq!(fixed_to_text(-25_000_000), "-0.025000000");
    assert_eq!(chars_of("ab"), vec!['a', 'b']);
    assert_eq!(
        split_chars(&cell("a,,b"), ','),
        vec![vec!['a'], vec![], vec!['b']]
    );
}

#[test]
fn category_names() {
    assert_eq!(U::csv_filename(), "result_u_final.csv");
    assert_eq!(Alpha::csv_filename(), "result_alpha_final.csv");
    assert_eq!(U::nth_perturb_col_alias(), "u_pert");
    assert_eq!(Alpha::slope_first_col_alias(), "alpha/S1-S0");
    assert_eq!(U::slope_final_col_alias(), "u/SF-S0");
    assert_eq!(Alpha::delta_slope_col_alias(), "n1-nF_Alpha");
    assert_eq!(U::job_type(), hubbard_data::HubbardType::U);
}
