//! The two categories of perturbation run, U and alpha, and what tells them
//! apart: file and column names and the tag of the perturbation step.
use vstd::prelude::*;
use vstd::string::*;

use crate::identifier::{extract_tagged_number, tagged_number};
use crate::value::{slope, spec_slope, Value};

verus! {

/// The category of a perturbation run, as a value.
#[derive(Debug, Clone, Copy, PartialEq, Eq, Structural)]
pub enum HubbardType {
    U,
    Alpha,
}

/// The U category.
#[derive(Debug, Clone, Copy, PartialEq, Eq, Structural)]
pub struct U;

/// The alpha category.
#[derive(Debug, Clone, Copy, PartialEq, Eq, Structural)]
pub struct Alpha;

/// What distinguishes the two categories.  No other part of the library
/// tells them apart by name.
pub trait JobType: Sized {
    spec fn spec_hubbard_type() -> HubbardType;

    /// The tag before the perturbation step in a run identifier.
    spec fn spec_perturb_tag() -> Seq<char>;

    /// The category as a value.
    fn job_type() -> (r: HubbardType)
        ensures
            r == Self::spec_hubbard_type(),
    ;

    /// Name of the category's raw result table.
    fn csv_filename() -> (r: String)
        ensures
            r@ == category_text(
                Self::spec_hubbard_type(),
                "result_u_final.csv"@,
                "result_alpha_final.csv"@,
            ),
    ;

    /// Column of the perturbation applied to a run.
    fn nth_perturb_col_alias() -> (r: String)
        ensures
            r@ == category_text(Self::spec_hubbard_type(), "u_pert"@, "alpha_pert"@),
    ;

    /// Column of the slope for 1st SCF - Before SCF.
    fn slope_first_col_alias() -> (r: String)
        ensures
            r@ == category_text(Self::spec_hubbard_type(), "u/S1-S0"@, "alpha/S1-S0"@),
    ;

    /// Column of the slope for Last SCF - Before SCF.
    fn slope_final_col_alias() -> (r: String)
        ensures
            r@ == category_text(Self::spec_hubbard_type(), "u/SF-S0"@, "alpha/SF-S0"@),
    ;

    /// Column of the response, `slope_first - slope_final`.
    fn delta_slope_col_alias() -> (r: String)
        ensures
            r@ == category_text(Self::spec_hubbard_type(), "n1-nF_U"@, "n1-nF_Alpha"@),
    ;

    /// The perturbation step of a run identifier (`u_<digits>` or
    /// `alpha_<digits>`).
    fn perturb_expr(run_id: &str) -> (r: Option<i32>)
        ensures
            r == tagged_number(run_id@, Self::spec_perturb_tag()),
    ;

    /// The slopes of a run, `step * magnitude / (S1 - S0)` and
    /// `step * magnitude / (SF - S0)`, with `magnitude` the perturbation per
    /// step.
    fn slope_expr(step: Option<i32>, magnitude: i64, delta_first: Value, delta_final: Value) -> (r: [Value; 2])
        ensures
            r[0] == spec_slope(step, magnitude, delta_first),
            r[1] == spec_slope(step, magnitude, delta_final),
    {
        [slope(step, magnitude, delta_first), slope(step, magnitude, delta_final)]
    }
}

/// `u` for the U category, `alpha` for the alpha one.
pub open spec fn category_text(t: HubbardType, u: Seq<char>, alpha: Seq<char>) -> Seq<char> {
    match t {
        HubbardType::U => u,
        HubbardType::Alpha => alpha,
    }
}

pub(crate) fn text(s: &str) -> (r: String)
    ensures
        r@ == s@,
{
    String::from_str(s)
}

impl JobType for U {
    open spec fn spec_hubbard_type() -> HubbardType {
        HubbardType::U
    }

    open spec fn spec_perturb_tag() -> Seq<char> {
        seq!['u', '_']
    }

    fn job_type() -> (r: HubbardType) {
        HubbardType::U
    }

    fn csv_filename() -> (r: String) {
        text("result_u_final.csv")
    }

    fn nth_perturb_col_alias() -> (r: String) {
        text("u_pert")
    }

    fn slope_first_col_alias() -> (r: String) {
        text("u/S1-S0")
    }

    fn slope_final_col_alias() -> (r: String) {
        text("u/SF-S0")
    }

    fn delta_slope_col_alias() -> (r: String) {
        text("n1-nF_U")
    }

    fn perturb_expr(run_id: &str) -> (r: Option<i32>) {
        proof {
            reveal_strlit("u_");
            assert("u_"@ =~= Self::spec_perturb_tag());
        }
        extract_tagged_number(run_id, "u_")
    }
}

impl JobType for Alpha {
    open spec fn spec_hubbard_type() -> HubbardType {
        HubbardType::Alpha
    }

    open spec fn spec_perturb_tag() -> Seq<char> {
        seq!['a', 'l', 'p', 'h', 'a', '_']
    }

    fn job_type() -> (r: HubbardType) {
        HubbardType::Alpha
    }

    fn csv_filename() -> (r: String) {
        text("result_alpha_final.csv")
    }

    fn nth_perturb_col_alias() -> (r: String) {
        text("alpha_pert")
    }

    fn slope_first_col_alias() -> (r: String) {
        text("alpha/S1-S0")
    }

    fn slope_final_col_alias() -> (r: String) {
        text("alpha/SF-S0")
    }

    fn delta_slope_col_alias() -> (r: String) {
        text("n1-nF_Alpha")
    }

    fn perturb_expr(run_id: &str) -> (r: Option<i32>) {
        proof {
            reveal_strlit("alpha_");
            assert("alpha_"@ =~= Self::spec_perturb_tag());
        }
        extract_tagged_number(run_id, "alpha_")
    }
}

} // verus!
