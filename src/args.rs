//! What the caller chooses: which categories to analyse, and the
//! perturbation per step of each.
use vstd::prelude::*;

verus! {

/// Which categories to analyse.
#[derive(Debug, Clone, Copy, PartialEq, Eq, Structural)]
pub enum Mode {
    /// Both U and alpha results, merged per channel.
    Both,
    /// The U results only.
    U,
    /// The alpha results only.
    Alpha,
}

impl Default for Mode {
    fn default() -> (r: Mode)
        ensures
            r == Mode::Both,
    {
        Mode::Both
    }
}

/// The perturbation(s) per step that a mode needs (fixed point, units of
/// `1 / SCALE`).
#[derive(Debug, Clone, Copy)]
pub enum PerturbValue {
    /// (U perturbation, alpha perturbation).
    Both((i64, i64)),
    /// The perturbation of the one category analysed.
    Single(i64),
}

/// The perturbation value is not of the kind asked for.
#[derive(Debug, Clone, Copy, PartialEq, Eq, Structural)]
pub enum PerturbValueConversionError {
    NotSingle,
    NotBoth,
}

impl PerturbValueConversionError {
    /// The message of the error.
    pub fn message(&self) -> (r: String)
        ensures
            r@ == match self {
                PerturbValueConversionError::NotSingle => "The mode is not `Single`"@,
                PerturbValueConversionError::NotBoth => "The mode is not `Both`"@,
            },
    {
        match self {
            PerturbValueConversionError::NotSingle => String::from_str("The mode is not `Single`"),
            PerturbValueConversionError::NotBoth => String::from_str("The mode is not `Both`"),
        }
    }
}

impl PerturbValue {
    /// The perturbation value(s) that `mode` uses.
    pub fn perturb_value(mode: Mode, u_perturb_val: i64, alpha_perturb_val: i64) -> (r: PerturbValue)
        ensures
            r == match mode {
                Mode::Both => PerturbValue::Both((u_perturb_val, alpha_perturb_val)),
                Mode::U => PerturbValue::Single(u_perturb_val),
                Mode::Alpha => PerturbValue::Single(alpha_perturb_val),
            },
    {
        match mode {
            Mode::Both => PerturbValue::Both((u_perturb_val, alpha_perturb_val)),
            Mode::U => PerturbValue::Single(u_perturb_val),
            Mode::Alpha => PerturbValue::Single(alpha_perturb_val),
        }
    }

    pub fn try_into_single(self) -> (r: Result<i64, PerturbValueConversionError>)
        ensures
            r == match self {
                PerturbValue::Single(v) => Ok::<i64, PerturbValueConversionError>(v),
                PerturbValue::Both(_) => Err(PerturbValueConversionError::NotSingle),
            },
    {
        match self {
            PerturbValue::Single(v) => Ok(v),
            PerturbValue::Both(_) => Err(PerturbValueConversionError::NotSingle),
        }
    }

    pub fn try_into_both(self) -> (r: Result<(i64, i64), PerturbValueConversionError>)
        ensures
            r == match self {
                PerturbValue::Both(v) => Ok::<(i64, i64), PerturbValueConversionError>(v),
                PerturbValue::Single(_) => Err(PerturbValueConversionError::NotBoth),
            },
    {
        match self {
            PerturbValue::Both(v) => Ok(v),
            PerturbValue::Single(_) => Err(PerturbValueConversionError::NotBoth),
        }
    }
}

} // verus!
