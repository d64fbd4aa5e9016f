//! Post-processing of Hubbard U / alpha linear-response runs: sweep grids,
//! reading and reducing raw SCF tables, response slopes, per-channel views,
//! the U / alpha merge and the mean response at each sweep value.
//!
//! Numbers are fixed-point decimals (`value::Value`), so every figure the
//! pipeline produces is stated exactly by its contract.
pub mod args;
pub mod csv;
pub mod identifier;
pub mod job_type;
pub mod mean;
pub mod merged;
pub mod output;
pub mod reduce;
pub mod sequence;
pub mod text;
pub mod value;
pub mod views;

pub use args::{Mode, PerturbValue, PerturbValueConversionError};
pub use csv::{Column, SchemaError};
pub use job_type::{Alpha, HubbardType, JobType, U};
pub use merged::{
    merge_u_alpha_channel_view, ChannelMergedMeanView, ChannelMergedView, MergedMeanRow, MergedRow,
    ShapeMismatch,
};
pub use output::{mean_csv_filename, total_csv_filename, HubbardUPlot, ViewColumn};
pub use reduce::{RawRecord, RawTable, ReducedRecord};
pub use sequence::{NumLike, Sequence};
pub use value::{Value, SCALE};
pub use views::{ChannelMeanView, ChannelRow, ChannelView, MeanRow, TotalRow, TotalView, ViewType};
