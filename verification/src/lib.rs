//! Chart normalisation and multi-rate difficulty evaluation for rhythm-game
//! charts.
//!
//! The notes of a chart are merged into rows, one for each time at which
//! something is struck, and the rows are handed to a scoring engine, which
//! gives the scores of the chart for eight skillsets at fourteen music rates
//! or at one. The scoring engine itself is no part of this library: whoever
//! evaluates hands in the calls that reach it.
//!
//! Every real quantity (a time, a rate, a score, a lane position) is carried
//! as a signed count of millionths, so that all of the arithmetic is exact:
//! a time is a count of microseconds, the rate 1.0x is `1_000_000`.

pub mod error;
pub mod first;
pub mod fixed;
pub mod hashmap;
pub mod osu;
pub mod report;
pub mod rows;
pub mod rox;
pub mod text;
pub mod thread;
pub mod utils;
pub mod wrapper;

pub use error::{
    ConversionFault, InternalFault, MinaCalcError, MinaCalcResult, NoteDataError, OsuError,
    OsuResult, RowFault, RoxError, RoxResult,
};
pub use hashmap::{HashMapCalcExt, KeyedScores};
pub use osu::OsuCalcExt;
pub use rox::RoxCalcExt;
pub use thread::{Polling, ThreadSafeCalcPool};
pub use utils::{calculate_highest_patterns, calculate_highest_patterns_from_ssr, Skillset};
pub use wrapper::{
    AllRates, Calc, EngineHandle, MsdForAllRates, Note, NoteInfo, SkillsetScores, Ssr,
};
