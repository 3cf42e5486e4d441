//! Failure types. Every failure is a plain value that names its cause; the
//! text shown to a user is produced from it on demand.

use vstd::prelude::*;
use vstd::std_specs::convert::FromSpecImpl;
use vstd::string::StringExecFns;
use crate::osu::{GameMode, HitObjectKind};
use crate::text::{decimal, decimal_text, fixed, fixed_text, rate_key, rate_key_text};

verus! {

/// Why note or score data was refused.
#[derive(Debug, Clone, Copy, PartialEq, Eq)]
pub enum NoteDataError {
    /// A note without any active lane.
    NoColumns,
    /// A note before time zero.
    NegativeRowTime,
    /// A score outside `[0, 1000]`.
    ScoreOutOfBounds { score: i64 },
    /// A score outside `[0, 1000]` in the table entry `index`.
    RateScoreOutOfBounds { index: usize, score: i64 },
    /// An empty list of rates.
    NoRatesProvided,
    /// A rate outside `[0.7, 2.0]`.
    RateOutOfRange { rate: i64 },
    /// A rate whose table index is not below 14.
    RateIndexOutOfBounds { rate: i64, index: usize },
}

/// A fault inside the library's own machinery.
#[derive(Debug, Clone, Copy, PartialEq, Eq)]
pub enum InternalFault {
    /// No calculator could be obtained within `timeout_ms` milliseconds.
    AcquireTimeout { timeout_ms: u64 },
}

/// Why a row of a normalised chart was refused; `index` is its position.
#[derive(Debug, Clone, Copy, PartialEq, Eq)]
pub enum RowFault {
    NoColumns { index: usize },
    NegativeTime { index: usize },
    /// The row shares its time with the row before it.
    DuplicateTime { index: usize },
    /// The row lies before the row before it.
    FallingTime { index: usize },
    /// The event `index` of the chart names a lane the chart does not have.
    ColumnOutOfRange { index: usize, column: u8 },
}

/// Failures of the universal chart path.
#[derive(Debug, Clone, PartialEq, Eq)]
pub enum RoxError {
    /// The chart file could not be decoded.
    DecodeFailed(String),
    /// A chart rate that is not positive.
    InvalidRate(i64),
    /// A chart without notes.
    NoNotes,
    InvalidNote(RowFault),
    UnsupportedKeyCount(usize),
}

/// Why a beatmap could not be turned into notes.
#[derive(Debug, Clone, Copy, PartialEq, Eq)]
pub enum ConversionFault {
    /// A hit object before time zero.
    NegativeTime,
    /// A beatmap without hit objects.
    NoValidNotes,
    /// An empty row sequence handed to validation.
    NoNotesToValidate,
    NoColumns { index: usize },
    /// A row with a lane that a chart with `key_count` keys lacks.
    ExceedsKeyLimit { index: usize, key_count: u32 },
    NegativeRowTime { index: usize },
    /// The row shares its time with the row before it.
    DuplicateTime { index: usize },
    /// The row lies before the row before it.
    FallingTime { index: usize },
}

/// Failures of the beatmap path.
#[derive(Debug, Clone, PartialEq, Eq)]
pub enum OsuError {
    /// A horizontal position that is no lane of the chart.
    UnsupportedColumn(i64),
    UnsupportedHitObjectKind(HitObjectKind),
    HitObjectConversion(ConversionFault),
    ValidationFailed(String),
    /// The beatmap text could not be parsed.
    ParseFailed(String),
    UnsupportedGameMode(GameMode),
    /// A circle size other than 4, 6 or 7.
    UnsupportedKeyCount(i64),
}

/// Failures of the calculator and of everything built on it.
#[derive(Debug, Clone, PartialEq, Eq)]
pub enum MinaCalcError {
    CalculatorCreationFailed,
    NoNotesProvided,
    /// A music rate that is not positive.
    InvalidMusicRate(i64),
    /// A score goal outside `(0, 100]`.
    InvalidScoreGoal(i64),
    CalculationFailed(String),
    InvalidNoteData(NoteDataError),
    MemoryAllocationFailed,
    InternalError(InternalFault),
    RoxError(RoxError),
    OsuError(OsuError),
    /// A key count other than 4, 6 or 7.
    UnsupportedKeyCount(u32),
}

pub type MinaCalcResult<T> = Result<T, MinaCalcError>;

pub type RoxResult<T> = Result<T, RoxError>;

pub type OsuResult<T> = Result<T, OsuError>;

impl From<RoxError> for MinaCalcError {
    fn from(rox_err: RoxError) -> (r: Self) {
        MinaCalcError::RoxError(rox_err)
    }
}

impl FromSpecImpl<RoxError> for MinaCalcError {
    open spec fn obeys_from_spec() -> bool {
        true
    }

    open spec fn from_spec(rox_err: RoxError) -> Self {
        MinaCalcError::RoxError(rox_err)
    }
}

impl From<OsuError> for MinaCalcError {
    fn from(osu_err: OsuError) -> (r: Self) {
        MinaCalcError::OsuError(osu_err)
    }
}

impl FromSpecImpl<OsuError> for MinaCalcError {
    open spec fn obeys_from_spec() -> bool {
        true
    }

    open spec fn from_spec(osu_err: OsuError) -> Self {
        MinaCalcError::OsuError(osu_err)
    }
}

/// Writes `head`, a number of millionths and `tail` one after the other.
fn with_fixed(head: &str, value: i64, tail: &str) -> (r: String)
    ensures
        r@ == head@ + fixed_text(value) + tail@,
{
    let mut text = String::from_str(head);
    let number = fixed(value);
    text.append(number.as_str());
    text.append(tail);
    text
}

/// Writes `head`, a count and `tail` one after the other.
fn with_count(head: &str, count: usize, tail: &str) -> (r: String)
    ensures
        r@ == head@ + decimal_text(count as nat) + tail@,
{
    let mut text = String::from_str(head);
    let number = decimal(count as u64);
    text.append(number.as_str());
    text.append(tail);
    text
}

/// Writes `head` and `rest` one after the other.
fn with_rest(head: &str, rest: &str) -> (r: String)
    ensures
        r@ == head@ + rest@,
{
    let mut text = String::from_str(head);
    text.append(rest);
    text
}

impl NoteDataError {
    /// The message for this failure.
    pub open spec fn text(self) -> Seq<char> {
        match self {
            NoteDataError::NoColumns => "Note must have at least one column"@,
            NoteDataError::NegativeRowTime => "Row time cannot be negative"@,
            NoteDataError::ScoreOutOfBounds { score } => "Score "@ + fixed_text(score)
                + " is out of reasonable bounds"@,
            NoteDataError::RateScoreOutOfBounds { index, score } => "Rate "@ + rate_key_text(
                index as nat,
            ) + ": Invalid note data: Score "@ + fixed_text(score)
                + " is out of reasonable bounds"@,
            NoteDataError::NoRatesProvided => "No rates provided"@,
            NoteDataError::RateOutOfRange { rate } => "Rate "@ + fixed_text(rate)
                + " is out of valid range [0.7, 2.0]"@,
            NoteDataError::RateIndexOutOfBounds { rate, index } => "Rate "@ + fixed_text(rate)
                + " index "@ + decimal_text(index as nat) + " out of bounds"@,
        }
    }

    /// Writes the message for this failure.
    pub fn message(&self) -> (r: String)
        ensures
            r@ == self.text(),
    {
        match self {
            NoteDataError::NoColumns => String::from_str("Note must have at least one column"),
            NoteDataError::NegativeRowTime => String::from_str("Row time cannot be negative"),
            NoteDataError::ScoreOutOfBounds { score } => with_fixed(
                "Score ",
                *score,
                " is out of reasonable bounds",
            ),
            NoteDataError::RateScoreOutOfBounds { index, score } => {
                let mut text = String::from_str("Rate ");
                let entry = rate_key(*index);
                text.append(entry.as_str());
                let rest = with_fixed(
                    ": Invalid note data: Score ",
                    *score,
                    " is out of reasonable bounds",
                );
                text.append(rest.as_str());
                proof {
                    assert(text@ =~= self.text());
                }
                text
            },
            NoteDataError::NoRatesProvided => String::from_str("No rates provided"),
            NoteDataError::RateOutOfRange { rate } => with_fixed(
                "Rate ",
                *rate,
                " is out of valid range [0.7, 2.0]",
            ),
            NoteDataError::RateIndexOutOfBounds { rate, index } => {
                let mut text = with_fixed("Rate ", *rate, " index ");
                let number = decimal(*index as u64);
                text.append(number.as_str());
                text.append(" out of bounds");
                text
            },
        }
    }
}

impl InternalFault {
    /// The message for this failure.
    pub open spec fn text(self) -> Seq<char> {
        match self {
            InternalFault::AcquireTimeout { timeout_ms } => "Timeout waiting for calculator: "@
                + decimal_text(timeout_ms as nat) + "ms"@,
        }
    }

    /// Writes the message for this failure.
    pub fn message(&self) -> (r: String)
        ensures
            r@ == self.text(),
    {
        match self {
            InternalFault::AcquireTimeout { timeout_ms } => {
                let mut text = String::from_str("Timeout waiting for calculator: ");
                let number = decimal(*timeout_ms);
                text.append(number.as_str());
                text.append("ms");
                text
            },
        }
    }
}

impl RowFault {
    /// The message for this failure.
    pub open spec fn text(self) -> Seq<char> {
        match self {
            RowFault::NoColumns { index } => "Note "@ + decimal_text(index as nat)
                + " has no columns"@,
            RowFault::NegativeTime { index } => "Note "@ + decimal_text(index as nat)
                + " has negative time"@,
            RowFault::DuplicateTime { index } => "Duplicate time at index "@ + decimal_text(
                index as nat,
            ),
            RowFault::FallingTime { index } => "Falling time at index "@ + decimal_text(
                index as nat,
            ),
            RowFault::ColumnOutOfRange { index, column } => "Note "@ + decimal_text(index as nat)
                + " names the column "@ + decimal_text(column as nat) + ", which the chart lacks"@,
        }
    }

    /// Writes the message for this failure.
    pub fn message(&self) -> (r: String)
        ensures
            r@ == self.text(),
    {
        match self {
            RowFault::NoColumns { index } => with_count("Note ", *index, " has no columns"),
            RowFault::NegativeTime { index } => with_count("Note ", *index, " has negative time"),
            RowFault::DuplicateTime { index } => {
                let number = decimal(*index as u64);
                with_rest("Duplicate time at index ", number.as_str())
            },
            RowFault::FallingTime { index } => {
                let number = decimal(*index as u64);
                with_rest("Falling time at index ", number.as_str())
            },
            RowFault::ColumnOutOfRange { index, column } => {
                let mut text = with_count("Note ", *index, " names the column ");
                let number = decimal(*column as u64);
                text.append(number.as_str());
                text.append(", which the chart lacks");
                text
            },
        }
    }
}

impl RoxError {
    /// The message for this failure.
    pub open spec fn text(self) -> Seq<char> {
        match self {
            RoxError::DecodeFailed(msg) => "Failed to decode chart: "@ + msg@,
            RoxError::InvalidRate(rate) => "Invalid rate: "@ + fixed_text(rate)
                + " (must be positive)"@,
            RoxError::NoNotes => "No notes found in chart"@,
            RoxError::InvalidNote(fault) => "Invalid note: "@ + fault.text(),
            RoxError::UnsupportedKeyCount(count) => "Unsupported key count: "@ + decimal_text(
                count as nat,
            ),
        }
    }

    /// Writes the message for this failure.
    pub fn message(&self) -> (r: String)
        ensures
            r@ == self.text(),
    {
        match self {
            RoxError::DecodeFailed(msg) => with_rest("Failed to decode chart: ", msg.as_str()),
            RoxError::InvalidRate(rate) => with_fixed(
                "Invalid rate: ",
                *rate,
                " (must be positive)",
            ),
            RoxError::NoNotes => String::from_str("No notes found in chart"),
            RoxError::InvalidNote(fault) => {
                let inner = fault.message();
                with_rest("Invalid note: ", inner.as_str())
            },
            RoxError::UnsupportedKeyCount(count) => {
                let number = decimal(*count as u64);
                with_rest("Unsupported key count: ", number.as_str())
            },
        }
    }
}

impl ConversionFault {
    /// The message for this failure.
    pub open spec fn text(self) -> Seq<char> {
        match self {
            ConversionFault::NegativeTime => "Negative time not allowed"@,
            ConversionFault::NoValidNotes => "No valid notes found in beatmap"@,
            ConversionFault::NoNotesToValidate => "No notes to validate"@,
            ConversionFault::NoColumns { index } => "Note "@ + decimal_text(index as nat)
                + " has no columns"@,
            ConversionFault::ExceedsKeyLimit { index, key_count } => "Note "@ + decimal_text(
                index as nat,
            ) + " exceeds "@ + decimal_text(key_count as nat) + "K limit"@,
            ConversionFault::NegativeRowTime { index } => "Note "@ + decimal_text(index as nat)
                + " has negative time"@,
            ConversionFault::DuplicateTime { index } => "Duplicate time at index "@ + decimal_text(
                index as nat,
            ),
            ConversionFault::FallingTime { index } => "Falling time at index "@ + decimal_text(
                index as nat,
            ),
        }
    }

    /// Writes the message for this failure.
    pub fn message(&self) -> (r: String)
        ensures
            r@ == self.text(),
    {
        match self {
            ConversionFault::NegativeTime => String::from_str("Negative time not allowed"),
            ConversionFault::NoValidNotes => String::from_str("No valid notes found in beatmap"),
            ConversionFault::NoNotesToValidate => String::from_str("No notes to validate"),
            ConversionFault::NoColumns { index } => with_count("Note ", *index, " has no columns"),
            ConversionFault::ExceedsKeyLimit { index, key_count } => {
                let mut text = with_count("Note ", *index, " exceeds ");
                let number = decimal(*key_count as u64);
                text.append(number.as_str());
                text.append("K limit");
                text
            },
            ConversionFault::NegativeRowTime { index } => with_count(
                "Note ",
                *index,
                " has negative time",
            ),
            ConversionFault::DuplicateTime { index } => {
                let number = decimal(*index as u64);
                with_rest("Duplicate time at index ", number.as_str())
            },
            ConversionFault::FallingTime { index } => {
                let number = decimal(*index as u64);
                with_rest("Falling time at index ", number.as_str())
            },
        }
    }
}

impl OsuError {
    /// The message for this failure.
    pub open spec fn text(self) -> Seq<char> {
        match self {
            OsuError::UnsupportedColumn(x) => "Unsupported column position: "@ + fixed_text(x),
            OsuError::UnsupportedHitObjectKind(kind) => "Unsupported hit object kind: "@
                + kind.name_text(),
            OsuError::HitObjectConversion(fault) => "Hit object conversion failed: "@
                + fault.text(),
            OsuError::ValidationFailed(msg) => "Beatmap validation failed: "@ + msg@,
            OsuError::ParseFailed(msg) => "Failed to parse beatmap: "@ + msg@,
            OsuError::UnsupportedGameMode(mode) => "Unsupported game mode: "@ + mode.name_text(),
            OsuError::UnsupportedKeyCount(count) => "Unsupported key count: "@ + fixed_text(count),
        }
    }

    /// Writes the message for this failure.
    pub fn message(&self) -> (r: String)
        ensures
            r@ == self.text(),
    {
        match self {
            OsuError::UnsupportedColumn(x) => {
                let number = fixed(*x);
                with_rest("Unsupported column position: ", number.as_str())
            },
            OsuError::UnsupportedHitObjectKind(kind) => with_rest(
                "Unsupported hit object kind: ",
                kind.name(),
            ),
            OsuError::HitObjectConversion(fault) => {
                let inner = fault.message();
                with_rest("Hit object conversion failed: ", inner.as_str())
            },
            OsuError::ValidationFailed(msg) => with_rest(
                "Beatmap validation failed: ",
                msg.as_str(),
            ),
            OsuError::ParseFailed(msg) => with_rest("Failed to parse beatmap: ", msg.as_str()),
            OsuError::UnsupportedGameMode(mode) => with_rest(
                "Unsupported game mode: ",
                mode.name(),
            ),
            OsuError::UnsupportedKeyCount(count) => {
                let number = fixed(*count);
                with_rest("Unsupported key count: ", number.as_str())
            },
        }
    }
}

impl MinaCalcError {
    /// The message for this failure.
    pub open spec fn text(self) -> Seq<char> {
        match self {
            MinaCalcError::CalculatorCreationFailed => "Failed to create calculator"@,
            MinaCalcError::NoNotesProvided => "No notes provided for calculation"@,
            MinaCalcError::InvalidMusicRate(rate) => "Invalid music rate: "@ + fixed_text(rate)
                + " (must be positive)"@,
            MinaCalcError::InvalidScoreGoal(goal) => "Invalid score goal: "@ + fixed_text(goal)
                + " (must be between 0 and 100)"@,
            MinaCalcError::CalculationFailed(msg) => "Calculation failed: "@ + msg@,
            MinaCalcError::InvalidNoteData(cause) => "Invalid note data: "@ + cause.text(),
            MinaCalcError::MemoryAllocationFailed => "Memory allocation failed"@,
            MinaCalcError::InternalError(fault) => "Internal error: "@ + fault.text(),
            MinaCalcError::RoxError(rox_err) => "ROX error: "@ + rox_err.text(),
            MinaCalcError::OsuError(osu_err) => "Osu! error: "@ + osu_err.text(),
            MinaCalcError::UnsupportedKeyCount(count) => "Unsupported key count: "@ + decimal_text(
                count as nat,
            ) + " (only 4K, 6K, 7K supported)"@,
        }
    }

    /// Writes the message for this failure.
    pub fn message(&self) -> (r: String)
        ensures
            r@ == self.text(),
    {
        match self {
            MinaCalcError::CalculatorCreationFailed => String::from_str(
                "Failed to create calculator",
            ),
            MinaCalcError::NoNotesProvided => String::from_str("No notes provided for calculation"),
            MinaCalcError::InvalidMusicRate(rate) => with_fixed(
                "Invalid music rate: ",
                *rate,
                " (must be positive)",
            ),
            MinaCalcError::InvalidScoreGoal(goal) => with_fixed(
                "Invalid score goal: ",
                *goal,
                " (must be between 0 and 100)",
            ),
            MinaCalcError::CalculationFailed(msg) => with_rest(
                "Calculation failed: ",
                msg.as_str(),
            ),
            MinaCalcError::InvalidNoteData(cause) => {
                let inner = cause.message();
                with_rest("Invalid note data: ", inner.as_str())
            },
            MinaCalcError::MemoryAllocationFailed => String::from_str("Memory allocation failed"),
            MinaCalcError::InternalError(fault) => {
                let inner = fault.message();
                with_rest("Internal error: ", inner.as_str())
            },
            MinaCalcError::RoxError(rox_err) => {
                let inner = rox_err.message();
                with_rest("ROX error: ", inner.as_str())
            },
            MinaCalcError::OsuError(osu_err) => {
                let inner = osu_err.message();
                with_rest("Osu! error: ", inner.as_str())
            },
            MinaCalcError::UnsupportedKeyCount(count) => with_count(
                "Unsupported key count: ",
                *count as usize,
                " (only 4K, 6K, 7K supported)",
            ),
        }
    }
}

} // verus!
