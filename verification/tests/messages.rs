use minacalc_rs::error::{
    ConversionFault, InternalFault, MinaCalcError, NoteDataError, OsuError, RowFault, RoxError,
};
use minacalc_rs::osu::{GameMode, HitObjectKind};
use minacalc_rs::text::{decimal, fixed, rate_key};

#[test]
fn decimal_writes_whole_numbers() {
    assert_eq!(decimal(0), "0");
    assert_eq!(decimal(7), "7");
    assert_eq!(decimal(10), "10");
    assert_eq!(decimal(1_234_567_890), "1234567890");
    assert_eq!(decimal(u64::MAX), "18446744073709551615");
}

#[test]
fn rate_keys_go_on_beyond_the_table() {
    assert_eq!(rate_key(0), "0.7");
    assert_eq!(rate_key(3), "1.0");
    assert_eq!(rate_key(13), "2.0");
    assert_eq!(rate_key(14), "2.1");
    assert_eq!(rate_key(93), "10.0");
    assert_eq!(rate_key(usize::MAX), format!("{}.{}", (usize::MAX as u128 + 7) / 10, (usize::MAX as u128 + 7) % 10));
}

#[test]
fn fixed_writes_millionths_as_decimal_numbers() {
    assert_eq!(fixed(0), "0");
    assert_eq!(fixed(500_000), "0.5");
    assert_eq!(fixed(50_000), "0.05");
    assert_eq!(fixed(1), "0.000001");
    assert_eq!(fixed(100_000_010), "100.00001");
    assert_eq!(fixed(1_000_000), "1");
    assert_eq!(fixed(1_500_000), "1.5");
    assert_eq!(fixed(750_000), "0.75");
    assert_eq!(fixed(1_000_000_000), "1000");
    assert_eq!(fixed(12_345_678), "12.345678");
    assert_eq!(fixed(-250_000), "-0.25");
    assert_eq!(fixed(-3_000_000), "-3");
    assert_eq!(fixed(i64::MIN), "-9223372036854.775808");
    assert_eq!(fixed(i64::MAX), "9223372036854.775807");
}

#[test]
fn calculator_messages() {
    assert_eq!(MinaCalcError::CalculatorCreationFailed.message(), "Failed to create calculator");
    assert_eq!(MinaCalcError::NoNotesProvided.message(), "No notes provided for calculation");
    assert_eq!(
        MinaCalcError::InvalidMusicRate(-1_500_000).message(),
        "Invalid music rate: -1.5 (must be positive)"
    );
    assert_eq!(
        MinaCalcError::InvalidScoreGoal(101_000_000).message(),
        "Invalid score goal: 101 (must be between 0 and 100)"
    );
    assert_eq!(
        MinaCalcError::CalculationFailed("engine gave up".to_string()).message(),
        "Calculation failed: engine gave up"
    );
    assert_eq!(MinaCalcError::MemoryAllocationFailed.message(), "Memory allocation failed");
    assert_eq!(
        MinaCalcError::UnsupportedKeyCount(5).message(),
        "Unsupported key count: 5 (only 4K, 6K, 7K supported)"
    );
    assert_eq!(
        MinaCalcError::InternalError(InternalFault::AcquireTimeout { timeout_ms: 250 }).message(),
        "Internal error: Timeout waiting for calculator: 250ms"
    );
}

#[test]
fn note_data_messages() {
    let say = |cause: NoteDataError| MinaCalcError::InvalidNoteData(cause).message();
    assert_eq!(say(NoteDataError::NoColumns), "Invalid note data: Note must have at least one column");
    assert_eq!(say(NoteDataError::NegativeRowTime), "Invalid note data: Row time cannot be negative");
    assert_eq!(
        say(NoteDataError::ScoreOutOfBounds { score: 1_000_500_000 }),
        "Invalid note data: Score 1000.5 is out of reasonable bounds"
    );
    assert_eq!(
        say(NoteDataError::RateScoreOutOfBounds { index: 2, score: -1_000_000 }),
        "Invalid note data: Rate 0.9: Invalid note data: Score -1 is out of reasonable bounds"
    );
    assert_eq!(
        say(NoteDataError::RateScoreOutOfBounds { index: 14, score: 0 }),
        "Invalid note data: Rate 2.1: Invalid note data: Score 0 is out of reasonable bounds"
    );
    assert_eq!(say(NoteDataError::NoRatesProvided), "Invalid note data: No rates provided");
    assert_eq!(
        say(NoteDataError::RateOutOfRange { rate: 2_100_000 }),
        "Invalid note data: Rate 2.1 is out of valid range [0.7, 2.0]"
    );
    assert_eq!(
        say(NoteDataError::RateIndexOutOfBounds { rate: 2_100_000, index: 14 }),
        "Invalid note data: Rate 2.1 index 14 out of bounds"
    );
}

#[test]
fn chart_messages() {
    assert_eq!(
        RoxError::DecodeFailed("bad magic".to_string()).message(),
        "Failed to decode chart: bad magic"
    );
    assert_eq!(RoxError::InvalidRate(0).message(), "Invalid rate: 0 (must be positive)");
    assert_eq!(RoxError::NoNotes.message(), "No notes found in chart");
    assert_eq!(RoxError::UnsupportedKeyCount(5).message(), "Unsupported key count: 5");
    assert_eq!(
        RoxError::InvalidNote(RowFault::NoColumns { index: 3 }).message(),
        "Invalid note: Note 3 has no columns"
    );
    assert_eq!(
        RoxError::InvalidNote(RowFault::NegativeTime { index: 0 }).message(),
        "Invalid note: Note 0 has negative time"
    );
    assert_eq!(
        RoxError::InvalidNote(RowFault::DuplicateTime { index: 12 }).message(),
        "Invalid note: Duplicate time at index 12"
    );
    assert_eq!(
        RoxError::InvalidNote(RowFault::FallingTime { index: 13 }).message(),
        "Invalid note: Falling time at index 13"
    );
    assert_eq!(
        RoxError::InvalidNote(RowFault::ColumnOutOfRange { index: 1, column: 9 }).message(),
        "Invalid note: Note 1 names the column 9, which the chart lacks"
    );
    assert_eq!(
        MinaCalcError::RoxError(RoxError::NoNotes).message(),
        "ROX error: No notes found in chart"
    );
    assert_eq!(MinaCalcError::from(RoxError::NoNotes), MinaCalcError::RoxError(RoxError::NoNotes));
}

#[test]
fn beatmap_messages() {
    assert_eq!(
        OsuError::UnsupportedColumn(100_500_000).message(),
        "Unsupported column position: 100.5"
    );
    assert_eq!(
        OsuError::UnsupportedHitObjectKind(HitObjectKind::Slider).message(),
        "Unsupported hit object kind: Slider"
    );
    assert_eq!(
        OsuError::UnsupportedHitObjectKind(HitObjectKind::Spinner).message(),
        "Unsupported hit object kind: Spinner"
    );
    assert_eq!(
        OsuError::ValidationFailed("no".to_string()).message(),
        "Beatmap validation failed: no"
    );
    assert_eq!(OsuError::ParseFailed("eof".to_string()).message(), "Failed to parse beatmap: eof");
    assert_eq!(
        OsuError::UnsupportedGameMode(GameMode::Taiko).message(),
        "Unsupported game mode: Taiko"
    );
    assert_eq!(OsuError::UnsupportedKeyCount(5_000_000).message(), "Unsupported key count: 5");
    let say = |fault: ConversionFault| OsuError::HitObjectConversion(fault).message();
    assert_eq!(say(ConversionFault::NegativeTime), "Hit object conversion failed: Negative time not allowed");
    assert_eq!(
        say(ConversionFault::NoValidNotes),
        "Hit object conversion failed: No valid notes found in beatmap"
    );
    assert_eq!(say(ConversionFault::NoNotesToValidate), "Hit object conversion failed: No notes to validate");
    assert_eq!(say(ConversionFault::NoColumns { index: 1 }), "Hit object conversion failed: Note 1 has no columns");
    assert_eq!(
        say(ConversionFault::ExceedsKeyLimit { index: 2, key_count: 4 }),
        "Hit object conversion failed: Note 2 exceeds 4K limit"
    );
    assert_eq!(
        say(ConversionFault::NegativeRowTime { index: 3 }),
        "Hit object conversion failed: Note 3 has negative time"
    );
    assert_eq!(
        say(ConversionFault::DuplicateTime { index: 4 }),
        "Hit object conversion failed: Duplicate time at index 4"
    );
    assert_eq!(
        say(ConversionFault::FallingTime { index: 5 }),
        "Hit object conversion failed: Falling time at index 5"
    );
    assert_eq!(
        say(ConversionFault::ExceedsKeyLimit { index: 0, key_count: 7 }),
        "Hit object conversion failed: Note 0 exceeds 7K limit"
    );
    assert_eq!(
        MinaCalcError::from(OsuError::UnsupportedColumn(0)).message(),
        "Osu! error: Unsupported column position: 0"
    );
}

#[test]
fn mode_and_kind_names() {
    assert_eq!(GameMode::Osu.name(), "Osu");
    assert_eq!(GameMode::Taiko.name(), "Taiko");
    assert_eq!(GameMode::Catch.name(), "Catch");
    assert_eq!(GameMode::Mania.name(), "Mania");
    assert_eq!(HitObjectKind::Circle { x: 0 }.name(), "Circle");
    assert_eq!(HitObjectKind::Hold { x: 0 }.name(), "Hold");
}
