//! The universal chart path: the notes of a decoded chart, each with a time in
//! microseconds and a lane index, become rows, optionally at a chart rate.

use vstd::prelude::*;
use crate::error::{MinaCalcError, MinaCalcResult, RowFault, RoxError, RoxResult};
use crate::first::{first_index, lemma_first_index, lemma_first_index_is};
use crate::fixed::{
    lemma_nearest_keeps_side, lemma_nearest_of_multiple, nearest, GOAL_MAX, MICRO,
};
use crate::rows::{
    has_time, is_merge_of, lemma_merge_step, lemma_merged_lanes, lemma_rising_is_ascending,
    merge_event, not_rising, strictly_ascending,
};
use crate::wrapper::{
    all_lanes, checked_scores, checked_table, known_key_count, msd_answer, msd_engine_ready, ssr_answer,
    ssr_engine_ready, to_infos, unplayable, validate_all, AllRates, Calc, EngineHandle,
    MsdForAllRates, Note, NoteInfo, SkillsetScores, Ssr,
};

verus! {

/// One note of a decoded chart.
#[derive(Debug, Clone, Copy, PartialEq, Eq, Structural)]
pub struct ChartNote {
    /// Start time in microseconds.
    pub time_us: i64,
    /// Lane index, counted from zero.
    pub column: u8,
}

/// A decoded chart, as far as the calculator reads it.
#[derive(Debug, Clone, PartialEq, Eq)]
pub struct Chart {
    pub key_count: u8,
    pub notes: Vec<ChartNote>,
}

/// A time divided by a rate and rounded to whole microseconds, halves away
/// from zero, held within the range of `i64`.
pub open spec fn scaled_time(time_us: i64, rate: i64) -> i64
    recommends
        rate > 0,
{
    let q = nearest(time_us as int * 1_000_000, rate as int);
    if q > i64::MAX {
        i64::MAX
    } else if q < i64::MIN {
        i64::MIN
    } else {
        q as i64
    }
}

/// The event that a chart note becomes at chart rate `rate`.
pub open spec fn keyed(note: ChartNote, rate: i64) -> Note {
    Note { notes: 1u32 << (note.column as u32), row_time: scaled_time(note.time_us, rate) }
}

/// The events that the notes of a chart become at chart rate `rate`.
pub open spec fn keyed_all(notes: Seq<ChartNote>, rate: i64) -> Seq<Note> {
    Seq::new(notes.len(), |i: int| keyed(notes[i], rate))
}

/// The places of `notes` that name a lane the chart does not have.
pub open spec fn off_chart(notes: Seq<ChartNote>, key_count: u8) -> spec_fn(int) -> bool {
    |i: int| notes[i].column >= key_count
}

/// The index of the first note that names a lane the chart does not have.
pub open spec fn first_bad_column(notes: Seq<ChartNote>, key_count: u8) -> Option<int> {
    first_index(notes.len() as int, off_chart(notes, key_count))
}

/// Some note of the chart lies before time zero at chart rate `rate`.
pub open spec fn lies_before_zero(notes: Seq<ChartNote>, rate: i64) -> bool {
    exists|i: int| 0 <= i < notes.len() && scaled_time((#[trigger] notes[i]).time_us, rate) < 0
}

/// The chart rate in force: the one given, or 1.0x.
pub open spec fn rate_in_force(rate: Option<i64>) -> i64 {
    match rate {
        Some(r) => r,
        None => MICRO,
    }
}

/// Why `chart_to_notes` refuses a chart at a rate, if it does: the rate is
/// looked at first, then the key count, then the lanes, then the times.
pub open spec fn chart_refusal(chart: Chart, rate: Option<i64>) -> Option<RoxError> {
    let r = rate_in_force(rate);
    if r <= 0 {
        Some(RoxError::InvalidRate(r))
    } else if !known_key_count(chart.key_count as u32) {
        Some(RoxError::UnsupportedKeyCount(chart.key_count as usize))
    } else if first_bad_column(chart.notes@, chart.key_count) is Some {
        let i = first_bad_column(chart.notes@, chart.key_count)->0;
        Some(
            RoxError::InvalidNote(
                RowFault::ColumnOutOfRange { index: i as usize, column: chart.notes@[i].column },
            ),
        )
    } else if chart.notes@.len() == 0 {
        Some(RoxError::NoNotes)
    } else if lies_before_zero(chart.notes@, r) {
        Some(RoxError::InvalidNote(RowFault::NegativeTime { index: 0 }))
    } else {
        None
    }
}

/// What is wrong with the unplayable row `note` at place `index`: it has no
/// lane, or else it lies before time zero.
pub open spec fn row_fault(note: Note, index: int) -> RowFault {
    if note.notes == 0 {
        RowFault::NoColumns { index: index as usize }
    } else {
        RowFault::NegativeTime { index: index as usize }
    }
}

/// What is wrong with the row at place `index`, which does not lie after the
/// row before it: it shares its time, or else it lies before it.
pub open spec fn order_fault(notes: Seq<Note>, index: int) -> RowFault {
    if notes[index].row_time == notes[index - 1].row_time {
        RowFault::DuplicateTime { index: index as usize }
    } else {
        RowFault::FallingTime { index: index as usize }
    }
}

/// Why `validate_notes` refuses a row sequence, if it does: it is empty, or
/// else a row is not playable, or else a row does not lie after the row
/// before it. The first such row is named.
pub open spec fn rows_refusal(notes: Seq<Note>) -> Option<RoxError> {
    let n = notes.len() as int;
    if n == 0 {
        Some(RoxError::NoNotes)
    } else if first_index(n, unplayable(notes)) is Some {
        let i = first_index(n, unplayable(notes))->0;
        Some(RoxError::InvalidNote(row_fault(notes[i], i)))
    } else if first_index(n, not_rising(notes)) is Some {
        let i = first_index(n, not_rising(notes))->0;
        Some(RoxError::InvalidNote(order_fault(notes, i)))
    } else {
        None
    }
}

/// Divides a time by a rate, rounds the result to whole microseconds and
/// holds it within the range of `i64`.
pub fn scale_time(time_us: i64, rate: i64) -> (r: i64)
    requires
        rate > 0,
    ensures
        r == scaled_time(time_us, rate),
{
    let d: u128 = rate as u128;
    if time_us >= 0 {
        let x: u128 = (time_us as u128) * 1_000_000;
        let q: u128 = (2 * x + d) / (2 * d);
        if q > 0x7fff_ffff_ffff_ffff {
            i64::MAX
        } else {
            q as i64
        }
    } else {
        let x: u128 = ((-(time_us as i128)) as u128) * 1_000_000;
        let q: u128 = (2 * x + d) / (2 * d);
        if q > 0x8000_0000_0000_0000 {
            i64::MIN
        } else {
            (-(q as i128)) as i64
        }
    }
}

/// A time at or after zero lies at or after zero at every rate.
pub proof fn lemma_scaled_keeps_side(time_us: i64, rate: i64)
    requires
        rate > 0,
        time_us >= 0,
    ensures
        scaled_time(time_us, rate) >= 0,
{
    lemma_nearest_keeps_side(time_us as int * 1_000_000, rate as int);
}

/// At rate 1.0x a time stays what it is.
pub proof fn lemma_scaled_at_unit_rate(time_us: i64)
    ensures
        scaled_time(time_us, MICRO) == time_us,
{
    lemma_nearest_of_multiple(time_us as int, 1_000_000);
}

impl Calc {
    /// The scores at all rates of a chart with `keycount` keys.
    pub fn calc_msd_with_keycount<F: Fn(usize, &Vec<NoteInfo>, u32) -> MsdForAllRates>(
        &self,
        notes: &[Note],
        keycount: u32,
        engine: &F,
    ) -> (r: MinaCalcResult<AllRates>)
        requires
            msd_engine_ready(engine, self.token(), notes@, keycount),
        ensures
            msd_answer(engine, self.token(), notes@, keycount, r),
    {
        if notes.len() == 0 {
            return Err(MinaCalcError::NoNotesProvided);
        }
        if keycount != 4 && keycount != 6 && keycount != 7 {
            return Err(MinaCalcError::UnsupportedKeyCount(keycount));
        }
        match validate_all(notes) {
            Ok(()) => {},
            Err(e) => {
                return Err(e);
            },
        }
        let note_infos = to_infos(notes);
        let result = engine(self.handle(), &note_infos, keycount);
        checked_table(result)
    }

    /// The scores of a chart with `keycount` keys at one music rate, for one
    /// score goal.
    pub fn calc_ssr_with_keycount<F: Fn(usize, &Vec<NoteInfo>, i64, i64, u32) -> Ssr>(
        &self,
        notes: &[Note],
        music_rate: i64,
        score_goal: i64,
        keycount: u32,
        engine: &F,
    ) -> (r: MinaCalcResult<SkillsetScores>)
        requires
            ssr_engine_ready(engine, self.token(), notes@, music_rate, score_goal, keycount),
        ensures
            ssr_answer(engine, self.token(), notes@, music_rate, score_goal, keycount, r),
    {
        if notes.len() == 0 {
            return Err(MinaCalcError::NoNotesProvided);
        }
        if keycount != 4 && keycount != 6 && keycount != 7 {
            return Err(MinaCalcError::UnsupportedKeyCount(keycount));
        }
        if music_rate <= 0 {
            return Err(MinaCalcError::InvalidMusicRate(music_rate));
        }
        if score_goal <= 0 || score_goal > GOAL_MAX {
            return Err(MinaCalcError::InvalidScoreGoal(score_goal));
        }
        match validate_all(notes) {
            Ok(()) => {},
            Err(e) => {
                return Err(e);
            },
        }
        let note_infos = to_infos(notes);
        let result = engine(self.handle(), &note_infos, music_rate, score_goal, keycount);
        checked_scores(result)
    }
}

/// `rows` are the rows that `chart_to_notes` makes of `chart` at `rate`.
pub open spec fn rows_of_chart(rows: Seq<Note>, chart: Chart, rate: Option<i64>) -> bool {
    is_merge_of(rows, keyed_all(chart.notes@, rate_in_force(rate)))
}

/// `r` answers the request for the scores of `chart` at all rates: the
/// refusal of its key count, or else of the chart, or else the answer for
/// its rows.
pub open spec fn all_rates_answer<F: Fn(usize, &Vec<NoteInfo>, u32) -> MsdForAllRates>(
    engine: &F,
    token: usize,
    chart: Chart,
    rate: Option<i64>,
    r: MinaCalcResult<AllRates>,
) -> bool {
    if !known_key_count(chart.key_count as u32) {
        r == Err::<AllRates, MinaCalcError>(
            MinaCalcError::UnsupportedKeyCount(chart.key_count as u32),
        )
    } else {
        match chart_refusal(chart, rate) {
            Some(e) => r == Err::<AllRates, MinaCalcError>(MinaCalcError::RoxError(e)),
            None => exists|rows: Seq<Note>|
                rows_of_chart(rows, chart, rate) && msd_answer(
                    engine,
                    token,
                    rows,
                    chart.key_count as u32,
                    r,
                ),
        }
    }
}

/// `r` answers the request for the scores of `chart` at one music rate: the
/// refusal of its key count, or else of the chart at `chart_rate`, or else
/// the answer for its rows.
pub open spec fn ssr_chart_answer<F: Fn(usize, &Vec<NoteInfo>, i64, i64, u32) -> Ssr>(
    engine: &F,
    token: usize,
    chart: Chart,
    music_rate: i64,
    score_goal: i64,
    chart_rate: Option<i64>,
    r: MinaCalcResult<SkillsetScores>,
) -> bool {
    if !known_key_count(chart.key_count as u32) {
        r == Err::<SkillsetScores, MinaCalcError>(
            MinaCalcError::UnsupportedKeyCount(chart.key_count as u32),
        )
    } else {
        match chart_refusal(chart, chart_rate) {
            Some(e) => r == Err::<SkillsetScores, MinaCalcError>(MinaCalcError::RoxError(e)),
            None => exists|rows: Seq<Note>|
                rows_of_chart(rows, chart, chart_rate) && ssr_answer(
                    engine,
                    token,
                    rows,
                    music_rate,
                    score_goal,
                    chart.key_count as u32,
                    r,
                ),
        }
    }
}

/// The engine accepts the request for the scores at one music rate of the
/// rows of `chart` at `chart_rate`, if the request reaches it.
pub open spec fn ssr_chart_engine_ready<F: Fn(usize, &Vec<NoteInfo>, i64, i64, u32) -> Ssr>(
    engine: &F,
    token: usize,
    chart: Chart,
    music_rate: i64,
    score_goal: i64,
    chart_rate: Option<i64>,
) -> bool {
    forall|rows: Seq<Note>| #[trigger]
        rows_of_chart(rows, chart, chart_rate) ==> ssr_engine_ready(
            engine,
            token,
            rows,
            music_rate,
            score_goal,
            chart.key_count as u32,
        )
}

/// The engine accepts the request for the scores at all rates of the rows
/// of `chart` at `rate`, if the request reaches it.
pub open spec fn all_rates_engine_ready<F: Fn(usize, &Vec<NoteInfo>, u32) -> MsdForAllRates>(
    engine: &F,
    token: usize,
    chart: Chart,
    rate: Option<i64>,
) -> bool {
    forall|rows: Seq<Note>| #[trigger]
        rows_of_chart(rows, chart, rate) ==> msd_engine_ready(
            engine,
            token,
            rows,
            chart.key_count as u32,
        )
}

/// The universal chart path as it hangs on the calculator.
pub trait RoxCalcExt: EngineHandle {
    /// Turns the notes of a chart into rows. The times are divided by the chart
    /// rate, 1.0x where none is given, and rounded to whole microseconds; notes
    /// that then share a time become one row. The rate must be positive, the key
    /// count 4, 6 or 7, every lane one of the chart, and no note may then lie
    /// before time zero.
    fn chart_to_notes(chart: &Chart, rate: Option<i64>) -> (r: RoxResult<Vec<Note>>)
        ensures
            match r {
                Ok(rows) => {
                    &&& chart_refusal(*chart, rate) is None
                    &&& is_merge_of(rows@, keyed_all(chart.notes@, rate_in_force(rate)))
                    &&& rows@.len() > 0
                    &&& forall|i: int|
                        0 <= i < rows@.len() ==> (#[trigger] rows@[i]).is_playable()
                            && rows@[i].notes <= all_lanes(chart.key_count as u32)
                },
                Err(e) => chart_refusal(*chart, rate) == Some(e),
            },
    ;

    /// The scores of a decoded chart at one music rate, for one score goal,
    /// with the chart itself played at `chart_rate`. The key count is looked
    /// at before anything else; then the chart becomes rows; then the engine
    /// is asked.
    fn calculate_ssr_from_rox_chart<F: Fn(usize, &Vec<NoteInfo>, i64, i64, u32) -> Ssr>(
        &self,
        chart: &Chart,
        music_rate: i64,
        score_goal: i64,
        chart_rate: Option<i64>,
        engine: &F,
    ) -> (r: MinaCalcResult<SkillsetScores>)
        requires
            ssr_chart_engine_ready(
                engine,
                self.engine_token(),
                *chart,
                music_rate,
                score_goal,
                chart_rate,
            ),
        ensures
            ssr_chart_answer(
                engine,
                self.engine_token(),
                *chart,
                music_rate,
                score_goal,
                chart_rate,
                r,
            ),
    ;

    /// The scores of a decoded chart at all rates. The key count is looked at
    /// before anything else; then the chart becomes rows; then the engine is
    /// asked.
    fn calculate_all_rates_from_rox_chart<F: Fn(usize, &Vec<NoteInfo>, u32) -> MsdForAllRates>(
        &self,
        chart: &Chart,
        engine: &F,
    ) -> (r: MinaCalcResult<AllRates>)
        requires
            all_rates_engine_ready(engine, self.engine_token(), *chart, None),
        ensures
            all_rates_answer(engine, self.engine_token(), *chart, None, r),
    ;

    /// Refuses an empty row sequence, then the first row without lanes or before
    /// time zero, then the first row that repeats the time of the row before it.
    fn validate_notes(notes: &[Note]) -> (r: RoxResult<()>)
        ensures
            r is Ok <==> notes@.len() > 0 && (forall|i: int|
                0 <= i < notes@.len() ==> (#[trigger] notes@[i]).is_playable())
                && strictly_ascending(notes@),
            match r {
                Ok(()) => rows_refusal(notes@) is None,
                Err(e) => rows_refusal(notes@) == Some(e),
            },
    ;
}

impl RoxCalcExt for Calc {
    fn chart_to_notes(chart: &Chart, rate: Option<i64>) -> (r: RoxResult<Vec<Note>>) {
        let scale: i64 = match rate {
            Some(r) => r,
            None => MICRO,
        };
        if scale <= 0 {
            return Err(RoxError::InvalidRate(scale));
        }
        let key_count: u8 = chart.key_count;
        if key_count != 4 && key_count != 6 && key_count != 7 {
            return Err(RoxError::UnsupportedKeyCount(key_count as usize));
        }
        let ghost limit = all_lanes(key_count as u32);
        let mut rows: Vec<Note> = Vec::new();
        let mut i: usize = 0;
        while i < chart.notes.len()
            invariant
                i <= chart.notes.len(),
                scale > 0,
                scale == rate_in_force(rate),
                key_count == chart.key_count,
                known_key_count(key_count as u32),
                limit == all_lanes(key_count as u32),
                forall|k: int| 0 <= k < i ==> !#[trigger] off_chart(chart.notes@, key_count)(k),
                is_merge_of(rows@, keyed_all(chart.notes@.take(i as int), scale)),
            decreases chart.notes.len() - i,
        {
            let note = chart.notes[i];
            if note.column >= key_count {
                proof {
                    lemma_first_index_is(
                        chart.notes@.len() as int,
                        off_chart(chart.notes@, key_count),
                        i as int,
                    );
                }
                return Err(
                    RoxError::InvalidNote(
                        RowFault::ColumnOutOfRange { index: i, column: note.column },
                    ),
                );
            }
            let event = Note {
                notes: 1u32 << (note.column as u32),
                row_time: scale_time(note.time_us, scale),
            };
            let ghost seen = keyed_all(chart.notes@.take(i as int), scale);
            let ghost held = rows@;
            merge_event(&mut rows, event);
            proof {
                lemma_merge_step(held, seen, rows@, event);
                assert(seen.push(event) =~= keyed_all(chart.notes@.take(i + 1), scale));
            }
            i += 1;
        }
        let ghost events = keyed_all(chart.notes@, scale);
        proof {
            assert(chart.notes@.take(chart.notes.len() as int) =~= chart.notes@);
            lemma_first_index(chart.notes@.len() as int, off_chart(chart.notes@, key_count));
            assert forall|j: int| 0 <= j < events.len() implies (#[trigger] events[j]).notes != 0
                && limit | events[j].notes == limit by {
                assert(!off_chart(chart.notes@, key_count)(j));
                let c = chart.notes@[j].column as u32;
                assert(c < 4 ==> (1u32 << c) != 0 && 0b1111u32 | (1u32 << c) == 0b1111u32)
                    by (bit_vector);
                assert(c < 6 ==> (1u32 << c) != 0 && 0b11_1111u32 | (1u32 << c) == 0b11_1111u32)
                    by (bit_vector);
                assert(c < 7 ==> (1u32 << c) != 0 && 0b111_1111u32 | (1u32 << c) == 0b111_1111u32)
                    by (bit_vector);
            }
            lemma_merged_lanes(rows@, events, limit);
            if chart.notes@.len() > 0 {
                assert(has_time(rows@, events[0].row_time));
            }
            if rows@.len() > 0 {
                assert(has_time(events, rows@[0].row_time));
            }
            let n = rows@.len() as int;
            assert forall|k: int| 0 <= k < n implies !#[trigger] not_rising(rows@)(k) by {
                if k >= 1 {
                    assert(rows@[k - 1].row_time < rows@[k].row_time);
                }
            }
            lemma_first_index(n, not_rising(rows@));
            lemma_first_index(n, unplayable(rows@));
            if lies_before_zero(chart.notes@, scale) {
                let j = choose|j: int|
                    0 <= j < chart.notes@.len() && scaled_time(
                        (#[trigger] chart.notes@[j]).time_us,
                        scale,
                    ) < 0;
                assert(has_time(rows@, events[j].row_time));
                let k = choose|k: int|
                    0 <= k < rows@.len() && (#[trigger] rows@[k]).row_time == events[j].row_time;
                if k > 0 {
                    assert(rows@[0].row_time < rows@[k].row_time);
                }
                assert(unplayable(rows@)(0));
                lemma_first_index_is(n, unplayable(rows@), 0);
            } else {
                assert forall|k: int| 0 <= k < n implies !#[trigger] unplayable(rows@)(k) by {
                    assert(has_time(events, rows@[k].row_time));
                    let j = choose|j: int|
                        0 <= j < events.len() && (#[trigger] events[j]).row_time
                            == rows@[k].row_time;
                    assert(scaled_time(chart.notes@[j].time_us, scale) >= 0);
                }
            }
        }
        if rows.len() == 0 {
            return Err(RoxError::NoNotes);
        }
        match Self::validate_notes(rows.as_slice()) {
            Ok(()) => Ok(rows),
            Err(e) => Err(e),
        }
    }

    fn calculate_ssr_from_rox_chart<F: Fn(usize, &Vec<NoteInfo>, i64, i64, u32) -> Ssr>(
        &self,
        chart: &Chart,
        music_rate: i64,
        score_goal: i64,
        chart_rate: Option<i64>,
        engine: &F,
    ) -> (r: MinaCalcResult<SkillsetScores>) {
        let keycount: u32 = chart.key_count as u32;
        if keycount != 4 && keycount != 6 && keycount != 7 {
            return Err(MinaCalcError::UnsupportedKeyCount(keycount));
        }
        let notes = match Self::chart_to_notes(chart, chart_rate) {
            Ok(notes) => notes,
            Err(e) => {
                return Err(MinaCalcError::from(e));
            },
        };
        assert(rows_of_chart(notes@, *chart, chart_rate));
        self.calc_ssr_with_keycount(notes.as_slice(), music_rate, score_goal, keycount, engine)
    }

    fn calculate_all_rates_from_rox_chart<F: Fn(usize, &Vec<NoteInfo>, u32) -> MsdForAllRates>(
        &self,
        chart: &Chart,
        engine: &F,
    ) -> (r: MinaCalcResult<AllRates>) {
        let keycount: u32 = chart.key_count as u32;
        if keycount != 4 && keycount != 6 && keycount != 7 {
            return Err(MinaCalcError::UnsupportedKeyCount(keycount));
        }
        let notes = match Self::chart_to_notes(chart, None) {
            Ok(notes) => notes,
            Err(e) => {
                return Err(MinaCalcError::from(e));
            },
        };
        assert(rows_of_chart(notes@, *chart, None));
        self.calc_msd_with_keycount(notes.as_slice(), keycount, engine)
    }

    fn validate_notes(notes: &[Note]) -> (r: RoxResult<()>) {
        let n: usize = notes.len();
        if n == 0 {
            return Err(RoxError::NoNotes);
        }
        let mut i: usize = 0;
        while i < n
            invariant
                i <= n,
                n == notes@.len(),
                forall|k: int| 0 <= k < i ==> !#[trigger] unplayable(notes@)(k),
            decreases n - i,
        {
            if notes[i].notes == 0 {
                proof {
                    lemma_first_index_is(n as int, unplayable(notes@), i as int);
                    assert(!notes@[i as int].is_playable());
                }
                return Err(RoxError::InvalidNote(RowFault::NoColumns { index: i }));
            }
            if notes[i].row_time < 0 {
                proof {
                    lemma_first_index_is(n as int, unplayable(notes@), i as int);
                    assert(!notes@[i as int].is_playable());
                }
                return Err(RoxError::InvalidNote(RowFault::NegativeTime { index: i }));
            }
            i += 1;
        }
        proof {
            lemma_first_index(n as int, unplayable(notes@));
            assert forall|k: int| 0 <= k < n implies (#[trigger] notes@[k]).is_playable() by {
                assert(!unplayable(notes@)(k));
            }
        }
        let mut j: usize = 1;
        while j < n
            invariant
                1 <= j <= n,
                n == notes@.len(),
                first_index(n as int, unplayable(notes@)) is None,
                forall|k: int| 0 <= k < n ==> (#[trigger] notes@[k]).is_playable(),
                forall|k: int| 0 <= k < j ==> !#[trigger] not_rising(notes@)(k),
            decreases n - j,
        {
            if notes[j].row_time <= notes[j - 1].row_time {
                proof {
                    lemma_first_index_is(n as int, not_rising(notes@), j as int);
                    lemma_rising_is_ascending(notes@);
                }
                if notes[j].row_time == notes[j - 1].row_time {
                    return Err(RoxError::InvalidNote(RowFault::DuplicateTime { index: j }));
                }
                return Err(RoxError::InvalidNote(RowFault::FallingTime { index: j }));
            }
            j += 1;
        }
        proof {
            lemma_first_index(n as int, not_rising(notes@));
            lemma_rising_is_ascending(notes@);
        }
        Ok(())
    }
}

/// At the rate 1.0x a chart has the rows it has without a rate, and each
/// note lies at its own time.
pub proof fn lemma_unit_rate_rows(chart: Chart, scaled: Seq<Note>, plain: Seq<Note>)
    requires
        rows_of_chart(scaled, chart, Some(MICRO)),
        rows_of_chart(plain, chart, None),
    ensures
        scaled == plain,
        forall|i: int|
            0 <= i < chart.notes@.len() ==> (#[trigger] keyed_all(chart.notes@, MICRO)[i]).row_time
                == chart.notes@[i].time_us,
{
    crate::rows::lemma_merge_unique(scaled, plain, keyed_all(chart.notes@, MICRO));
    assert forall|i: int| 0 <= i < chart.notes@.len() implies (#[trigger] keyed_all(
        chart.notes@,
        MICRO,
    )[i]).row_time == chart.notes@[i].time_us by {
        lemma_scaled_at_unit_rate(chart.notes@[i].time_us);
    }
}

/// What answers the request for the scores of a chart played at 1.0x
/// answers the request for the scores of the chart as it is, and the other
/// way round.
pub proof fn lemma_answer_at_unit_rate<F: Fn(usize, &Vec<NoteInfo>, u32) -> MsdForAllRates>(
    engine: &F,
    token: usize,
    chart: Chart,
    table: MinaCalcResult<AllRates>,
)
    ensures
        all_rates_answer(engine, token, chart, Some(MICRO), table) == all_rates_answer(
            engine,
            token,
            chart,
            None,
            table,
        ),
{
    assert(rate_in_force(Some(MICRO)) == rate_in_force(None));
    assert(chart_refusal(chart, Some(MICRO)) == chart_refusal(chart, None));
    let keycount = chart.key_count as u32;
    if known_key_count(chart.key_count as u32) && chart_refusal(chart, None) is None {
        if all_rates_answer(engine, token, chart, Some(MICRO), table) {
            let rows = choose|rows: Seq<Note>|
                rows_of_chart(rows, chart, Some(MICRO)) && msd_answer(
                    engine,
                    token,
                    rows,
                    keycount,
                    table,
                );
            assert(rows_of_chart(rows, chart, None));
        }
        if all_rates_answer(engine, token, chart, None, table) {
            let rows = choose|rows: Seq<Note>|
                rows_of_chart(rows, chart, None) && msd_answer(
                    engine,
                    token,
                    rows,
                    keycount,
                    table,
                );
            assert(rows_of_chart(rows, chart, Some(MICRO)));
        }
    }
}

} // verus!
