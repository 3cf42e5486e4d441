//! The beatmap path: the hit objects of a mania beatmap with four, six or
//! seven keys, each with a time and a horizontal position, become rows at a
//! precision of one millisecond.

use vstd::prelude::*;
use crate::error::{ConversionFault, MinaCalcError, MinaCalcResult, OsuError, OsuResult};
use crate::first::{first_index, lemma_first_index, lemma_first_index_is};
use crate::fixed::{lemma_quotient_bounds, MICRO};
use crate::rows::{
    has_time, is_merge_of, lemma_merge_step, lemma_merge_unique, lemma_merged_lanes,
    lemma_merged_rows_are_fixed, lemma_rising_is_ascending, merge_event, merge_rows, not_rising,
    strictly_ascending,
};
use crate::rox::{lemma_scaled_at_unit_rate, scale_time, scaled_time};
use crate::wrapper::{
    all_lanes, known_key_count, msd_answer, msd_engine_ready, AllRates, Calc, EngineHandle,
    MsdForAllRates, Note, NoteInfo, SkillsetScores,
};

verus! {

/// The game mode a beatmap was made for.
#[derive(Debug, Clone, Copy, PartialEq, Eq, Structural)]
pub enum GameMode {
    Osu,
    Taiko,
    Catch,
    Mania,
}

/// What a hit object is, with its horizontal position where it has one.
#[derive(Debug, Clone, Copy, PartialEq, Eq, Structural)]
pub enum HitObjectKind {
    Circle { x: i64 },
    Slider,
    Spinner,
    Hold { x: i64 },
}

impl GameMode {
    /// The name of the mode, as text.
    pub open spec fn name_text(self) -> Seq<char> {
        match self {
            GameMode::Osu => "Osu"@,
            GameMode::Taiko => "Taiko"@,
            GameMode::Catch => "Catch"@,
            GameMode::Mania => "Mania"@,
        }
    }

    /// The name of the mode.
    pub fn name(&self) -> (r: &'static str)
        ensures
            r@ == self.name_text(),
    {
        match self {
            GameMode::Osu => "Osu",
            GameMode::Taiko => "Taiko",
            GameMode::Catch => "Catch",
            GameMode::Mania => "Mania",
        }
    }
}

impl HitObjectKind {
    /// The name of the kind, as text.
    pub open spec fn name_text(self) -> Seq<char> {
        match self {
            HitObjectKind::Circle { .. } => "Circle"@,
            HitObjectKind::Slider => "Slider"@,
            HitObjectKind::Spinner => "Spinner"@,
            HitObjectKind::Hold { .. } => "Hold"@,
        }
    }

    /// The name of the kind.
    pub fn name(&self) -> (r: &'static str)
        ensures
            r@ == self.name_text(),
    {
        match self {
            HitObjectKind::Circle { .. } => "Circle",
            HitObjectKind::Slider => "Slider",
            HitObjectKind::Spinner => "Spinner",
            HitObjectKind::Hold { .. } => "Hold",
        }
    }
}

/// One hit object of a beatmap.
#[derive(Debug, Clone, Copy, PartialEq, Eq, Structural)]
pub struct HitObject {
    /// Start time in microseconds.
    pub start_time: i64,
    pub kind: HitObjectKind,
}

/// A parsed beatmap, as far as the calculator reads it.
#[derive(Debug, Clone, PartialEq, Eq)]
pub struct Beatmap {
    pub mode: GameMode,
    /// The circle size, which in mania is the key count.
    pub circle_size: i64,
    pub hit_objects: Vec<HitObject>,
}

/// The key count that a circle size stands for, where it is one the
/// calculator knows: 4, 6 or 7.
pub open spec fn key_count_of(circle_size: i64) -> Option<u32> {
    if circle_size == 4 * MICRO {
        Some(4u32)
    } else if circle_size == 6 * MICRO {
        Some(6u32)
    } else if circle_size == 7 * MICRO {
        Some(7u32)
    } else {
        None
    }
}

impl Beatmap {
    /// The key count of the beatmap, if it is one the calculator knows.
    pub fn key_count(&self) -> (r: Option<u32>)
        ensures
            r == key_count_of(self.circle_size),
    {
        if self.circle_size == 4_000_000 {
            Some(4)
        } else if self.circle_size == 6_000_000 {
            Some(6)
        } else if self.circle_size == 7_000_000 {
            Some(7)
        } else {
            None
        }
    }
}

/// Where the lane `lane` of a chart with `key_count` keys lies: the lanes
/// share a width of 512 evenly, and a lane lies at the middle of its share,
/// cut down to a whole number. With four keys these are 64, 192, 320, 448.
pub open spec fn lane_position(key_count: u32, lane: int) -> int {
    ((2 * lane + 1) * 256 / (key_count as int)) * MICRO
}

/// The lanes of a chart with `key_count` keys that lie at `x`.
pub open spec fn at_position(x: i64, key_count: u32) -> spec_fn(int) -> bool {
    |lane: int| x == lane_position(key_count, lane)
}

/// The lane mask of a horizontal position in a chart with `key_count` keys.
/// The key count is looked at first.
pub open spec fn lane_of(x: i64, key_count: u32) -> OsuResult<u32> {
    if !known_key_count(key_count) {
        Err(OsuError::UnsupportedKeyCount((key_count * MICRO) as i64))
    } else {
        match first_index(key_count as int, at_position(x, key_count)) {
            Some(lane) => Ok(1u32 << (lane as u32)),
            None => Err(OsuError::UnsupportedColumn(x)),
        }
    }
}

/// The note of a hit object: a circle or a hold at a lane position, not
/// before time zero. The time is looked at first.
pub open spec fn note_of(hit_object: HitObject, key_count: u32) -> OsuResult<Note> {
    if hit_object.start_time < 0 {
        Err(OsuError::HitObjectConversion(ConversionFault::NegativeTime))
    } else {
        match hit_object.kind {
            HitObjectKind::Circle { x } => match lane_of(x, key_count) {
                Ok(notes) => Ok(Note { notes, row_time: hit_object.start_time }),
                Err(e) => Err(e),
            },
            HitObjectKind::Hold { x } => match lane_of(x, key_count) {
                Ok(notes) => Ok(Note { notes, row_time: hit_object.start_time }),
                Err(e) => Err(e),
            },
            _ => Err(OsuError::UnsupportedHitObjectKind(hit_object.kind)),
        }
    }
}

/// Why `security_check` refuses a beatmap, if it does: the mode is looked at
/// first, then the key count.
pub open spec fn beatmap_refusal(beatmap: Beatmap) -> Option<OsuError> {
    if beatmap.mode != GameMode::Mania {
        Some(OsuError::UnsupportedGameMode(beatmap.mode))
    } else if key_count_of(beatmap.circle_size) is None {
        Some(OsuError::UnsupportedKeyCount(beatmap.circle_size))
    } else {
        None
    }
}

/// A row of a chart with `key_count` keys: some of its lanes, not before
/// time zero.
pub open spec fn chart_row(note: Note, key_count: u32) -> bool {
    note.notes != 0 && note.notes <= all_lanes(key_count) && note.row_time >= 0
}

/// The places of `notes` that hold no row of a chart with `key_count` keys.
pub open spec fn not_chart_row(notes: Seq<Note>, key_count: u32) -> spec_fn(int) -> bool {
    |i: int| !chart_row(notes[i], key_count)
}

/// What is wrong with the row `note` at place `index`, if it is no row of a
/// chart with `key_count` keys: it has no lane, or else a lane the chart
/// lacks, or else it lies before time zero.
pub open spec fn row_fault(note: Note, index: int, key_count: u32) -> ConversionFault {
    if note.notes == 0 {
        ConversionFault::NoColumns { index: index as usize }
    } else if note.notes > all_lanes(key_count) {
        ConversionFault::ExceedsKeyLimit { index: index as usize, key_count }
    } else {
        ConversionFault::NegativeRowTime { index: index as usize }
    }
}

/// What is wrong with the row at place `index`, which does not lie after the
/// row before it: it shares its time, or else it lies before it.
pub open spec fn order_fault(notes: Seq<Note>, index: int) -> ConversionFault {
    if notes[index].row_time == notes[index - 1].row_time {
        ConversionFault::DuplicateTime { index: index as usize }
    } else {
        ConversionFault::FallingTime { index: index as usize }
    }
}

/// Why `validate_notes` refuses a row sequence, if it does: the key count is
/// unknown, or else the sequence is empty, or else a row is no row of the
/// chart, or else a row does not lie after the row before it. The first such
/// row is named.
pub open spec fn rows_refusal(notes: Seq<Note>, key_count: u32) -> Option<OsuError> {
    let n = notes.len() as int;
    if !known_key_count(key_count) {
        Some(OsuError::UnsupportedKeyCount((key_count * MICRO) as i64))
    } else if n == 0 {
        Some(OsuError::HitObjectConversion(ConversionFault::NoNotesToValidate))
    } else if first_index(n, not_chart_row(notes, key_count)) is Some {
        let i = first_index(n, not_chart_row(notes, key_count))->0;
        Some(OsuError::HitObjectConversion(row_fault(notes[i], i, key_count)))
    } else if first_index(n, not_rising(notes)) is Some {
        let i = first_index(n, not_rising(notes))->0;
        Some(OsuError::HitObjectConversion(order_fault(notes, i)))
    } else {
        None
    }
}

/// A time rounded to whole milliseconds, halves upwards, held within the
/// range of `i64`.
pub open spec fn whole_milliseconds(time_us: i64) -> i64 {
    let rounded = ((time_us + 500) / 1000) * 1000;
    if rounded > i64::MAX {
        i64::MAX
    } else {
        rounded as i64
    }
}

/// Rounds a time to whole milliseconds.
pub fn round_to_milliseconds(time_us: i64) -> (r: i64)
    requires
        time_us >= 0,
    ensures
        r == whole_milliseconds(time_us),
        r >= 0,
{
    proof {
        lemma_quotient_bounds(time_us + 500, 1000);
    }
    let wide: i128 = ((time_us as i128 + 500) / 1000) * 1000;
    if wide > 0x7fff_ffff_ffff_ffff {
        i64::MAX
    } else {
        wide as i64
    }
}

/// The event that a convertible hit object becomes: its lane, at its time
/// rounded to whole milliseconds.
pub open spec fn stamped(hit_object: HitObject, key_count: u32) -> Note {
    Note {
        notes: note_of(hit_object, key_count)->Ok_0.notes,
        row_time: whole_milliseconds(hit_object.start_time),
    }
}

/// The events that the hit objects of a beatmap become.
pub open spec fn stamped_all(hit_objects: Seq<HitObject>, key_count: u32) -> Seq<Note> {
    Seq::new(hit_objects.len(), |i: int| stamped(hit_objects[i], key_count))
}

/// The places of `hit_objects` that hold no note.
pub open spec fn unconvertible(hit_objects: Seq<HitObject>, key_count: u32) -> spec_fn(
    int,
) -> bool {
    |i: int| note_of(hit_objects[i], key_count) is Err
}

/// Why `to_notes_merged` refuses a beatmap, if it does: its key count is
/// unknown, or else, for the reason that the first hit object without a note
/// has none, or else because there are no hit objects.
pub open spec fn merge_refusal(beatmap: Beatmap) -> Option<OsuError> {
    let n = beatmap.hit_objects@.len() as int;
    match key_count_of(beatmap.circle_size) {
        None => Some(OsuError::UnsupportedKeyCount(beatmap.circle_size)),
        Some(key_count) => {
            let bad = first_index(n, unconvertible(beatmap.hit_objects@, key_count));
            if bad is Some {
                Some(note_of(beatmap.hit_objects@[bad->0], key_count)->Err_0)
            } else if n == 0 {
                Some(OsuError::HitObjectConversion(ConversionFault::NoValidNotes))
            } else {
                None
            }
        },
    }
}

/// `rows` are the rows that `to_notes_merged` makes of `beatmap`.
pub open spec fn rows_of_beatmap(rows: Seq<Note>, beatmap: Beatmap) -> bool {
    key_count_of(beatmap.circle_size) matches Some(key_count) && is_merge_of(
        rows,
        stamped_all(beatmap.hit_objects@, key_count),
    )
}

/// The rows with their times divided by `rate`.
pub open spec fn rescaled(rows: Seq<Note>, rate: i64) -> Seq<Note> {
    Seq::new(
        rows.len(),
        |i: int| Note { notes: rows[i].notes, row_time: scaled_time(rows[i].row_time, rate) },
    )
}

/// `rows` are the rows of `beatmap` played at `rate`: its own rows with
/// their times divided by the rate, merged again where that brought rows
/// together.
pub open spec fn rows_at_rate(rows: Seq<Note>, beatmap: Beatmap, rate: i64) -> bool {
    exists|plain: Seq<Note>|
        #[trigger] rows_of_beatmap(plain, beatmap) && is_merge_of(rows, rescaled(plain, rate))
}

/// The scores at 1.0x of a table, or the failure in its place.
pub open spec fn at_unit_rate(table: MinaCalcResult<AllRates>) -> MinaCalcResult<SkillsetScores> {
    match table {
        Ok(all_rates) => Ok(all_rates.msds[3]),
        Err(e) => Err(e),
    }
}

/// `r` answers the request for the scores of `beatmap` at all rates: the
/// refusal of the beatmap, or else of its hit objects, or else the answer for
/// its rows.
pub open spec fn beatmap_answer<F: Fn(usize, &Vec<NoteInfo>, u32) -> MsdForAllRates>(
    engine: &F,
    token: usize,
    beatmap: Beatmap,
    r: MinaCalcResult<AllRates>,
) -> bool {
    match beatmap_refusal(beatmap) {
        Some(e) => r == Err::<AllRates, MinaCalcError>(MinaCalcError::OsuError(e)),
        None => match merge_refusal(beatmap) {
            Some(e) => r == Err::<AllRates, MinaCalcError>(MinaCalcError::OsuError(e)),
            None => exists|rows: Seq<Note>|
                rows_of_beatmap(rows, beatmap) && msd_answer(
                    engine,
                    token,
                    rows,
                    key_count_of(beatmap.circle_size)->0,
                    r,
                ),
        },
    }
}

/// Divides the times of the rows by `rate`.
pub fn scale_notes(notes: &[Note], rate: i64) -> (scaled: Vec<Note>)
    requires
        rate > 0,
    ensures
        scaled@ == rescaled(notes@, rate),
{
    let n: usize = notes.len();
    let mut scaled: Vec<Note> = Vec::new();
    let mut i: usize = 0;
    while i < n
        invariant
            i <= n,
            n == notes@.len(),
            rate > 0,
            scaled@ == rescaled(notes@.take(i as int), rate),
        decreases n - i,
    {
        let note = notes[i];
        scaled.push(Note { notes: note.notes, row_time: scale_time(note.row_time, rate) });
        proof {
            assert(scaled@ =~= rescaled(notes@.take(i + 1), rate));
        }
        i += 1;
    }
    proof {
        assert(notes@.take(n as int) =~= notes@);
    }
    scaled
}

/// The beatmap path as it hangs on the calculator.
pub trait OsuCalcExt: EngineHandle {
    /// Gives the lane mask of a horizontal position in a chart with
    /// `key_count` keys, or refuses the key count or the position.
    fn get_columns(x: i64, key_count: u32) -> (r: OsuResult<u32>)
        ensures
            r == lane_of(x, key_count),
    ;

    /// Turns one hit object of a chart with `key_count` keys into a
    /// single-lane note at its own time.
    fn hit_object_to_note(hit_object: HitObject, key_count: u32) -> (r: OsuResult<Note>)
        ensures
            r == note_of(hit_object, key_count),
    ;

    /// Turns the hit objects of a beatmap into rows. The times are rounded to
    /// whole milliseconds; hit objects that then share a time become one row.
    fn to_notes_merged(beatmap: &Beatmap) -> (r: OsuResult<Vec<Note>>)
        ensures
            match r {
                Ok(rows) => {
                    &&& merge_refusal(*beatmap) is None
                    &&& rows_of_beatmap(rows@, *beatmap)
                    &&& rows@.len() > 0
                    &&& forall|i: int|
                        0 <= i < rows@.len() ==> chart_row(
                            #[trigger] rows@[i],
                            key_count_of(beatmap.circle_size)->0,
                        )
                },
                Err(e) => merge_refusal(*beatmap) == Some(e),
            },
    ;

    /// Admits mania beatmaps with four, six or seven keys only.
    fn security_check(beatmap: &Beatmap) -> (r: OsuResult<()>)
        ensures
            r is Ok <==> beatmap.mode == GameMode::Mania && (beatmap.circle_size == 4 * MICRO
                || beatmap.circle_size == 6 * MICRO || beatmap.circle_size == 7 * MICRO),
            match r {
                Ok(()) => beatmap_refusal(*beatmap) is None,
                Err(e) => beatmap_refusal(*beatmap) == Some(e),
            },
    ;

    /// The scores at all rates of a parsed beatmap. The mode and the key
    /// count are looked at before anything else; then the hit objects become
    /// rows; then the engine is asked.
    fn calculate_msd_from_beatmap<F: Fn(usize, &Vec<NoteInfo>, u32) -> MsdForAllRates>(
        &self,
        beatmap: &Beatmap,
        engine: &F,
    ) -> (r: MinaCalcResult<AllRates>)
        requires
            forall|rows: Seq<Note>| #[trigger]
                rows_of_beatmap(rows, *beatmap) ==> msd_engine_ready(
                    engine,
                    self.engine_token(),
                    rows,
                    key_count_of(beatmap.circle_size)->0,
                ),
        ensures
            beatmap_answer(engine, self.engine_token(), *beatmap, r),
    ;

    /// The scores of a parsed beatmap played at an arbitrary `rate`. The
    /// times of its rows are divided by the rate and the engine is asked for
    /// the scores at all rates of what results: its scores at 1.0x are the
    /// scores of the beatmap at `rate`.
    fn calculate_msd_at_rate<F: Fn(usize, &Vec<NoteInfo>, u32) -> MsdForAllRates>(
        &self,
        beatmap: &Beatmap,
        rate: i64,
        engine: &F,
    ) -> (r: MinaCalcResult<SkillsetScores>)
        requires
            forall|rows: Seq<Note>| #[trigger]
                rows_at_rate(rows, *beatmap, rate) ==> msd_engine_ready(
                    engine,
                    self.engine_token(),
                    rows,
                    key_count_of(beatmap.circle_size)->0,
                ),
        ensures
            rate <= 0 ==> r == Err::<SkillsetScores, MinaCalcError>(
                MinaCalcError::InvalidMusicRate(rate),
            ),
            rate > 0 ==> match beatmap_refusal(*beatmap) {
                Some(e) => r == Err::<SkillsetScores, MinaCalcError>(MinaCalcError::OsuError(e)),
                None => match merge_refusal(*beatmap) {
                    Some(e) => r == Err::<SkillsetScores, MinaCalcError>(
                        MinaCalcError::OsuError(e),
                    ),
                    None => exists|rows: Seq<Note>, table: MinaCalcResult<AllRates>|
                        rows_at_rate(rows, *beatmap, rate) && msd_answer(
                            engine,
                            self.engine_token(),
                            rows,
                            key_count_of(beatmap.circle_size)->0,
                            table,
                        ) && r == at_unit_rate(table),
                },
            },
    ;

    /// Refuses an unknown key count, then an empty row sequence, then the
    /// first row that is no row of a chart with `key_count` keys, then the
    /// first row that does not lie after the row before it.
    fn validate_notes(notes: &[Note], key_count: u32) -> (r: OsuResult<()>)
        ensures
            r is Ok <==> known_key_count(key_count) && notes@.len() > 0 && (forall|i: int|
                0 <= i < notes@.len() ==> chart_row(#[trigger] notes@[i], key_count))
                && strictly_ascending(notes@),
            match r {
                Ok(()) => rows_refusal(notes@, key_count) is None,
                Err(e) => rows_refusal(notes@, key_count) == Some(e),
            },
    ;
}

/// The lanes of a chart, all set, as a number that can be compared.
fn lane_limit(key_count: u32) -> (r: u32)
    requires
        known_key_count(key_count),
    ensures
        r == all_lanes(key_count),
{
    if key_count == 4 {
        0b1111
    } else if key_count == 6 {
        0b11_1111
    } else {
        0b111_1111
    }
}

impl OsuCalcExt for Calc {
    fn get_columns(x: i64, key_count: u32) -> (r: OsuResult<u32>) {
        if key_count != 4 && key_count != 6 && key_count != 7 {
            return Err(OsuError::UnsupportedKeyCount((key_count as i64) * MICRO));
        }
        let mut lane: u32 = 0;
        while lane < key_count
            invariant
                lane <= key_count,
                known_key_count(key_count),
                forall|k: int| 0 <= k < lane ==> !#[trigger] at_position(x, key_count)(k),
            decreases key_count - lane,
        {
            let position: i64 = (((2 * lane + 1) * 256 / key_count) as i64) * MICRO;
            if x == position {
                proof {
                    lemma_first_index_is(key_count as int, at_position(x, key_count), lane as int);
                }
                return Ok(1u32 << lane);
            }
            lane += 1;
        }
        proof {
            lemma_first_index(key_count as int, at_position(x, key_count));
        }
        Err(OsuError::UnsupportedColumn(x))
    }

    fn hit_object_to_note(hit_object: HitObject, key_count: u32) -> (r: OsuResult<Note>) {
        let time: i64 = hit_object.start_time;
        if time < 0 {
            return Err(OsuError::HitObjectConversion(ConversionFault::NegativeTime));
        }
        match hit_object.kind {
            HitObjectKind::Circle { x } => {
                match Self::get_columns(x, key_count) {
                    Ok(notes) => Ok(Note { notes, row_time: time }),
                    Err(e) => Err(e),
                }
            },
            HitObjectKind::Hold { x } => {
                match Self::get_columns(x, key_count) {
                    Ok(notes) => Ok(Note { notes, row_time: time }),
                    Err(e) => Err(e),
                }
            },
            _ => Err(OsuError::UnsupportedHitObjectKind(hit_object.kind)),
        }
    }

    fn to_notes_merged(beatmap: &Beatmap) -> (r: OsuResult<Vec<Note>>) {
        let key_count: u32 = match beatmap.key_count() {
            Some(key_count) => key_count,
            None => {
                return Err(OsuError::UnsupportedKeyCount(beatmap.circle_size));
            },
        };
        let n: usize = beatmap.hit_objects.len();
        let ghost objects = beatmap.hit_objects@;
        let ghost limit = all_lanes(key_count);
        let mut rows: Vec<Note> = Vec::new();
        let mut i: usize = 0;
        while i < n
            invariant
                i <= n,
                n == beatmap.hit_objects.len(),
                objects == beatmap.hit_objects@,
                key_count_of(beatmap.circle_size) == Some(key_count),
                forall|j: int| 0 <= j < i ==> !#[trigger] unconvertible(objects, key_count)(j),
                is_merge_of(rows@, stamped_all(objects.take(i as int), key_count)),
            decreases n - i,
        {
            let hit_object = beatmap.hit_objects[i];
            match Self::hit_object_to_note(hit_object, key_count) {
                Ok(note) => {
                    let event = Note {
                        notes: note.notes,
                        row_time: round_to_milliseconds(note.row_time),
                    };
                    let ghost seen = stamped_all(objects.take(i as int), key_count);
                    let ghost held = rows@;
                    merge_event(&mut rows, event);
                    proof {
                        lemma_merge_step(held, seen, rows@, event);
                        assert(seen.push(event) =~= stamped_all(objects.take(i + 1), key_count));
                    }
                },
                Err(e) => {
                    proof {
                        lemma_first_index_is(
                            n as int,
                            unconvertible(objects, key_count),
                            i as int,
                        );
                    }
                    return Err(e);
                },
            }
            i += 1;
        }
        let ghost events = stamped_all(objects, key_count);
        proof {
            assert(objects.take(n as int) =~= objects);
            lemma_first_index(n as int, unconvertible(objects, key_count));
            assert forall|j: int| 0 <= j < events.len() implies (#[trigger] events[j]).notes != 0
                && limit | events[j].notes == limit && events[j].row_time >= 0 by {
                assert(!unconvertible(objects, key_count)(j));
                lemma_quotient_bounds(objects[j].start_time + 500, 1000);
                let x = match objects[j].kind {
                    HitObjectKind::Circle { x } => x,
                    HitObjectKind::Hold { x } => x,
                    _ => 0i64,
                };
                lemma_first_index(key_count as int, at_position(x, key_count));
                let lane = first_index(key_count as int, at_position(x, key_count))->0;
                let c = lane as u32;
                assert(events[j].notes == 1u32 << c);
                assert(c < 4 ==> (1u32 << c) != 0 && 0b1111u32 | (1u32 << c) == 0b1111u32)
                    by (bit_vector);
                assert(c < 6 ==> (1u32 << c) != 0 && 0b11_1111u32 | (1u32 << c) == 0b11_1111u32)
                    by (bit_vector);
                assert(c < 7 ==> (1u32 << c) != 0 && 0b111_1111u32 | (1u32 << c)
                    == 0b111_1111u32) by (bit_vector);
            }
            lemma_merged_lanes(rows@, events, limit);
            if n > 0 {
                assert(has_time(rows@, events[0].row_time));
            }
            assert forall|k: int| 0 <= k < rows@.len() implies chart_row(
                #[trigger] rows@[k],
                key_count,
            ) by {
                assert(has_time(events, rows@[k].row_time));
            }
            lemma_rising_is_ascending(rows@);
        }
        if rows.len() == 0 {
            return Err(OsuError::HitObjectConversion(ConversionFault::NoValidNotes));
        }
        match Self::validate_notes(rows.as_slice(), key_count) {
            Ok(()) => Ok(rows),
            Err(e) => Err(e),
        }
    }

    fn security_check(beatmap: &Beatmap) -> (r: OsuResult<()>) {
        match beatmap.mode {
            GameMode::Mania => {},
            _ => {
                return Err(OsuError::UnsupportedGameMode(beatmap.mode));
            },
        }
        match beatmap.key_count() {
            Some(_) => Ok(()),
            None => Err(OsuError::UnsupportedKeyCount(beatmap.circle_size)),
        }
    }

    fn calculate_msd_from_beatmap<F: Fn(usize, &Vec<NoteInfo>, u32) -> MsdForAllRates>(
        &self,
        beatmap: &Beatmap,
        engine: &F,
    ) -> (r: MinaCalcResult<AllRates>) {
        match Self::security_check(beatmap) {
            Ok(()) => {},
            Err(e) => {
                return Err(MinaCalcError::from(e));
            },
        }
        let notes = match Self::to_notes_merged(beatmap) {
            Ok(notes) => notes,
            Err(e) => {
                return Err(MinaCalcError::from(e));
            },
        };
        let key_count: u32 = match beatmap.key_count() {
            Some(key_count) => key_count,
            None => 4,
        };
        assert(rows_of_beatmap(notes@, *beatmap));
        self.calc_msd_with_keycount(notes.as_slice(), key_count, engine)
    }

    fn calculate_msd_at_rate<F: Fn(usize, &Vec<NoteInfo>, u32) -> MsdForAllRates>(
        &self,
        beatmap: &Beatmap,
        rate: i64,
        engine: &F,
    ) -> (r: MinaCalcResult<SkillsetScores>) {
        if rate <= 0 {
            return Err(MinaCalcError::InvalidMusicRate(rate));
        }
        match Self::security_check(beatmap) {
            Ok(()) => {},
            Err(e) => {
                return Err(MinaCalcError::from(e));
            },
        }
        let notes = match Self::to_notes_merged(beatmap) {
            Ok(notes) => notes,
            Err(e) => {
                return Err(MinaCalcError::from(e));
            },
        };
        let key_count: u32 = match beatmap.key_count() {
            Some(key_count) => key_count,
            None => 4,
        };
        let scaled = scale_notes(notes.as_slice(), rate);
        let scaled_notes = merge_rows(&scaled);
        assert(rows_at_rate(scaled_notes@, *beatmap, rate)) by {
            assert(rows_of_beatmap(notes@, *beatmap));
        }
        let all_rates = self.calc_msd_with_keycount(scaled_notes.as_slice(), key_count, engine);
        match all_rates {
            Ok(table) => Ok(table.msds[3]),
            Err(e) => Err(e),
        }
    }

    fn validate_notes(notes: &[Note], key_count: u32) -> (r: OsuResult<()>) {
        if key_count != 4 && key_count != 6 && key_count != 7 {
            return Err(OsuError::UnsupportedKeyCount((key_count as i64) * MICRO));
        }
        let limit: u32 = lane_limit(key_count);
        let n: usize = notes.len();
        if n == 0 {
            return Err(OsuError::HitObjectConversion(ConversionFault::NoNotesToValidate));
        }
        let mut i: usize = 0;
        while i < n
            invariant
                i <= n,
                n == notes@.len(),
                known_key_count(key_count),
                limit == all_lanes(key_count),
                forall|j: int| 0 <= j < i ==> !#[trigger] not_chart_row(notes@, key_count)(j),
            decreases n - i,
        {
            let note = notes[i];
            if note.notes == 0 || note.notes > limit || note.row_time < 0 {
                proof {
                    lemma_first_index_is(n as int, not_chart_row(notes@, key_count), i as int);
                    assert(!chart_row(notes@[i as int], key_count));
                }
                if note.notes == 0 {
                    return Err(
                        OsuError::HitObjectConversion(ConversionFault::NoColumns { index: i }),
                    );
                }
                if note.notes > limit {
                    return Err(
                        OsuError::HitObjectConversion(
                            ConversionFault::ExceedsKeyLimit { index: i, key_count },
                        ),
                    );
                }
                return Err(
                    OsuError::HitObjectConversion(ConversionFault::NegativeRowTime { index: i }),
                );
            }
            i += 1;
        }
        proof {
            lemma_first_index(n as int, not_chart_row(notes@, key_count));
            assert forall|k: int| 0 <= k < n implies chart_row(
                #[trigger] notes@[k],
                key_count,
            ) by {
                assert(!not_chart_row(notes@, key_count)(k));
            }
        }
        let mut j: usize = 1;
        while j < n
            invariant
                1 <= j <= n,
                n == notes@.len(),
                known_key_count(key_count),
                first_index(n as int, not_chart_row(notes@, key_count)) is None,
                forall|k: int| 0 <= k < n ==> chart_row(#[trigger] notes@[k], key_count),
                forall|k: int| 0 <= k < j ==> !#[trigger] not_rising(notes@)(k),
            decreases n - j,
        {
            if notes[j].row_time <= notes[j - 1].row_time {
                proof {
                    lemma_first_index_is(n as int, not_rising(notes@), j as int);
                    lemma_rising_is_ascending(notes@);
                }
                if notes[j].row_time == notes[j - 1].row_time {
                    return Err(
                        OsuError::HitObjectConversion(ConversionFault::DuplicateTime { index: j }),
                    );
                }
                return Err(
                    OsuError::HitObjectConversion(ConversionFault::FallingTime { index: j }),
                );
            }
            j += 1;
        }
        proof {
            lemma_first_index(n as int, not_rising(notes@));
            lemma_rising_is_ascending(notes@);
        }
        Ok(())
    }
}

/// Playing a beatmap at 1.0x is playing it as it is: its rows at the rate
/// 1.0x are its own rows.
pub proof fn lemma_unit_rate_rows(beatmap: Beatmap, rows: Seq<Note>)
    ensures
        rows_at_rate(rows, beatmap, MICRO) <==> rows_of_beatmap(rows, beatmap),
{
    assert forall|plain: Seq<Note>| #[trigger] rescaled(plain, MICRO) == plain by {
        assert forall|i: int| 0 <= i < plain.len() implies rescaled(plain, MICRO)[i]
            == plain[i] by {
            lemma_scaled_at_unit_rate(plain[i].row_time);
        }
        assert(rescaled(plain, MICRO) =~= plain);
    }
    if rows_at_rate(rows, beatmap, MICRO) {
        let plain = choose|plain: Seq<Note>|
            #[trigger] rows_of_beatmap(plain, beatmap) && is_merge_of(rows, rescaled(plain, MICRO));
        assert(rescaled(plain, MICRO) == plain);
        lemma_merged_rows_are_fixed(plain);
        lemma_merge_unique(rows, plain, plain);
        lemma_merge_unique(
            rows,
            plain,
            stamped_all(beatmap.hit_objects@, key_count_of(beatmap.circle_size)->0),
        );
    }
    if rows_of_beatmap(rows, beatmap) {
        assert(rescaled(rows, MICRO) == rows);
        lemma_merged_rows_are_fixed(rows);
    }
}

} // verus!
