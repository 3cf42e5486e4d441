//! Notes, skillset scores and the calculator handle.

use vstd::prelude::*;
use vstd::std_specs::convert::FromSpecImpl;
use crate::error::{MinaCalcError, MinaCalcResult, NoteDataError};
use crate::first::{first_index, lemma_first_index, lemma_first_index_is};
use crate::fixed::{GOAL_MAX, SCORE_MAX};

verus! {

/// One row of a chart: the lanes that are struck together at one time.
#[derive(Debug, Clone, Copy, PartialEq, Eq, Structural)]
pub struct Note {
    /// The active lanes, one bit each, lane 0 in the lowest bit.
    pub notes: u32,
    /// The time of the row in microseconds.
    pub row_time: i64,
}

impl Note {
    /// What `validate` returns.
    pub open spec fn validation(self) -> MinaCalcResult<()> {
        if self.notes == 0 {
            Err(MinaCalcError::InvalidNoteData(NoteDataError::NoColumns))
        } else if self.row_time < 0 {
            Err(MinaCalcError::InvalidNoteData(NoteDataError::NegativeRowTime))
        } else {
            Ok(())
        }
    }

    /// A row the calculator accepts: at least one lane, not before time zero.
    pub open spec fn is_playable(self) -> bool {
        self.notes != 0 && self.row_time >= 0
    }

    /// Refuses a row without lanes, then a row before time zero.
    pub fn validate(&self) -> (r: MinaCalcResult<()>)
        ensures
            r == self.validation(),
            r is Ok <==> self.is_playable(),
    {
        if self.notes == 0 {
            return Err(MinaCalcError::InvalidNoteData(NoteDataError::NoColumns));
        }
        if self.row_time < 0 {
            return Err(MinaCalcError::InvalidNoteData(NoteDataError::NegativeRowTime));
        }
        Ok(())
    }
}

/// A row as the scoring engine takes it.
#[derive(Debug, Clone, Copy, PartialEq, Eq, Structural)]
pub struct NoteInfo {
    pub notes: u32,
    pub row_time: i64,
}

impl From<Note> for NoteInfo {
    fn from(note: Note) -> (r: Self) {
        NoteInfo { notes: note.notes, row_time: note.row_time }
    }
}

impl FromSpecImpl<Note> for NoteInfo {
    open spec fn obeys_from_spec() -> bool {
        true
    }

    open spec fn from_spec(note: Note) -> Self {
        NoteInfo { notes: note.notes, row_time: note.row_time }
    }
}

impl From<NoteInfo> for Note {
    fn from(note_info: NoteInfo) -> (r: Self) {
        Note { notes: note_info.notes, row_time: note_info.row_time }
    }
}

impl FromSpecImpl<NoteInfo> for Note {
    open spec fn obeys_from_spec() -> bool {
        true
    }

    open spec fn from_spec(note_info: NoteInfo) -> Self {
        Note { notes: note_info.notes, row_time: note_info.row_time }
    }
}

/// The scores of one chart at one rate, in millionths of a point.
#[derive(Debug, Clone, Copy, PartialEq, Eq, Structural)]
pub struct SkillsetScores {
    pub overall: i64,
    pub stream: i64,
    pub jumpstream: i64,
    pub handstream: i64,
    pub stamina: i64,
    pub jackspeed: i64,
    pub chordjack: i64,
    pub technical: i64,
}

/// The scores of one chart at one rate as the scoring engine gives them.
#[derive(Debug, Clone, Copy, PartialEq, Eq, Structural)]
pub struct Ssr {
    pub overall: i64,
    pub stream: i64,
    pub jumpstream: i64,
    pub handstream: i64,
    pub stamina: i64,
    pub jackspeed: i64,
    pub chordjack: i64,
    pub technical: i64,
}

/// A score the engine may report: between 0 and 1000 points.
pub open spec fn score_in_bounds(score: i64) -> bool {
    0 <= score <= SCORE_MAX
}

impl SkillsetScores {
    /// The eight scores, the overall one first, then the skillsets in their
    /// canonical order.
    pub open spec fn fields(self) -> Seq<i64> {
        seq![
            self.overall,
            self.stream,
            self.jumpstream,
            self.handstream,
            self.stamina,
            self.jackspeed,
            self.chordjack,
            self.technical,
        ]
    }

    /// The places of `fields` that hold a score out of bounds.
    pub open spec fn out_of_bounds(self) -> spec_fn(int) -> bool {
        |i: int| !score_in_bounds(self.fields()[i])
    }

    /// Every score lies between 0 and 1000 points.
    pub open spec fn in_bounds(self) -> bool {
        forall|i: int| 0 <= i < 8 ==> score_in_bounds(#[trigger] self.fields()[i])
    }

    /// The first score out of bounds, if there is one.
    pub open spec fn first_out_of_bounds(self) -> Option<i64> {
        match first_index(8, self.out_of_bounds()) {
            Some(i) => Some(self.fields()[i]),
            None => None,
        }
    }

    /// Refuses scores of which one lies outside `[0, 1000]`, naming the first
    /// such score.
    pub fn validate(&self) -> (r: MinaCalcResult<()>)
        ensures
            match r {
                Ok(()) => self.in_bounds() && self.first_out_of_bounds() is None,
                Err(e) => !self.in_bounds() && self.first_out_of_bounds() is Some && e
                    == MinaCalcError::InvalidNoteData(
                    NoteDataError::ScoreOutOfBounds { score: self.first_out_of_bounds()->0 },
                ),
            },
    {
        let scores: [i64; 8] = [
            self.overall,
            self.stream,
            self.jumpstream,
            self.handstream,
            self.stamina,
            self.jackspeed,
            self.chordjack,
            self.technical,
        ];
        assert(scores@ =~= self.fields());
        let mut i: usize = 0;
        while i < 8
            invariant
                i <= 8,
                scores@ == self.fields(),
                forall|j: int| 0 <= j < i ==> !#[trigger] self.out_of_bounds()(j),
            decreases 8 - i,
        {
            let score: i64 = scores[i];
            if score < 0 || score > SCORE_MAX {
                proof {
                    lemma_first_index_is(8, self.out_of_bounds(), i as int);
                    assert(!score_in_bounds(self.fields()[i as int]));
                }
                return Err(
                    MinaCalcError::InvalidNoteData(NoteDataError::ScoreOutOfBounds { score }),
                );
            }
            i += 1;
        }
        proof {
            lemma_first_index(8, self.out_of_bounds());
            assert forall|j: int| 0 <= j < 8 implies score_in_bounds(
                #[trigger] self.fields()[j],
            ) by {
                assert(!self.out_of_bounds()(j));
            }
        }
        Ok(())
    }

    /// The jumpstream score under the name it has in six-key and seven-key
    /// charts.
    pub fn chordstream(&self) -> (r: i64)
        ensures
            r == self.jumpstream,
    {
        self.jumpstream
    }

    /// The handstream score under the name it has in six-key and seven-key
    /// charts.
    pub fn bracketing(&self) -> (r: i64)
        ensures
            r == self.handstream,
    {
        self.handstream
    }
}

impl Ssr {
    /// The same scores as the library holds them.
    pub open spec fn scores(self) -> SkillsetScores {
        SkillsetScores {
            overall: self.overall,
            stream: self.stream,
            jumpstream: self.jumpstream,
            handstream: self.handstream,
            stamina: self.stamina,
            jackspeed: self.jackspeed,
            chordjack: self.chordjack,
            technical: self.technical,
        }
    }
}

impl SkillsetScores {
    /// The same scores as the scoring engine holds them.
    pub open spec fn raw(self) -> Ssr {
        Ssr {
            overall: self.overall,
            stream: self.stream,
            jumpstream: self.jumpstream,
            handstream: self.handstream,
            stamina: self.stamina,
            jackspeed: self.jackspeed,
            chordjack: self.chordjack,
            technical: self.technical,
        }
    }
}

impl From<Ssr> for SkillsetScores {
    fn from(ssr: Ssr) -> (r: Self) {
        SkillsetScores {
            overall: ssr.overall,
            stream: ssr.stream,
            jumpstream: ssr.jumpstream,
            handstream: ssr.handstream,
            stamina: ssr.stamina,
            jackspeed: ssr.jackspeed,
            chordjack: ssr.chordjack,
            technical: ssr.technical,
        }
    }
}

impl FromSpecImpl<Ssr> for SkillsetScores {
    open spec fn obeys_from_spec() -> bool {
        true
    }

    open spec fn from_spec(ssr: Ssr) -> Self {
        ssr.scores()
    }
}

impl From<SkillsetScores> for Ssr {
    fn from(scores: SkillsetScores) -> (r: Self) {
        Ssr {
            overall: scores.overall,
            stream: scores.stream,
            jumpstream: scores.jumpstream,
            handstream: scores.handstream,
            stamina: scores.stamina,
            jackspeed: scores.jackspeed,
            chordjack: scores.chordjack,
            technical: scores.technical,
        }
    }
}

impl FromSpecImpl<SkillsetScores> for Ssr {
    open spec fn obeys_from_spec() -> bool {
        true
    }

    open spec fn from_spec(scores: SkillsetScores) -> Self {
        scores.raw()
    }
}

/// The scores of one chart at the fourteen rates from 0.7x to 2.0x, in
/// steps of 0.1x: the entry `i` belongs to the rate `0.7 + i * 0.1`.
#[derive(Debug, Clone, PartialEq, Eq)]
pub struct AllRates {
    pub msds: [SkillsetScores; 14],
}

/// The scores at the fourteen rates as the scoring engine gives them.
#[derive(Debug, Clone, PartialEq, Eq)]
pub struct MsdForAllRates {
    pub msds: [Ssr; 14],
}

impl AllRates {
    /// The entries that hold a score out of bounds.
    pub open spec fn faulty(self) -> spec_fn(int) -> bool {
        |i: int| !self.msds[i].in_bounds()
    }

    /// Every score of every entry lies between 0 and 1000 points.
    pub open spec fn in_bounds(self) -> bool {
        forall|i: int| 0 <= i < 14 ==> (#[trigger] self.msds[i]).in_bounds()
    }

    /// Why `validate` refuses the table, if it does: for the first score out
    /// of bounds of the first entry that has one.
    pub open spec fn refusal(self) -> Option<MinaCalcError> {
        match first_index(14, self.faulty()) {
            Some(i) => Some(
                MinaCalcError::InvalidNoteData(
                    NoteDataError::RateScoreOutOfBounds {
                        index: i as usize,
                        score: self.msds[i].first_out_of_bounds()->0,
                    },
                ),
            ),
            None => None,
        }
    }

    /// Refuses a table of which one score lies outside `[0, 1000]`.
    pub fn validate(&self) -> (r: MinaCalcResult<()>)
        ensures
            match r {
                Ok(()) => self.in_bounds() && self.refusal() is None,
                Err(e) => !self.in_bounds() && self.refusal() == Some(e),
            },
    {
        let mut i: usize = 0;
        while i < 14
            invariant
                i <= 14,
                forall|j: int| 0 <= j < i ==> !#[trigger] self.faulty()(j),
            decreases 14 - i,
        {
            match self.msds[i].validate() {
                Ok(()) => {},
                Err(e) => {
                    proof {
                        lemma_first_index_is(14, self.faulty(), i as int);
                    }
                    match e {
                        MinaCalcError::InvalidNoteData(
                            NoteDataError::ScoreOutOfBounds { score },
                        ) => {
                            return Err(
                                MinaCalcError::InvalidNoteData(
                                    NoteDataError::RateScoreOutOfBounds { index: i, score },
                                ),
                            );
                        },
                        _ => {
                            return Err(e);
                        },
                    }
                },
            }
            i += 1;
        }
        proof {
            lemma_first_index(14, self.faulty());
            assert forall|j: int| 0 <= j < 14 implies (#[trigger] self.msds[j]).in_bounds() by {
                assert(!self.faulty()(j));
            }
        }
        Ok(())
    }
}

impl From<MsdForAllRates> for AllRates {
    fn from(bindings_msd: MsdForAllRates) -> (r: Self) {
        let zero = SkillsetScores {
            overall: 0,
            stream: 0,
            jumpstream: 0,
            handstream: 0,
            stamina: 0,
            jackspeed: 0,
            chordjack: 0,
            technical: 0,
        };
        let mut msds: [SkillsetScores; 14] = [zero; 14];
        let mut i: usize = 0;
        while i < 14
            invariant
                i <= 14,
                forall|j: int| 0 <= j < i ==> msds[j] == bindings_msd.msds[j].scores(),
            decreases 14 - i,
        {
            msds[i] = SkillsetScores::from(bindings_msd.msds[i]);
            i += 1;
        }
        assert(msds =~= bindings_msd.table().msds);
        AllRates { msds }
    }
}

impl FromSpecImpl<MsdForAllRates> for AllRates {
    open spec fn obeys_from_spec() -> bool {
        true
    }

    open spec fn from_spec(bindings_msd: MsdForAllRates) -> Self {
        bindings_msd.table()
    }
}

impl MsdForAllRates {
    /// The same table as the library holds it.
    pub open spec fn table(self) -> AllRates {
        AllRates {
            msds: [
                self.msds[0].scores(),
                self.msds[1].scores(),
                self.msds[2].scores(),
                self.msds[3].scores(),
                self.msds[4].scores(),
                self.msds[5].scores(),
                self.msds[6].scores(),
                self.msds[7].scores(),
                self.msds[8].scores(),
                self.msds[9].scores(),
                self.msds[10].scores(),
                self.msds[11].scores(),
                self.msds[12].scores(),
                self.msds[13].scores(),
            ],
        }
    }
}

impl AllRates {
    /// The same table as the scoring engine holds it.
    pub open spec fn raw(self) -> MsdForAllRates {
        MsdForAllRates {
            msds: [
                self.msds[0].raw(),
                self.msds[1].raw(),
                self.msds[2].raw(),
                self.msds[3].raw(),
                self.msds[4].raw(),
                self.msds[5].raw(),
                self.msds[6].raw(),
                self.msds[7].raw(),
                self.msds[8].raw(),
                self.msds[9].raw(),
                self.msds[10].raw(),
                self.msds[11].raw(),
                self.msds[12].raw(),
                self.msds[13].raw(),
            ],
        }
    }
}

impl From<AllRates> for MsdForAllRates {
    fn from(msd: AllRates) -> (r: Self) {
        let zero = Ssr {
            overall: 0,
            stream: 0,
            jumpstream: 0,
            handstream: 0,
            stamina: 0,
            jackspeed: 0,
            chordjack: 0,
            technical: 0,
        };
        let mut msds: [Ssr; 14] = [zero; 14];
        let mut i: usize = 0;
        while i < 14
            invariant
                i <= 14,
                forall|j: int| 0 <= j < i ==> msds[j] == msd.msds[j].raw(),
            decreases 14 - i,
        {
            msds[i] = Ssr::from(msd.msds[i]);
            i += 1;
        }
        assert(msds =~= msd.raw().msds);
        MsdForAllRates { msds }
    }
}

impl FromSpecImpl<AllRates> for MsdForAllRates {
    open spec fn obeys_from_spec() -> bool {
        true
    }

    open spec fn from_spec(msd: AllRates) -> Self {
        msd.raw()
    }
}

/// The rows as the scoring engine takes them.
pub open spec fn infos_of(notes: Seq<Note>) -> Seq<NoteInfo> {
    Seq::new(notes.len(), |i: int| NoteInfo { notes: notes[i].notes, row_time: notes[i].row_time })
}

/// The places of `notes` that hold a row the calculator does not accept.
pub open spec fn unplayable(notes: Seq<Note>) -> spec_fn(int) -> bool {
    |i: int| !notes[i].is_playable()
}

/// The key counts the calculator knows.
pub open spec fn known_key_count(keycount: u32) -> bool {
    keycount == 4 || keycount == 6 || keycount == 7
}

/// The lanes of a chart with `keycount` keys, all set.
pub open spec fn all_lanes(keycount: u32) -> u32 {
    if keycount == 4 {
        0b1111
    } else if keycount == 6 {
        0b11_1111
    } else {
        0b111_1111
    }
}

/// Why a request for the scores at all rates is refused before the engine
/// sees it, if it is: there are no rows, or else the key count is unknown, or
/// else a row is not playable; the first such row is named.
pub open spec fn msd_request_refusal(notes: Seq<Note>, keycount: u32) -> Option<MinaCalcError> {
    if notes.len() == 0 {
        Some(MinaCalcError::NoNotesProvided)
    } else if !known_key_count(keycount) {
        Some(MinaCalcError::UnsupportedKeyCount(keycount))
    } else {
        match first_index(notes.len() as int, unplayable(notes)) {
            Some(i) => Some(notes[i].validation()->Err_0),
            None => None,
        }
    }
}

/// Why a request for the scores at one rate is refused before the engine
/// sees it, if it is: there are no rows, or else the key count is unknown, or
/// else the music rate is not positive, or else the score goal lies outside
/// `(0, 100]`, or else a row is not playable.
pub open spec fn ssr_request_refusal(
    notes: Seq<Note>,
    music_rate: i64,
    score_goal: i64,
    keycount: u32,
) -> Option<MinaCalcError> {
    if notes.len() == 0 {
        Some(MinaCalcError::NoNotesProvided)
    } else if !known_key_count(keycount) {
        Some(MinaCalcError::UnsupportedKeyCount(keycount))
    } else if music_rate <= 0 {
        Some(MinaCalcError::InvalidMusicRate(music_rate))
    } else if score_goal <= 0 || score_goal > GOAL_MAX {
        Some(MinaCalcError::InvalidScoreGoal(score_goal))
    } else {
        match first_index(notes.len() as int, unplayable(notes)) {
            Some(i) => Some(notes[i].validation()->Err_0),
            None => None,
        }
    }
}

/// What becomes of the table the engine gave: it is handed on if all of its
/// scores are in bounds, and refused otherwise.
pub open spec fn table_outcome(raw: MsdForAllRates) -> MinaCalcResult<AllRates> {
    match raw.table().refusal() {
        Some(e) => Err(e),
        None => Ok(raw.table()),
    }
}

/// What becomes of the scores the engine gave: they are handed on if all of
/// them are in bounds, and refused otherwise.
pub open spec fn scores_outcome(raw: Ssr) -> MinaCalcResult<SkillsetScores> {
    match raw.scores().first_out_of_bounds() {
        Some(score) => Err(
            MinaCalcError::InvalidNoteData(NoteDataError::ScoreOutOfBounds { score }),
        ),
        None => Ok(raw.scores()),
    }
}

/// The engine accepts the request for the scores at all rates that `notes`
/// make with `keycount` keys, if the request reaches it.
pub open spec fn msd_engine_ready<F: Fn(usize, &Vec<NoteInfo>, u32) -> MsdForAllRates>(
    engine: &F,
    token: usize,
    notes: Seq<Note>,
    keycount: u32,
) -> bool {
    msd_request_refusal(notes, keycount) is None ==> forall|infos: Vec<NoteInfo>|
        infos@ == infos_of(notes) ==> engine.requires((token, &infos, keycount))
}

/// `r` answers the request for the scores at all rates that `notes` make
/// with `keycount` keys: the refusal where the request is refused, and else
/// what becomes of a table that the engine gave for these rows.
pub open spec fn msd_answer<F: Fn(usize, &Vec<NoteInfo>, u32) -> MsdForAllRates>(
    engine: &F,
    token: usize,
    notes: Seq<Note>,
    keycount: u32,
    r: MinaCalcResult<AllRates>,
) -> bool {
    match msd_request_refusal(notes, keycount) {
        Some(e) => r == Err::<AllRates, MinaCalcError>(e),
        None => exists|infos: Vec<NoteInfo>, raw: MsdForAllRates|
            infos@ == infos_of(notes) && engine.ensures((token, &infos, keycount), raw) && r
                == table_outcome(raw),
    }
}

/// The engine accepts the request for the scores at one rate that `notes`
/// make, if the request reaches it.
pub open spec fn ssr_engine_ready<F: Fn(usize, &Vec<NoteInfo>, i64, i64, u32) -> Ssr>(
    engine: &F,
    token: usize,
    notes: Seq<Note>,
    music_rate: i64,
    score_goal: i64,
    keycount: u32,
) -> bool {
    ssr_request_refusal(notes, music_rate, score_goal, keycount) is None ==> forall|
        infos: Vec<NoteInfo>,
    |
        infos@ == infos_of(notes) ==> engine.requires(
            (token, &infos, music_rate, score_goal, keycount),
        )
}

/// `r` answers the request for the scores at one rate that `notes` make: the
/// refusal where the request is refused, and else what becomes of scores
/// that the engine gave for these rows.
pub open spec fn ssr_answer<F: Fn(usize, &Vec<NoteInfo>, i64, i64, u32) -> Ssr>(
    engine: &F,
    token: usize,
    notes: Seq<Note>,
    music_rate: i64,
    score_goal: i64,
    keycount: u32,
    r: MinaCalcResult<SkillsetScores>,
) -> bool {
    match ssr_request_refusal(notes, music_rate, score_goal, keycount) {
        Some(e) => r == Err::<SkillsetScores, MinaCalcError>(e),
        None => exists|infos: Vec<NoteInfo>, raw: Ssr|
            infos@ == infos_of(notes) && engine.ensures(
                (token, &infos, music_rate, score_goal, keycount),
                raw,
            ) && r == scores_outcome(raw),
    }
}

/// Takes over the table the engine gave, unless a score is out of bounds.
pub fn checked_table(raw: MsdForAllRates) -> (r: MinaCalcResult<AllRates>)
    ensures
        r == table_outcome(raw),
{
    let msd = AllRates::from(raw);
    match msd.validate() {
        Ok(()) => Ok(msd),
        Err(e) => Err(e),
    }
}

/// Takes over the scores the engine gave, unless one is out of bounds.
pub fn checked_scores(raw: Ssr) -> (r: MinaCalcResult<SkillsetScores>)
    ensures
        r == scores_outcome(raw),
{
    let scores = SkillsetScores::from(raw);
    match scores.validate() {
        Ok(()) => Ok(scores),
        Err(e) => Err(e),
    }
}

/// Checks that every row is playable, naming the first that is not.
pub(crate) fn validate_all(notes: &[Note]) -> (r: MinaCalcResult<()>)
    ensures
        match first_index(notes@.len() as int, unplayable(notes@)) {
            Some(i) => r == Err::<(), MinaCalcError>(notes@[i].validation()->Err_0),
            None => r == Ok::<(), MinaCalcError>(()),
        },
{
    let n: usize = notes.len();
    let mut i: usize = 0;
    while i < n
        invariant
            i <= n,
            n == notes@.len(),
            forall|j: int| 0 <= j < i ==> !#[trigger] unplayable(notes@)(j),
        decreases n - i,
    {
        match notes[i].validate() {
            Ok(()) => {},
            Err(e) => {
                proof {
                    lemma_first_index_is(n as int, unplayable(notes@), i as int);
                }
                return Err(e);
            },
        }
        i += 1;
    }
    proof {
        lemma_first_index(n as int, unplayable(notes@));
    }
    Ok(())
}

/// Puts the rows into the form the engine takes.
pub(crate) fn to_infos(notes: &[Note]) -> (infos: Vec<NoteInfo>)
    ensures
        infos@ == infos_of(notes@),
{
    let n: usize = notes.len();
    let mut infos: Vec<NoteInfo> = Vec::new();
    let mut i: usize = 0;
    while i < n
        invariant
            i <= n,
            n == notes@.len(),
            infos@ == infos_of(notes@.take(i as int)),
        decreases n - i,
    {
        infos.push(NoteInfo::from(notes[i]));
        proof {
            assert(infos@ =~= infos_of(notes@.take(i + 1)));
        }
        i += 1;
    }
    proof {
        assert(notes@.take(n as int) =~= notes@);
    }
    infos
}

/// One instance of the scoring engine, known by the handle the engine gave
/// for it. The engine itself is not part of this library: whoever evaluates
/// hands in the call that reaches it.
#[derive(Debug, PartialEq, Eq)]
pub struct Calc {
    pub(crate) handle: usize,
}

/// What has the handle of an instance of the scoring engine.
pub trait EngineHandle {
    /// The handle, as the contracts speak of it.
    spec fn engine_token(&self) -> usize;
}

impl EngineHandle for Calc {
    open spec fn engine_token(&self) -> usize {
        self.token()
    }
}

impl Calc {
    /// The handle of the instance; zero is the handle of no instance.
    pub closed spec fn token(&self) -> usize {
        self.handle
    }

    /// The handle of the instance.
    pub fn handle(&self) -> (r: usize)
        ensures
            r == self.token(),
    {
        self.handle
    }

    /// Has the engine make an instance. Fails if the engine gives the handle
    /// of no instance.
    pub fn new<F: Fn() -> usize>(create: &F) -> (r: MinaCalcResult<Calc>)
        requires
            create.requires(()),
        ensures
            match r {
                Ok(calc) => calc.token() != 0 && create.ensures((), calc.token()),
                Err(e) => e == MinaCalcError::CalculatorCreationFailed && create.ensures(
                    (),
                    0usize,
                ),
            },
    {
        let handle: usize = create();
        if handle == 0 {
            return Err(MinaCalcError::CalculatorCreationFailed);
        }
        Ok(Calc { handle })
    }

    /// The version of the scoring engine, which `engine_version` asks the
    /// engine for.
    pub fn version<F: Fn() -> i32>(engine_version: &F) -> (r: i32)
        requires
            engine_version.requires(()),
        ensures
            engine_version.ensures((), r),
    {
        engine_version()
    }

    /// Whether this is an instance at all.
    pub fn is_valid(&self) -> (r: bool)
        ensures
            r == (self.token() != 0),
    {
        self.handle != 0
    }

    /// The scores at all rates of a four-key chart.
    pub fn calc_msd<F: Fn(usize, &Vec<NoteInfo>, u32) -> MsdForAllRates>(
        &self,
        notes: &[Note],
        engine: &F,
    ) -> (r: MinaCalcResult<AllRates>)
        requires
            msd_engine_ready(engine, self.token(), notes@, 4),
        ensures
            msd_answer(engine, self.token(), notes@, 4, r),
    {
        if notes.len() == 0 {
            return Err(MinaCalcError::NoNotesProvided);
        }
        match validate_all(notes) {
            Ok(()) => {},
            Err(e) => {
                return Err(e);
            },
        }
        let note_infos = to_infos(notes);
        let result = engine(self.handle, &note_infos, 4);
        checked_table(result)
    }

    /// The scores of a four-key chart at one music rate, for one score goal.
    pub fn calc_ssr<F: Fn(usize, &Vec<NoteInfo>, i64, i64, u32) -> Ssr>(
        &self,
        notes: &[Note],
        music_rate: i64,
        score_goal: i64,
        engine: &F,
    ) -> (r: MinaCalcResult<SkillsetScores>)
        requires
            ssr_engine_ready(engine, self.token(), notes@, music_rate, score_goal, 4),
        ensures
            ssr_answer(engine, self.token(), notes@, music_rate, score_goal, 4, r),
    {
        if notes.len() == 0 {
            return Err(MinaCalcError::NoNotesProvided);
        }
        if music_rate <= 0 {
            return Err(MinaCalcError::InvalidMusicRate(music_rate));
        }
        if score_goal <= 0 || score_goal > GOAL_MAX {
            return Err(MinaCalcError::InvalidScoreGoal(score_goal));
        }
        match validate_all(notes) {
            Ok(()) => {},
            Err(e) => {
                return Err(e);
            },
        }
        let note_infos = to_infos(notes);
        let result = engine(self.handle, &note_infos, music_rate, score_goal, 4);
        checked_scores(result)
    }
}

} // verus!
