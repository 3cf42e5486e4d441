//! The report on a chart: the scores at all rates of the table, or at one
//! rate, which may be a rate of the table or any other positive rate.

use vstd::prelude::*;
use vstd::std_specs::convert::FromSpecImpl;
use crate::error::{MinaCalcError, MinaCalcResult, RoxError};
use crate::first::{first_index, lemma_first_index, lemma_first_index_is};
use crate::fixed::lemma_quotient_between;
use crate::hashmap::{in_table_range, rate_slot, table_rate};
use crate::osu::at_unit_rate;
use crate::rox::{
    all_rates_answer, all_rates_engine_ready, lemma_answer_at_unit_rate, rows_of_chart, Chart,
    RoxCalcExt,
};
use crate::utils::{outranks, Skillset};
use crate::wrapper::{AllRates, Calc, MsdForAllRates, NoteInfo, SkillsetScores};

verus! {

/// A value rounded to hundredths, halves away from zero. A value so large
/// that its rounding would leave the range of `i64` stays as it is.
pub open spec fn rounded_2(value: i64) -> i64 {
    if value >= 0 {
        if value > i64::MAX - 5_000 {
            value
        } else {
            (((value + 5_000) / 10_000) * 10_000) as i64
        }
    } else {
        if value < -i64::MAX + 5_000 {
            value
        } else {
            (-(((-value + 5_000) / 10_000) * 10_000)) as i64
        }
    }
}

/// Rounds a value to two decimal places.
pub fn round_2(value: i64) -> (r: i64)
    ensures
        r == rounded_2(value),
{
    if value >= 0 {
        if value > i64::MAX - 5_000 {
            value
        } else {
            ((value + 5_000) / 10_000) * 10_000
        }
    } else {
        if value < -i64::MAX + 5_000 {
            value
        } else {
            let up: i64 = -value + 5_000;
            -((up / 10_000) * 10_000)
        }
    }
}

/// The rates of the table, from 0.7x to 2.0x.
pub const RATES: [i64; 14] = [
    700_000,
    800_000,
    900_000,
    1_000_000,
    1_100_000,
    1_200_000,
    1_300_000,
    1_400_000,
    1_500_000,
    1_600_000,
    1_700_000,
    1_800_000,
    1_900_000,
    2_000_000,
];

/// How near a rate must be to a rate of the table to count as that rate:
/// nearer than 0.0005x.
pub const RATE_TOLERANCE: i64 = 500;

/// The entries of the table whose rate `rate` counts as.
pub open spec fn near_rate(rate: i64) -> spec_fn(int) -> bool {
    |i: int| -RATE_TOLERANCE < table_rate(i) - rate < RATE_TOLERANCE
}

/// The entry of the table whose rate `rate` counts as, if there is one.
pub open spec fn table_match(rate: i64) -> Option<int> {
    first_index(14, near_rate(rate))
}

/// Finds the entry of the table that belongs to `rate`, if `rate` is one of
/// the rates of the table.
pub fn find_rate_index(rate: i64) -> (r: Option<usize>)
    ensures
        match r {
            Some(i) => table_match(rate) == Some(i as int),
            None => table_match(rate) is None,
        },
{
    let mut i: usize = 0;
    while i < 14
        invariant
            i <= 14,
            forall|k: int| 0 <= k < i ==> !#[trigger] near_rate(rate)(k),
        decreases 14 - i,
    {
        let tabled: i64 = RATES[i];
        assert(tabled == table_rate(i as int));
        let distance: i128 = tabled as i128 - rate as i128;
        if -500 < distance && distance < 500 {
            proof {
                lemma_first_index_is(14, near_rate(rate), i as int);
            }
            return Some(i);
        }
        i += 1;
    }
    proof {
        lemma_first_index(14, near_rate(rate));
    }
    None
}

/// Whether a rate can be evaluated at: any positive rate can.
pub fn is_valid_rate(rate: i64) -> (r: bool)
    ensures
        r == (rate > 0),
{
    rate > 0
}

/// `a` is the dominant skillset: it comes before every other in the order by
/// scores, so none has a higher score, and none before it in the canonical
/// order has one as high.
pub open spec fn is_dominant(scores: SkillsetScores, a: Skillset) -> bool {
    forall|b: Skillset| b != a ==> outranks(scores, a, b)
}

/// `text` is the name of the dominant skillset.
pub open spec fn names_dominant(text: Seq<char>, scores: SkillsetScores) -> bool {
    exists|a: Skillset| #[trigger] is_dominant(scores, a) && text == a.name_text()
}

/// Finds the dominant skillset.
pub fn dominant(scores: &SkillsetScores) -> (r: Skillset)
    ensures
        is_dominant(*scores, r),
{
    let order: [Skillset; 7] = [
        Skillset::Stream,
        Skillset::Jumpstream,
        Skillset::Handstream,
        Skillset::Stamina,
        Skillset::Jackspeed,
        Skillset::Chordjack,
        Skillset::Technical,
    ];
    let mut best: Skillset = Skillset::Stream;
    let mut i: usize = 1;
    while i < 7
        invariant
            1 <= i <= 7,
            forall|k: int| 0 <= k < 7 ==> (#[trigger] order@[k]).place() == k,
            best.place() < i,
            forall|b: Skillset| b.place() < i && b != best ==> outranks(*scores, best, b),
        decreases 7 - i,
    {
        let ghost held = best;
        if scores.score(order[i]) > scores.score(best) {
            best = order[i];
        }
        proof {
            assert forall|b: Skillset| b.place() < i + 1 && b != best implies outranks(
                *scores,
                best,
                b,
            ) by {
                assert(order@[b.place()].place() == b.place());
                if b != held && b.place() < i {
                    assert(outranks(*scores, held, b));
                }
            }
        }
        i += 1;
    }
    best
}

/// The name of the dominant skillset.
pub fn get_dominant_skillset(scores: &SkillsetScores) -> (r: String)
    ensures
        names_dominant(r@, *scores),
{
    let best = dominant(scores);
    best.name().to_owned()
}

/// Scores as they are shown: rounded to two decimal places.
#[derive(Debug, Clone, Copy, PartialEq, Eq, Structural)]
pub struct SkillsetOutput {
    pub overall: i64,
    pub stream: i64,
    pub jumpstream: i64,
    pub handstream: i64,
    pub stamina: i64,
    pub jackspeed: i64,
    pub chordjack: i64,
    pub technical: i64,
}

impl SkillsetScores {
    /// The scores as they are shown.
    pub open spec fn shown(self) -> SkillsetOutput {
        SkillsetOutput {
            overall: rounded_2(self.overall),
            stream: rounded_2(self.stream),
            jumpstream: rounded_2(self.jumpstream),
            handstream: rounded_2(self.handstream),
            stamina: rounded_2(self.stamina),
            jackspeed: rounded_2(self.jackspeed),
            chordjack: rounded_2(self.chordjack),
            technical: rounded_2(self.technical),
        }
    }
}

impl From<SkillsetScores> for SkillsetOutput {
    fn from(scores: SkillsetScores) -> (r: Self) {
        SkillsetOutput {
            overall: round_2(scores.overall),
            stream: round_2(scores.stream),
            jumpstream: round_2(scores.jumpstream),
            handstream: round_2(scores.handstream),
            stamina: round_2(scores.stamina),
            jackspeed: round_2(scores.jackspeed),
            chordjack: round_2(scores.chordjack),
            technical: round_2(scores.technical),
        }
    }
}

impl FromSpecImpl<SkillsetScores> for SkillsetOutput {
    open spec fn obeys_from_spec() -> bool {
        true
    }

    open spec fn from_spec(scores: SkillsetScores) -> Self {
        scores.shown()
    }
}

/// The scores at one rate of the table.
#[derive(Debug, Clone, Copy, PartialEq, Eq, Structural)]
pub struct RateEntry {
    pub rate: i64,
    pub scores: SkillsetOutput,
}

/// The report on a chart at all rates of the table.
#[derive(Debug, Clone, PartialEq, Eq)]
pub struct MsdResult {
    pub beatmap_path: String,
    /// The version of the scoring engine.
    pub minacalc_version: i32,
    pub rates: Vec<RateEntry>,
    /// The dominant skillset at 1.0x.
    pub dominant_skillset: String,
    /// The overall score at 1.0x.
    pub difficulty_1x: i64,
}

/// The report on a chart at one rate.
#[derive(Debug, Clone, PartialEq, Eq)]
pub struct SingleRateMsdResult {
    pub beatmap_path: String,
    /// The version of the scoring engine.
    pub minacalc_version: i32,
    pub rate: i64,
    pub scores: SkillsetOutput,
    /// The dominant skillset at this rate.
    pub dominant_skillset: String,
}

/// `out` reports `all_rates` for the chart at `path`.
pub open spec fn is_full_report(
    out: MsdResult,
    all_rates: AllRates,
    path: Seq<char>,
    version: i32,
) -> bool {
    &&& out.beatmap_path@ == path
    &&& out.minacalc_version == version
    &&& out.rates@.len() == 14
    &&& forall|i: int|
        0 <= i < 14 ==> (#[trigger] out.rates@[i]).rate == table_rate(i) && out.rates@[i].scores
            == all_rates.msds[i].shown()
    &&& names_dominant(out.dominant_skillset@, all_rates.msds[3])
    &&& out.difficulty_1x == rounded_2(all_rates.msds[3].overall)
}

/// `out` reports `scores` at `rate` for the chart at `path`.
pub open spec fn is_single_report(
    out: SingleRateMsdResult,
    scores: SkillsetScores,
    rate: i64,
    path: Seq<char>,
    version: i32,
) -> bool {
    &&& out.beatmap_path@ == path
    &&& out.minacalc_version == version
    &&& out.rate == rate
    &&& out.scores == scores.shown()
    &&& names_dominant(out.dominant_skillset@, scores)
}

/// Reports a table of scores.
pub fn convert_to_output(all_rates: &AllRates, beatmap_path: &str, minacalc_version: i32) -> (out:
    MsdResult)
    ensures
        is_full_report(out, *all_rates, beatmap_path@, minacalc_version),
{
    let mut rates: Vec<RateEntry> = Vec::with_capacity(14);
    let mut i: usize = 0;
    while i < 14
        invariant
            i <= 14,
            rates@.len() == i,
            forall|k: int|
                0 <= k < i ==> (#[trigger] rates@[k]).rate == table_rate(k) && rates@[k].scores
                    == all_rates.msds[k].shown(),
        decreases 14 - i,
    {
        let rate: i64 = RATES[i];
        let scores = all_rates.msds[i];
        rates.push(RateEntry { rate, scores: SkillsetOutput::from(scores) });
        i += 1;
    }
    let scores_1x = all_rates.msds[3];
    let dominant = get_dominant_skillset(&scores_1x);
    MsdResult {
        beatmap_path: beatmap_path.to_owned(),
        minacalc_version,
        rates,
        dominant_skillset: dominant,
        difficulty_1x: round_2(scores_1x.overall),
    }
}

/// Reports the scores of one entry of a table under the rate `rate`.
pub fn convert_single_rate(
    all_rates: &AllRates,
    rate_index: usize,
    rate: i64,
    beatmap_path: &str,
    minacalc_version: i32,
) -> (out: SingleRateMsdResult)
    requires
        rate_index < 14,
    ensures
        is_single_report(
            out,
            all_rates.msds[rate_index as int],
            rate,
            beatmap_path@,
            minacalc_version,
        ),
{
    let scores = all_rates.msds[rate_index];
    let dominant = get_dominant_skillset(&scores);
    SingleRateMsdResult {
        beatmap_path: beatmap_path.to_owned(),
        minacalc_version,
        rate,
        scores: SkillsetOutput::from(scores),
        dominant_skillset: dominant,
    }
}

/// `r` answers the request for the scores of `chart` played at `rate`: the
/// scores at 1.0x of the answer for the rows that `chart` has at `rate`.
pub open spec fn at_rate_answer<F: Fn(usize, &Vec<NoteInfo>, u32) -> MsdForAllRates>(
    engine: &F,
    token: usize,
    chart: Chart,
    rate: i64,
    r: MinaCalcResult<SkillsetScores>,
) -> bool {
    exists|table: MinaCalcResult<AllRates>| #[trigger]
        all_rates_answer(engine, token, chart, Some(rate), table) && r == at_unit_rate(table)
}

/// The scores of a decoded chart played at an arbitrary `rate`. The chart
/// becomes rows at that rate and the engine is asked for the scores at all
/// rates of these rows: its scores at 1.0x are the scores of the chart at
/// `rate`.
pub fn calculate_msd_at_rate<F: Fn(usize, &Vec<NoteInfo>, u32) -> MsdForAllRates>(
    calc: &Calc,
    chart: &Chart,
    rate: i64,
    engine: &F,
) -> (r: MinaCalcResult<SkillsetScores>)
    requires
        all_rates_engine_ready(engine, calc.token(), *chart, Some(rate)),
    ensures
        at_rate_answer(engine, calc.token(), *chart, rate, r),
{
    let keycount: u32 = chart.key_count as u32;
    if keycount != 4 && keycount != 6 && keycount != 7 {
        let ghost table = Err::<AllRates, MinaCalcError>(
            MinaCalcError::UnsupportedKeyCount(keycount),
        );
        assert(all_rates_answer(engine, calc.token(), *chart, Some(rate), table));
        return Err(MinaCalcError::UnsupportedKeyCount(keycount));
    }
    let notes = match Calc::chart_to_notes(chart, Some(rate)) {
        Ok(notes) => notes,
        Err(e) => {
            let ghost table = Err::<AllRates, MinaCalcError>(MinaCalcError::RoxError(e));
            assert(all_rates_answer(engine, calc.token(), *chart, Some(rate), table));
            return Err(MinaCalcError::from(e));
        },
    };
    assert(rows_of_chart(notes@, *chart, Some(rate)));
    let all_rates = calc.calc_msd_with_keycount(notes.as_slice(), keycount, engine);
    assert(all_rates_answer(engine, calc.token(), *chart, Some(rate), all_rates));
    match all_rates {
        Ok(table) => Ok(table.msds[3]),
        Err(e) => Err(e),
    }
}

/// A report on a chart: at all rates of the table, or at one rate.
#[derive(Debug, Clone, PartialEq, Eq)]
pub enum Report {
    AllRates(MsdResult),
    SingleRate(SingleRateMsdResult),
}

/// `r` is the report on `chart` for the rate asked for. The scores at all
/// rates of the table are had first, and their failure is the failure of the
/// report. Without a rate they are the report. A rate must be positive; a
/// rate of the table is answered from the table; any other rate is answered
/// by the scores of the chart played at that rate.
pub open spec fn is_report<F: Fn(usize, &Vec<NoteInfo>, u32) -> MsdForAllRates>(
    engine: &F,
    token: usize,
    chart: Chart,
    rate: Option<i64>,
    path: Seq<char>,
    version: i32,
    r: MinaCalcResult<Report>,
) -> bool {
    exists|table: MinaCalcResult<AllRates>| #[trigger]
        all_rates_answer(engine, token, chart, None, table) && match table {
            Err(e) => r == Err::<Report, MinaCalcError>(e),
            Ok(all_rates) => match rate {
                None => r matches Ok(Report::AllRates(out)) && is_full_report(
                    out,
                    all_rates,
                    path,
                    version,
                ),
                Some(x) => if x <= 0 {
                    r == Err::<Report, MinaCalcError>(
                        MinaCalcError::RoxError(RoxError::InvalidRate(x)),
                    )
                } else {
                    match table_match(x) {
                        Some(i) => r matches Ok(Report::SingleRate(out)) && is_single_report(
                            out,
                            all_rates.msds[i],
                            table_rate(i) as i64,
                            path,
                            version,
                        ),
                        None => exists|scaled: MinaCalcResult<SkillsetScores>| #[trigger]
                            at_rate_answer(engine, token, chart, x, scaled) && match scaled {
                                Err(e) => r == Err::<Report, MinaCalcError>(e),
                                Ok(scores) => r matches Ok(Report::SingleRate(out))
                                    && is_single_report(out, scores, x, path, version),
                            },
                    }
                },
            },
        }
}

/// Makes the report on a decoded chart: at all rates of the table where no
/// rate is asked for, and else at the rate asked for.
pub fn build_report<F: Fn(usize, &Vec<NoteInfo>, u32) -> MsdForAllRates>(
    calc: &Calc,
    chart: &Chart,
    rate: Option<i64>,
    beatmap_path: &str,
    minacalc_version: i32,
    engine: &F,
) -> (r: MinaCalcResult<Report>)
    requires
        all_rates_engine_ready(engine, calc.token(), *chart, None),
        rate matches Some(x) ==> all_rates_engine_ready(engine, calc.token(), *chart, Some(x)),
    ensures
        is_report(engine, calc.token(), *chart, rate, beatmap_path@, minacalc_version, r),
{
    let table = calc.calculate_all_rates_from_rox_chart(chart, engine);
    let all_rates = match table {
        Ok(all_rates) => all_rates,
        Err(e) => {
            return Err(e);
        },
    };
    match rate {
        None => Ok(Report::AllRates(convert_to_output(&all_rates, beatmap_path, minacalc_version))),
        Some(x) => {
            if !is_valid_rate(x) {
                return Err(MinaCalcError::RoxError(RoxError::InvalidRate(x)));
            }
            match find_rate_index(x) {
                Some(rate_index) => {
                    proof {
                        lemma_first_index(14, near_rate(x));
                    }
                    Ok(
                        Report::SingleRate(
                            convert_single_rate(
                                &all_rates,
                                rate_index,
                                RATES[rate_index],
                                beatmap_path,
                                minacalc_version,
                            ),
                        ),
                    )
                },
                None => {
                    let scaled = calculate_msd_at_rate(calc, chart, x, engine);
                    match scaled {
                        Ok(scores) => {
                            let dominant = get_dominant_skillset(&scores);
                            Ok(
                                Report::SingleRate(
                                    SingleRateMsdResult {
                                        beatmap_path: beatmap_path.to_owned(),
                                        minacalc_version,
                                        rate: x,
                                        scores: SkillsetOutput::from(scores),
                                        dominant_skillset: dominant,
                                    },
                                ),
                            )
                        },
                        Err(e) => Err(e),
                    }
                },
            }
        },
    }
}

/// Every rate of the table is found at its own entry, by its value and
/// within the tolerance alike.
pub proof fn lemma_tabled_rates_round_trip(i: int)
    requires
        0 <= i < 14,
    ensures
        in_table_range(table_rate(i) as i64),
        rate_slot(table_rate(i) as i64) == i,
        table_match(table_rate(i) as i64) == Some(i),
{
    let rate = table_rate(i) as i64;
    lemma_quotient_between(rate - 700_000 + 50_000, 100_000, i);
    assert(near_rate(rate)(i));
    assert forall|j: int| 0 <= j < i implies !#[trigger] near_rate(rate)(j) by {
        assert(table_rate(j) - rate <= -100_000);
    }
    lemma_first_index_is(14, near_rate(rate), i);
}

/// A rate counts as at most one rate of the table, and as one only if it
/// lies nearer than the tolerance to it.
pub proof fn lemma_table_match(rate: i64)
    ensures
        match table_match(rate) {
            Some(i) => 0 <= i < 14 && -RATE_TOLERANCE < table_rate(i) - rate < RATE_TOLERANCE
                && forall|j: int| 0 <= j < 14 && j != i ==> !#[trigger] near_rate(rate)(j),
            None => forall|j: int| 0 <= j < 14 ==> !#[trigger] near_rate(rate)(j),
        },
{
    lemma_first_index(14, near_rate(rate));
    if table_match(rate) is Some {
        let i = table_match(rate)->0;
        assert(near_rate(rate)(i));
        assert forall|j: int| 0 <= j < 14 && j != i implies !#[trigger] near_rate(rate)(j) by {
            if j > i {
                assert(table_rate(j) - table_rate(i) >= 100_000);
            }
        }
    }
}

/// The dominant skillset is determined by the scores: no two skillsets are
/// dominant at once.
pub proof fn lemma_dominant_is_unique(scores: SkillsetScores, a: Skillset, b: Skillset)
    requires
        is_dominant(scores, a),
        is_dominant(scores, b),
    ensures
        a == b,
{
    if a != b {
        assert(outranks(scores, a, b));
        assert(outranks(scores, b, a));
    }
}

/// No skillset has a higher score than the dominant one, and of the
/// skillsets with the highest score the dominant one is the first in the
/// canonical order.
pub proof fn lemma_dominant_leads(scores: SkillsetScores, a: Skillset, b: Skillset)
    requires
        is_dominant(scores, a),
    ensures
        scores.score_of(b) <= scores.score_of(a),
        scores.score_of(b) == scores.score_of(a) ==> a.place() <= b.place(),
{
    if a != b {
        assert(outranks(scores, a, b));
    }
}

/// Playing a chart at 1.0x is playing it as it is: whatever answers the
/// request for its scores at the rate 1.0x is the entry for 1.0x of an answer
/// for its scores at all rates, and the other way round.
pub proof fn lemma_unit_rate_is_table_entry<F: Fn(usize, &Vec<NoteInfo>, u32) -> MsdForAllRates>(
    engine: &F,
    token: usize,
    chart: Chart,
    r: MinaCalcResult<SkillsetScores>,
)
    ensures
        at_rate_answer(engine, token, chart, 1_000_000, r) <==> exists|
            table: MinaCalcResult<AllRates>,
        | #[trigger]
            all_rates_answer(engine, token, chart, None, table) && r == at_unit_rate(table),
{
    assert forall|table: MinaCalcResult<AllRates>|
        all_rates_answer(engine, token, chart, Some(1_000_000i64), table) == all_rates_answer(
            engine,
            token,
            chart,
            None,
            table,
        ) by {
        lemma_answer_at_unit_rate(engine, token, chart, table);
    }
    if at_rate_answer(engine, token, chart, 1_000_000, r) {
        let table = choose|table: MinaCalcResult<AllRates>| #[trigger]
            all_rates_answer(engine, token, chart, Some(1_000_000i64), table) && r == at_unit_rate(
                table,
            );
        assert(all_rates_answer(engine, token, chart, None, table));
    }
    if exists|table: MinaCalcResult<AllRates>| #[trigger]
        all_rates_answer(engine, token, chart, None, table) && r == at_unit_rate(table) {
        let table = choose|table: MinaCalcResult<AllRates>| #[trigger]
            all_rates_answer(engine, token, chart, None, table) && r == at_unit_rate(table);
        assert(all_rates_answer(engine, token, chart, Some(1_000_000i64), table));
    }
}

} // verus!
