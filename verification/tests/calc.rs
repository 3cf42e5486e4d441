use std::cell::RefCell;

use minacalc_rs::error::{MinaCalcError, NoteDataError, OsuError, RowFault, RoxError};
use minacalc_rs::osu::{Beatmap, GameMode, HitObject, HitObjectKind, OsuCalcExt};
use minacalc_rs::report::calculate_msd_at_rate;
use minacalc_rs::rox::{Chart, ChartNote, RoxCalcExt};
use minacalc_rs::wrapper::{
    checked_scores, checked_table, AllRates, Calc, MsdForAllRates, Note, NoteInfo, SkillsetScores,
    Ssr,
};

fn ssr(base: i64) -> Ssr {
    Ssr {
        overall: base,
        stream: base + 1,
        jumpstream: base + 2,
        handstream: base + 3,
        stamina: base + 4,
        jackspeed: base + 5,
        chordjack: base + 6,
        technical: base + 7,
    }
}

fn raw_table(step: i64) -> MsdForAllRates {
    let mut raw = MsdForAllRates { msds: [ssr(0); 14] };
    for i in 0..14 {
        raw.msds[i] = ssr(i as i64 * step);
    }
    raw
}

/// An engine whose table depends on what it is handed: the entry `i` starts
/// at `i` times the time of the last row, plus the key count.
fn msd_engine(_handle: usize, infos: &Vec<NoteInfo>, keycount: u32) -> MsdForAllRates {
    let last = infos.last().map(|n| n.row_time).unwrap_or(0);
    let mut raw = MsdForAllRates { msds: [ssr(0); 14] };
    for i in 0..14 {
        raw.msds[i] = ssr(i as i64 * last + keycount as i64);
    }
    raw
}

fn ssr_engine(_h: usize, infos: &Vec<NoteInfo>, rate: i64, goal: i64, keycount: u32) -> Ssr {
    ssr(infos.len() as i64 * 1_000 + rate / 100_000 + goal / 1_000_000 + keycount as i64)
}

fn calc() -> Calc {
    Calc::new(&|| 17usize).unwrap()
}

fn notes() -> Vec<Note> {
    vec![Note { notes: 1, row_time: 0 }, Note { notes: 6, row_time: 500_000 }]
}

fn chart(key_count: u8, notes: &[(i64, u8)]) -> Chart {
    Chart {
        key_count,
        notes: notes.iter().map(|&(time_us, column)| ChartNote { time_us, column }).collect(),
    }
}

#[test]
fn test_calc_version() {
    let version = Calc::version(&|| 515);
    assert!(version > 0);
}

#[test]
fn the_version_is_what_the_engine_says() {
    assert_eq!(Calc::version(&|| 505), 505);
    assert_eq!(Calc::version(&|| -1), -1);
}

#[test]
fn test_calc_creation() {
    let calc = Calc::new(&|| 1usize);
    assert!(calc.is_ok());
}

#[test]
fn a_calculator_keeps_the_handle_it_was_given() {
    let calc = Calc::new(&|| 4711usize).unwrap();
    assert_eq!(calc.handle(), 4711);
    assert!(calc.is_valid());
}

#[test]
fn no_calculator_without_a_handle() {
    assert_eq!(Calc::new(&|| 0usize), Err(MinaCalcError::CalculatorCreationFailed));
}

#[test]
fn calc_msd_hands_the_rows_and_the_handle_to_the_engine() {
    let seen: RefCell<Vec<(usize, Vec<NoteInfo>, u32)>> = RefCell::new(Vec::new());
    let engine = |h: usize, infos: &Vec<NoteInfo>, k: u32| {
        seen.borrow_mut().push((h, infos.clone(), k));
        raw_table(10)
    };
    let table = calc().calc_msd(&notes(), &engine).unwrap();
    assert_eq!(table, AllRates::from(raw_table(10)));
    assert_eq!(
        seen.into_inner(),
        vec![(
            17,
            vec![NoteInfo { notes: 1, row_time: 0 }, NoteInfo { notes: 6, row_time: 500_000 }],
            4
        )]
    );
}

#[test]
fn calc_msd_refuses_before_the_engine_is_asked() {
    let asked = RefCell::new(0);
    let engine = |_h: usize, _i: &Vec<NoteInfo>, _k: u32| {
        *asked.borrow_mut() += 1;
        raw_table(1)
    };
    assert_eq!(calc().calc_msd(&[], &engine), Err(MinaCalcError::NoNotesProvided));
    assert_eq!(
        calc().calc_msd(&[Note { notes: 1, row_time: 0 }, Note { notes: 0, row_time: 1 }], &engine),
        Err(MinaCalcError::InvalidNoteData(NoteDataError::NoColumns))
    );
    assert_eq!(
        calc().calc_msd(&[Note { notes: 1, row_time: -1 }, Note { notes: 0, row_time: 1 }], &engine),
        Err(MinaCalcError::InvalidNoteData(NoteDataError::NegativeRowTime))
    );
    assert_eq!(*asked.borrow(), 0);
}

#[test]
fn a_table_out_of_bounds_is_refused() {
    let engine = |_h: usize, _i: &Vec<NoteInfo>, _k: u32| {
        let mut raw = raw_table(1);
        raw.msds[5].stamina = 1_000_000_001;
        raw
    };
    assert_eq!(
        calc().calc_msd(&notes(), &engine),
        Err(MinaCalcError::InvalidNoteData(NoteDataError::RateScoreOutOfBounds {
            index: 5,
            score: 1_000_000_001
        }))
    );
}

#[test]
fn checked_table_and_checked_scores() {
    assert_eq!(checked_table(raw_table(3)), Ok(AllRates::from(raw_table(3))));
    let mut bad = raw_table(3);
    bad.msds[0].overall = -1;
    assert_eq!(
        checked_table(bad),
        Err(MinaCalcError::InvalidNoteData(NoteDataError::RateScoreOutOfBounds {
            index: 0,
            score: -1
        }))
    );
    assert_eq!(checked_scores(ssr(5)), Ok(SkillsetScores::from(ssr(5))));
    assert_eq!(
        checked_scores(ssr(-3)),
        Err(MinaCalcError::InvalidNoteData(NoteDataError::ScoreOutOfBounds { score: -3 }))
    );
}

#[test]
fn calc_ssr_hands_rate_and_goal_to_the_engine() {
    let seen: RefCell<Vec<(usize, usize, i64, i64, u32)>> = RefCell::new(Vec::new());
    let engine = |h: usize, infos: &Vec<NoteInfo>, rate: i64, goal: i64, k: u32| {
        seen.borrow_mut().push((h, infos.len(), rate, goal, k));
        ssr(100)
    };
    let scores = calc().calc_ssr(&notes(), 1_300_000, 93_000_000, &engine).unwrap();
    assert_eq!(scores, SkillsetScores::from(ssr(100)));
    assert_eq!(seen.into_inner(), vec![(17, 2, 1_300_000, 93_000_000, 4)]);
}

#[test]
fn calc_ssr_refuses_bad_parameters_in_order() {
    let c = calc();
    assert_eq!(c.calc_ssr(&[], 0, 0, &ssr_engine), Err(MinaCalcError::NoNotesProvided));
    assert_eq!(c.calc_ssr(&notes(), 0, 0, &ssr_engine), Err(MinaCalcError::InvalidMusicRate(0)));
    assert_eq!(
        c.calc_ssr(&notes(), -5, 93_000_000, &ssr_engine),
        Err(MinaCalcError::InvalidMusicRate(-5))
    );
    assert_eq!(
        c.calc_ssr(&notes(), 1_000_000, 0, &ssr_engine),
        Err(MinaCalcError::InvalidScoreGoal(0))
    );
    assert_eq!(
        c.calc_ssr(&notes(), 1_000_000, 100_000_001, &ssr_engine),
        Err(MinaCalcError::InvalidScoreGoal(100_000_001))
    );
    assert_eq!(
        c.calc_ssr(&[Note { notes: 0, row_time: 0 }], 1_000_000, 100_000_001, &ssr_engine),
        Err(MinaCalcError::InvalidScoreGoal(100_000_001))
    );
    assert_eq!(
        c.calc_ssr(&[Note { notes: 0, row_time: 0 }], 1_000_000, 100_000_000, &ssr_engine),
        Err(MinaCalcError::InvalidNoteData(NoteDataError::NoColumns))
    );
    assert!(c.calc_ssr(&notes(), 1, 100_000_000, &ssr_engine).is_ok());
    assert!(c.calc_ssr(&notes(), 1, 1, &ssr_engine).is_ok());
}

#[test]
fn scores_out_of_bounds_are_refused() {
    let engine = |_h: usize, _i: &Vec<NoteInfo>, _r: i64, _g: i64, _k: u32| ssr(999_999_994);
    assert_eq!(
        calc().calc_ssr(&notes(), 1_000_000, 93_000_000, &engine),
        Err(MinaCalcError::InvalidNoteData(NoteDataError::ScoreOutOfBounds {
            score: 1_000_000_001
        }))
    );
}

#[test]
fn the_key_count_goes_to_the_engine() {
    let c = calc();
    for k in [4u32, 6, 7] {
        assert_eq!(
            c.calc_msd_with_keycount(&notes(), k, &msd_engine),
            Ok(AllRates::from(msd_engine(17, &vec![NoteInfo { notes: 0, row_time: 500_000 }], k)))
        );
        assert_eq!(
            c.calc_ssr_with_keycount(&notes(), 1_000_000, 93_000_000, k, &ssr_engine),
            Ok(SkillsetScores::from(ssr(2_000 + 10 + 93 + k as i64)))
        );
    }
}

#[test]
fn an_unknown_key_count_is_refused_by_the_calculator() {
    let c = calc();
    for k in [0u32, 5, 8, 100] {
        assert_eq!(
            c.calc_msd_with_keycount(&notes(), k, &msd_engine),
            Err(MinaCalcError::UnsupportedKeyCount(k))
        );
        assert_eq!(
            c.calc_ssr_with_keycount(&notes(), 0, 0, k, &ssr_engine),
            Err(MinaCalcError::UnsupportedKeyCount(k))
        );
    }
    assert_eq!(
        c.calc_msd_with_keycount(&[], 5, &msd_engine),
        Err(MinaCalcError::NoNotesProvided)
    );
    assert_eq!(
        c.calc_ssr_with_keycount(&[], 0, 0, 5, &ssr_engine),
        Err(MinaCalcError::NoNotesProvided)
    );
}

#[test]
fn a_chart_is_evaluated_at_all_rates() {
    let c = chart(6, &[(2_000_000, 5), (1_000_000, 0), (1_000_000, 1)]);
    let rows = vec![NoteInfo { notes: 3, row_time: 1_000_000 }, NoteInfo { notes: 32, row_time: 2_000_000 }];
    assert_eq!(
        calc().calculate_all_rates_from_rox_chart(&c, &msd_engine),
        Ok(AllRates::from(msd_engine(17, &rows, 6)))
    );
}

#[test]
fn a_chart_with_five_keys_is_refused_before_any_note_is_built() {
    let c = chart(5, &[(1_000_000, 9), (-1, 0)]);
    assert_eq!(
        calc().calculate_all_rates_from_rox_chart(&c, &msd_engine),
        Err(MinaCalcError::UnsupportedKeyCount(5))
    );
    assert_eq!(
        calc().calculate_ssr_from_rox_chart(&c, 0, 0, Some(0), &ssr_engine),
        Err(MinaCalcError::UnsupportedKeyCount(5))
    );
}

#[test]
fn a_chart_that_makes_no_rows_is_refused() {
    assert_eq!(
        calc().calculate_all_rates_from_rox_chart(&chart(4, &[]), &msd_engine),
        Err(MinaCalcError::RoxError(RoxError::NoNotes))
    );
    assert_eq!(
        calc().calculate_all_rates_from_rox_chart(&chart(4, &[(0, 4)]), &msd_engine),
        Err(MinaCalcError::RoxError(RoxError::InvalidNote(RowFault::ColumnOutOfRange {
            index: 0,
            column: 4
        })))
    );
    assert_eq!(
        calc().calculate_ssr_from_rox_chart(
            &chart(4, &[(0, 0)]),
            1_000_000,
            93_000_000,
            Some(0),
            &ssr_engine
        ),
        Err(MinaCalcError::RoxError(RoxError::InvalidRate(0)))
    );
}

#[test]
fn a_chart_is_evaluated_at_one_rate() {
    let c = chart(7, &[(2_000_000, 5), (1_000_000, 0), (3_000_000, 1)]);
    assert_eq!(
        calc().calculate_ssr_from_rox_chart(&c, 1_500_000, 93_000_000, Some(2_000_000), &ssr_engine),
        Ok(SkillsetScores::from(ssr(3_000 + 15 + 93 + 7)))
    );
    assert_eq!(
        calc().calculate_ssr_from_rox_chart(&c, 0, 93_000_000, None, &ssr_engine),
        Err(MinaCalcError::InvalidMusicRate(0))
    );
}

#[test]
fn an_arbitrary_rate_scales_the_chart_and_reads_the_entry_for_one() {
    let c = chart(4, &[(0, 0), (3_000_000, 1)]);
    // The engine sees the last row at 3 s / 0.75 = 4 s.
    let rows = vec![NoteInfo { notes: 1, row_time: 0 }, NoteInfo { notes: 2, row_time: 4_000_000 }];
    let expected = AllRates::from(msd_engine(17, &rows, 4)).msds[3];
    assert_eq!(calculate_msd_at_rate(&calc(), &c, 750_000, &msd_engine), Ok(expected));
    assert_eq!(expected.overall, 3 * 4_000_000 + 4);
}

#[test]
fn the_rate_one_gives_the_entry_for_one_of_the_table() {
    let c = chart(4, &[(0, 0), (1_234_567, 1), (2_000_001, 3)]);
    let table = calc().calculate_all_rates_from_rox_chart(&c, &msd_engine).unwrap();
    assert_eq!(calculate_msd_at_rate(&calc(), &c, 1_000_000, &msd_engine), Ok(table.msds[3]));
}

#[test]
fn an_arbitrary_rate_must_be_positive_and_the_chart_good() {
    let c = chart(4, &[(0, 0)]);
    assert_eq!(
        calculate_msd_at_rate(&calc(), &c, 0, &msd_engine),
        Err(MinaCalcError::RoxError(RoxError::InvalidRate(0)))
    );
    assert_eq!(
        calculate_msd_at_rate(&calc(), &chart(5, &[(0, 0)]), 0, &msd_engine),
        Err(MinaCalcError::UnsupportedKeyCount(5))
    );
}

fn mania(times_and_lanes: &[(i64, i64)]) -> Beatmap {
    Beatmap {
        mode: GameMode::Mania,
        circle_size: 4_000_000,
        hit_objects: times_and_lanes
            .iter()
            .map(|&(start_time, x)| HitObject { start_time, kind: HitObjectKind::Circle { x } })
            .collect(),
    }
}

#[test]
fn a_beatmap_is_evaluated_at_all_rates() {
    let b = mania(&[(1_000_000, 64_000_000), (1_000_400, 448_000_000), (2_000_000, 192_000_000)]);
    let rows = vec![NoteInfo { notes: 9, row_time: 1_000_000 }, NoteInfo { notes: 2, row_time: 2_000_000 }];
    assert_eq!(
        calc().calculate_msd_from_beatmap(&b, &msd_engine),
        Ok(AllRates::from(msd_engine(17, &rows, 4)))
    );
}

#[test]
fn a_beatmap_with_five_keys_is_refused_before_any_note_is_built() {
    let mut b = mania(&[(-1, 0)]);
    b.circle_size = 5_000_000;
    assert_eq!(
        calc().calculate_msd_from_beatmap(&b, &msd_engine),
        Err(MinaCalcError::OsuError(OsuError::UnsupportedKeyCount(5_000_000)))
    );
    assert_eq!(
        calc().calculate_msd_at_rate(&b, 1_000_000, &msd_engine),
        Err(MinaCalcError::OsuError(OsuError::UnsupportedKeyCount(5_000_000)))
    );
}

#[test]
fn a_beatmap_with_six_keys_is_evaluated_with_six_keys() {
    let mut b = mania(&[(1_000_000, 42_000_000), (2_000_000, 469_000_000)]);
    b.circle_size = 6_000_000;
    let rows = vec![NoteInfo { notes: 1, row_time: 1_000_000 }, NoteInfo { notes: 32, row_time: 2_000_000 }];
    assert_eq!(
        calc().calculate_msd_from_beatmap(&b, &msd_engine),
        Ok(AllRates::from(msd_engine(17, &rows, 6)))
    );
    assert_eq!(
        calc().calculate_msd_at_rate(&b, 2_000_000, &msd_engine),
        Ok(AllRates::from(msd_engine(17, &vec![NoteInfo { notes: 32, row_time: 1_000_000 }], 6)).msds[3])
    );
    b.circle_size = 7_000_000;
    assert_eq!(
        calc().calculate_msd_from_beatmap(&b, &msd_engine),
        Err(MinaCalcError::OsuError(OsuError::UnsupportedColumn(42_000_000)))
    );
}

#[test]
fn a_beatmap_off_the_lanes_is_refused() {
    let b = mania(&[(0, 64_000_000), (5, 65_000_000)]);
    assert_eq!(
        calc().calculate_msd_from_beatmap(&b, &msd_engine),
        Err(MinaCalcError::OsuError(OsuError::UnsupportedColumn(65_000_000)))
    );
}

#[test]
fn a_beatmap_at_an_arbitrary_rate() {
    let b = mania(&[(0, 64_000_000), (3_000_000, 192_000_000)]);
    let rows = vec![NoteInfo { notes: 1, row_time: 0 }, NoteInfo { notes: 2, row_time: 2_000_000 }];
    assert_eq!(
        calc().calculate_msd_at_rate(&b, 1_500_000, &msd_engine),
        Ok(AllRates::from(msd_engine(17, &rows, 4)).msds[3])
    );
    assert_eq!(
        calc().calculate_msd_at_rate(&b, 0, &msd_engine),
        Err(MinaCalcError::InvalidMusicRate(0))
    );
    assert_eq!(
        calc().calculate_msd_at_rate(&b, -1, &msd_engine),
        Err(MinaCalcError::InvalidMusicRate(-1))
    );
}

#[test]
fn a_beatmap_at_the_rate_one_is_the_beatmap_itself() {
    let b = mania(&[(0, 64_000_000), (1_234_000, 192_000_000), (1_234_999, 320_000_000)]);
    let table = calc().calculate_msd_from_beatmap(&b, &msd_engine).unwrap();
    assert_eq!(calc().calculate_msd_at_rate(&b, 1_000_000, &msd_engine), Ok(table.msds[3]));
}

#[test]
fn rows_that_a_rate_brings_together_are_merged() {
    let b = mania(&[(1_000, 64_000_000), (2_000, 192_000_000)]);
    let seen: RefCell<Vec<NoteInfo>> = RefCell::new(Vec::new());
    let engine = |_h: usize, infos: &Vec<NoteInfo>, _k: u32| {
        *seen.borrow_mut() = infos.clone();
        raw_table(1)
    };
    // 1000 us and 2000 us at the rate 5000 both lie within the first microsecond.
    assert!(calc().calculate_msd_at_rate(&b, 5_000_000_000, &engine).is_ok());
    assert_eq!(seen.into_inner(), vec![NoteInfo { notes: 3, row_time: 0 }]);
}
