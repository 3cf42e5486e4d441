use minacalc_rs::error::{ConversionFault, OsuError};
use minacalc_rs::osu::{scale_notes, Beatmap, GameMode, HitObject, HitObjectKind, OsuCalcExt};
use minacalc_rs::wrapper::{Calc, Note};

const LANE: [i64; 4] = [64_000_000, 192_000_000, 320_000_000, 448_000_000];

fn circle(start_time: i64, lane: usize) -> HitObject {
    HitObject { start_time, kind: HitObjectKind::Circle { x: LANE[lane] } }
}

fn hold(start_time: i64, lane: usize) -> HitObject {
    HitObject { start_time, kind: HitObjectKind::Hold { x: LANE[lane] } }
}

fn mania(hit_objects: Vec<HitObject>) -> Beatmap {
    Beatmap { mode: GameMode::Mania, circle_size: 4_000_000, hit_objects }
}

fn mania_with(keys: i64, positions: &[(i64, i64)]) -> Beatmap {
    Beatmap {
        mode: GameMode::Mania,
        circle_size: keys * 1_000_000,
        hit_objects: positions
            .iter()
            .map(|&(start_time, x)| HitObject {
                start_time,
                kind: HitObjectKind::Circle { x: x * 1_000_000 },
            })
            .collect(),
    }
}

fn row(notes: u32, row_time: i64) -> Note {
    Note { notes, row_time }
}

#[test]
fn the_four_lane_positions_give_the_four_lanes() {
    assert_eq!(Calc::get_columns(64_000_000, 4), Ok(1));
    assert_eq!(Calc::get_columns(192_000_000, 4), Ok(2));
    assert_eq!(Calc::get_columns(320_000_000, 4), Ok(4));
    assert_eq!(Calc::get_columns(448_000_000, 4), Ok(8));
}

#[test]
fn the_lanes_of_six_and_seven_keys_lie_at_the_middle_of_their_share() {
    let six = [42, 128, 213, 298, 384, 469];
    for (lane, x) in six.iter().enumerate() {
        assert_eq!(Calc::get_columns(x * 1_000_000, 6), Ok(1 << lane));
    }
    let seven = [36, 109, 182, 256, 329, 402, 475];
    for (lane, x) in seven.iter().enumerate() {
        assert_eq!(Calc::get_columns(x * 1_000_000, 7), Ok(1 << lane));
    }
}

#[test]
fn any_other_position_is_refused() {
    assert_eq!(Calc::get_columns(0, 4), Err(OsuError::UnsupportedColumn(0)));
    assert_eq!(Calc::get_columns(64_000_001, 4), Err(OsuError::UnsupportedColumn(64_000_001)));
    assert_eq!(Calc::get_columns(-64_000_000, 4), Err(OsuError::UnsupportedColumn(-64_000_000)));
    assert_eq!(Calc::get_columns(256_000_000, 4), Err(OsuError::UnsupportedColumn(256_000_000)));
    assert_eq!(Calc::get_columns(64_000_000, 6), Err(OsuError::UnsupportedColumn(64_000_000)));
    assert_eq!(Calc::get_columns(64_000_000, 7), Err(OsuError::UnsupportedColumn(64_000_000)));
    assert_eq!(Calc::get_columns(42_500_000, 6), Err(OsuError::UnsupportedColumn(42_500_000)));
}

#[test]
fn a_position_in_a_chart_with_an_unknown_key_count_is_refused() {
    for keys in [0u32, 1, 5, 8, 32, u32::MAX] {
        assert_eq!(
            Calc::get_columns(64_000_000, keys),
            Err(OsuError::UnsupportedKeyCount(keys as i64 * 1_000_000))
        );
    }
}

#[test]
fn a_circle_and_a_hold_become_notes() {
    assert_eq!(Calc::hit_object_to_note(circle(1_500_000, 2), 4), Ok(row(4, 1_500_000)));
    assert_eq!(Calc::hit_object_to_note(hold(250, 3), 4), Ok(row(8, 250)));
}

#[test]
fn a_slider_and_a_spinner_are_refused() {
    let slider = HitObject { start_time: 0, kind: HitObjectKind::Slider };
    let spinner = HitObject { start_time: 0, kind: HitObjectKind::Spinner };
    assert_eq!(
        Calc::hit_object_to_note(slider, 4),
        Err(OsuError::UnsupportedHitObjectKind(HitObjectKind::Slider))
    );
    assert_eq!(
        Calc::hit_object_to_note(spinner, 7),
        Err(OsuError::UnsupportedHitObjectKind(HitObjectKind::Spinner))
    );
}

#[test]
fn a_hit_object_before_zero_is_refused_whatever_it_is() {
    let early = HitObject { start_time: -1, kind: HitObjectKind::Slider };
    assert_eq!(
        Calc::hit_object_to_note(early, 4),
        Err(OsuError::HitObjectConversion(ConversionFault::NegativeTime))
    );
    assert_eq!(
        Calc::hit_object_to_note(circle(-1, 0), 5),
        Err(OsuError::HitObjectConversion(ConversionFault::NegativeTime))
    );
}

#[test]
fn a_hit_object_off_the_lanes_is_refused() {
    let off = HitObject { start_time: 0, kind: HitObjectKind::Hold { x: 100_000_000 } };
    assert_eq!(Calc::hit_object_to_note(off, 4), Err(OsuError::UnsupportedColumn(100_000_000)));
}

#[test]
fn hit_objects_that_round_to_one_millisecond_make_one_row() {
    let b = mania(vec![circle(1_000_000, 0), hold(1_000_499, 1), circle(1_000_500, 2)]);
    assert_eq!(
        Calc::to_notes_merged(&b),
        Ok(vec![row(0b0011, 1_000_000), row(0b0100, 1_001_000)])
    );
    let b = mania(vec![circle(999_500, 0), hold(1_000_999, 1), circle(1_001_000, 2)]);
    assert_eq!(
        Calc::to_notes_merged(&b),
        Ok(vec![row(0b0001, 1_000_000), row(0b0110, 1_001_000)])
    );
}

#[test]
fn beatmaps_with_six_and_seven_keys_become_rows() {
    let b = mania_with(6, &[(2_000, 469), (1_000, 42), (1_000, 298)]);
    assert_eq!(Calc::to_notes_merged(&b), Ok(vec![row(0b00_1001, 1_000), row(0b10_0000, 2_000)]));
    let b = mania_with(7, &[(5_000, 475), (5_000, 36), (9_000, 256)]);
    assert_eq!(
        Calc::to_notes_merged(&b),
        Ok(vec![row(0b100_0001, 5_000), row(0b000_1000, 9_000)])
    );
    let b = mania_with(7, &[(5_000, 64)]);
    assert_eq!(Calc::to_notes_merged(&b), Err(OsuError::UnsupportedColumn(64_000_000)));
}

#[test]
fn a_beatmap_with_an_unknown_key_count_makes_no_rows() {
    let b = mania_with(5, &[(5_000, 64)]);
    assert_eq!(Calc::to_notes_merged(&b), Err(OsuError::UnsupportedKeyCount(5_000_000)));
    let mut b = mania_with(4, &[(5_000, 64)]);
    b.circle_size = 4_500_000;
    assert_eq!(Calc::to_notes_merged(&b), Err(OsuError::UnsupportedKeyCount(4_500_000)));
}

#[test]
fn beatmap_rows_come_out_in_ascending_order() {
    let b = mania(vec![circle(3_000, 3), circle(1_000, 0), circle(2_000, 1), circle(1_000, 2)]);
    assert_eq!(
        Calc::to_notes_merged(&b),
        Ok(vec![row(0b0101, 1_000), row(0b0010, 2_000), row(0b1000, 3_000)])
    );
}

#[test]
fn the_first_hit_object_without_a_note_decides() {
    let b = mania(vec![
        circle(0, 0),
        HitObject { start_time: 5, kind: HitObjectKind::Spinner },
        circle(-5, 0),
    ]);
    assert_eq!(
        Calc::to_notes_merged(&b),
        Err(OsuError::UnsupportedHitObjectKind(HitObjectKind::Spinner))
    );
}

#[test]
fn a_beatmap_without_hit_objects_is_refused() {
    assert_eq!(
        Calc::to_notes_merged(&mania(vec![])),
        Err(OsuError::HitObjectConversion(ConversionFault::NoValidNotes))
    );
}

#[test]
fn mania_beatmaps_with_four_six_and_seven_keys_are_admitted() {
    assert_eq!(Calc::security_check(&mania(vec![])), Ok(()));
    assert_eq!(Calc::security_check(&mania_with(4, &[])), Ok(()));
    assert_eq!(Calc::security_check(&mania_with(6, &[])), Ok(()));
    assert_eq!(Calc::security_check(&mania_with(7, &[])), Ok(()));
}

#[test]
fn any_other_key_count_is_refused() {
    for keys in [-4i64, 0, 1, 2, 3, 5, 8, 9, 10, 18] {
        assert_eq!(
            Calc::security_check(&mania_with(keys, &[])),
            Err(OsuError::UnsupportedKeyCount(keys * 1_000_000))
        );
    }
    let mut b = mania_with(6, &[]);
    b.circle_size = 6_000_001;
    assert_eq!(Calc::security_check(&b), Err(OsuError::UnsupportedKeyCount(6_000_001)));
}

#[test]
fn another_mode_is_refused() {
    for mode in [GameMode::Osu, GameMode::Taiko, GameMode::Catch] {
        let b = Beatmap { mode, circle_size: 4_000_000, hit_objects: vec![] };
        assert_eq!(Calc::security_check(&b), Err(OsuError::UnsupportedGameMode(mode)));
    }
}

#[test]
fn a_key_count_of_five_is_refused() {
    let b = Beatmap { mode: GameMode::Mania, circle_size: 5_000_000, hit_objects: vec![] };
    assert_eq!(Calc::security_check(&b), Err(OsuError::UnsupportedKeyCount(5_000_000)));
}

#[test]
fn the_mode_is_looked_at_before_the_key_count() {
    let b = Beatmap { mode: GameMode::Taiko, circle_size: 7_000_000, hit_objects: vec![] };
    assert_eq!(Calc::security_check(&b), Err(OsuError::UnsupportedGameMode(GameMode::Taiko)));
}

#[test]
fn validation_accepts_the_rows_of_the_chart() {
    assert_eq!(Calc::validate_notes(&[row(1, 0), row(15, 1)], 4), Ok(()));
    assert_eq!(Calc::validate_notes(&[row(1, 0), row(63, 1)], 6), Ok(()));
    assert_eq!(Calc::validate_notes(&[row(1, 0), row(127, 1)], 7), Ok(()));
}

#[test]
fn validation_names_each_fault() {
    assert_eq!(
        Calc::validate_notes(&[row(1, 0)], 5),
        Err(OsuError::UnsupportedKeyCount(5_000_000))
    );
    assert_eq!(
        Calc::validate_notes(&[], 4),
        Err(OsuError::HitObjectConversion(ConversionFault::NoNotesToValidate))
    );
    assert_eq!(
        Calc::validate_notes(&[row(1, 0), row(0, 1)], 4),
        Err(OsuError::HitObjectConversion(ConversionFault::NoColumns { index: 1 }))
    );
    assert_eq!(
        Calc::validate_notes(&[row(16, 0), row(0, 1)], 4),
        Err(OsuError::HitObjectConversion(ConversionFault::ExceedsKeyLimit {
            index: 0,
            key_count: 4
        }))
    );
    assert_eq!(
        Calc::validate_notes(&[row(63, 0), row(64, 1)], 6),
        Err(OsuError::HitObjectConversion(ConversionFault::ExceedsKeyLimit {
            index: 1,
            key_count: 6
        }))
    );
    assert_eq!(
        Calc::validate_notes(&[row(128, 0)], 7),
        Err(OsuError::HitObjectConversion(ConversionFault::ExceedsKeyLimit {
            index: 0,
            key_count: 7
        }))
    );
    assert_eq!(
        Calc::validate_notes(&[row(1, 0), row(1, 1), row(2, -1)], 4),
        Err(OsuError::HitObjectConversion(ConversionFault::NegativeRowTime { index: 2 }))
    );
    assert_eq!(
        Calc::validate_notes(&[row(1, 0), row(1, 7), row(2, 7)], 4),
        Err(OsuError::HitObjectConversion(ConversionFault::DuplicateTime { index: 2 }))
    );
    assert_eq!(
        Calc::validate_notes(&[row(1, 2_000_000), row(1, 1_000_000)], 4),
        Err(OsuError::HitObjectConversion(ConversionFault::FallingTime { index: 1 }))
    );
}

#[test]
fn scale_notes_divides_every_time() {
    assert_eq!(
        scale_notes(&[row(1, 1_000), row(2, 3_000)], 2_000_000),
        vec![row(1, 500), row(2, 1_500)]
    );
    assert_eq!(scale_notes(&[row(1, 1_000)], 1_000_000), vec![row(1, 1_000)]);
}
