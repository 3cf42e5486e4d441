use minacalc_rs::error::{MinaCalcError, NoteDataError};
use minacalc_rs::hashmap::{rate_index, HashMapCalcExt, KeyedScores};
use minacalc_rs::report::{find_rate_index, is_valid_rate, round_2, RATES};
use minacalc_rs::text::rate_key;
use minacalc_rs::wrapper::{AllRates, SkillsetScores, Ssr};

fn scores(base: i64) -> SkillsetScores {
    SkillsetScores {
        overall: base,
        stream: base + 1,
        jumpstream: base + 2,
        handstream: base + 3,
        stamina: base + 4,
        jackspeed: base + 5,
        chordjack: base + 6,
        technical: base + 7,
    }
}

fn table() -> AllRates {
    let mut t = AllRates { msds: [scores(0); 14] };
    for i in 0..14 {
        t.msds[i] = scores(1_000 * i as i64);
    }
    t
}

#[test]
fn every_tabled_rate_is_found_at_its_own_entry() {
    for i in 0..14usize {
        let rate = 700_000 + 100_000 * i as i64;
        assert_eq!(RATES[i], rate);
        assert_eq!(rate_index(rate), Ok(i));
        assert_eq!(find_rate_index(rate), Some(i));
    }
}

#[test]
fn rate_index_takes_the_nearest_entry() {
    assert_eq!(rate_index(749_999), Ok(0));
    assert_eq!(rate_index(750_000), Ok(1));
    assert_eq!(rate_index(1_000_000), Ok(3));
    assert_eq!(rate_index(1_049_999), Ok(3));
    assert_eq!(rate_index(1_950_000), Ok(13));
    assert_eq!(rate_index(2_000_000), Ok(13));
}

#[test]
fn rate_index_refuses_a_rate_outside_the_table() {
    for rate in [699_999i64, 2_000_001, 0, -1_000_000, i64::MAX, i64::MIN] {
        assert_eq!(
            rate_index(rate),
            Err(MinaCalcError::InvalidNoteData(NoteDataError::RateOutOfRange { rate }))
        );
    }
}

#[test]
fn a_rate_off_the_grid_matches_no_entry() {
    assert_eq!(find_rate_index(750_000), None);
    assert_eq!(find_rate_index(1_250_000), None);
    assert_eq!(find_rate_index(600_000), None);
    assert_eq!(find_rate_index(2_100_000), None);
    assert_eq!(find_rate_index(0), None);
    assert_eq!(find_rate_index(i64::MIN), None);
    assert_eq!(find_rate_index(i64::MAX), None);
}

#[test]
fn the_tolerance_is_half_a_thousandth() {
    assert_eq!(find_rate_index(1_000_499), Some(3));
    assert_eq!(find_rate_index(999_501), Some(3));
    assert_eq!(find_rate_index(1_000_500), None);
    assert_eq!(find_rate_index(999_500), None);
    assert_eq!(find_rate_index(700_499), Some(0));
    assert_eq!(find_rate_index(699_501), Some(0));
    assert_eq!(find_rate_index(2_000_499), Some(13));
}

#[test]
fn any_positive_rate_is_valid() {
    assert!(is_valid_rate(1));
    assert!(is_valid_rate(i64::MAX));
    assert!(!is_valid_rate(0));
    assert!(!is_valid_rate(-1));
}

#[test]
fn round_2_rounds_to_hundredths() {
    assert_eq!(round_2(12_345_678), 12_350_000);
    assert_eq!(round_2(12_344_999), 12_340_000);
    assert_eq!(round_2(12_345_000), 12_350_000);
    assert_eq!(round_2(0), 0);
    assert_eq!(round_2(4_999), 0);
    assert_eq!(round_2(5_000), 10_000);
}

#[test]
fn round_2_rounds_halves_away_from_zero() {
    assert_eq!(round_2(-12_345_000), -12_350_000);
    assert_eq!(round_2(-12_344_999), -12_340_000);
    assert_eq!(round_2(-5_000), -10_000);
    assert_eq!(round_2(-4_999), 0);
}

#[test]
fn round_2_leaves_what_it_cannot_round() {
    assert_eq!(round_2(i64::MAX), i64::MAX);
    assert_eq!(round_2(i64::MIN), i64::MIN);
    assert_eq!(round_2(i64::MAX - 5_000), 9_223_372_036_854_770_000);
}

#[test]
fn get_rate_scores_reads_the_nearest_entry() {
    let t = table();
    assert_eq!(t.get_rate_scores(700_000), Ok(Ssr::from(scores(0))));
    assert_eq!(t.get_rate_scores(1_000_000), Ok(Ssr::from(scores(3_000))));
    assert_eq!(t.get_rate_scores(1_960_000), Ok(Ssr::from(scores(13_000))));
    assert_eq!(
        t.get_rate_scores(2_000_001),
        Err(MinaCalcError::InvalidNoteData(NoteDataError::RateOutOfRange { rate: 2_000_001 }))
    );
}

#[test]
fn the_available_rates_are_the_fourteen() {
    let rates = table().get_available_rates();
    assert_eq!(rates, RATES.to_vec());
    assert_eq!(rates.len(), 14);
    assert_eq!(rates[0], 700_000);
    assert_eq!(rates[13], 2_000_000);
}

#[test]
fn rate_keys_have_one_decimal_place() {
    let keys: Vec<String> = (0..14).map(rate_key).collect();
    assert_eq!(
        keys,
        vec![
            "0.7", "0.8", "0.9", "1.0", "1.1", "1.2", "1.3", "1.4", "1.5", "1.6", "1.7", "1.8",
            "1.9", "2.0"
        ]
    );
}

#[test]
fn as_hashmap_maps_the_rates_to_the_scores() {
    let t = table();
    let before = t.clone();
    let map = t.as_hashmap().unwrap();
    assert_eq!(map.entry_count(), 14);
    assert_eq!(map.get(&"0.7".to_string()), Some(Ssr::from(scores(0))));
    assert_eq!(map.get(&"1.0".to_string()), Some(Ssr::from(scores(3_000))));
    assert_eq!(map.get(&"2.0".to_string()), Some(Ssr::from(scores(13_000))));
    assert_eq!(map.get(&"2.1".to_string()), None);
    assert_eq!(map.get(&"1".to_string()), None);
    assert_eq!(t, before);
}

#[test]
fn as_hashmap_with_format_uses_the_formatter() {
    let t = table();
    let map = t.as_hashmap_with_format(&|rate: i64| format!("x{}", rate / 100_000)).unwrap();
    assert_eq!(map.entry_count(), 14);
    assert_eq!(map.get(&"x7".to_string()), Some(Ssr::from(scores(0))));
    assert_eq!(map.get(&"x20".to_string()), Some(Ssr::from(scores(13_000))));
    assert_eq!(map.get(&"0.7".to_string()), None);
}

#[test]
fn of_two_entries_with_one_key_the_later_stays() {
    let t = table();
    let map = t.as_hashmap_with_format(&|_rate: i64| "same".to_string()).unwrap();
    assert_eq!(map.get(&"same".to_string()), Some(Ssr::from(scores(13_000))));
}

#[test]
fn as_hashmap_with_rates_maps_the_rates_asked_for() {
    let t = table();
    let map = t.as_hashmap_with_rates(&[1_000_000, 1_540_000, 700_000]).unwrap();
    assert_eq!(map.entry_count(), 3);
    assert_eq!(map.get(&"1.0".to_string()), Some(Ssr::from(scores(3_000))));
    assert_eq!(map.get(&"1.5".to_string()), Some(Ssr::from(scores(8_000))));
    assert_eq!(map.get(&"0.7".to_string()), Some(Ssr::from(scores(0))));
    assert_eq!(map.get(&"0.8".to_string()), None);
}

#[test]
fn as_hashmap_with_rates_refuses_no_rates_and_rates_off_the_table() {
    let t = table();
    assert_eq!(
        t.as_hashmap_with_rates(&[]),
        Err(MinaCalcError::InvalidNoteData(NoteDataError::NoRatesProvided))
    );
    assert_eq!(
        t.as_hashmap_with_rates(&[1_000_000, 2_500_000, 100_000]),
        Err(MinaCalcError::InvalidNoteData(NoteDataError::RateOutOfRange { rate: 2_500_000 }))
    );
}

#[test]
fn keyed_scores_keep_their_entries_in_order() {
    let mut map = KeyedScores::new();
    assert_eq!(map.entry_count(), 0);
    assert_eq!(map.get(&"a".to_string()), None);
    map.insert("a".to_string(), Ssr::from(scores(1)));
    map.insert("b".to_string(), Ssr::from(scores(2)));
    map.insert("a".to_string(), Ssr::from(scores(3)));
    assert_eq!(map.get(&"a".to_string()), Some(Ssr::from(scores(3))));
    assert_eq!(map.get(&"b".to_string()), Some(Ssr::from(scores(2))));
    assert_eq!(
        map.into_entries(),
        vec![
            ("a".to_string(), Ssr::from(scores(1))),
            ("b".to_string(), Ssr::from(scores(2))),
            ("a".to_string(), Ssr::from(scores(3))),
        ]
    );
}
