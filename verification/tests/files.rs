use minacalc_rs::rox::{Chart, ChartNote, RoxCalcExt};
use minacalc_rs::wrapper::{AllRates, Calc, MsdForAllRates, NoteInfo, Ssr};
use rox::formats::{auto_decode_bytes, RoxNativeCodec};
use rox::{Encoder, Note, RoxChart, TimingPoint};

fn ssr(base: i64) -> Ssr {
    Ssr {
        overall: base,
        stream: base,
        jumpstream: base,
        handstream: base,
        stamina: base,
        jackspeed: base,
        chordjack: base,
        technical: base,
    }
}

/// The entry `i` is `i` times the lanes of the first row, plus the time of
/// the last row and the key count.
fn msd_engine(_handle: usize, infos: &Vec<NoteInfo>, keycount: u32) -> MsdForAllRates {
    let first = infos.first().map(|n| n.notes as i64).unwrap_or(0);
    let last = infos.last().map(|n| n.row_time).unwrap_or(0);
    let mut raw = MsdForAllRates { msds: [ssr(0); 14] };
    for i in 0..14 {
        raw.msds[i] = ssr(i as i64 * first + last + keycount as i64);
    }
    raw
}

fn chart_of(decoded: &RoxChart) -> Chart {
    Chart {
        key_count: decoded.key_count,
        notes: decoded
            .notes
            .iter()
            .map(|note| ChartNote { time_us: note.time_us, column: note.column })
            .collect(),
    }
}

#[test]
fn a_chart_that_a_file_decodes_to_is_evaluated() {
    let mut written = RoxChart::new(7);
    written.timing_points.push(TimingPoint::bpm(0, 120.0));
    written.notes.push(Note::tap(1_000_000, 0));
    written.notes.push(Note::tap(1_000_000, 2));
    written.notes.push(Note::hold(2_000_000, 500_000, 6));
    let bytes = RoxNativeCodec::encode(&written).unwrap();
    let chart = chart_of(&auto_decode_bytes("song.rox", &bytes).unwrap());
    assert_eq!(
        chart.notes,
        vec![
            ChartNote { time_us: 1_000_000, column: 0 },
            ChartNote { time_us: 1_000_000, column: 2 },
            ChartNote { time_us: 2_000_000, column: 6 },
        ]
    );
    let rows = vec![
        NoteInfo { notes: 0b000_0101, row_time: 1_000_000 },
        NoteInfo { notes: 0b100_0000, row_time: 2_000_000 },
    ];
    let calc = Calc::new(&|| 3usize).unwrap();
    assert_eq!(
        calc.calculate_all_rates_from_rox_chart(&chart, &msd_engine),
        Ok(AllRates::from(msd_engine(3, &rows, 7)))
    );
}
