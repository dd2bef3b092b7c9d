use dimooper::measure::{Measure, Quant};
use dimooper::midi::TypedMidiMessage;

const TEMPO_BPM: u32 = 120;
const MEASURE_SIZE_BPM: u32 = 4;
const QUANTATION_LEVEL: u32 = 2;

const MEASURE_SIZE_MILLIS: u32 = 2000;
const BEAT_SIZE_MILLIS: u32 = 500;
const QUANT_SIZE_MILLIS: u32 = 125;

fn default_measure() -> Measure {
    Measure {
        tempo_bpm: TEMPO_BPM,
        measure_size_bpm: MEASURE_SIZE_BPM,
        quantation_level: QUANTATION_LEVEL,
    }
}

#[test]
fn test_measure_new() {
    let measure = Measure {
        tempo_bpm: TEMPO_BPM,
        measure_size_bpm: MEASURE_SIZE_BPM,
        quantation_level: QUANTATION_LEVEL,
    };

    assert_eq!(TEMPO_BPM, measure.tempo_bpm);
    assert_eq!(MEASURE_SIZE_BPM, measure.measure_size_bpm);
    assert_eq!(QUANTATION_LEVEL, measure.quantation_level);

    assert_eq!(MEASURE_SIZE_MILLIS, measure.measure_size_millis());
    assert_eq!(BEAT_SIZE_MILLIS, measure.beat_size_millis());
    assert_eq!(QUANT_SIZE_MILLIS, measure.quant_size_millis());
}

#[test]
fn test_measure_update() {
    let mut measure = Measure {
        tempo_bpm: TEMPO_BPM,
        measure_size_bpm: MEASURE_SIZE_BPM,
        quantation_level: QUANTATION_LEVEL,
    };

    assert_eq!(MEASURE_SIZE_MILLIS, measure.measure_size_millis());
    assert_eq!(BEAT_SIZE_MILLIS, measure.beat_size_millis());
    assert_eq!(QUANT_SIZE_MILLIS, measure.quant_size_millis());

    measure = Measure { tempo_bpm: TEMPO_BPM + 40, ..measure };

    assert_eq!(1500, measure.measure_size_millis());
    assert_eq!(375, measure.beat_size_millis());
    assert_eq!(93, measure.quant_size_millis());
}

#[test]
fn test_timestamp_quant_conversion() {
    let measure = Measure {
        tempo_bpm: TEMPO_BPM,
        measure_size_bpm: MEASURE_SIZE_BPM,
        quantation_level: QUANTATION_LEVEL,
    };

    // timestamp to quant
    assert_eq!(Quant(0), measure.timestamp_to_quant(0));
    assert_eq!(Quant(1), measure.timestamp_to_quant(measure.quant_size_millis()));
    assert_eq!(Quant(0), measure.timestamp_to_quant(measure.quant_size_millis() / 2 - 1));
    assert_eq!(Quant(1), measure.timestamp_to_quant(measure.quant_size_millis() / 2 + 1));

    // quant to timestamp
    assert_eq!(5 * measure.quant_size_millis(), measure.quant_to_timestamp(Quant(5)));
}

#[test]
fn ties_round_up() {
    let measure = default_measure();
    assert_eq!(Quant(1), measure.timestamp_to_quant(125));
    assert_eq!(Quant(0), measure.timestamp_to_quant(62));
    assert_eq!(Quant(1), measure.timestamp_to_quant(63));
    assert_eq!(Quant(1), measure.timestamp_to_quant(64));
    // an even quant: the exact half goes up
    let even = Measure { tempo_bpm: 120, measure_size_bpm: 4, quantation_level: 1 };
    assert_eq!(500, even.quant_size_millis());
    assert_eq!(Quant(0), even.timestamp_to_quant(249));
    assert_eq!(Quant(1), even.timestamp_to_quant(250));
    assert_eq!(Quant(3), even.timestamp_to_quant(1250));
}

#[test]
fn round_trip_stays_within_one_quant() {
    let measure = default_measure();
    let size = measure.quant_size_millis();
    for t in [0u32, 1, 61, 62, 63, 124, 125, 126, 187, 188, 1999, 2000, 123_456, 4_000_000_000] {
        let back = measure.quant_to_timestamp(measure.timestamp_to_quant(t));
        let distance = if back > t { back - t } else { t - back };
        assert!(distance <= size, "timestamp {}", t);
    }
}

#[test]
fn timestamp_to_quant_near_the_top_of_the_range() {
    let measure = default_measure();
    assert_eq!(Quant(34_359_738), measure.timestamp_to_quant(u32::MAX));
    let fine = Measure { tempo_bpm: 60000, measure_size_bpm: 1, quantation_level: 0 };
    assert_eq!(1, fine.quant_size_millis());
    assert_eq!(Quant(u32::MAX), fine.timestamp_to_quant(u32::MAX));
}

#[test]
fn timestamp_to_measure_divides_by_the_measure() {
    let measure = default_measure();
    assert_eq!(0, measure.timestamp_to_measure(0));
    assert_eq!(0, measure.timestamp_to_measure(1999));
    assert_eq!(1, measure.timestamp_to_measure(2000));
    assert_eq!(3, measure.timestamp_to_measure(7999));
}

#[test]
fn quant_size_is_truncated_once() {
    let measure = Measure { tempo_bpm: 160, measure_size_bpm: 4, quantation_level: 2 };
    assert_eq!(93, measure.quant_size_millis());
    let level_zero = Measure { tempo_bpm: 120, measure_size_bpm: 4, quantation_level: 0 };
    assert_eq!(2000, level_zero.quant_size_millis());
    let three = Measure { tempo_bpm: 100, measure_size_bpm: 3, quantation_level: 3 };
    assert_eq!(600, three.beat_size_millis());
    assert_eq!(1800, three.measure_size_millis());
    assert_eq!(66, three.quant_size_millis());
}

#[test]
fn playable_measures() {
    assert!(default_measure().is_playable());
    assert!(!Measure { tempo_bpm: 0, measure_size_bpm: 4, quantation_level: 2 }.is_playable());
    assert!(!Measure { tempo_bpm: 120, measure_size_bpm: 0, quantation_level: 2 }.is_playable());
    // a beat shorter than a millisecond leaves no grid
    assert!(!Measure { tempo_bpm: 60001, measure_size_bpm: 4, quantation_level: 2 }.is_playable());
    // too fine a grid
    assert!(!Measure { tempo_bpm: 120, measure_size_bpm: 4, quantation_level: 6 }.is_playable());
    assert!(Measure { tempo_bpm: 120, measure_size_bpm: 4, quantation_level: 5 }.is_playable());
    // a measure too long for 32 bits
    assert!(!Measure { tempo_bpm: 1, measure_size_bpm: 100_000, quantation_level: 0 }.is_playable());
}

#[test]
fn scale_time_cursor_keeps_the_proportion() {
    let old = default_measure();
    let faster = Measure { tempo_bpm: 160, ..old };
    assert_eq!(Some(750), old.scale_time_cursor(&faster, 1, 1000));
    assert_eq!(Some(0), old.scale_time_cursor(&faster, 3, 0));
    assert_eq!(Some(2250), old.scale_time_cursor(&faster, 2, 3000));
    let slower = Measure { tempo_bpm: 60, ..old };
    assert_eq!(Some(2000), old.scale_time_cursor(&slower, 1, 1000));
    assert_eq!(None, old.scale_time_cursor(&slower, 1, 3_000_000_000));
}

#[test]
fn quant_arithmetic() {
    assert_eq!(Quant(7), Quant(3) + Quant(4));
    assert_eq!(Quant(5), Quant(9) - Quant(4));
    assert_eq!(Quant(12), Quant(3) * Quant(4));
    assert_eq!(Quant(2), Quant(9) / Quant(4));
    assert_eq!(Quant(1), Quant(9) % Quant(4));
    assert_eq!(Quant(u32::MAX), Quant(u32::MAX - 1) + Quant(1));
    assert_eq!(Quant(0), Quant(4) - Quant(4));
    assert_eq!(9, Quant(9).value());
    assert!(Quant(3) < Quant(4));
}

#[test]
fn messages_are_read_from_and_written_to_three_bytes() {
    let on = TypedMidiMessage::NoteOn { channel: 9, key: 37, velocity: 127 };
    let off = TypedMidiMessage::NoteOff { channel: 15, key: 0, velocity: 0 };
    let control = TypedMidiMessage::ControlChange { channel: 0, number: 21, value: 70 };
    let bend = TypedMidiMessage::Unknown { status: 0xE3, data1: 1, data2: 2 };
    assert_eq!((0x99, 37, 127), on.to_raw());
    assert_eq!((0x8F, 0, 0), off.to_raw());
    assert_eq!((0xB0, 21, 70), control.to_raw());
    assert_eq!((0xE3, 1, 2), bend.to_raw());
    assert_eq!(on, TypedMidiMessage::from_raw(0x99, 37, 127));
    assert_eq!(off, TypedMidiMessage::from_raw(0x8F, 0, 0));
    assert_eq!(control, TypedMidiMessage::from_raw(0xB0, 21, 70));
    assert_eq!(bend, TypedMidiMessage::from_raw(0xE3, 1, 2));
    // of a channel only the lower half goes on the wire
    let far = TypedMidiMessage::NoteOn { channel: 0x23, key: 1, velocity: 2 };
    assert_eq!((0x93, 1, 2), far.to_raw());
}
