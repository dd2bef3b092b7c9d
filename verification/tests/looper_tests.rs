use dimooper::config::{
    BEAT_ACCENT_VELOCITY, BEAT_KEY_NUMBER, BEAT_VELOCITY, CONTROL_CHANNEL_NUMBER,
    CONTROL_KEY_NUMBER, TEMPO_CHANGE_CONTROL_NUMBER,
};
use dimooper::screen::{classify, FileRequest, KeyCommand, LooperScreen, MidiCommand};
use dimooper::looper::{composition_length, normalized_buffer, Looper, LooperError, State};
use dimooper::measure::{Measure, Quant};
use dimooper::midi::{
    feed_all, AbsMidiEvent, DummyMidiNoteTracker, MidiNoteTracker, RecordingNoteTracker,
    SinkError, TypedMidiMessage, OUTBOX_FULL,
};
use dimooper::numeric::checked_lcm;
use dimooper::sample::{replay_range, QuantMidiEvent, Sample};

fn default_measure() -> Measure {
    Measure { tempo_bpm: 120, measure_size_bpm: 4, quantation_level: 2 }
}

fn note_on(key: u8) -> TypedMidiMessage {
    TypedMidiMessage::NoteOn { channel: 0, key, velocity: 100 }
}

fn note_off(key: u8) -> TypedMidiMessage {
    TypedMidiMessage::NoteOff { channel: 0, key, velocity: 0 }
}

fn control(number: u8) -> TypedMidiMessage {
    TypedMidiMessage::ControlChange { channel: 0, number, value: 0 }
}

fn click_on(velocity: u8) -> TypedMidiMessage {
    TypedMidiMessage::NoteOn { channel: CONTROL_CHANNEL_NUMBER, key: BEAT_KEY_NUMBER, velocity }
}

fn click_off() -> TypedMidiMessage {
    TypedMidiMessage::NoteOff { channel: CONTROL_CHANNEL_NUMBER, key: BEAT_KEY_NUMBER, velocity: 0 }
}

fn at(timestamp: u32, message: TypedMidiMessage) -> AbsMidiEvent {
    AbsMidiEvent { message, timestamp }
}

/// A layer of one measure with one control change at each of its 16 quants.
fn stepped_sample() -> Sample {
    let events: Vec<AbsMidiEvent> = (0..16u32).map(|k| at(k * 125, control(k as u8))).collect();
    Sample::new(&events, &default_measure())
}

fn stepped_looper() -> Looper<RecordingNoteTracker> {
    let mut looper = Looper::new(RecordingNoteTracker::new(1000));
    looper.composition = vec![stepped_sample()];
    looper.note_tracker.take_outbox();
    looper
}

#[test]
fn lcm_of_two_lengths() {
    assert_eq!(Some(12), checked_lcm(4, 6));
    assert_eq!(Some(21), checked_lcm(7, 3));
    assert_eq!(Some(4), checked_lcm(2, 4));
    assert_eq!(Some(5), checked_lcm(1, 5));
    assert_eq!(Some(1), checked_lcm(1, 1));
    assert_eq!(Some(u32::MAX), checked_lcm(u32::MAX, u32::MAX));
    assert_eq!(None, checked_lcm(65536, 65537));
    assert_eq!(None, checked_lcm(u32::MAX, u32::MAX - 1));
}

#[test]
fn new_looper_loops_the_metronome() {
    let looper = Looper::new(DummyMidiNoteTracker::new());
    assert_eq!(State::Looping, looper.state);
    assert_eq!(None, looper.next_state);
    assert_eq!(default_measure(), looper.measure);
    assert_eq!(0, looper.time_cursor);
    assert_eq!(1, looper.amount_of_measures);
    assert!(looper.record_buffer.is_empty());
    assert_eq!(1, looper.composition.len());
    let metronome = &looper.composition[0];
    assert_eq!(1, metronome.amount_of_measures);
    let expected = vec![
        QuantMidiEvent { quant: Quant(0), message: click_on(BEAT_ACCENT_VELOCITY) },
        QuantMidiEvent { quant: Quant(0), message: click_off() },
        QuantMidiEvent { quant: Quant(4), message: click_on(BEAT_VELOCITY) },
        QuantMidiEvent { quant: Quant(4), message: click_off() },
        QuantMidiEvent { quant: Quant(8), message: click_on(BEAT_VELOCITY) },
        QuantMidiEvent { quant: Quant(8), message: click_off() },
        QuantMidiEvent { quant: Quant(12), message: click_on(BEAT_VELOCITY) },
        QuantMidiEvent { quant: Quant(12), message: click_off() },
    ];
    assert_eq!(expected, metronome.events);
}

#[test]
fn reset_leaves_the_metronome_alone() {
    let mut looper = Looper::new(RecordingNoteTracker::new(1000));
    looper.toggle_recording();
    looper.on_midi_event(&at(100, note_on(60))).unwrap();
    looper.on_midi_event(&at(4101, note_off(60))).unwrap();
    looper.toggle_recording();
    looper.update(2000).unwrap();
    assert_eq!(2, looper.composition.len());
    assert_eq!(3, looper.amount_of_measures);
    looper.toggle_recording();
    looper.on_midi_event(&at(5000, note_on(61))).unwrap();
    looper.note_tracker.take_outbox();

    looper.reset();

    assert_eq!(State::Looping, looper.state);
    assert_eq!(1, looper.composition.len());
    assert_eq!(1, looper.amount_of_measures);
    assert!(looper.record_buffer.is_empty());
    assert_eq!(8, looper.composition[0].events.len());
    assert_eq!(2000, looper.time_cursor);
    // the note that was still sounding has been silenced
    assert_eq!(vec![note_off(61)], looper.note_tracker.outbox);
    assert!(looper.note_tracker.notes.iter().all(|held| !held));
}

#[test]
fn recording_is_committed_at_the_measure_line() {
    let mut looper = Looper::new(RecordingNoteTracker::new(1000));
    looper.update(500).unwrap();
    looper.toggle_recording();
    assert_eq!(State::Recording, looper.state);
    looper.on_midi_event(&at(1000, note_on(60))).unwrap();
    looper.on_midi_event(&at(1500, note_off(60))).unwrap();
    looper.on_midi_event(&at(3500, note_on(62))).unwrap();
    looper.on_midi_event(&at(3600, note_off(62))).unwrap();
    looper.toggle_recording();
    // the switch waits for the measure line
    assert_eq!(State::Recording, looper.state);
    assert_eq!(Some(State::Looping), looper.next_state);
    looper.update(1000).unwrap();
    assert_eq!(State::Recording, looper.state);
    assert_eq!(1, looper.composition.len());

    looper.update(1000).unwrap();

    assert_eq!(State::Looping, looper.state);
    assert_eq!(None, looper.next_state);
    assert_eq!(2, looper.composition.len());
    // the recording lives in the new layer only
    assert!(looper.record_buffer.is_empty());
    let layer = &looper.composition[1];
    assert_eq!(2, layer.amount_of_measures);
    assert_eq!(
        vec![
            QuantMidiEvent { quant: Quant(0), message: note_on(60) },
            QuantMidiEvent { quant: Quant(4), message: note_off(60) },
            QuantMidiEvent { quant: Quant(20), message: note_on(62) },
            QuantMidiEvent { quant: Quant(21), message: note_off(62) },
        ],
        layer.events
    );
    assert_eq!(2, looper.amount_of_measures);
    assert_eq!(2500, looper.time_cursor);
}

#[test]
fn composition_grows_by_the_least_common_multiple() {
    let mut looper = Looper::new(DummyMidiNoteTracker::new());
    for span in [3500u32, 5000] {
        looper.toggle_recording();
        looper.on_midi_event(&at(10, control(1))).unwrap();
        looper.on_midi_event(&at(10 + span, control(2))).unwrap();
        looper.toggle_recording();
        assert_eq!(Ok(()), looper.on_measure_bar());
    }
    assert_eq!(3, looper.composition.len());
    assert_eq!(2, looper.composition[1].amount_of_measures);
    assert_eq!(3, looper.composition[2].amount_of_measures);
    assert_eq!(6, looper.amount_of_measures);
    assert_eq!(6, composition_length(&looper.composition));
}

#[test]
fn measure_line_without_pending_state_changes_nothing() {
    let mut looper = Looper::new(DummyMidiNoteTracker::new());
    looper.toggle_recording();
    looper.on_midi_event(&at(10, control(1))).unwrap();
    assert_eq!(Ok(()), looper.on_measure_bar());
    assert_eq!(State::Recording, looper.state);
    assert_eq!(1, looper.composition.len());
    assert_eq!(vec![at(10, control(1))], looper.record_buffer);
    // a pending pause is taken without a commit
    looper.next_state = Some(State::Pause);
    assert_eq!(Ok(()), looper.on_measure_bar());
    assert_eq!(State::Pause, looper.state);
    assert_eq!(None, looper.next_state);
    assert_eq!(1, looper.composition.len());
}

#[test]
fn commit_that_does_not_fit_changes_nothing() {
    let mut looper = Looper::new(DummyMidiNoteTracker::new());
    let mut long = stepped_sample();
    long.amount_of_measures = u32::MAX;
    looper.composition.push(long);
    looper.amount_of_measures = u32::MAX;
    looper.toggle_recording();
    looper.on_midi_event(&at(0, control(1))).unwrap();
    looper.on_midi_event(&at(3000, control(2))).unwrap();
    looper.toggle_recording();
    assert_eq!(Err(LooperError::InvalidOperation), looper.on_measure_bar());
    assert_eq!(State::Recording, looper.state);
    assert_eq!(Some(State::Looping), looper.next_state);
    assert_eq!(2, looper.composition.len());
    assert_eq!(u32::MAX, looper.amount_of_measures);
    assert_eq!(Err(LooperError::InvalidOperation), looper.update(2000));
    assert_eq!(0, looper.time_cursor);
}

#[test]
fn undo_never_removes_the_last_layer() {
    let mut looper = Looper::new(RecordingNoteTracker::new(1000));
    looper.on_midi_event(&at(0, note_on(60))).unwrap();
    looper.note_tracker.take_outbox();
    looper.undo_last_recording();
    assert_eq!(1, looper.composition.len());
    assert_eq!(1, looper.amount_of_measures);
    assert_eq!(State::Looping, looper.state);
    // a no-op: not even the sounding note is touched
    assert!(looper.note_tracker.outbox.is_empty());
    looper.toggle_pause();
    looper.undo_last_recording();
    assert_eq!(1, looper.composition.len());
    assert_eq!(State::Pause, looper.state);
}

#[test]
fn undo_removes_the_newest_layer_and_measures_anew() {
    let mut looper = Looper::new(RecordingNoteTracker::new(1000));
    for span in [3500u32, 5000] {
        looper.toggle_recording();
        looper.on_midi_event(&at(10, control(1))).unwrap();
        looper.on_midi_event(&at(10 + span, control(2))).unwrap();
        looper.toggle_recording();
        looper.on_measure_bar().unwrap();
    }
    assert_eq!(6, looper.amount_of_measures);
    looper.on_midi_event(&at(0, note_on(64))).unwrap();
    looper.note_tracker.take_outbox();

    looper.undo_last_recording();
    assert_eq!(2, looper.composition.len());
    assert_eq!(2, looper.amount_of_measures);
    assert_eq!(vec![note_off(64)], looper.note_tracker.outbox);

    looper.undo_last_recording();
    assert_eq!(1, looper.composition.len());
    assert_eq!(1, looper.amount_of_measures);
}

#[test]
fn undo_while_recording_drops_the_buffer_only() {
    let mut looper = Looper::new(DummyMidiNoteTracker::new());
    looper.toggle_recording();
    looper.on_midi_event(&at(10, control(1))).unwrap();
    looper.undo_last_recording();
    assert!(looper.record_buffer.is_empty());
    assert_eq!(State::Recording, looper.state);
    assert_eq!(1, looper.composition.len());
}

#[test]
fn pause_silences_held_notes() {
    let mut looper = Looper::new(RecordingNoteTracker::new(1000));
    looper.on_midi_event(&at(0, note_on(60))).unwrap();
    looper.on_midi_event(&at(1, TypedMidiMessage::NoteOn { channel: 3, key: 10, velocity: 9 }))
        .unwrap();
    looper.on_midi_event(&at(2, note_on(12))).unwrap();
    looper.on_midi_event(&at(3, note_off(12))).unwrap();
    looper.note_tracker.take_outbox();

    looper.toggle_pause();

    assert_eq!(State::Pause, looper.state);
    assert_eq!(
        vec![note_off(60), TypedMidiMessage::NoteOff { channel: 3, key: 10, velocity: 0 }],
        looper.note_tracker.outbox
    );
    assert!(looper.note_tracker.notes.iter().all(|held| !held));

    // nothing plays while paused
    looper.note_tracker.take_outbox();
    assert_eq!(Ok(()), looper.update(5000));
    assert_eq!(0, looper.time_cursor);
    assert!(looper.note_tracker.outbox.is_empty());

    looper.toggle_pause();
    assert_eq!(State::Looping, looper.state);
    assert!(looper.note_tracker.outbox.is_empty());
    assert!(looper.note_tracker.notes.iter().all(|held| !held));
}

#[test]
fn toggles_that_do_nothing() {
    let mut looper = Looper::new(DummyMidiNoteTracker::new());
    looper.toggle_pause();
    looper.toggle_recording();
    assert_eq!(State::Pause, looper.state);
    assert_eq!(None, looper.next_state);
    looper.toggle_pause();
    looper.toggle_recording();
    looper.toggle_pause();
    assert_eq!(State::Recording, looper.state);
}

#[test]
fn starting_a_recording_clears_the_buffer() {
    let mut looper = Looper::new(DummyMidiNoteTracker::new());
    looper.record_buffer.push(at(5, control(1)));
    looper.toggle_recording();
    assert_eq!(State::Recording, looper.state);
    assert!(looper.record_buffer.is_empty());
}

#[test]
fn update_plays_every_quant_it_passes() {
    let mut looper = stepped_looper();
    assert_eq!(Ok(()), looper.update(625));
    assert_eq!(625, looper.time_cursor);
    assert_eq!(
        vec![control(1), control(2), control(3), control(4), control(5)],
        looper.note_tracker.outbox
    );
    looper.note_tracker.take_outbox();
    // no quant is passed
    assert_eq!(Ok(()), looper.update(10));
    assert!(looper.note_tracker.outbox.is_empty());
    // the layer wraps round after its 16 quants
    assert_eq!(Ok(()), looper.update(1500));
    let expected: Vec<TypedMidiMessage> =
        [6u8, 7, 8, 9, 10, 11, 12, 13, 14, 15, 0, 1].iter().map(|k| control(*k)).collect();
    assert_eq!(expected, looper.note_tracker.outbox);
}

#[test]
fn update_plays_layer_after_layer() {
    let mut looper = stepped_looper();
    looper.composition.insert(0, Looper::new(DummyMidiNoteTracker::new()).make_metronome());
    assert_eq!(Ok(()), looper.update(500));
    assert_eq!(
        vec![
            click_on(BEAT_VELOCITY),
            click_off(),
            control(1),
            control(2),
            control(3),
            control(4)
        ],
        looper.note_tracker.outbox
    );
}

#[test]
fn update_reports_a_failed_delivery() {
    let mut looper = stepped_looper();
    looper.note_tracker.limit = 3;
    assert_eq!(Err(LooperError::Sink(SinkError { code: OUTBOX_FULL })), looper.update(625));
    // time has passed all the same
    assert_eq!(625, looper.time_cursor);
    assert_eq!(vec![control(1), control(2), control(3)], looper.note_tracker.outbox);
    // the next tick goes on from the new cursor and repeats nothing
    looper.note_tracker.take_outbox();
    looper.note_tracker.limit = 100;
    assert_eq!(Ok(()), looper.update(250));
    assert_eq!(875, looper.time_cursor);
    assert_eq!(vec![control(6), control(7)], looper.note_tracker.outbox);
}

#[test]
fn failed_delivery_after_a_measure_line_keeps_the_commit_and_the_time() {
    let mut looper = Looper::new(RecordingNoteTracker::new(100));
    looper.note_tracker.take_outbox();
    looper.toggle_recording();
    looper.on_midi_event(&at(50, control(1))).unwrap();
    looper.toggle_recording();
    looper.note_tracker.limit = 1;
    assert_eq!(Err(LooperError::Sink(SinkError { code: OUTBOX_FULL })), looper.update(2000));
    assert_eq!(2000, looper.time_cursor);
    assert_eq!(State::Looping, looper.state);
    assert_eq!(2, looper.composition.len());
    assert!(looper.record_buffer.is_empty());
}

#[test]
fn event_at_the_end_of_a_layer_comes_round() {
    let measure = default_measure();
    let layer = Sample::new(&vec![at(0, note_on(60)), at(1990, note_off(60))], &measure);
    assert_eq!(1, layer.amount_of_measures);
    assert_eq!(Quant(16), layer.events[1].quant);
    assert_eq!(vec![note_on(60), note_off(60)], layer.messages_due(Quant(0)));
    assert_eq!(vec![note_on(60), note_off(60)], layer.messages_due(Quant(16)));
    assert_eq!(vec![note_on(60), note_off(60)], layer.messages_due(Quant(32)));
    for quant in 1..16 {
        assert!(layer.messages_due(Quant(quant)).is_empty());
    }
    // a lone note-off at the very end is played too
    let lone = Sample::new(&vec![at(1990, note_off(61))], &measure);
    assert_eq!(vec![note_off(61)], lone.messages_due(Quant(16)));
    assert_eq!(vec![note_off(61)], lone.messages_due(Quant(0)));
    // one round of the layer leaves no note sounding
    let mut sink = RecordingNoteTracker::new(100);
    assert_eq!(Ok(()), replay_range(&vec![layer], Quant(2), Quant(18), &mut sink));
    assert_eq!(vec![note_on(60), note_off(60)], sink.outbox);
    assert!(sink.notes.iter().all(|held| !held));
}

#[test]
fn events_beyond_a_layer_come_round_at_any_tempo() {
    let slow = Measure { tempo_bpm: 120, measure_size_bpm: 4, quantation_level: 2 };
    let mut layer = Sample {
        events: vec![
            QuantMidiEvent { quant: Quant(3), message: control(1) },
            QuantMidiEvent { quant: Quant(35), message: control(2) },
            QuantMidiEvent { quant: Quant(19), message: control(3) },
        ],
        amount_of_measures: 1,
        measure: slow,
    };
    assert_eq!(vec![control(1), control(2), control(3)], layer.messages_due(Quant(3)));
    layer.amount_of_measures = 2;
    assert_eq!(vec![control(1), control(2)], layer.messages_due(Quant(3)));
    assert_eq!(vec![control(3)], layer.messages_due(Quant(19)));
    layer.update_measure(&Measure { tempo_bpm: 160, ..slow });
    assert_eq!(vec![control(1), control(2)], layer.messages_due(Quant(67)));
}

#[test]
fn update_rejects_a_cursor_that_does_not_fit() {
    let mut looper = Looper::new(DummyMidiNoteTracker::new());
    looper.time_cursor = u32::MAX - 5;
    assert_eq!(Err(LooperError::InvalidOperation), looper.update(6));
    assert_eq!(u32::MAX - 5, looper.time_cursor);
    assert_eq!(Ok(()), looper.update(5));
    assert_eq!(u32::MAX, looper.time_cursor);
}

#[test]
fn midi_events_are_recorded_only_while_recording() {
    let mut looper = Looper::new(RecordingNoteTracker::new(2));
    assert_eq!(Ok(()), looper.on_midi_event(&at(7, control(1))));
    assert!(looper.record_buffer.is_empty());
    looper.toggle_recording();
    assert_eq!(Ok(()), looper.on_midi_event(&at(8, control(2))));
    assert_eq!(vec![at(8, control(2))], looper.record_buffer);
    assert_eq!(vec![control(1), control(2)], looper.note_tracker.outbox);
    // the outbox is full: the event is recorded and the failure reported
    assert_eq!(
        Err(LooperError::Sink(SinkError { code: OUTBOX_FULL })),
        looper.on_midi_event(&at(9, control(3)))
    );
    assert_eq!(vec![at(8, control(2)), at(9, control(3))], looper.record_buffer);
    assert_eq!(vec![control(1), control(2)], looper.note_tracker.outbox);
}

#[test]
fn tempo_change_keeps_the_cursor_in_phase() {
    let mut looper = Looper::new(DummyMidiNoteTracker::new());
    looper.update(3000).unwrap();
    assert_eq!(Ok(()), looper.update_tempo_bpm(160));
    assert_eq!(Measure { tempo_bpm: 160, measure_size_bpm: 4, quantation_level: 2 }, looper.measure);
    // 3000 is 1000 into the cycle of one measure; 1000 of 2000 is 750 of 1500
    assert_eq!(750, looper.time_cursor);
    assert_eq!(looper.measure, looper.composition[0].measure);
    assert_eq!(8, looper.composition[0].events.len());
    assert_eq!(Quant(4), looper.composition[0].events[2].quant);
    assert_eq!(1, looper.amount_of_measures);
}

#[test]
fn tempo_change_to_an_unusable_tempo_is_rejected() {
    let mut looper = Looper::new(DummyMidiNoteTracker::new());
    looper.update(300).unwrap();
    assert_eq!(Err(LooperError::InvalidOperation), looper.update_tempo_bpm(0));
    assert_eq!(Err(LooperError::InvalidOperation), looper.update_tempo_bpm(60001));
    assert_eq!(default_measure(), looper.measure);
    assert_eq!(300, looper.time_cursor);
    assert_eq!(default_measure(), looper.composition[0].measure);
}

#[test]
fn sample_length_is_rounded_up_to_whole_measures() {
    let measure = default_measure();
    assert_eq!(1, Sample::new(&vec![], &measure).amount_of_measures);
    assert_eq!(1, Sample::new(&vec![at(0, control(1))], &measure).amount_of_measures);
    assert_eq!(1, Sample::new(&vec![at(2000, control(1))], &measure).amount_of_measures);
    assert_eq!(2, Sample::new(&vec![at(2001, control(1))], &measure).amount_of_measures);
    assert_eq!(
        3,
        Sample::new(&vec![at(4001, control(1)), at(10, control(2))], &measure).amount_of_measures
    );
}

#[test]
fn sample_replays_in_recorded_order_and_wraps() {
    let measure = default_measure();
    let events = vec![at(130, control(1)), at(120, control(2)), at(2125, control(3))];
    let sample = Sample::new(&events, &measure);
    assert_eq!(2, sample.amount_of_measures);
    assert_eq!(vec![control(1), control(2)], sample.messages_due(Quant(1)));
    assert_eq!(vec![control(3)], sample.messages_due(Quant(17)));
    assert_eq!(vec![control(1), control(2)], sample.messages_due(Quant(33)));
    assert_eq!(vec![control(3)], sample.messages_due(Quant(49)));
    assert!(sample.messages_due(Quant(0)).is_empty());
    let mut sink = RecordingNoteTracker::new(10);
    assert_eq!(Ok(()), sample.replay_quant(Quant(33), &mut sink));
    assert_eq!(vec![control(1), control(2)], sink.outbox);
}

#[test]
fn sample_keeps_its_quants_at_another_tempo() {
    let mut sample = stepped_sample();
    let before = sample.events.clone();
    let faster = Measure { tempo_bpm: 160, measure_size_bpm: 4, quantation_level: 2 };
    sample.update_measure(&faster);
    assert_eq!(before, sample.events);
    assert_eq!(1, sample.amount_of_measures);
    assert_eq!(faster, sample.measure);
    assert_eq!(vec![control(3)], sample.messages_due(Quant(19)));
}

#[test]
fn normalizing_moves_the_first_event_to_zero() {
    let buffer = vec![at(700, control(1)), at(900, control(2)), at(650, control(3))];
    assert_eq!(
        vec![at(0, control(1)), at(200, control(2)), at(0, control(3))],
        normalized_buffer(&buffer)
    );
    assert!(normalized_buffer(&vec![]).is_empty());
    let mut looper = Looper::new(DummyMidiNoteTracker::new());
    looper.record_buffer = buffer;
    looper.normalize_record_buffer();
    assert_eq!(
        vec![at(0, control(1)), at(200, control(2)), at(0, control(3))],
        looper.record_buffer
    );
}

#[test]
fn feed_all_stops_at_the_first_failure() {
    let mut sink = RecordingNoteTracker::new(2);
    let messages = vec![note_on(1), note_on(2), note_on(3)];
    assert_eq!(Err(SinkError { code: OUTBOX_FULL }), feed_all(&mut sink, &messages));
    assert_eq!(vec![note_on(1), note_on(2)], sink.outbox);
    // the third note was marked although it did not go out
    sink.take_outbox();
    sink.close_opened_notes();
    assert_eq!(vec![note_off(1), note_off(2), note_off(3)], sink.outbox);
    let mut dummy = DummyMidiNoteTracker::new();
    assert_eq!(Ok(()), feed_all(&mut dummy, &messages));
}

#[test]
fn tracker_ignores_notes_that_midi_does_not_know() {
    let mut tracker = RecordingNoteTracker::new(100);
    tracker.feed(TypedMidiMessage::NoteOn { channel: 16, key: 0, velocity: 1 }).unwrap();
    tracker.feed(TypedMidiMessage::NoteOn { channel: 0, key: 128, velocity: 1 }).unwrap();
    tracker.feed(TypedMidiMessage::NoteOn { channel: 15, key: 127, velocity: 1 }).unwrap();
    tracker.feed(TypedMidiMessage::NoteOn { channel: 1, key: 0, velocity: 1 }).unwrap();
    tracker.take_outbox();
    tracker.close_opened_notes();
    assert_eq!(
        vec![
            TypedMidiMessage::NoteOff { channel: 1, key: 0, velocity: 0 },
            TypedMidiMessage::NoteOff { channel: 15, key: 127, velocity: 0 },
        ],
        tracker.outbox
    );
    tracker.take_outbox();
    tracker.close_opened_notes();
    assert!(tracker.outbox.is_empty());
}

#[test]
fn messages_are_classified() {
    let tempo = TypedMidiMessage::ControlChange {
        channel: 3,
        number: TEMPO_CHANGE_CONTROL_NUMBER,
        value: 30,
    };
    assert_eq!(MidiCommand::ChangeTempo(120), classify(&tempo));
    let top = TypedMidiMessage::ControlChange {
        channel: 0,
        number: TEMPO_CHANGE_CONTROL_NUMBER,
        value: 255,
    };
    assert_eq!(MidiCommand::ChangeTempo(345), classify(&top));
    assert_eq!(MidiCommand::Play, classify(&control(1)));
    let press = TypedMidiMessage::NoteOn {
        channel: CONTROL_CHANNEL_NUMBER,
        key: CONTROL_KEY_NUMBER,
        velocity: 1,
    };
    let release = TypedMidiMessage::NoteOff {
        channel: CONTROL_CHANNEL_NUMBER,
        key: CONTROL_KEY_NUMBER,
        velocity: 0,
    };
    assert_eq!(MidiCommand::ToggleRecording, classify(&press));
    assert_eq!(MidiCommand::Nothing, classify(&release));
    assert_eq!(MidiCommand::Play, classify(&note_on(CONTROL_KEY_NUMBER)));
    assert_eq!(MidiCommand::Play, classify(&note_off(CONTROL_KEY_NUMBER)));
    assert_eq!(
        MidiCommand::Play,
        classify(&TypedMidiMessage::Unknown { status: 0xE0, data1: 0, data2: 0 })
    );
}

#[test]
fn screen_carries_out_keys() {
    let mut screen = LooperScreen::new(Looper::new(DummyMidiNoteTracker::new()));
    assert!(!screen.quit);
    assert_eq!(None, screen.handle_key(KeyCommand::ToggleRecording));
    assert_eq!(State::Recording, screen.looper.state);
    assert_eq!(None, screen.handle_key(KeyCommand::UndoLastRecording));
    assert_eq!(State::Recording, screen.looper.state);
    assert_eq!(None, screen.handle_key(KeyCommand::Reset));
    assert_eq!(State::Looping, screen.looper.state);
    assert_eq!(None, screen.handle_key(KeyCommand::TogglePause));
    assert_eq!(State::Pause, screen.looper.state);
    assert_eq!(Some(FileRequest::Save), screen.handle_key(KeyCommand::SaveState));
    assert_eq!(Some(FileRequest::Load), screen.handle_key(KeyCommand::LoadState));
    assert_eq!(State::Pause, screen.looper.state);
    assert_eq!(Ok(None), screen.update(100));
    assert_eq!(None, screen.handle_key(KeyCommand::Quit));
    assert!(screen.quit);
    assert_eq!(State::Looping, screen.looper.state);
    assert_eq!(Ok(Some(())), screen.update(100));
    assert_eq!(100, screen.looper.time_cursor);
}

#[test]
fn screen_carries_out_midi_events() {
    let mut screen = LooperScreen::new(Looper::new(RecordingNoteTracker::new(100)));
    screen.looper.note_tracker.take_outbox();
    let press = TypedMidiMessage::NoteOn {
        channel: CONTROL_CHANNEL_NUMBER,
        key: CONTROL_KEY_NUMBER,
        velocity: 1,
    };
    let release = TypedMidiMessage::NoteOff {
        channel: CONTROL_CHANNEL_NUMBER,
        key: CONTROL_KEY_NUMBER,
        velocity: 0,
    };
    assert_eq!(Ok(None), screen.handle_midi_event(&at(0, press)));
    assert_eq!(State::Recording, screen.looper.state);
    assert_eq!(Ok(None), screen.handle_midi_event(&at(1, release)));
    assert_eq!(State::Recording, screen.looper.state);
    assert_eq!(Ok(None), screen.handle_midi_event(&at(2, note_on(60))));
    assert_eq!(vec![at(2, note_on(60))], screen.looper.record_buffer);
    // the control key itself is neither recorded nor sent on
    assert_eq!(vec![note_on(60)], screen.looper.note_tracker.outbox);
    let tempo = TypedMidiMessage::ControlChange {
        channel: 0,
        number: TEMPO_CHANGE_CONTROL_NUMBER,
        value: 70,
    };
    assert_eq!(Ok(Some(160)), screen.handle_midi_event(&at(3, tempo)));
    assert_eq!(160, screen.looper.measure.tempo_bpm);
    assert_eq!(93, screen.looper.measure.quant_size_millis());
    assert_eq!(vec![at(2, note_on(60))], screen.looper.record_buffer);
}

#[test]
fn replay_range_plays_layers_in_turn() {
    let metronome = Looper::new(DummyMidiNoteTracker::new()).make_metronome();
    let composition = vec![metronome, stepped_sample()];
    let mut sink = RecordingNoteTracker::new(100);
    assert_eq!(Ok(()), replay_range(&composition, Quant(3), Quant(5), &mut sink));
    assert_eq!(vec![click_on(BEAT_VELOCITY), click_off(), control(4), control(5)], sink.outbox);
    sink.take_outbox();
    assert_eq!(Ok(()), replay_range(&composition, Quant(5), Quant(5), &mut sink));
    assert_eq!(Ok(()), replay_range(&composition, Quant(7), Quant(5), &mut sink));
    assert!(sink.outbox.is_empty());
    assert_eq!(Ok(()), replay_range(&vec![], Quant(0), Quant(50), &mut sink));
    assert!(sink.outbox.is_empty());
    sink.limit = 1;
    assert_eq!(
        Err(SinkError { code: OUTBOX_FULL }),
        replay_range(&composition, Quant(3), Quant(5), &mut sink)
    );
    assert_eq!(vec![click_on(BEAT_VELOCITY)], sink.outbox);
    // the note-off that failed has unmarked the click all the same
    sink.take_outbox();
    sink.close_opened_notes();
    assert!(sink.outbox.is_empty());
}

#[test]
fn failed_delivery_still_marks_the_note() {
    let mut tracker = RecordingNoteTracker::new(0);
    assert_eq!(Err(SinkError { code: OUTBOX_FULL }), tracker.feed(note_on(60)));
    assert_eq!(Err(SinkError { code: OUTBOX_FULL }), tracker.feed(note_on(61)));
    assert_eq!(Err(SinkError { code: OUTBOX_FULL }), tracker.feed(note_off(61)));
    assert_eq!(Err(SinkError { code: OUTBOX_FULL }), tracker.feed(control(1)));
    assert!(tracker.outbox.is_empty());
    tracker.close_opened_notes();
    assert_eq!(vec![note_off(60)], tracker.outbox);

    let mut looper = Looper::new(RecordingNoteTracker::new(0));
    looper.note_tracker.take_outbox();
    assert_eq!(
        Err(LooperError::Sink(SinkError { code: OUTBOX_FULL })),
        looper.on_midi_event(&at(0, note_on(62)))
    );
    looper.toggle_pause();
    assert_eq!(vec![note_off(62)], looper.note_tracker.outbox);
}

#[test]
fn reset_drops_a_pending_change_of_state() {
    let mut looper = Looper::new(DummyMidiNoteTracker::new());
    looper.toggle_recording();
    looper.on_midi_event(&at(10, control(1))).unwrap();
    looper.toggle_recording();
    assert_eq!(Some(State::Looping), looper.next_state);

    looper.reset();

    assert_eq!(State::Looping, looper.state);
    assert_eq!(None, looper.next_state);
    assert_eq!(Ok(()), looper.on_measure_bar());
    assert_eq!(1, looper.composition.len());
    assert_eq!(1, looper.amount_of_measures);
    assert_eq!(Ok(()), looper.update(4000));
    assert_eq!(1, looper.composition.len());
}

#[test]
fn commit_empties_the_record_buffer() {
    let mut looper = Looper::new(DummyMidiNoteTracker::new());
    looper.toggle_recording();
    looper.on_midi_event(&at(300, control(1))).unwrap();
    looper.on_midi_event(&at(900, control(2))).unwrap();
    looper.toggle_recording();
    assert_eq!(Ok(()), looper.on_measure_bar());
    assert!(looper.record_buffer.is_empty());
    assert_eq!(
        vec![
            QuantMidiEvent { quant: Quant(0), message: control(1) },
            QuantMidiEvent { quant: Quant(5), message: control(2) },
        ],
        looper.composition[1].events
    );
    // a second measure line commits nothing more
    assert_eq!(Ok(()), looper.on_measure_bar());
    assert_eq!(2, looper.composition.len());
}

#[test]
fn pause_silences_a_note_that_a_layer_started() {
    let mut looper = Looper::new(RecordingNoteTracker::new(100));
    let layer = Sample::new(&vec![at(125, note_on(70)), at(1500, note_off(70))], &default_measure());
    looper.composition = vec![layer];
    assert_eq!(Ok(()), looper.update(200));
    assert_eq!(vec![note_on(70)], looper.note_tracker.outbox);
    looper.note_tracker.take_outbox();
    looper.toggle_pause();
    assert_eq!(vec![note_off(70)], looper.note_tracker.outbox);
    looper.note_tracker.take_outbox();
    looper.toggle_pause();
    assert_eq!(State::Looping, looper.state);
    assert!(looper.note_tracker.outbox.is_empty());
    assert!(looper.note_tracker.notes.iter().all(|held| !held));
}

#[test]
fn looper_is_restored_from_its_parts() {
    let measure = default_measure();
    let metronome = Looper::new(DummyMidiNoteTracker::new()).make_metronome();
    let long = Sample::new(&vec![at(0, control(1)), at(4500, control(2))], &measure);
    let longer = Sample::new(&vec![at(0, control(3)), at(7000, control(4))], &measure);
    let restored = Looper::restore(
        State::Pause,
        vec![metronome, long, longer],
        measure,
        RecordingNoteTracker::new(10),
    );
    let looper = match restored {
        Ok(looper) => looper,
        Err(e) => panic!("not restored: {:?}", e),
    };
    assert_eq!(State::Pause, looper.state);
    assert_eq!(None, looper.next_state);
    assert_eq!(3, looper.composition.len());
    assert_eq!(12, looper.amount_of_measures);
    assert_eq!(0, looper.time_cursor);
    assert!(looper.record_buffer.is_empty());
    assert_eq!(measure, looper.measure);
}

#[test]
fn parts_that_make_no_looper_are_refused() {
    let measure = default_measure();
    let layer = || Sample::new(&vec![at(0, control(1))], &default_measure());
    let refused = |composition: Vec<Sample>, measure: Measure| {
        match Looper::restore(State::Looping, composition, measure, DummyMidiNoteTracker::new()) {
            Ok(_) => false,
            Err(e) => e == LooperError::InvalidOperation,
        }
    };
    assert!(!refused(vec![layer()], measure));
    // no layer at all
    assert!(refused(vec![], measure));
    // a measure without a grid
    let stopped = Measure { tempo_bpm: 0, ..measure };
    let mut at_stopped = layer();
    at_stopped.measure = stopped;
    assert!(refused(vec![at_stopped], stopped));
    // a layer at another tempo
    assert!(refused(vec![layer()], Measure { tempo_bpm: 160, ..measure }));
    // a layer without length
    let mut empty = layer();
    empty.amount_of_measures = 0;
    assert!(refused(vec![layer(), empty], measure));
    // a composition too long for 32 bits
    let mut long = layer();
    long.amount_of_measures = 65536;
    let mut longer = layer();
    longer.amount_of_measures = 65537;
    assert!(refused(vec![long, longer], measure));
}
