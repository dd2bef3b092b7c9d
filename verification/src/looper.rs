use vstd::prelude::*;
use vstd::arithmetic::div_mod::lemma_mod_decreases;
use crate::config::{
    BEAT_ACCENT_VELOCITY, BEAT_KEY_NUMBER, BEAT_VELOCITY, CONTROL_CHANNEL_NUMBER,
    DEFAULT_MEASURE_SIZE_BPM, DEFAULT_QUANTATION_LEVEL, DEFAULT_TEMPO_BPM,
};
use crate::measure::{Measure, grid_divisor};
use crate::midi::{
    AbsMidiEvent, MidiNoteTracker, SinkError, TypedMidiMessage, delivered, held_after,
};
use crate::numeric::{
    checked_lcm, lcm, lcm_all, lemma_lcm_all_prefix, lemma_lcm_exists, lemma_lcm_with_one,
};
use crate::quant::Quant;
use crate::sample::{
    QuantMidiEvent, Sample, composition_due, measures_needed, quantized, replay_range,
    span_millis,
};

verus! {

/// What the looper is doing.
#[derive(Clone, Copy, PartialEq, Eq, Debug, Structural)]
pub enum State {
    Recording,
    Looping,
    Pause,
}

/// Why an operation of the looper did not take place.
#[derive(Clone, Copy, PartialEq, Eq, Debug, Structural)]
pub enum LooperError {
    /// The note tracker failed to deliver a message.
    Sink(SinkError),
    /// The operation would leave the looper in a state that it cannot hold:
    /// a tempo without a usable grid, or a number too large for 32 bits.
    InvalidOperation,
}

/// The lengths, in measures, of the layers of a composition.
pub open spec fn amounts(composition: Seq<Sample>) -> Seq<nat> {
    Seq::new(composition.len(), |i: int| composition[i].amount_of_measures as nat)
}

/// The click track of one measure: for every beat a note-on at the beat and
/// a note-off one millisecond later, the first beat accented.
pub open spec fn metronome_events(measure: Measure) -> Seq<AbsMidiEvent> {
    Seq::new(
        2 * measure.measure_size_bpm as nat,
        |j: int|
            if j % 2 == 0 {
                AbsMidiEvent {
                    message: TypedMidiMessage::NoteOn {
                        channel: CONTROL_CHANNEL_NUMBER,
                        key: BEAT_KEY_NUMBER,
                        velocity: if j == 0 {
                            BEAT_ACCENT_VELOCITY
                        } else {
                            BEAT_VELOCITY
                        },
                    },
                    timestamp: ((j / 2) * measure.beat_millis()) as u32,
                }
            } else {
                AbsMidiEvent {
                    message: TypedMidiMessage::NoteOff {
                        channel: CONTROL_CHANNEL_NUMBER,
                        key: BEAT_KEY_NUMBER,
                        velocity: 0,
                    },
                    timestamp: ((j / 2) * measure.beat_millis() + 1) as u32,
                }
            },
    )
}

/// A recording moved in time so that its first event stands at 0. An event
/// stamped earlier than the first one goes to 0 as well.
pub open spec fn normalized(buffer: Seq<AbsMidiEvent>) -> Seq<AbsMidiEvent> {
    Seq::new(
        buffer.len(),
        |i: int|
            AbsMidiEvent {
                message: buffer[i].message,
                timestamp: if buffer[i].timestamp >= buffer[0].timestamp {
                    (buffer[i].timestamp - buffer[0].timestamp) as u32
                } else {
                    0
                },
            },
    )
}

/// The recording in `buffer`, moved in time so that it begins at 0.
pub fn normalized_buffer(buffer: &Vec<AbsMidiEvent>) -> (r: Vec<AbsMidiEvent>)
    ensures
        r@ == normalized(buffer@),
{
    let mut result: Vec<AbsMidiEvent> = Vec::new();
    let mut i: usize = 0;
    while i < buffer.len()
        invariant
            0 <= i <= buffer@.len(),
            result@.len() == i,
            forall|j: int| 0 <= j < i ==> result@[j] == normalized(buffer@)[j],
        decreases buffer@.len() - i,
    {
        let start: u32 = buffer[0].timestamp;
        let event = buffer[i];
        let moved: u32 = if event.timestamp >= start {
            event.timestamp - start
        } else {
            0
        };
        result.push(AbsMidiEvent { message: event.message, timestamp: moved });
        i = i + 1;
    }
    assert(result@ =~= normalized(buffer@));
    result
}

/// The length of a composition in measures: the least common multiple of
/// its layers' lengths.
pub fn composition_length(composition: &Vec<Sample>) -> (r: u32)
    requires
        forall|i: int| 0 <= i < composition@.len() ==> (#[trigger] composition@[i]).well_formed(),
        lcm_all(amounts(composition@)) <= u32::MAX,
    ensures
        r == lcm_all(amounts(composition@)),
        r >= 1,
{
    let mut length: u32 = 1;
    let mut i: usize = 0;
    assert(amounts(composition@).take(0) =~= Seq::<nat>::empty());
    while i < composition.len()
        invariant
            0 <= i <= composition@.len(),
            forall|i: int|
                0 <= i < composition@.len() ==> (#[trigger] composition@[i]).well_formed(),
            lcm_all(amounts(composition@)) <= u32::MAX,
            length == lcm_all(amounts(composition@).take(i as int)),
            length >= 1,
        decreases composition@.len() - i,
    {
        proof {
            let all = amounts(composition@);
            assert forall|j: int| 0 <= j < all.len() implies all[j] > 0 by {
                assert(composition@[j].well_formed());
            }
            lemma_lcm_all_prefix(all, i + 1);
            assert(all.take(i + 1).drop_last() =~= all.take(i as int));
            assert(all.take(i + 1).last() == composition@[i as int].amount_of_measures as nat);
            assert(composition@[i as int].well_formed());
        }
        match checked_lcm(length, composition[i].amount_of_measures) {
            Some(next) => {
                length = next;
            },
            None => {
                // Cannot happen: the length so far divides into the whole
                // composition's, which fits.
                assert(false);
            },
        }
        i = i + 1;
    }
    assert(amounts(composition@).take(i as int) =~= amounts(composition@));
    length
}

/// The looper: a composition of layers that loop together, the recording in
/// progress, and the cursor that runs through both.
pub struct Looper<T: MidiNoteTracker> {
    pub state: State,
    /// A change of state that waits for the next measure line.
    pub next_state: Option<State>,
    /// The layers, oldest first; the first one is the metronome.
    pub composition: Vec<Sample>,
    /// What has been played since recording began.
    pub record_buffer: Vec<AbsMidiEvent>,
    pub note_tracker: T,
    /// Milliseconds played so far.
    pub time_cursor: u32,
    /// The length of the whole composition in measures.
    pub amount_of_measures: u32,
    pub measure: Measure,
}

impl<T: MidiNoteTracker> Looper<T> {
    /// The looper's measure is playable and its tracker is in order; there
    /// is at least one layer; every layer is well formed and plays at the
    /// looper's measure; and the composition is as long as the least common
    /// multiple of its layers' lengths.
    pub open spec fn well_formed(&self) -> bool {
        &&& self.measure.playable()
        &&& self.note_tracker.well_formed()
        &&& self.composition@.len() >= 1
        &&& forall|i: int|
            0 <= i < self.composition@.len() ==> (#[trigger] self.composition@[i]).well_formed()
        &&& forall|i: int|
            0 <= i < self.composition@.len() ==> (#[trigger] self.composition@[i]).measure
                == self.measure
        &&& self.amount_of_measures >= 1
        &&& self.amount_of_measures == lcm_all(amounts(self.composition@))
    }

    /// A looper that loops the metronome alone, at the default tempo.
    pub fn new(note_tracker: T) -> (r: Looper<T>)
        requires
            note_tracker.well_formed(),
        ensures
            r.well_formed(),
            r.state == State::Looping,
            r.next_state == None::<State>,
            r.composition@.len() == 1,
            r.composition@[0].is_recording_of(metronome_events(r.measure), r.measure),
            r.record_buffer@.len() == 0,
            r.time_cursor == 0,
            r.amount_of_measures == 1,
            r.measure == (Measure {
                tempo_bpm: DEFAULT_TEMPO_BPM,
                measure_size_bpm: DEFAULT_MEASURE_SIZE_BPM,
                quantation_level: DEFAULT_QUANTATION_LEVEL,
            }),
            r.note_tracker.held() == Set::<(u8, u8)>::empty(),
            r.note_tracker.fed() == note_tracker.fed(),
    {
        let mut looper = Looper {
            state: State::Looping,
            next_state: None,
            composition: Vec::new(),
            record_buffer: Vec::new(),
            note_tracker,
            amount_of_measures: 1,
            time_cursor: 0,
            measure: Measure {
                tempo_bpm: DEFAULT_TEMPO_BPM,
                measure_size_bpm: DEFAULT_MEASURE_SIZE_BPM,
                quantation_level: DEFAULT_QUANTATION_LEVEL,
            },
        };
        proof {
            assert(grid_divisor(4, 0) == 1);
            assert(grid_divisor(4, 1) == 4);
            assert(grid_divisor(4, 2) == 16);
            assert(looper.measure.tempo_bpm == 120 && looper.measure.measure_size_bpm == 4
                && looper.measure.quantation_level == 2);
            assert(looper.measure.beat_millis() == 500);
            assert(looper.measure.measure_millis() == 2000);
            assert(looper.measure.quant_millis() == 125);
        }
        looper.reset();
        looper
    }

    /// A composition and a measure that a looper can be put together from:
    /// the measure is playable, there is at least one layer, every layer is
    /// well formed and plays at the measure, and the length of the whole
    /// fits in 32 bits.
    pub open spec fn restorable(composition: Seq<Sample>, measure: Measure) -> bool {
        &&& measure.playable()
        &&& composition.len() >= 1
        &&& forall|i: int|
            0 <= i < composition.len() ==> (#[trigger] composition[i]).amount_of_measures >= 1
        &&& forall|i: int| 0 <= i < composition.len() ==> (#[trigger] composition[i]).measure == measure
        &&& lcm_all(amounts(composition)) <= u32::MAX
    }

    /// Puts a looper together from a state that was kept: the layers, the
    /// measure, and what the looper was doing. The cursor starts at 0,
    /// nothing is pending and nothing has been recorded. Parts that do not
    /// make a looper are reported as invalid.
    pub fn restore(state: State, composition: Vec<Sample>, measure: Measure, note_tracker: T) -> (r:
        Result<Looper<T>, LooperError>)
        requires
            note_tracker.well_formed(),
        ensures
            r is Ok <==> Self::restorable(composition@, measure),
            r matches Err(e) ==> e == LooperError::InvalidOperation,
            r matches Ok(looper) ==> {
                &&& looper.well_formed()
                &&& looper.state == state
                &&& looper.next_state == None::<State>
                &&& looper.composition == composition
                &&& looper.record_buffer@.len() == 0
                &&& looper.note_tracker == note_tracker
                &&& looper.time_cursor == 0
                &&& looper.amount_of_measures == lcm_all(amounts(composition@))
                &&& looper.measure == measure
            },
    {
        if !measure.is_playable() || composition.len() == 0 {
            return Err(LooperError::InvalidOperation);
        }
        let mut length: u32 = 1;
        let mut i: usize = 0;
        assert(amounts(composition@).take(0) =~= Seq::<nat>::empty());
        while i < composition.len()
            invariant
                measure.playable(),
                0 <= i <= composition@.len(),
                forall|j: int| 0 <= j < i ==> (#[trigger] composition@[j]).amount_of_measures >= 1,
                forall|j: int| 0 <= j < i ==> (#[trigger] composition@[j]).measure == measure,
                length == lcm_all(amounts(composition@).take(i as int)),
                length >= 1,
            decreases composition@.len() - i,
        {
            let amount: u32 = composition[i].amount_of_measures;
            if amount == 0 || composition[i].measure != measure {
                return Err(LooperError::InvalidOperation);
            }
            proof {
                let all = amounts(composition@);
                assert(all.take(i + 1).drop_last() =~= all.take(i as int));
                assert(all.take(i + 1).last() == amount as nat);
                lemma_lcm_exists(length as nat, amount as nat);
                if Self::restorable(composition@, measure) {
                    assert forall|j: int| 0 <= j < all.len() implies all[j] > 0 by {
                        assert(composition@[j].amount_of_measures >= 1);
                    }
                    lemma_lcm_all_prefix(all, i + 1);
                }
            }
            match checked_lcm(length, amount) {
                Some(next) => {
                    length = next;
                },
                None => {
                    return Err(LooperError::InvalidOperation);
                },
            }
            i = i + 1;
        }
        assert(amounts(composition@).take(i as int) =~= amounts(composition@));
        Ok(
            Looper {
                state,
                next_state: None,
                composition,
                record_buffer: Vec::new(),
                note_tracker,
                time_cursor: 0,
                amount_of_measures: length,
                measure,
            },
        )
    }

    /// `post` is `pre` after a reset: the metronome of `pre`'s measure is the
    /// only layer, nothing is being recorded, no change of state is pending
    /// and no note sounds; tempo, cursor and the record of deliveries are
    /// those of `pre`.
    pub open spec fn was_reset(pre: &Self, post: &Self) -> bool {
        &&& post.well_formed()
        &&& post.state == State::Looping
        &&& post.composition@.len() == 1
        &&& post.composition@[0].is_recording_of(metronome_events(pre.measure), pre.measure)
        &&& post.record_buffer@.len() == 0
        &&& post.amount_of_measures == 1
        &&& post.note_tracker.held() == Set::<(u8, u8)>::empty()
        &&& post.note_tracker.fed() == pre.note_tracker.fed()
        &&& post.next_state == None::<State>
        &&& post.time_cursor == pre.time_cursor
        &&& post.measure == pre.measure
    }

    /// Back to the beginning: the metronome alone is left, nothing is being
    /// recorded, no change of state is pending, and no note sounds. Tempo
    /// and cursor stay as they are.
    pub fn reset(&mut self)
        requires
            old(self).measure.playable(),
            old(self).note_tracker.well_formed(),
        ensures
            Self::was_reset(old(self), final(self)),
    {
        let beats = self.make_metronome();
        self.state = State::Looping;
        self.next_state = None;
        self.composition.clear();
        self.composition.push(beats);
        self.record_buffer.clear();
        self.amount_of_measures = 1;
        self.note_tracker.close_opened_notes();
        proof {
            let a = amounts(self.composition@);
            assert(a.drop_last() =~= Seq::<nat>::empty());
            assert(lcm_all(a.drop_last()) == 1);
            lemma_lcm_with_one(a.last());
            assert(a.last() == 1);
        }
    }

    /// The metronome of the looper's measure, as a layer of one measure.
    pub fn make_metronome(&self) -> (r: Sample)
        requires
            self.measure.playable(),
        ensures
            r.is_recording_of(metronome_events(self.measure), self.measure),
            r.well_formed(),
            r.amount_of_measures == 1,
    {
        let beat: u32 = self.measure.beat_size_millis();
        let beats: u32 = self.measure.measure_size_bpm;
        let mut buffer: Vec<AbsMidiEvent> = Vec::new();
        let mut i: u32 = 0;
        proof {
            self.measure.lemma_quant_within_measure();
        }
        while i < beats
            invariant
                self.measure.playable(),
                beat == self.measure.beat_millis(),
                beats == self.measure.measure_size_bpm,
                1 <= self.measure.measure_millis(),
                0 <= i <= beats,
                buffer@.len() == 2 * i,
                forall|j: int| 0 <= j < 2 * i ==> buffer@[j] == metronome_events(self.measure)[j],
            decreases beats - i,
        {
            assert(i * beat + 1 <= beat * beats && beat * beats <= u32::MAX) by (nonlinear_arith)
                requires
                    0 <= i < beats,
                    beat >= 0,
                    1 <= beat * beats <= u32::MAX,
            ;
            buffer.push(
                AbsMidiEvent {
                    message: TypedMidiMessage::NoteOn {
                        channel: CONTROL_CHANNEL_NUMBER,
                        key: BEAT_KEY_NUMBER,
                        velocity: if i == 0 {
                            BEAT_ACCENT_VELOCITY
                        } else {
                            BEAT_VELOCITY
                        },
                    },
                    timestamp: i * beat,
                },
            );
            buffer.push(
                AbsMidiEvent {
                    message: TypedMidiMessage::NoteOff {
                        channel: CONTROL_CHANNEL_NUMBER,
                        key: BEAT_KEY_NUMBER,
                        velocity: 0,
                    },
                    timestamp: i * beat + 1,
                },
            );
            i = i + 1;
        }
        assert(buffer@ =~= metronome_events(self.measure));
        proof {
            lemma_metronome_span(self.measure);
        }
        Sample::new(&buffer, &self.measure)
    }

    /// `post` is `pre` after the recording was toggled.
    pub open spec fn recording_toggled(pre: &Self, post: &Self) -> bool {
        match pre.state {
            State::Recording => *post == (Looper { next_state: Some(State::Looping), ..*pre }),
            State::Looping => {
                &&& post.state == State::Recording
                &&& post.record_buffer@.len() == 0
                &&& post.next_state == pre.next_state
                &&& post.composition == pre.composition
                &&& post.note_tracker == pre.note_tracker
                &&& post.time_cursor == pre.time_cursor
                &&& post.amount_of_measures == pre.amount_of_measures
                &&& post.measure == pre.measure
            },
            State::Pause => *post == *pre,
        }
    }

    /// Starts or ends a recording. From looping, recording begins at once
    /// with an empty buffer. From recording, the return to looping is put
    /// off until the next measure line. In pause nothing happens.
    pub fn toggle_recording(&mut self)
        ensures
            Self::recording_toggled(old(self), final(self)),
    {
        match self.state {
            State::Recording => {
                self.next_state = Some(State::Looping);
            },
            State::Looping => {
                self.state = State::Recording;
                self.record_buffer.clear();
            },
            State::Pause => {},
        }
    }

    /// `post` is `pre` after the pause was toggled.
    pub open spec fn pause_toggled(pre: &Self, post: &Self) -> bool {
        &&& post.note_tracker.well_formed()
        &&& match pre.state {
            State::Looping => {
                &&& post.state == State::Pause
                &&& post.note_tracker.held() == Set::<(u8, u8)>::empty()
                &&& post.note_tracker.fed() == pre.note_tracker.fed()
            },
            State::Pause => {
                &&& post.state == State::Looping
                &&& post.note_tracker == pre.note_tracker
            },
            State::Recording => *post == *pre,
        }
        &&& post.next_state == pre.next_state
        &&& post.composition == pre.composition
        &&& post.record_buffer == pre.record_buffer
        &&& post.time_cursor == pre.time_cursor
        &&& post.amount_of_measures == pre.amount_of_measures
        &&& post.measure == pre.measure
    }

    /// Pauses or resumes. Entering pause silences every sounding note;
    /// resuming touches nothing but the state. While recording nothing
    /// happens.
    pub fn toggle_pause(&mut self)
        requires
            old(self).note_tracker.well_formed(),
        ensures
            Self::pause_toggled(old(self), final(self)),
    {
        match self.state {
            State::Looping => {
                self.state = State::Pause;
                self.note_tracker.close_opened_notes();
            },
            State::Pause => {
                self.state = State::Looping;
            },
            State::Recording => {},
        }
    }

    /// Moves the recording in progress so that it begins at 0.
    pub fn normalize_record_buffer(&mut self)
        ensures
            final(self).record_buffer@ == normalized(old(self).record_buffer@),
            final(self).state == old(self).state,
            final(self).next_state == old(self).next_state,
            final(self).composition == old(self).composition,
            final(self).note_tracker == old(self).note_tracker,
            final(self).time_cursor == old(self).time_cursor,
            final(self).amount_of_measures == old(self).amount_of_measures,
            final(self).measure == old(self).measure,
    {
        let moved = normalized_buffer(&self.record_buffer);
        self.record_buffer = moved;
    }

    /// `post` is `pre` after the latest recording was taken back.
    pub open spec fn undone(pre: &Self, post: &Self) -> bool {
        &&& post.well_formed()
        &&& if pre.state == State::Recording {
            &&& post.record_buffer@.len() == 0
            &&& post.composition == pre.composition
            &&& post.amount_of_measures == pre.amount_of_measures
            &&& post.note_tracker == pre.note_tracker
        } else if pre.composition@.len() > 1 {
            &&& post.composition@ == pre.composition@.drop_last()
            &&& post.amount_of_measures == lcm_all(amounts(post.composition@))
            &&& post.record_buffer == pre.record_buffer
            &&& post.note_tracker.held() == Set::<(u8, u8)>::empty()
            &&& post.note_tracker.fed() == pre.note_tracker.fed()
        } else {
            *post == *pre
        }
        &&& post.state == pre.state
        &&& post.next_state == pre.next_state
        &&& post.time_cursor == pre.time_cursor
        &&& post.measure == pre.measure
    }

    /// Takes back the latest recording. While recording, what has been
    /// played so far is dropped and the composition stays. Otherwise the
    /// newest layer leaves the composition, which is measured anew, and every
    /// sounding note is silenced; the last layer left never leaves.
    pub fn undo_last_recording(&mut self)
        requires
            old(self).well_formed(),
        ensures
            Self::undone(old(self), final(self)),
    {
        if let State::Recording = self.state {
            self.record_buffer.clear();
        } else {
            if self.composition.len() > 1 {
                proof {
                    let all = amounts(self.composition@);
                    assert forall|j: int| 0 <= j < all.len() implies all[j] > 0 by {
                        assert(self.composition@[j].well_formed());
                    }
                    lemma_lcm_all_prefix(all, all.len() - 1);
                    assert(all.take(all.len() - 1) =~= amounts(self.composition@.drop_last()));
                }
                self.composition.pop();
                self.amount_of_measures = composition_length(&self.composition);
                self.note_tracker.close_opened_notes();
            }
        }
    }

    /// The length in measures that the recording in progress would have as
    /// a layer.
    pub open spec fn pending_amount(&self) -> int {
        measures_needed(
            span_millis(normalized(self.record_buffer@)),
            self.measure.measure_millis(),
        )
    }

    /// The composition, extended by the recording in progress, would still
    /// have a length that fits in 32 bits.
    pub open spec fn commit_fits(&self) -> bool {
        lcm(self.amount_of_measures as nat, self.pending_amount() as nat) <= u32::MAX
    }

    /// `post` is `pre` after a measure line, as far as state, pending state,
    /// composition, record buffer and length go. With nothing pending these
    /// are unchanged. A pending state is taken; where it is looping, the
    /// recording, moved to begin at 0, has become the newest layer, the
    /// record buffer is empty, and the composition is as long as the least
    /// common multiple of its old length and that of the new layer.
    pub open spec fn bar_applied(pre: &Self, post: &Self) -> bool {
        match pre.next_state {
            None => {
                &&& post.state == pre.state
                &&& post.next_state == pre.next_state
                &&& post.composition == pre.composition
                &&& post.record_buffer == pre.record_buffer
                &&& post.amount_of_measures == pre.amount_of_measures
            },
            Some(State::Looping) => {
                &&& post.state == State::Looping
                &&& post.next_state == None::<State>
                &&& post.record_buffer@.len() == 0
                &&& post.composition@.len() == pre.composition@.len() + 1
                &&& post.composition@.drop_last() == pre.composition@
                &&& post.composition@.last().is_recording_of(
                    normalized(pre.record_buffer@),
                    pre.measure,
                )
                &&& post.composition@.last().amount_of_measures == pre.pending_amount()
                &&& post.amount_of_measures == lcm(
                    pre.amount_of_measures as nat,
                    pre.pending_amount() as nat,
                )
            },
            Some(state) => {
                &&& post.state == state
                &&& post.next_state == None::<State>
                &&& post.composition == pre.composition
                &&& post.record_buffer == pre.record_buffer
                &&& post.amount_of_measures == pre.amount_of_measures
            },
        }
    }

    /// The five fields that a measure line may change are the same in both.
    pub open spec fn same_arrangement(pre: &Self, post: &Self) -> bool {
        &&& post.state == pre.state
        &&& post.next_state == pre.next_state
        &&& post.composition == pre.composition
        &&& post.record_buffer == pre.record_buffer
        &&& post.amount_of_measures == pre.amount_of_measures
    }

    /// A measure line has been reached: a pending change of state takes
    /// place, and a recording that ends here joins the composition and
    /// leaves the record buffer. Where
    /// the longer composition would not fit, nothing changes at all and the
    /// operation is reported as invalid.
    pub fn on_measure_bar(&mut self) -> (r: Result<(), LooperError>)
        requires
            old(self).well_formed(),
        ensures
            final(self).well_formed(),
            r is Err <==> old(self).next_state == Some(State::Looping) && !old(self).commit_fits(),
            r is Err ==> r == Err::<(), LooperError>(LooperError::InvalidOperation) && *final(self)
                == *old(self),
            r is Ok ==> Self::bar_applied(old(self), final(self)),
            final(self).note_tracker == old(self).note_tracker,
            final(self).time_cursor == old(self).time_cursor,
            final(self).measure == old(self).measure,
    {
        match self.next_state {
            None => Ok(()),
            Some(State::Looping) => {
                let moved = normalized_buffer(&self.record_buffer);
                let sample = Sample::new(&moved, &self.measure);
                match checked_lcm(self.amount_of_measures, sample.amount_of_measures) {
                    None => Err(LooperError::InvalidOperation),
                    Some(length) => {
                        let ghost before = self.composition@;
                        self.next_state = None;
                        self.state = State::Looping;
                        self.record_buffer.clear();
                        self.amount_of_measures = length;
                        self.composition.push(sample);
                        proof {
                            let longer = self.composition@;
                            assert(longer.drop_last() =~= before);
                            assert(amounts(longer).drop_last() =~= amounts(before));
                            assert(amounts(longer).last() == longer.last().amount_of_measures);
                            assert forall|i: int| 0 <= i < longer.len() implies (
                            #[trigger] longer[i]).well_formed() by {
                                if i < before.len() {
                                    assert(before[i].well_formed());
                                }
                            }
                            lemma_lcm_exists(
                                lcm_all(amounts(before)),
                                amounts(longer).last(),
                            );
                        }
                        Ok(())
                    },
                }
            },
            Some(state) => {
                self.next_state = None;
                self.state = state;
                Ok(())
            },
        }
    }

    /// Whether the cursor passes a measure line when it moves on by
    /// `delta_time`.
    pub open spec fn crosses_bar(&self, delta_time: u32) -> bool {
        self.time_cursor as int / self.measure.measure_millis() < (self.time_cursor + delta_time)
            / self.measure.measure_millis()
    }

    /// Whether a measure line reached now would fail to take the recording
    /// into the composition.
    pub open spec fn commit_overflows(&self) -> bool {
        self.next_state == Some(State::Looping) && !self.commit_fits()
    }

    /// What the composition of `self` plays while the cursor of `pre` moves
    /// on by `delta_time`: every quant after the old cursor's, up to and
    /// including the new cursor's.
    pub open spec fn due_over(&self, pre: &Self, delta_time: u32) -> Seq<TypedMidiMessage> {
        composition_due(
            self.composition@,
            pre.measure.quant_of(pre.time_cursor as int),
            pre.measure.quant_of(pre.time_cursor + delta_time),
        )
    }

    /// `post` is `pre` after the cursor was asked to move on by `delta_time`,
    /// with result `r`.
    pub open spec fn advanced(
        pre: &Self,
        post: &Self,
        delta_time: u32,
        r: Result<(), LooperError>,
    ) -> bool {
        let invalid = Err::<(), LooperError>(LooperError::InvalidOperation);
        &&& post.well_formed()
        &&& post.measure == pre.measure
        &&& pre.state == State::Pause ==> r is Ok && *post == *pre
        &&& pre.state != State::Pause ==> {
            &&& r == invalid <==> (pre.time_cursor + delta_time > u32::MAX || (pre.crosses_bar(
                delta_time,
            ) && pre.commit_overflows()))
            &&& r == invalid ==> *post == *pre
            &&& r != invalid ==> (if pre.crosses_bar(delta_time) {
                Self::bar_applied(pre, post)
            } else {
                Self::same_arrangement(pre, post)
            })
            &&& r != invalid ==> post.time_cursor == pre.time_cursor + delta_time
            &&& r != invalid ==> delivered(
                &pre.note_tracker,
                &post.note_tracker,
                post.due_over(pre, delta_time),
                r is Ok,
            )
        }
    }

    /// Moves the cursor on by `delta_time` milliseconds. In pause nothing
    /// happens. Otherwise a measure line that the cursor passes is handled
    /// first; then every layer, in turn, plays each quant after the old
    /// cursor's up to and including the new cursor's, in rising order; and
    /// the cursor takes its new place. A failed delivery ends the playing
    /// and is reported, but time has passed all the same: the cursor has
    /// moved on, and what was left unplayed is not played later. A cursor
    /// that would not fit in 32 bits, or a measure line that cannot take the
    /// recording in, is reported as invalid and changes nothing.
    pub fn update(&mut self, delta_time: u32) -> (r: Result<(), LooperError>)
        requires
            old(self).well_formed(),
        ensures
            Self::advanced(old(self), final(self), delta_time, r),
    {
        if let State::Pause = self.state {
            return Ok(());
        }
        if delta_time > u32::MAX - self.time_cursor {
            return Err(LooperError::InvalidOperation);
        }
        proof {
            self.measure.lemma_quant_within_measure();
        }
        let current_measure_bar = self.measure.timestamp_to_measure(self.time_cursor);
        let current_quant = self.measure.timestamp_to_quant(self.time_cursor);
        let next_time_cursor: u32 = self.time_cursor + delta_time;
        let next_measure_bar = self.measure.timestamp_to_measure(next_time_cursor);
        let next_quant = self.measure.timestamp_to_quant(next_time_cursor);
        if current_measure_bar < next_measure_bar {
            match self.on_measure_bar() {
                Ok(()) => {},
                Err(e) => {
                    return Err(e);
                },
            }
        }
        let played = replay_range(
            &self.composition,
            current_quant,
            next_quant,
            &mut self.note_tracker,
        );
        self.time_cursor = next_time_cursor;
        match played {
            Ok(()) => Ok(()),
            Err(e) => Err(LooperError::Sink(e)),
        }
    }

    /// The measure of the looper at another tempo.
    pub open spec fn retimed(&self, tempo_bpm: u32) -> Measure {
        Measure {
            tempo_bpm,
            measure_size_bpm: self.measure.measure_size_bpm,
            quantation_level: self.measure.quantation_level,
        }
    }

    /// Where the cursor stands after a change to `tempo_bpm`: its place
    /// within the composition's cycle, carried over in proportion.
    pub open spec fn retimed_cursor(&self, tempo_bpm: u32) -> int {
        self.measure.scaled_cursor(
            &self.retimed(tempo_bpm),
            self.amount_of_measures as int,
            self.time_cursor as int % (self.amount_of_measures * self.measure.measure_millis()),
        )
    }

    /// `post` is `pre` after a change to `tempo_bpm` with result `r`.
    pub open spec fn tempo_updated(
        pre: &Self,
        post: &Self,
        tempo_bpm: u32,
        r: Result<(), LooperError>,
    ) -> bool {
        &&& post.well_formed()
        &&& r is Err <==> !pre.retimed(tempo_bpm).playable() || pre.retimed_cursor(tempo_bpm)
            > u32::MAX
        &&& r is Err ==> r == Err::<(), LooperError>(LooperError::InvalidOperation) && *post
            == *pre
        &&& r is Ok ==> {
            &&& post.measure == pre.retimed(tempo_bpm)
            &&& post.time_cursor == pre.retimed_cursor(tempo_bpm)
            &&& post.composition@.len() == pre.composition@.len()
            &&& forall|i: int|
                0 <= i < pre.composition@.len() ==> {
                    &&& (#[trigger] post.composition@[i]).events == pre.composition@[i].events
                    &&& post.composition@[i].amount_of_measures
                        == pre.composition@[i].amount_of_measures
                    &&& post.composition@[i].measure == pre.retimed(tempo_bpm)
                }
            &&& post.state == pre.state
            &&& post.next_state == pre.next_state
            &&& post.record_buffer == pre.record_buffer
            &&& post.amount_of_measures == pre.amount_of_measures
            &&& post.note_tracker == pre.note_tracker
        }
    }

    /// Changes the tempo. The cursor keeps its place within the cycle of the
    /// composition, and every layer keeps its messages at their quants. A
    /// tempo that gives no usable grid, or a cursor that would not fit in 32
    /// bits, is reported as invalid and changes nothing.
    pub fn update_tempo_bpm(&mut self, tempo_bpm: u32) -> (r: Result<(), LooperError>)
        requires
            old(self).well_formed(),
        ensures
            Self::tempo_updated(old(self), final(self), tempo_bpm, r),
    {
        let new_measure = Measure {
            tempo_bpm,
            measure_size_bpm: self.measure.measure_size_bpm,
            quantation_level: self.measure.quantation_level,
        };
        if !new_measure.is_playable() {
            return Err(LooperError::InvalidOperation);
        }
        proof {
            self.measure.lemma_quant_within_measure();
        }
        let size: u32 = self.measure.measure_size_millis();
        assert(1 <= self.amount_of_measures * size <= 0xffff_ffff * 0xffff_ffff)
            by (nonlinear_arith)
            requires
                1 <= self.amount_of_measures <= 0xffff_ffff,
                1 <= size <= 0xffff_ffff,
        ;
        let cycle: u64 = (self.amount_of_measures as u64) * (size as u64);
        proof {
            lemma_mod_decreases(self.time_cursor as nat, cycle as nat);
        }
        let phase: u32 = ((self.time_cursor as u64) % cycle) as u32;
        let cursor: u32 = match self.measure.scale_time_cursor(
            &new_measure,
            self.amount_of_measures,
            phase,
        ) {
            Some(cursor) => cursor,
            None => {
                return Err(LooperError::InvalidOperation);
            },
        };
        let mut layer: usize = 0;
        while layer < self.composition.len()
            invariant
                old(self).well_formed(),
                new_measure.playable(),
                0 <= layer <= self.composition@.len(),
                self.composition@.len() == old(self).composition@.len(),
                forall|i: int|
                    0 <= i < layer ==> {
                        &&& (#[trigger] self.composition@[i]).events == old(
                            self,
                        ).composition@[i].events
                        &&& self.composition@[i].amount_of_measures == old(
                            self,
                        ).composition@[i].amount_of_measures
                        &&& self.composition@[i].measure == new_measure
                    },
                forall|i: int|
                    layer <= i < self.composition@.len() ==> #[trigger] self.composition@[i] == old(
                        self,
                    ).composition@[i],
                self.state == old(self).state,
                self.next_state == old(self).next_state,
                self.record_buffer == old(self).record_buffer,
                self.time_cursor == old(self).time_cursor,
                self.amount_of_measures == old(self).amount_of_measures,
                self.note_tracker == old(self).note_tracker,
                self.measure == old(self).measure,
            decreases self.composition@.len() - layer,
        {
            assert(old(self).composition@[layer as int].well_formed());
            self.composition[layer].update_measure(&new_measure);
            layer = layer + 1;
        }
        self.measure = new_measure;
        self.time_cursor = cursor;
        proof {
            assert(amounts(self.composition@) =~= amounts(old(self).composition@));
            assert forall|i: int| 0 <= i < self.composition@.len() implies (
            #[trigger] self.composition@[i]).well_formed() by {
                assert(old(self).composition@[i].well_formed());
            }
        }
        Ok(())
    }

    /// `post` is `pre` after the event was taken in with result `r`.
    pub open spec fn event_taken(
        pre: &Self,
        post: &Self,
        event: AbsMidiEvent,
        r: Result<(), LooperError>,
    ) -> bool {
        &&& post.note_tracker.well_formed()
        &&& post.record_buffer@ == if pre.state == State::Recording {
            pre.record_buffer@.push(event)
        } else {
            pre.record_buffer@
        }
        &&& post.note_tracker.held() == held_after(pre.note_tracker.held(), event.message)
        &&& r is Ok ==> post.note_tracker.fed() == pre.note_tracker.fed().push(event.message)
        &&& r is Err ==> (r matches Err(LooperError::Sink(_)))
        &&& r is Err ==> post.note_tracker.fed() == pre.note_tracker.fed()
        &&& post.state == pre.state
        &&& post.next_state == pre.next_state
        &&& post.composition == pre.composition
        &&& post.time_cursor == pre.time_cursor
        &&& post.amount_of_measures == pre.amount_of_measures
        &&& post.measure == pre.measure
    }

    /// Takes in one played event: it is recorded while recording, and sent
    /// on to the note tracker in every state.
    pub fn on_midi_event(&mut self, event: &AbsMidiEvent) -> (r: Result<(), LooperError>)
        requires
            old(self).note_tracker.well_formed(),
        ensures
            Self::event_taken(old(self), final(self), *event, r),
    {
        if let State::Recording = self.state {
            self.record_buffer.push(*event);
        }
        match self.note_tracker.feed(event.message) {
            Ok(()) => Ok(()),
            Err(e) => Err(LooperError::Sink(e)),
        }
    }
}

/// A recording that is not empty begins at 0 once it is normalized, and its
/// first event stands at quant 0 of the layer made from it.
pub proof fn lemma_normalized_starts_at_zero(buffer: Seq<AbsMidiEvent>, measure: Measure)
    requires
        buffer.len() > 0,
        measure.playable(),
    ensures
        normalized(buffer).len() == buffer.len(),
        normalized(buffer)[0].timestamp == 0,
        normalized(buffer)[0].message == buffer[0].message,
        measure.quant_of(normalized(buffer)[0].timestamp as int) == 0,
{
    let size = measure.quant_millis();
    assert((0 + size / 2) / size == 0) by (nonlinear_arith)
        requires
            size >= 1,
    ;
}

/// A measure line that ends a recording adds exactly one layer, the
/// recording moved to begin at 0, so that its first event stands at quant 0;
/// it empties the record buffer, and makes the composition as long as the
/// least common multiple of its old length and the new layer's.
pub proof fn lemma_commit_adds_one_layer<T: MidiNoteTracker>(pre: Looper<T>, post: Looper<T>)
    requires
        pre.well_formed(),
        pre.next_state == Some(State::Looping),
        Looper::bar_applied(&pre, &post),
    ensures
        post.state == State::Looping,
        post.composition@.len() == pre.composition@.len() + 1,
        post.composition@.drop_last() == pre.composition@,
        post.composition@.last().events@ == quantized(normalized(pre.record_buffer@), pre.measure),
        post.composition@.last().events@.len() == pre.record_buffer@.len(),
        pre.record_buffer@.len() > 0 ==> post.composition@.last().events@[0] == (QuantMidiEvent {
            quant: Quant(0),
            message: pre.record_buffer@[0].message,
        }),
        post.record_buffer@.len() == 0,
        post.amount_of_measures == lcm(
            pre.amount_of_measures as nat,
            post.composition@.last().amount_of_measures as nat,
        ),
{
    if pre.record_buffer@.len() > 0 {
        lemma_normalized_starts_at_zero(pre.record_buffer@, pre.measure);
    }
}

/// A recording that is ended commits at the next measure line that the
/// cursor passes, unless that is reported as invalid: exactly one layer is
/// added, made of the recording moved to begin at 0, the record buffer is
/// left empty, and the composition becomes as long as the least common
/// multiple of its old length and the new layer's.
pub proof fn lemma_recording_commits_at_measure_line<T: MidiNoteTracker>(
    recording: Looper<T>,
    pending: Looper<T>,
    post: Looper<T>,
    delta_time: u32,
    r: Result<(), LooperError>,
)
    requires
        recording.well_formed(),
        recording.state == State::Recording,
        Looper::recording_toggled(&recording, &pending),
        Looper::advanced(&pending, &post, delta_time, r),
        pending.crosses_bar(delta_time),
        r != Err::<(), LooperError>(LooperError::InvalidOperation),
    ensures
        pending.state == State::Recording,
        post.state == State::Looping,
        post.composition@.len() == recording.composition@.len() + 1,
        post.composition@.drop_last() == recording.composition@,
        post.composition@.last().events@ == quantized(
            normalized(recording.record_buffer@),
            recording.measure,
        ),
        recording.record_buffer@.len() > 0 ==> post.composition@.last().events@[0] == (
        QuantMidiEvent { quant: Quant(0), message: recording.record_buffer@[0].message }),
        post.record_buffer@.len() == 0,
        post.amount_of_measures == lcm(
            recording.amount_of_measures as nat,
            post.composition@.last().amount_of_measures as nat,
        ),
{
    lemma_commit_adds_one_layer(pending, post);
}

/// From looping into pause and back, whatever time passes in between, no
/// note is left sounding and nothing has been played.
pub proof fn lemma_pause_and_resume_leave_no_note<T: MidiNoteTracker>(
    looping: Looper<T>,
    paused: Looper<T>,
    later: Looper<T>,
    resumed: Looper<T>,
    delta_time: u32,
    r: Result<(), LooperError>,
)
    requires
        looping.state == State::Looping,
        Looper::pause_toggled(&looping, &paused),
        Looper::advanced(&paused, &later, delta_time, r),
        Looper::pause_toggled(&later, &resumed),
    ensures
        paused.state == State::Pause,
        paused.note_tracker.held() == Set::<(u8, u8)>::empty(),
        r is Ok,
        later == paused,
        resumed.state == State::Looping,
        resumed.note_tracker.held() == Set::<(u8, u8)>::empty(),
        resumed.note_tracker.fed() == looping.note_tracker.fed(),
{
}

/// A reset leaves one layer and a composition one measure long.
pub proof fn lemma_reset_leaves_one_layer<T: MidiNoteTracker>(pre: Looper<T>, post: Looper<T>)
    requires
        Looper::was_reset(&pre, &post),
    ensures
        post.composition@.len() == 1,
        post.amount_of_measures == 1,
        post.state == State::Looping,
{
}

/// Taking back a recording never leaves the composition empty, and with a
/// single layer, outside a recording, it changes nothing.
pub proof fn lemma_undo_keeps_the_last_layer<T: MidiNoteTracker>(pre: Looper<T>, post: Looper<T>)
    requires
        pre.well_formed(),
        Looper::undone(&pre, &post),
    ensures
        post.composition@.len() >= 1,
        pre.state != State::Recording && pre.composition@.len() == 1 ==> post == pre,
{
}

/// The last click of the metronome falls within the first measure.
pub proof fn lemma_metronome_span(measure: Measure)
    requires
        measure.playable(),
    ensures
        measures_needed(span_millis(metronome_events(measure)), measure.measure_millis()) == 1,
{
    measure.lemma_quant_within_measure();
    lemma_metronome_span_prefix(measure, 2 * measure.measure_size_bpm as nat);
    assert(metronome_events(measure).take(2 * measure.measure_size_bpm as int)
        =~= metronome_events(measure));
    let span = span_millis(metronome_events(measure));
    let size = measure.measure_millis();
    if span > 0 {
        assert((span - 1) / size == 0) by (nonlinear_arith)
            requires
                1 <= span <= size,
        ;
    }
}

/// No click among the first `n` events of the metronome comes after the end
/// of the measure.
proof fn lemma_metronome_span_prefix(measure: Measure, n: nat)
    requires
        measure.playable(),
        n <= 2 * measure.measure_size_bpm,
        1 <= measure.measure_millis(),
    ensures
        0 <= span_millis(metronome_events(measure).take(n as int)) <= measure.measure_millis(),
    decreases n,
{
    let events = metronome_events(measure).take(n as int);
    if n > 0 {
        lemma_metronome_span_prefix(measure, (n - 1) as nat);
        assert(events.drop_last() =~= metronome_events(measure).take(n - 1));
        let j = n - 1;
        let beat = measure.beat_millis();
        let beats = measure.measure_size_bpm as int;
        assert((j / 2) * beat + 1 <= beat * beats && 0 <= (j / 2) * beat) by (nonlinear_arith)
            requires
                0 <= j / 2 < beats,
                beat >= 0,
                1 <= beat * beats,
        ;
    }
}

} // verus!
