use vstd::prelude::*;

verus! {

/// A MIDI message, decoded as far as the looper needs.
#[derive(Clone, Copy, PartialEq, Eq, Debug, Structural)]
pub enum TypedMidiMessage {
    NoteOn { channel: u8, key: u8, velocity: u8 },
    NoteOff { channel: u8, key: u8, velocity: u8 },
    ControlChange { channel: u8, number: u8, value: u8 },
    Unknown { status: u8, data1: u8, data2: u8 },
}

/// The status of a note-off on channel 0.
pub const NOTE_OFF_STATUS: u8 = 0x80;

/// The status of a note-on on channel 0.
pub const NOTE_ON_STATUS: u8 = 0x90;

/// The status of a control change on channel 0.
pub const CONTROL_CHANGE_STATUS: u8 = 0xB0;

/// The message that three bytes off the wire stand for. The upper half of
/// the status byte tells the kind and the lower half the channel; a kind
/// that the looper has no use for is kept as it came.
pub open spec fn decoded(status: u8, data1: u8, data2: u8) -> TypedMidiMessage {
    if status & 0xF0 == NOTE_ON_STATUS {
        TypedMidiMessage::NoteOn { channel: status & 0x0F, key: data1, velocity: data2 }
    } else if status & 0xF0 == NOTE_OFF_STATUS {
        TypedMidiMessage::NoteOff { channel: status & 0x0F, key: data1, velocity: data2 }
    } else if status & 0xF0 == CONTROL_CHANGE_STATUS {
        TypedMidiMessage::ControlChange { channel: status & 0x0F, number: data1, value: data2 }
    } else {
        TypedMidiMessage::Unknown { status, data1, data2 }
    }
}

/// The three bytes that go on the wire for a message. Of a channel only the
/// lower half is sent.
pub open spec fn encoded(message: TypedMidiMessage) -> (u8, u8, u8) {
    match message {
        TypedMidiMessage::NoteOn { channel, key, velocity } => (
            NOTE_ON_STATUS | (channel & 0x0F),
            key,
            velocity,
        ),
        TypedMidiMessage::NoteOff { channel, key, velocity } => (
            NOTE_OFF_STATUS | (channel & 0x0F),
            key,
            velocity,
        ),
        TypedMidiMessage::ControlChange { channel, number, value } => (
            CONTROL_CHANGE_STATUS | (channel & 0x0F),
            number,
            value,
        ),
        TypedMidiMessage::Unknown { status, data1, data2 } => (status, data1, data2),
    }
}

impl TypedMidiMessage {
    /// Reads a message from its three bytes.
    pub fn from_raw(status: u8, data1: u8, data2: u8) -> (r: TypedMidiMessage)
        ensures
            r == decoded(status, data1, data2),
    {
        if status & 0xF0 == NOTE_ON_STATUS {
            TypedMidiMessage::NoteOn { channel: status & 0x0F, key: data1, velocity: data2 }
        } else if status & 0xF0 == NOTE_OFF_STATUS {
            TypedMidiMessage::NoteOff { channel: status & 0x0F, key: data1, velocity: data2 }
        } else if status & 0xF0 == CONTROL_CHANGE_STATUS {
            TypedMidiMessage::ControlChange { channel: status & 0x0F, number: data1, value: data2 }
        } else {
            TypedMidiMessage::Unknown { status, data1, data2 }
        }
    }

    /// The three bytes of the message.
    pub fn to_raw(&self) -> (r: (u8, u8, u8))
        ensures
            r == encoded(*self),
    {
        match *self {
            TypedMidiMessage::NoteOn { channel, key, velocity } => (
                NOTE_ON_STATUS | (channel & 0x0F),
                key,
                velocity,
            ),
            TypedMidiMessage::NoteOff { channel, key, velocity } => (
                NOTE_OFF_STATUS | (channel & 0x0F),
                key,
                velocity,
            ),
            TypedMidiMessage::ControlChange { channel, number, value } => (
                CONTROL_CHANGE_STATUS | (channel & 0x0F),
                number,
                value,
            ),
            TypedMidiMessage::Unknown { status, data1, data2 } => (status, data1, data2),
        }
    }
}

/// A note or a control change on one of the sixteen channels comes back
/// from its three bytes as it was.
pub proof fn lemma_decoded_encoded(message: TypedMidiMessage)
    requires
        match message {
            TypedMidiMessage::NoteOn { channel, .. } => channel < 16,
            TypedMidiMessage::NoteOff { channel, .. } => channel < 16,
            TypedMidiMessage::ControlChange { channel, .. } => channel < 16,
            TypedMidiMessage::Unknown { .. } => false,
        },
    ensures
        decoded(encoded(message).0, encoded(message).1, encoded(message).2) == message,
{
    let channel: u8 = match message {
        TypedMidiMessage::NoteOn { channel, .. } => channel,
        TypedMidiMessage::NoteOff { channel, .. } => channel,
        TypedMidiMessage::ControlChange { channel, .. } => channel,
        TypedMidiMessage::Unknown { status, .. } => status,
    };
    assert((0x90u8 | (channel & 0x0F)) & 0xF0 == 0x90u8 && (0x90u8 | (channel & 0x0F)) & 0x0F
        == channel) by (bit_vector)
        requires
            channel < 16,
    ;
    assert((0x80u8 | (channel & 0x0F)) & 0xF0 == 0x80u8 && (0x80u8 | (channel & 0x0F)) & 0x0F
        == channel) by (bit_vector)
        requires
            channel < 16,
    ;
    assert((0xB0u8 | (channel & 0x0F)) & 0xF0 == 0xB0u8 && (0xB0u8 | (channel & 0x0F)) & 0x0F
        == channel) by (bit_vector)
        requires
            channel < 16,
    ;
}

/// A message with the time, in milliseconds, at which it arrived.
#[derive(Clone, Copy, PartialEq, Eq, Debug, Structural)]
pub struct AbsMidiEvent {
    pub message: TypedMidiMessage,
    pub timestamp: u32,
}

/// A sink could not deliver a message; `code` is the sink's own error number.
#[derive(Clone, Copy, PartialEq, Eq, Debug, Structural)]
pub struct SinkError {
    pub code: i32,
}

/// The number of MIDI channels.
pub const AMOUNT_OF_MIDI_CHANNELS: usize = 16;

/// The number of keys on one MIDI channel.
pub const AMOUNT_OF_MIDI_KEYS: usize = 128;

/// A channel and a key that MIDI knows.
pub open spec fn is_note(channel: u8, key: u8) -> bool {
    channel < AMOUNT_OF_MIDI_CHANNELS && key < AMOUNT_OF_MIDI_KEYS
}

/// The notes held after a message, given the notes held before it: a note-on
/// adds its (channel, key), a note-off removes it, anything else changes
/// nothing, and so does a message whose channel or key MIDI does not know.
pub open spec fn held_after(held: Set<(u8, u8)>, message: TypedMidiMessage) -> Set<(u8, u8)> {
    match message {
        TypedMidiMessage::NoteOn { channel, key, .. } => if is_note(channel, key) {
            held.insert((channel, key))
        } else {
            held
        },
        TypedMidiMessage::NoteOff { channel, key, .. } => if is_note(channel, key) {
            held.remove((channel, key))
        } else {
            held
        },
        _ => held,
    }
}

/// Where the looper sends its messages. A tracker passes each message on
/// and keeps account of the notes that are sounding, so that it can silence
/// them on demand.
pub trait MidiNoteTracker {
    /// What the tracker needs to hold of itself in order to work.
    spec fn well_formed(&self) -> bool;

    /// Every message delivered so far, oldest first.
    spec fn fed(&self) -> Seq<TypedMidiMessage>;

    /// The (channel, key) pairs that currently sound.
    spec fn held(&self) -> Set<(u8, u8)>;

    /// Takes account of the message's note and then delivers the message.
    /// The note is marked whether or not the delivery succeeds; only a
    /// delivery that succeeds joins the record of delivered messages.
    fn feed(&mut self, message: TypedMidiMessage) -> (r: Result<(), SinkError>)
        requires
            old(self).well_formed(),
        ensures
            final(self).well_formed(),
            final(self).held() == held_after(old(self).held(), message),
            r is Ok ==> final(self).fed() == old(self).fed().push(message),
            r is Err ==> final(self).fed() == old(self).fed(),
    ;

    /// Silences every sounding note. This is not a delivery: the record of
    /// delivered messages stays as it is.
    fn close_opened_notes(&mut self)
        requires
            old(self).well_formed(),
        ensures
            final(self).well_formed(),
            final(self).held() == Set::<(u8, u8)>::empty(),
            final(self).fed() == old(self).fed(),
    ;
}

/// The notes held after a run of messages, taken in order.
pub open spec fn held_after_all(held: Set<(u8, u8)>, messages: Seq<TypedMidiMessage>) -> Set<
    (u8, u8),
>
    decreases messages.len(),
{
    if messages.len() == 0 {
        held
    } else {
        held_after(held_after_all(held, messages.drop_last()), messages.last())
    }
}

/// Taking a run of messages in two parts leaves the same notes held as
/// taking it in one.
pub proof fn lemma_held_after_all_in_parts(
    held: Set<(u8, u8)>,
    first: Seq<TypedMidiMessage>,
    second: Seq<TypedMidiMessage>,
)
    ensures
        held_after_all(held, first + second) == held_after_all(
            held_after_all(held, first),
            second,
        ),
    decreases second.len(),
{
    if second.len() == 0 {
        assert(first + second =~= first);
    } else {
        lemma_held_after_all_in_parts(held, first, second.drop_last());
        assert((first + second).drop_last() =~= first + second.drop_last());
        assert((first + second).last() == second.last());
    }
}

/// `post` is the sink `pre` after `messages` were to be delivered in order.
/// Where that went well, all of them have been delivered. Where it did not,
/// those before the one that failed have been delivered, and no other; the
/// note of the one that failed has been taken account of all the same.
pub open spec fn delivered<T: MidiNoteTracker>(
    pre: &T,
    post: &T,
    messages: Seq<TypedMidiMessage>,
    ok: bool,
) -> bool {
    if ok {
        &&& post.fed() == pre.fed() + messages
        &&& post.held() == held_after_all(pre.held(), messages)
    } else {
        exists|n: int|
            0 <= n < messages.len() && post.fed() == pre.fed() + #[trigger] messages.take(n)
                && post.held() == held_after_all(pre.held(), messages.take(n + 1))
    }
}

/// Delivers `messages` in order and stops at the first failure, which it
/// returns. On success the sink has received all of them; on failure it has
/// received those before the one that failed, and no other, and has taken
/// account of the note of the one that failed.
pub fn feed_all<T: MidiNoteTracker>(sink: &mut T, messages: &Vec<TypedMidiMessage>) -> (r: Result<
    (),
    SinkError,
>)
    requires
        old(sink).well_formed(),
    ensures
        final(sink).well_formed(),
        delivered(old(sink), final(sink), messages@, r is Ok),
{
    let mut i: usize = 0;
    assert(messages@.take(0) =~= Seq::empty());
    assert(old(sink).fed() + messages@.take(0) =~= old(sink).fed());
    while i < messages.len()
        invariant
            0 <= i <= messages@.len(),
            sink.well_formed(),
            sink.fed() == old(sink).fed() + messages@.take(i as int),
            sink.held() == held_after_all(old(sink).held(), messages@.take(i as int)),
        decreases messages@.len() - i,
    {
        let ghost before = sink.fed();
        let message = messages[i];
        proof {
            assert(messages@.take(i + 1).drop_last() =~= messages@.take(i as int));
            assert(messages@.take(i + 1).last() == message);
        }
        match sink.feed(message) {
            Ok(()) => {},
            Err(e) => {
                return Err(e);
            },
        }
        proof {
            assert(before.push(message) =~= old(sink).fed() + messages@.take(i + 1));
        }
        i = i + 1;
    }
    assert(messages@.take(i as int) =~= messages@);
    Ok(())
}

/// A tracker that delivers nowhere and never fails.
pub struct DummyMidiNoteTracker {
    fed: Ghost<Seq<TypedMidiMessage>>,
    held: Ghost<Set<(u8, u8)>>,
}

impl DummyMidiNoteTracker {
    pub fn new() -> (r: DummyMidiNoteTracker)
        ensures
            r.well_formed(),
            r.fed() == Seq::<TypedMidiMessage>::empty(),
            r.held() == Set::<(u8, u8)>::empty(),
    {
        DummyMidiNoteTracker { fed: Ghost(Seq::empty()), held: Ghost(Set::empty()) }
    }
}

impl MidiNoteTracker for DummyMidiNoteTracker {
    open spec fn well_formed(&self) -> bool {
        true
    }

    closed spec fn fed(&self) -> Seq<TypedMidiMessage> {
        self.fed@
    }

    closed spec fn held(&self) -> Set<(u8, u8)> {
        self.held@
    }

    fn feed(&mut self, message: TypedMidiMessage) -> (r: Result<(), SinkError>)
        ensures
            r is Ok,
    {
        self.fed = Ghost(self.fed@.push(message));
        self.held = Ghost(held_after(self.held@, message));
        Ok(())
    }

    fn close_opened_notes(&mut self) {
        self.held = Ghost(Set::empty());
    }
}

/// The error number of a delivery that found the outbox full.
pub const OUTBOX_FULL: i32 = 1;

/// The index of a note in a grid of channels by keys, channel by channel.
pub open spec fn grid_index(channel: u8, key: u8) -> int {
    channel * AMOUNT_OF_MIDI_KEYS + key
}

/// The note-offs that silence the notes marked among the first `n` places of
/// a grid, in the order of the grid.
pub open spec fn closing(notes: Seq<bool>, n: int) -> Seq<TypedMidiMessage>
    decreases n,
{
    if n <= 0 {
        Seq::empty()
    } else if notes[n - 1] {
        closing(notes, n - 1).push(
            TypedMidiMessage::NoteOff {
                channel: ((n - 1) / AMOUNT_OF_MIDI_KEYS as int) as u8,
                key: ((n - 1) % AMOUNT_OF_MIDI_KEYS as int) as u8,
                velocity: 0,
            },
        )
    } else {
        closing(notes, n - 1)
    }
}

/// A tracker that keeps what it is to send in an outbox, for a driver to
/// carry to the instrument, and marks the sounding notes on a grid.
pub struct RecordingNoteTracker {
    /// The messages to send, oldest first: those delivered, and the
    /// note-offs that silenced notes.
    pub outbox: Vec<TypedMidiMessage>,
    /// One mark for each channel and key, channel by channel.
    pub notes: Vec<bool>,
    /// How many messages the outbox takes before deliveries fail.
    pub limit: usize,
    /// Every message delivered so far.
    pub fed: Ghost<Seq<TypedMidiMessage>>,
}

impl RecordingNoteTracker {
    /// A tracker with an empty outbox and no note sounding, whose outbox
    /// takes `limit` messages.
    pub fn new(limit: usize) -> (r: RecordingNoteTracker)
        ensures
            r.well_formed(),
            r.limit == limit,
            r.outbox@.len() == 0,
            r.fed() == Seq::<TypedMidiMessage>::empty(),
            r.held() == Set::<(u8, u8)>::empty(),
    {
        let mut notes: Vec<bool> = Vec::new();
        let mut i: usize = 0;
        while i < AMOUNT_OF_MIDI_CHANNELS * AMOUNT_OF_MIDI_KEYS
            invariant
                0 <= i <= AMOUNT_OF_MIDI_CHANNELS * AMOUNT_OF_MIDI_KEYS,
                notes@.len() == i,
                forall|j: int| 0 <= j < i ==> !notes@[j],
            decreases AMOUNT_OF_MIDI_CHANNELS * AMOUNT_OF_MIDI_KEYS - i,
        {
            notes.push(false);
            i = i + 1;
        }
        let r = RecordingNoteTracker { outbox: Vec::new(), notes, limit, fed: Ghost(Seq::empty()) };
        assert(r.held() =~= Set::<(u8, u8)>::empty());
        r
    }

    /// Hands over the outbox and leaves an empty one. Nothing else changes.
    pub fn take_outbox(&mut self) -> (r: Vec<TypedMidiMessage>)
        ensures
            r@ == old(self).outbox@,
            final(self).outbox@.len() == 0,
            final(self).notes == old(self).notes,
            final(self).limit == old(self).limit,
            final(self).fed() == old(self).fed(),
            final(self).held() == old(self).held(),
            final(self).well_formed() == old(self).well_formed(),
    {
        let mut taken: Vec<TypedMidiMessage> = Vec::new();
        std::mem::swap(&mut taken, &mut self.outbox);
        taken
    }
}

impl MidiNoteTracker for RecordingNoteTracker {
    open spec fn well_formed(&self) -> bool {
        self.notes@.len() == AMOUNT_OF_MIDI_CHANNELS * AMOUNT_OF_MIDI_KEYS
    }

    open spec fn fed(&self) -> Seq<TypedMidiMessage> {
        self.fed@
    }

    open spec fn held(&self) -> Set<(u8, u8)> {
        Set::new(|note: (u8, u8)| is_note(note.0, note.1) && self.notes@[grid_index(note.0, note.1)])
    }

    /// Marks or unmarks the message's note and then puts the message in the
    /// outbox. With a full outbox the delivery fails and the outbox stays as
    /// it is; the note has been marked all the same.
    fn feed(&mut self, message: TypedMidiMessage) -> (r: Result<(), SinkError>)
        ensures
            r is Ok <==> old(self).outbox@.len() < old(self).limit,
            r is Ok ==> final(self).outbox@ == old(self).outbox@.push(message),
            r is Err ==> r == Err::<(), SinkError>(SinkError { code: OUTBOX_FULL }),
            r is Err ==> final(self).outbox == old(self).outbox,
            final(self).limit == old(self).limit,
    {
        match message {
            TypedMidiMessage::NoteOn { channel, key, .. } => {
                if (channel as usize) < AMOUNT_OF_MIDI_CHANNELS && (key as usize)
                    < AMOUNT_OF_MIDI_KEYS {
                    self.notes.set((channel as usize) * AMOUNT_OF_MIDI_KEYS + (key as usize), true);
                }
            },
            TypedMidiMessage::NoteOff { channel, key, .. } => {
                if (channel as usize) < AMOUNT_OF_MIDI_CHANNELS && (key as usize)
                    < AMOUNT_OF_MIDI_KEYS {
                    self.notes.set(
                        (channel as usize) * AMOUNT_OF_MIDI_KEYS + (key as usize),
                        false,
                    );
                }
            },
            _ => {},
        }
        assert(self.held() =~= held_after(old(self).held(), message));
        if self.outbox.len() >= self.limit {
            return Err(SinkError { code: OUTBOX_FULL });
        }
        self.outbox.push(message);
        self.fed = Ghost(self.fed@.push(message));
        Ok(())
    }

    /// Puts a note-off for every marked note in the outbox, in the order of
    /// the grid, and clears the grid.
    fn close_opened_notes(&mut self)
        ensures
            final(self).outbox@ == old(self).outbox@ + closing(
                old(self).notes@,
                AMOUNT_OF_MIDI_CHANNELS * AMOUNT_OF_MIDI_KEYS,
            ),
            final(self).limit == old(self).limit,
    {
        let mut i: usize = 0;
        assert(self.outbox@ + closing(self.notes@, 0) =~= self.outbox@);
        while i < AMOUNT_OF_MIDI_CHANNELS * AMOUNT_OF_MIDI_KEYS
            invariant
                0 <= i <= AMOUNT_OF_MIDI_CHANNELS * AMOUNT_OF_MIDI_KEYS,
                self.well_formed(),
                self.fed == old(self).fed,
                self.limit == old(self).limit,
                forall|j: int| 0 <= j < i ==> !self.notes@[j],
                forall|j: int| i <= j < self.notes@.len() ==> self.notes@[j] == old(self).notes@[j],
                self.outbox@ == old(self).outbox@ + closing(old(self).notes@, i as int),
            decreases AMOUNT_OF_MIDI_CHANNELS * AMOUNT_OF_MIDI_KEYS - i,
        {
            let ghost before = self.outbox@;
            if self.notes[i] {
                let off = TypedMidiMessage::NoteOff {
                    channel: (i / AMOUNT_OF_MIDI_KEYS) as u8,
                    key: (i % AMOUNT_OF_MIDI_KEYS) as u8,
                    velocity: 0,
                };
                self.outbox.push(off);
                self.notes.set(i, false);
                assert(before.push(off) =~= old(self).outbox@ + closing(old(self).notes@, i + 1));
            }
            i = i + 1;
        }
        assert(self.held() =~= Set::<(u8, u8)>::empty());
    }
}

} // verus!
