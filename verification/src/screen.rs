use vstd::prelude::*;
use crate::config::{
    CONTROL_CHANNEL_NUMBER, CONTROL_KEY_NUMBER, TEMPO_CHANGE_BASE_BPM, TEMPO_CHANGE_CONTROL_NUMBER,
};
use crate::looper::{Looper, LooperError};
use crate::midi::{AbsMidiEvent, MidiNoteTracker, TypedMidiMessage};

verus! {

/// What a key asks of the looper's screen.
#[derive(Clone, Copy, PartialEq, Eq, Debug, Structural)]
pub enum KeyCommand {
    Quit,
    ToggleRecording,
    Reset,
    UndoLastRecording,
    TogglePause,
    SaveState,
    LoadState,
}

/// What the screen asks of its driver after a key.
#[derive(Clone, Copy, PartialEq, Eq, Debug, Structural)]
pub enum FileRequest {
    Save,
    Load,
}

/// What a played message asks of the looper's screen.
#[derive(Clone, Copy, PartialEq, Eq, Debug, Structural)]
pub enum MidiCommand {
    /// Set the tempo to this many beats per minute.
    ChangeTempo(u32),
    ToggleRecording,
    /// The release of the control key: nothing to do.
    Nothing,
    /// An ordinary message: hand it to the looper.
    Play,
}

/// The command that a message carries. The tempo controller sets the tempo
/// to its value above the base tempo, on any channel; the control key on the
/// control channel toggles the recording when pressed and does nothing when
/// released; every other message is played.
pub open spec fn command_of(message: TypedMidiMessage) -> MidiCommand {
    match message {
        TypedMidiMessage::ControlChange { number, value, .. } => if number
            == TEMPO_CHANGE_CONTROL_NUMBER {
            MidiCommand::ChangeTempo((value + TEMPO_CHANGE_BASE_BPM) as u32)
        } else {
            MidiCommand::Play
        },
        TypedMidiMessage::NoteOn { channel, key, .. } => if key == CONTROL_KEY_NUMBER && channel
            == CONTROL_CHANNEL_NUMBER {
            MidiCommand::ToggleRecording
        } else {
            MidiCommand::Play
        },
        TypedMidiMessage::NoteOff { channel, key, .. } => if key == CONTROL_KEY_NUMBER && channel
            == CONTROL_CHANNEL_NUMBER {
            MidiCommand::Nothing
        } else {
            MidiCommand::Play
        },
        _ => MidiCommand::Play,
    }
}

/// The command that a message carries.
pub fn classify(message: &TypedMidiMessage) -> (r: MidiCommand)
    ensures
        r == command_of(*message),
{
    match *message {
        TypedMidiMessage::ControlChange { number, value, .. } => {
            if number == TEMPO_CHANGE_CONTROL_NUMBER {
                MidiCommand::ChangeTempo(value as u32 + TEMPO_CHANGE_BASE_BPM)
            } else {
                MidiCommand::Play
            }
        },
        TypedMidiMessage::NoteOn { channel, key, .. } => {
            if key == CONTROL_KEY_NUMBER && channel == CONTROL_CHANNEL_NUMBER {
                MidiCommand::ToggleRecording
            } else {
                MidiCommand::Play
            }
        },
        TypedMidiMessage::NoteOff { channel, key, .. } => {
            if key == CONTROL_KEY_NUMBER && channel == CONTROL_CHANNEL_NUMBER {
                MidiCommand::Nothing
            } else {
                MidiCommand::Play
            }
        },
        _ => MidiCommand::Play,
    }
}

/// The result of an operation without what it shows on success.
pub open spec fn outcome<V>(r: Result<V, LooperError>) -> Result<(), LooperError> {
    match r {
        Ok(_) => Ok(()),
        Err(e) => Err(e),
    }
}

/// The looper with what surrounds it on the screen: whether the user has
/// asked to leave.
pub struct LooperScreen<T: MidiNoteTracker> {
    pub looper: Looper<T>,
    pub quit: bool,
}

impl<T: MidiNoteTracker> LooperScreen<T> {
    pub fn new(looper: Looper<T>) -> (r: LooperScreen<T>)
        ensures
            r.looper == looper,
            !r.quit,
    {
        LooperScreen { looper, quit: false }
    }

    /// Carries out what a key asks. Saving and loading are left to the
    /// driver, to which the request is handed; they change nothing here.
    pub fn handle_key(&mut self, key: KeyCommand) -> (r: Option<FileRequest>)
        requires
            old(self).looper.well_formed(),
        ensures
            final(self).looper.well_formed(),
            match key {
                KeyCommand::Quit => final(self).quit && Looper::was_reset(
                    &old(self).looper,
                    &final(self).looper,
                ) && r is None,
                KeyCommand::Reset => final(self).quit == old(self).quit && Looper::was_reset(
                    &old(self).looper,
                    &final(self).looper,
                ) && r is None,
                KeyCommand::ToggleRecording => final(self).quit == old(self).quit
                    && Looper::recording_toggled(&old(self).looper, &final(self).looper)
                    && r is None,
                KeyCommand::UndoLastRecording => final(self).quit == old(self).quit
                    && Looper::undone(&old(self).looper, &final(self).looper) && r is None,
                KeyCommand::TogglePause => final(self).quit == old(self).quit
                    && Looper::pause_toggled(&old(self).looper, &final(self).looper) && r is None,
                KeyCommand::SaveState => *final(self) == *old(self) && r == Some(FileRequest::Save),
                KeyCommand::LoadState => *final(self) == *old(self) && r == Some(FileRequest::Load),
            },
    {
        match key {
            KeyCommand::Quit => {
                self.quit = true;
                self.looper.reset();
                None
            },
            KeyCommand::ToggleRecording => {
                self.looper.toggle_recording();
                None
            },
            KeyCommand::Reset => {
                self.looper.reset();
                None
            },
            KeyCommand::UndoLastRecording => {
                self.looper.undo_last_recording();
                None
            },
            KeyCommand::TogglePause => {
                self.looper.toggle_pause();
                None
            },
            KeyCommand::SaveState => Some(FileRequest::Save),
            KeyCommand::LoadState => Some(FileRequest::Load),
        }
    }

    /// Carries out what a played message asks. A change of tempo that took
    /// place is returned, for the driver to show.
    pub fn handle_midi_event(&mut self, event: &AbsMidiEvent) -> (r: Result<
        Option<u32>,
        LooperError,
    >)
        requires
            old(self).looper.well_formed(),
        ensures
            final(self).looper.well_formed(),
            final(self).quit == old(self).quit,
            match command_of(event.message) {
                MidiCommand::ChangeTempo(bpm) => Looper::tempo_updated(
                    &old(self).looper,
                    &final(self).looper,
                    bpm,
                    outcome(r),
                ) && (r is Ok ==> r == Ok::<Option<u32>, LooperError>(Some(bpm))),
                MidiCommand::ToggleRecording => Looper::recording_toggled(
                    &old(self).looper,
                    &final(self).looper,
                ) && r == Ok::<Option<u32>, LooperError>(None),
                MidiCommand::Nothing => *final(self) == *old(self) && r == Ok::<
                    Option<u32>,
                    LooperError,
                >(None),
                MidiCommand::Play => Looper::event_taken(
                    &old(self).looper,
                    &final(self).looper,
                    *event,
                    outcome(r),
                ) && (r is Ok ==> r == Ok::<Option<u32>, LooperError>(None)),
            },
    {
        match classify(&event.message) {
            MidiCommand::ChangeTempo(bpm) => {
                match self.looper.update_tempo_bpm(bpm) {
                    Ok(()) => Ok(Some(bpm)),
                    Err(e) => Err(e),
                }
            },
            MidiCommand::ToggleRecording => {
                self.looper.toggle_recording();
                Ok(None)
            },
            MidiCommand::Nothing => Ok(None),
            MidiCommand::Play => {
                match self.looper.on_midi_event(event) {
                    Ok(()) => Ok(None),
                    Err(e) => Err(e),
                }
            },
        }
    }

    /// Moves the looper on by `delta_time` milliseconds and says, by
    /// `Some`, when the user has asked to leave.
    pub fn update(&mut self, delta_time: u32) -> (r: Result<Option<()>, LooperError>)
        requires
            old(self).looper.well_formed(),
        ensures
            final(self).quit == old(self).quit,
            Looper::advanced(&old(self).looper, &final(self).looper, delta_time, outcome(r)),
            r is Ok ==> r == Ok::<Option<()>, LooperError>(
                if old(self).quit {
                    Some(())
                } else {
                    None
                },
            ),
    {
        match self.looper.update(delta_time) {
            Ok(()) => {},
            Err(e) => {
                return Err(e);
            },
        }
        if self.quit {
            Ok(Some(()))
        } else {
            Ok(None)
        }
    }
}

} // verus!
