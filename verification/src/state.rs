use vstd::prelude::*;

use crate::lyrics::tc_add;

verus! {

/// How far a value loaded in the background has come.
#[derive(Debug, Clone, Copy, PartialEq, Eq, Structural)]
pub enum AsyncValueState {
    Unloaded,
    Loading,
    Loaded,
}

/// The number a state is stored as.
pub open spec fn state_code(s: AsyncValueState) -> u8 {
    match s {
        AsyncValueState::Unloaded => 0,
        AsyncValueState::Loading => 1,
        AsyncValueState::Loaded => 2,
    }
}

/// The state a stored number stands for; an unknown number is unloaded.
pub open spec fn state_of_code(b: u8) -> AsyncValueState {
    if b == 1 {
        AsyncValueState::Loading
    } else if b == 2 {
        AsyncValueState::Loaded
    } else {
        AsyncValueState::Unloaded
    }
}

impl From<AsyncValueState> for u8 {
    fn from(val: AsyncValueState) -> (b: u8) {
        match val {
            AsyncValueState::Unloaded => 0,
            AsyncValueState::Loading => 1,
            AsyncValueState::Loaded => 2,
        }
    }
}

impl vstd::std_specs::convert::FromSpecImpl<AsyncValueState> for u8 {
    open spec fn obeys_from_spec() -> bool {
        true
    }

    open spec fn from_spec(val: AsyncValueState) -> u8 {
        state_code(val)
    }
}

impl From<u8> for AsyncValueState {
    fn from(value: u8) -> (s: AsyncValueState) {
        if value == 1 {
            AsyncValueState::Loading
        } else if value == 2 {
            AsyncValueState::Loaded
        } else {
            AsyncValueState::Unloaded
        }
    }
}

impl vstd::std_specs::convert::FromSpecImpl<u8> for AsyncValueState {
    open spec fn obeys_from_spec() -> bool {
        true
    }

    open spec fn from_spec(value: u8) -> AsyncValueState {
        state_of_code(value)
    }
}

/// A state stored as its number is read back as the same state; a stored
/// number read as a state and stored again is unchanged when it is one of
/// the three codes.
pub proof fn lemma_state_code_roundtrip(s: AsyncValueState, b: u8)
    ensures
        state_of_code(state_code(s)) == s,
        b <= 2 ==> state_code(state_of_code(b)) == b,
        b > 2 ==> state_of_code(b) == AsyncValueState::Unloaded,
{
}

/// A value loaded in the background, and how far its loading has come.
pub struct AsyncSlot<T> {
    pub state: AsyncValueState,
    pub value: Option<T>,
}

impl<T> AsyncSlot<T> {
    /// Nothing loaded.
    pub fn new() -> (s: AsyncSlot<T>)
        ensures
            s.state == AsyncValueState::Unloaded,
            s.value is None,
    {
        AsyncSlot { state: AsyncValueState::Unloaded, value: None }
    }

    /// The value, once loaded.
    pub fn get(&self) -> (r: Option<&T>)
        ensures
            r == match slot_value(*self) {
                Some(v) => Some(&v),
                None => None::<&T>,
            },
    {
        match self.state {
            AsyncValueState::Loaded => match &self.value {
                Some(v) => Some(v),
                None => None,
            },
            _ => None,
        }
    }

    /// Sets the value: it is loaded.
    pub fn set(&mut self, val: Option<T>)
        ensures
            final(self).state == AsyncValueState::Loaded,
            final(self).value == val,
    {
        self.state = AsyncValueState::Loaded;
        self.value = val;
    }

    /// A load starts.
    pub fn begin_load(&mut self)
        ensures
            final(self).state == AsyncValueState::Loading,
            final(self).value == old(self).value,
    {
        self.state = AsyncValueState::Loading;
    }

    /// A load ends: a value makes it loaded; a failure leaves the value
    /// there was, and with none there is nothing loaded.
    pub fn finish_load(&mut self, result: Option<T>)
        ensures
            match result {
                Some(v) => final(self).state == AsyncValueState::Loaded && final(self).value == Some(v),
                None => final(self).value == old(self).value && if old(self).value is None {
                    final(self).state == AsyncValueState::Unloaded
                } else {
                    final(self).state == old(self).state
                },
            },
    {
        match result {
            Some(v) => {
                self.value = Some(v);
                self.state = AsyncValueState::Loaded;
            },
            None => {
                if self.value.is_none() {
                    self.state = AsyncValueState::Unloaded;
                }
            },
        }
    }
}

/// What a read of the slot gives: the value once loaded, else nothing.
pub open spec fn slot_value<T>(s: AsyncSlot<T>) -> Option<T> {
    if s.state == AsyncValueState::Loaded {
        s.value
    } else {
        None
    }
}

/// A slot in the state that `set` leaves it in reads back the value set.
pub proof fn lemma_set_then_get<T>(after: AsyncSlot<T>, val: Option<T>)
    requires
        after.state == AsyncValueState::Loaded,
        after.value == val,
    ensures
        slot_value(after) == val,
{
}

/// While a load runs, a read gives nothing.
pub proof fn lemma_loading_reads_nothing<T>(s: AsyncSlot<T>)
    requires
        s.state == AsyncValueState::Loading,
    ensures
        slot_value(s) is None,
{
}

/// How many one-off tasks run in the background. While any runs, the
/// editor shows that it is busy and takes no more edits.
pub struct PendingTasks {
    pub count: usize,
}

/// The count once a task starts; it wraps around as an atomic counter does.
pub open spec fn count_after_start(c: usize) -> usize {
    if c == usize::MAX {
        0
    } else {
        (c + 1) as usize
    }
}

/// The count once a task ends; it wraps around as an atomic counter does.
pub open spec fn count_after_finish(c: usize) -> usize {
    if c == 0 {
        usize::MAX
    } else {
        (c - 1) as usize
    }
}

/// A task that starts and then ends leaves the count as it was.
pub proof fn lemma_start_then_finish(c: usize)
    ensures
        count_after_finish(count_after_start(c)) == c,
{
}

impl PendingTasks {
    pub fn new() -> (p: PendingTasks)
        ensures
            p.count == 0,
    {
        PendingTasks { count: 0 }
    }

    /// A task starts.
    pub fn started(&mut self)
        ensures
            final(self).count == count_after_start(old(self).count),
    {
        if self.count == usize::MAX {
            self.count = 0;
        } else {
            self.count = self.count + 1;
        }
    }

    /// A task ends.
    pub fn finished(&mut self)
        ensures
            final(self).count == count_after_finish(old(self).count),
    {
        if self.count == 0 {
            self.count = usize::MAX;
        } else {
            self.count = self.count - 1;
        }
    }

    /// Whether a task runs.
    pub fn busy(&self) -> (b: bool)
        ensures
            b == (self.count > 0),
    {
        self.count > 0
    }
}

/// The kind of a message of the log.
#[derive(Debug, Clone, Copy, PartialEq, Eq, Structural)]
pub enum LogType {
    Debug,
    Info,
    Warning,
    Error,
}

/// A message of the log, with the time it was logged at, as whole seconds
/// and nanoseconds.
pub struct LogMessage {
    pub text: String,
    pub log_type: LogType,
    pub time: (i64, u32),
}

/// The messages logged so far, oldest first.
pub struct Log {
    pub messages: Vec<LogMessage>,
}

impl Log {
    pub fn new() -> (l: Log)
        ensures
            l.messages@.len() == 0,
    {
        Log { messages: Vec::new() }
    }

    /// Adds a message at the end.
    pub fn log(&mut self, log_type: LogType, text: String, time: (i64, u32))
        ensures
            final(self).messages@ == old(self).messages@.push(LogMessage { text, log_type, time }),
    {
        self.messages.push(LogMessage { text, log_type, time });
    }
}

/// Whether audio is playing.
#[derive(Debug, Clone, Copy, PartialEq, Eq, Structural)]
pub enum PlaybackState {
    Stopped,
    Playing,
}

/// The playhead: whether audio plays, and where it stood when playback
/// last started or was moved, in milliseconds.
pub struct PlaybackClock {
    pub state: PlaybackState,
    pub last_position: u32,
}

impl PlaybackClock {
    pub fn new() -> (c: PlaybackClock)
        ensures
            c.state == PlaybackState::Stopped,
            c.last_position == 0,
    {
        PlaybackClock { state: PlaybackState::Stopped, last_position: 0 }
    }

    /// Where the playhead is: where the mixer stands when stopped, else
    /// where playback started plus the time since.
    pub fn position(&self, mixer_position: u32, elapsed_ms: u32) -> (p: u32)
        ensures
            p == match self.state {
                PlaybackState::Stopped => mixer_position,
                PlaybackState::Playing => tc_add(self.last_position, elapsed_ms),
            },
    {
        match self.state {
            PlaybackState::Stopped => mixer_position,
            PlaybackState::Playing => if self.last_position > u32::MAX - elapsed_ms {
                u32::MAX
            } else {
                self.last_position + elapsed_ms
            },
        }
    }

    /// Starts or stops playback; starting remembers where the mixer stands.
    pub fn update_state(&mut self, new_state: PlaybackState, mixer_position: u32)
        ensures
            final(self).state == new_state,
            final(self).last_position == (if new_state == PlaybackState::Playing {
                mixer_position
            } else {
                old(self).last_position
            }),
    {
        if new_state == PlaybackState::Playing {
            self.last_position = mixer_position;
        }
        self.state = new_state;
    }

    /// Plays when stopped, stops when playing. Returns the new state.
    pub fn toggle_state(&mut self, mixer_position: u32) -> (s: PlaybackState)
        ensures
            s == final(self).state,
            final(self).state == (if old(self).state == PlaybackState::Playing {
                PlaybackState::Stopped
            } else {
                PlaybackState::Playing
            }),
            final(self).last_position == (if old(self).state == PlaybackState::Playing {
                old(self).last_position
            } else {
                mixer_position
            }),
    {
        let s = if self.state == PlaybackState::Playing {
            PlaybackState::Stopped
        } else {
            PlaybackState::Playing
        };
        self.update_state(s, mixer_position);
        s
    }

    /// Moves the playhead to `time`.
    pub fn seek(&mut self, time: u32)
        ensures
            final(self).state == old(self).state,
            final(self).last_position == time,
    {
        self.last_position = time;
    }

    /// The audio changed: with no project left, playback stops.
    pub fn on_audio_change(&mut self, has_project: bool)
        ensures
            final(self).state == (if has_project { old(self).state } else { PlaybackState::Stopped }),
            final(self).last_position == old(self).last_position,
    {
        if !has_project {
            self.state = PlaybackState::Stopped;
        }
    }

    /// The output device changed: playback stops.
    pub fn on_audio_device_change(&mut self)
        ensures
            final(self).state == PlaybackState::Stopped,
            final(self).last_position == old(self).last_position,
    {
        self.state = PlaybackState::Stopped;
    }
}

/// Toggling playback twice brings back the state it had.
pub proof fn lemma_toggle_twice(s: PlaybackState)
    ensures
        (if (if s == PlaybackState::Playing { PlaybackState::Stopped } else { PlaybackState::Playing })
            == PlaybackState::Playing {
            PlaybackState::Stopped
        } else {
            PlaybackState::Playing
        }) == s,
{
}

/// The audio output to use: a host by name, and a device of it, if one was
/// chosen.
pub struct AudioConfig {
    pub host: String,
    pub device: Option<String>,
}

/// The user's preferences.
pub struct Preferences {
    pub audio_config: AudioConfig,
}

/// How an output device is named in the preferences: its name, then its
/// driver in brackets.
pub fn device_label(name: &str, driver: Option<&str>) -> (s: String)
    ensures
        s@ == name@ + " ("@ + match driver {
            Some(d) => d@,
            None => Seq::<char>::empty(),
        } + ")"@,
{
    let mut s = name.to_string();
    s.append(" (");
    match driver {
        Some(d) => s.append(d),
        None => {},
    }
    s.append(")");
    proof {
        if driver is None {
            assert(s@ =~= name@ + " ("@ + Seq::<char>::empty() + ")"@);
        }
    }
    s
}

} // verus!
