use vstd::prelude::*;

verus! {

/// A tab of the editor that can be asked for.
#[derive(Debug, Clone, Copy, PartialEq, Eq, Structural)]
pub enum TabRequest {
    /// The configuration of the track with this identifier.
    TrackConfig(u128),
    Player,
    LyricsEditor,
    Timeline,
    Preferences,
}

/// An event of the editor, queued to be handled after the current frame.
#[derive(Debug, Clone, Copy, PartialEq, Eq, Structural)]
pub enum KsngEvent {
    ProjectNew,
    ProjectClose,
    ProjectSave,
    ProjectOpen,
    ProjectOpenId(u128),
    ProjectDelete(u128),
    ProjectExportVideo,
    Quit,
    Undo,
    Redo,
    AudioDeviceChanged,
    AudioChanged,
    CloseWindow(u64),
    OpenTabWindow(TabRequest),
}

/// An error shown to the user.
#[derive(Debug)]
pub enum UiError {
    InvalidCommand(String),
    Io(String),
    Audio(String),
    Worker(String),
}

} // verus!
