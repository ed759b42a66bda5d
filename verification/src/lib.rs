//! Verified core of the ksng karaoke editor: timing, selection, command
//! history, lyrics text handling and audio bookkeeping.

pub mod timecode;
pub mod text;
pub mod ids;
pub mod lyrics;
pub mod lyrics_edit;
pub mod flags;
pub mod selection;
pub mod project;
pub mod ui_event;
pub mod context;
pub mod commands;
pub mod track_commands;
pub mod lyrics_commands;
pub mod timeline;
pub mod waveform;
pub mod archive;
pub mod archive_laws;
pub mod storage;
pub mod modals;
pub mod ml;
pub mod audio;
pub mod filters;
pub mod state;
pub mod ui;
pub mod editor;
pub mod lyrics_view;
pub mod timecode_text;
pub mod lyrics_laws;
pub mod timing_laws;
