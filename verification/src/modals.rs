use vstd::prelude::*;

use crate::context::EditorContext;
use crate::project::Project;
use crate::storage::{first_index, ProjectManifest};
use crate::text::{chars_of, decimal, decimal_spec, is_whitespace, is_whitespace_spec};
use crate::ui_event::KsngEvent;

verus! {

/// A message with an OK button.
pub struct AlertModal {
    pub open: bool,
    pub text: String,
}

impl AlertModal {
    pub fn new(text: String) -> (m: AlertModal)
        ensures
            m.open,
            m.text == text,
    {
        AlertModal { text, open: true }
    }

    /// The OK button, or the modal's own close.
    pub fn dismiss(&mut self)
        ensures
            !final(self).open,
            final(self).text == old(self).text,
    {
        self.open = false;
    }

    pub fn should_cleanup(&self) -> (b: bool)
        ensures
            b == !self.open,
    {
        !self.open
    }
}

/// A yes-or-no question; a yes dispatches `after`.
pub struct ConfirmModal {
    pub open: bool,
    pub heading: String,
    pub text: String,
    pub after: KsngEvent,
}

impl ConfirmModal {
    pub fn new(heading: String, text: String, after: KsngEvent) -> (m: ConfirmModal)
        ensures
            m.open,
            m.heading == heading,
            m.text == text,
            m.after == after,
    {
        ConfirmModal { heading, text, open: true, after }
    }

    /// The answer: the modal closes, and a yes gives the event to dispatch.
    pub fn answer(&mut self, yes: bool) -> (e: Option<KsngEvent>)
        ensures
            !final(self).open,
            final(self).after == old(self).after,
            e == (if yes { Some(old(self).after) } else { None }),
    {
        self.open = false;
        if yes {
            Some(self.after)
        } else {
            None
        }
    }

    pub fn should_cleanup(&self) -> (b: bool)
        ensures
            b == !self.open,
    {
        !self.open
    }
}

/// The choices offered when a project with unsaved changes would be closed.
#[derive(Debug, Clone, Copy, PartialEq, Eq, Structural)]
pub enum DirtyChoice {
    Cancel,
    CloseWithoutSaving,
    Save,
}

/// What follows a choice in the unsaved-changes warning.
pub enum DirtyOutcome {
    /// Nothing.
    Nothing,
    /// Dispatch the event that was held back.
    Dispatch(KsngEvent),
    /// Save the project, then dispatch the event.
    SaveThen(KsngEvent),
}

/// The warning that the open project has unsaved changes, shown before
/// `after` is done.
pub struct DirtyWarningModal {
    pub open: bool,
    pub after: KsngEvent,
}

impl DirtyWarningModal {
    pub fn new(after: KsngEvent) -> (m: DirtyWarningModal)
        ensures
            m.open,
            m.after == after,
    {
        DirtyWarningModal { open: true, after }
    }

    /// The user's choice: the modal closes, and says what follows.
    pub fn pick(&mut self, choice: DirtyChoice) -> (o: DirtyOutcome)
        ensures
            !final(self).open,
            final(self).after == old(self).after,
            match choice {
                DirtyChoice::Cancel => o is Nothing,
                DirtyChoice::CloseWithoutSaving => o == DirtyOutcome::Dispatch(old(self).after),
                DirtyChoice::Save => o == DirtyOutcome::SaveThen(old(self).after),
            },
    {
        self.open = false;
        match choice {
            DirtyChoice::Cancel => DirtyOutcome::Nothing,
            DirtyChoice::CloseWithoutSaving => DirtyOutcome::Dispatch(self.after),
            DirtyChoice::Save => DirtyOutcome::SaveThen(self.after),
        }
    }

    pub fn should_cleanup(&self) -> (b: bool)
        ensures
            b == !self.open,
    {
        !self.open
    }
}

/// What a save asks for first.
#[derive(Debug, Clone, Copy, PartialEq, Eq, Structural)]
pub enum SaveStep {
    /// The project has no name yet: ask for one.
    AskName,
    /// Write the open project, then finish.
    Write,
    /// No project is open: just finish.
    Finish,
}

/// The first step of saving the open project of `ctx`.
pub fn save_step(ctx: &EditorContext) -> (s: SaveStep)
    ensures
        s == match ctx.project {
            Some(p) => if p.name is None {
                SaveStep::AskName
            } else {
                SaveStep::Write
            },
            None => SaveStep::Finish,
        },
{
    match &ctx.project {
        Some(p) => if p.name.is_none() {
            SaveStep::AskName
        } else {
            SaveStep::Write
        },
        None => SaveStep::Finish,
    }
}

/// The end of a save: the project is marked as saved and `after`, if any,
/// is dispatched.
pub fn finish_save(ctx: &mut EditorContext, after: Option<KsngEvent>)
    ensures
        final(ctx).project == crate::context::with_dirty(old(ctx).project, false),
        final(ctx).selection == old(ctx).selection,
        final(ctx).refresh == old(ctx).refresh,
        final(ctx).event_queue@ == match after {
            Some(e) => old(ctx).event_queue@.push(e),
            None => old(ctx).event_queue@,
        },
{
    ctx.set_dirty_state(false);
    if let Some(e) = after {
        ctx.dispatch(e);
    }
}

/// Whether `s` has a character that is not white space: what is left of it
/// after trimming is not empty.
pub open spec fn has_text(s: Seq<char>) -> bool {
    exists|i: int| 0 <= i < s.len() && !is_whitespace_spec(#[trigger] s[i])
}

/// Asks for the name of a project that is saved for the first time.
pub struct SaveProjectModal {
    pub open: bool,
    pub after: Option<KsngEvent>,
    pub name: String,
}

impl SaveProjectModal {
    pub fn new(after: Option<KsngEvent>) -> (m: SaveProjectModal)
        ensures
            m.open,
            m.after == after,
            m.name@.len() == 0,
    {
        SaveProjectModal { open: true, after, name: String::new() }
    }

    /// Whether the name typed in may be saved under.
    pub fn name_valid(&self) -> (b: bool)
        ensures
            b == has_text(self.name@),
    {
        let cs = chars_of(self.name.as_str());
        let mut i: usize = 0;
        while i < cs.len()
            invariant
                cs@ == self.name@,
                0 <= i <= cs@.len(),
                forall|j: int| 0 <= j < i ==> is_whitespace_spec(cs@[j]),
            decreases cs@.len() - i,
        {
            if !is_whitespace(cs[i]) {
                return true;
            }
            i = i + 1;
        }
        false
    }

    /// The Save button: with a valid name and an open project, the project
    /// takes the name, is marked as saved, the modal closes and `after` is
    /// dispatched. Returns whether the project is to be written.
    pub fn confirm(&mut self, ctx: &mut EditorContext) -> (write: bool)
        ensures
            write == (has_text(old(self).name@) && old(ctx).project is Some),
            write ==> {
                &&& final(ctx).project == Some(Project {
                    name: Some(old(self).name),
                    dirty: false,
                    ..old(ctx).project->0
                })
                &&& !final(self).open
                &&& final(ctx).event_queue@ == match old(self).after {
                    Some(e) => old(ctx).event_queue@.push(e),
                    None => old(ctx).event_queue@,
                }
            },
            !write ==> final(ctx).project == old(ctx).project && final(self).open == old(self).open
                && final(ctx).event_queue@ == old(ctx).event_queue@,
            final(self).name == old(self).name,
            final(self).after == old(self).after,
            final(ctx).selection == old(ctx).selection,
            final(ctx).refresh == old(ctx).refresh,
    {
        if !self.name_valid() {
            return false;
        }
        match &mut ctx.project {
            Some(p) => {
                p.name = Some(self.name.clone());
                p.dirty = false;
            },
            None => {
                return false;
            },
        }
        self.open = false;
        if let Some(e) = self.after {
            ctx.dispatch(e);
        }
        true
    }

    /// The Cancel button.
    pub fn cancel(&mut self)
        ensures
            !final(self).open,
            final(self).name == old(self).name,
            final(self).after == old(self).after,
    {
        self.open = false;
    }
}

/// What the delete button of the project list asks for.
pub enum DeleteRequest {
    /// Nothing is selected, or the selection is not in the list.
    Nothing,
    /// Tell the user this.
    Alert(String),
    /// Ask the user to confirm, with this heading and text, then dispatch.
    Confirm(String, String, KsngEvent),
}

/// The list of saved projects to open one from.
pub struct OpenProjectModal {
    pub open: bool,
    pub selected_id: Option<u128>,
}

/// The text asking to confirm the deletion of the project `name`.
pub open spec fn delete_text(name: Seq<char>) -> Seq<char> {
    "The project "@ + name + " will be permanently deleted! Are you sure?"@
}

impl OpenProjectModal {
    pub fn new() -> (m: OpenProjectModal)
        ensures
            m.open,
            m.selected_id is None,
    {
        OpenProjectModal { open: true, selected_id: None }
    }

    /// Drops the selection when the list no longer has it.
    pub fn prune(&mut self, manifest: &ProjectManifest)
        ensures
            final(self).open == old(self).open,
            final(self).selected_id == match old(self).selected_id {
                Some(id) => if first_index(manifest.view(), id) is Some {
                    Some(id)
                } else {
                    None
                },
                None => None,
            },
    {
        if let Some(id) = self.selected_id {
            if manifest.entry_for(id).is_err() {
                self.selected_id = None;
            }
        }
    }

    /// A click on the row of project `id`: it is selected, or deselected if
    /// it was.
    pub fn click(&mut self, id: u128)
        ensures
            final(self).open == old(self).open,
            final(self).selected_id == (if old(self).selected_id == Some(id) {
                None
            } else {
                Some(id)
            }),
    {
        match self.selected_id {
            Some(s) => if s == id {
                self.selected_id = None;
            } else {
                self.selected_id = Some(id);
            },
            None => self.selected_id = Some(id),
        }
    }

    /// The delete button: the open project `open_id` cannot be deleted;
    /// another selected project is deleted after the user confirms.
    pub fn delete_request(&self, open_id: Option<u128>, manifest: &ProjectManifest) -> (r: DeleteRequest)
        ensures
            match self.selected_id {
                None => r is Nothing,
                Some(id) => if open_id == Some(id) {
                    r matches DeleteRequest::Alert(t)
                        && t@ == "You can't delete the currently opened project. Close the project first!"@
                } else {
                    match first_index(manifest.view(), id) {
                        Some(i) => r matches DeleteRequest::Confirm(h, t, e) && h@ == "Delete project?"@
                            && t@ == delete_text(manifest.view()[i].1) && e == KsngEvent::ProjectDelete(id),
                        None => r is Nothing,
                    }
                },
            },
    {
        match self.selected_id {
            None => DeleteRequest::Nothing,
            Some(id) => {
                if open_id == Some(id) {
                    DeleteRequest::Alert(
                        "You can't delete the currently opened project. Close the project first!".to_string(),
                    )
                } else {
                    match manifest.entry_for(id) {
                        Ok((_, name)) => {
                            let mut t = "The project ".to_string();
                            t.append(name.as_str());
                            t.append(" will be permanently deleted! Are you sure?");
                            DeleteRequest::Confirm("Delete project?".to_string(), t, KsngEvent::ProjectDelete(id))
                        },
                        Err(_) => DeleteRequest::Nothing,
                    }
                }
            },
        }
    }

    /// The Open button: the modal closes, and opens the selected project.
    pub fn open_selected(&mut self) -> (e: Option<KsngEvent>)
        ensures
            !final(self).open,
            final(self).selected_id == old(self).selected_id,
            e == match old(self).selected_id {
                Some(id) => Some(KsngEvent::ProjectOpenId(id)),
                None => None,
            },
    {
        self.open = false;
        match self.selected_id {
            Some(id) => Some(KsngEvent::ProjectOpenId(id)),
            None => None,
        }
    }

    /// The Cancel button.
    pub fn cancel(&mut self)
        ensures
            !final(self).open,
            final(self).selected_id == old(self).selected_id,
    {
        self.open = false;
    }
}

/// Where a video export stands.
pub enum ExportState {
    Opened,
    Exporting,
    Failed(String),
    Complete,
    Cancelled,
}

/// What the exporter reports of a running export.
pub enum ExportStatus {
    InProgress,
    Completed,
    Cancelled,
    Failed(String),
}

/// The dialog that exports a video of the project.
pub struct ExportVideoModal {
    pub open: bool,
    pub output_path: Option<String>,
    pub picking: bool,
    pub state: ExportState,
}

/// The progress line of a running export: the step's name, then the step's
/// number counting from one, out of the number of steps.
pub open spec fn progress_text(step: Seq<char>, current: nat, steps: nat) -> Seq<char> {
    step + " ("@ + decimal_spec(current + 1) + "/"@ + decimal_spec(steps) + ")"@
}

impl ExportVideoModal {
    /// A new export to `output_path`, when a default place is known.
    pub fn new(output_path: Option<String>) -> (m: ExportVideoModal)
        ensures
            m.open,
            m.output_path == output_path,
            !m.picking,
            m.state is Opened,
    {
        ExportVideoModal { open: true, output_path, picking: false, state: ExportState::Opened }
    }

    /// Whether the settings can be changed: not while exporting.
    pub fn settings_enabled(&self) -> (b: bool)
        ensures
            b == !(self.state is Exporting),
    {
        match self.state {
            ExportState::Exporting => false,
            _ => true,
        }
    }

    /// The output path as typed: a non-empty text becomes the path.
    pub fn edit_output(&mut self, text: String)
        ensures
            final(self).output_path == (if text@.len() > 0 { Some(text) } else { old(self).output_path }),
            final(self).open == old(self).open,
            final(self).picking == old(self).picking,
            final(self).state == old(self).state,
    {
        if !text.as_str().is_empty() {
            self.output_path = Some(text);
        }
    }

    /// The file dialog was asked for.
    pub fn start_picking(&mut self) -> (started: bool)
        ensures
            started == !old(self).picking,
            final(self).picking,
            final(self).output_path == old(self).output_path,
            final(self).open == old(self).open,
            final(self).state == old(self).state,
    {
        if self.picking {
            return false;
        }
        self.picking = true;
        true
    }

    /// The file dialog answered: a chosen path becomes the output.
    pub fn picked(&mut self, path: Option<String>)
        ensures
            !final(self).picking,
            final(self).output_path == match path {
                Some(p) => Some(p),
                None => old(self).output_path,
            },
            final(self).open == old(self).open,
            final(self).state == old(self).state,
    {
        self.picking = false;
        if let Some(p) = path {
            self.output_path = Some(p);
        }
    }

    /// Follows what the exporter reports while exporting.
    pub fn on_status(&mut self, status: ExportStatus)
        ensures
            final(self).open == old(self).open,
            final(self).output_path == old(self).output_path,
            final(self).picking == old(self).picking,
            old(self).state is Exporting ==> final(self).state == match status {
                ExportStatus::InProgress => ExportState::Exporting,
                ExportStatus::Completed => ExportState::Complete,
                ExportStatus::Cancelled => ExportState::Cancelled,
                ExportStatus::Failed(e) => ExportState::Failed(e),
            },
            !(old(self).state is Exporting) ==> final(self).state == old(self).state,
    {
        if let ExportState::Exporting = self.state {
            self.state = match status {
                ExportStatus::InProgress => ExportState::Exporting,
                ExportStatus::Completed => ExportState::Complete,
                ExportStatus::Cancelled => ExportState::Cancelled,
                ExportStatus::Failed(e) => ExportState::Failed(e),
            };
        }
    }

    /// The Cancel button: a running export is cancelled (the result says
    /// to tell the exporter), otherwise the dialog closes.
    pub fn cancel(&mut self) -> (stop_export: bool)
        ensures
            stop_export == old(self).state is Exporting,
            stop_export ==> final(self).state is Cancelled && final(self).open == old(self).open,
            !stop_export ==> !final(self).open && final(self).state == old(self).state,
            final(self).output_path == old(self).output_path,
            final(self).picking == old(self).picking,
    {
        if let ExportState::Exporting = self.state {
            self.state = ExportState::Cancelled;
            true
        } else {
            self.open = false;
            false
        }
    }

    /// Checks the dialog against the open project at the start of a frame:
    /// an open dialog closes when there is no project. Returns whether the
    /// dialog is shown this frame.
    pub fn check_project(&mut self, has_project: bool) -> (shown: bool)
        ensures
            shown == (old(self).open && has_project),
            final(self).open == (old(self).open && has_project),
            final(self).output_path == old(self).output_path,
            final(self).picking == old(self).picking,
            final(self).state == old(self).state,
    {
        if !self.open {
            return false;
        }
        if !has_project {
            self.open = false;
            return false;
        }
        true
    }

    /// Whether the Start button can be pressed.
    pub fn can_start(&self) -> (b: bool)
        ensures
            b == (!(self.state is Exporting) && self.output_path is Some),
    {
        self.settings_enabled() && self.output_path.is_some()
    }

    /// The export was started, or failed to start with an error message.
    pub fn started(&mut self, result: Result<(), String>)
        ensures
            final(self).state == match result {
                Ok(()) => ExportState::Exporting,
                Err(e) => ExportState::Failed(e),
            },
            final(self).open == old(self).open,
            final(self).output_path == old(self).output_path,
            final(self).picking == old(self).picking,
    {
        self.state = match result {
            Ok(()) => ExportState::Exporting,
            Err(e) => ExportState::Failed(e),
        };
    }

    pub fn should_cleanup(&self) -> (b: bool)
        ensures
            b == !self.open,
    {
        !self.open
    }
}

/// The progress line of a running export.
pub fn progress_label(step: &str, current: u64, steps: u64) -> (s: String)
    requires
        current < u64::MAX,
    ensures
        s@ == progress_text(step@, current as nat, steps as nat),
{
    let mut s = step.to_string();
    s.append(" (");
    s.append(decimal(current + 1).as_str());
    s.append("/");
    s.append(decimal(steps).as_str());
    s.append(")");
    s
}

/// Waits for a file dialog.
pub struct OpenFileModal {
    pub open: bool,
}

impl OpenFileModal {
    pub fn new() -> (m: OpenFileModal)
        ensures
            m.open,
    {
        OpenFileModal { open: true }
    }

    /// What the dialog gave at this frame: `None` while it is open, else
    /// the file picked, if any. A picked file is handed on, at each frame
    /// it is seen, and the modal stays; a dialog closed without a file
    /// closes the modal.
    pub fn on_dialog(&mut self, result: Option<Option<String>>) -> (picked: Option<String>)
        ensures
            !old(self).open ==> picked is None && final(self).open == old(self).open,
            old(self).open ==> match result {
                None => picked is None && final(self).open,
                Some(Some(f)) => picked == Some(f) && final(self).open,
                Some(None) => picked is None && !final(self).open,
            },
    {
        if !self.open {
            return None;
        }
        match result {
            None => None,
            Some(Some(f)) => Some(f),
            Some(None) => {
                self.open = false;
                None
            },
        }
    }

    pub fn should_cleanup(&self) -> (b: bool)
        ensures
            b == !self.open,
    {
        !self.open
    }
}

impl SaveProjectModal {
    pub fn should_cleanup(&self) -> (b: bool)
        ensures
            b == !self.open,
    {
        !self.open
    }
}

impl OpenProjectModal {
    pub fn should_cleanup(&self) -> (b: bool)
        ensures
            b == !self.open,
    {
        !self.open
    }
}

/// The window that follows a task of the worker until it is done with.
pub struct TaskModal {
    pub task_id: u128,
    pub open: bool,
}

impl TaskModal {
    /// An open window following the task `task_id`.
    pub fn new(task_id: u128) -> (m: TaskModal)
        ensures
            m.task_id == task_id,
            m.open,
    {
        TaskModal { task_id, open: true }
    }

    /// Whether the window is closed and can be dropped.
    pub fn should_cleanup(&self) -> (b: bool)
        ensures
            b == !self.open,
    {
        !self.open
    }
}

/// A modal of the editor.
pub enum Modal {
    Task(TaskModal),
    Alert(AlertModal),
    Confirm(ConfirmModal),
    DirtyWarning(DirtyWarningModal),
    SaveProject(SaveProjectModal),
    OpenProject(OpenProjectModal),
    ExportVideo(ExportVideoModal),
    OpenFile(OpenFileModal),
}

/// Whether a modal is still shown.
pub open spec fn modal_open(m: Modal) -> bool {
    match m {
        Modal::Task(x) => x.open,
        Modal::Alert(x) => x.open,
        Modal::Confirm(x) => x.open,
        Modal::DirtyWarning(x) => x.open,
        Modal::SaveProject(x) => x.open,
        Modal::OpenProject(x) => x.open,
        Modal::ExportVideo(x) => x.open,
        Modal::OpenFile(x) => x.open,
    }
}

impl Modal {
    /// Whether the modal is done and can be dropped.
    pub fn should_cleanup(&self) -> (b: bool)
        ensures
            b == !modal_open(*self),
    {
        match self {
            Modal::Task(x) => x.should_cleanup(),
            Modal::Alert(x) => x.should_cleanup(),
            Modal::Confirm(x) => x.should_cleanup(),
            Modal::DirtyWarning(x) => x.should_cleanup(),
            Modal::SaveProject(x) => x.should_cleanup(),
            Modal::OpenProject(x) => x.should_cleanup(),
            Modal::ExportVideo(x) => x.should_cleanup(),
            Modal::OpenFile(x) => x.should_cleanup(),
        }
    }
}

/// The modals shown, in the order they are drawn, and those added during
/// this frame, which are shown from the next one.
pub struct ModalManager {
    pub modals: Vec<Modal>,
    pub new_modals: Vec<Modal>,
}

impl ModalManager {
    pub fn new() -> (m: ModalManager)
        ensures
            m.modals@.len() == 0,
            m.new_modals@.len() == 0,
    {
        ModalManager { modals: Vec::new(), new_modals: Vec::new() }
    }

    /// Adds a modal, shown from the next frame.
    pub fn add(&mut self, modal: Modal)
        ensures
            final(self).new_modals@ == old(self).new_modals@.push(modal),
            final(self).modals@ == old(self).modals@,
    {
        self.new_modals.push(modal);
    }

    /// Starts a frame: the modals added since the last one join the end.
    pub fn open_new(&mut self)
        ensures
            final(self).modals@ == old(self).modals@ + old(self).new_modals@,
            final(self).new_modals@.len() == 0,
    {
        self.modals.append(&mut self.new_modals);
    }

    /// Ends a frame: the modals that are done leave; the others keep their
    /// order.
    pub fn cleanup(&mut self)
        ensures
            final(self).modals@ == old(self).modals@.filter(|m: Modal| modal_open(m)),
            final(self).new_modals@ == old(self).new_modals@,
    {
        let ghost orig = self.modals@;
        let ghost keep = |m: Modal| modal_open(m);
        let mut rest: Vec<Modal> = Vec::new();
        std::mem::swap(&mut rest, &mut self.modals);
        let ghost mut i: int = 0;
        proof {
            reveal(Seq::filter);
            assert(orig.take(0) =~= Seq::<Modal>::empty());
            assert(orig.skip(0) =~= orig);
        }
        while rest.len() > 0
            invariant
                0 <= i <= orig.len(),
                rest@ == orig.skip(i),
                self.modals@ == orig.take(i).filter(keep),
                self.new_modals@ == old(self).new_modals@,
                keep == (|m: Modal| modal_open(m)),
            decreases rest@.len(),
        {
            let m = rest.remove(0);
            proof {
                reveal(Seq::filter);
                assert(m == orig[i]);
                assert(orig.take(i + 1).drop_last() =~= orig.take(i));
                assert(orig.take(i + 1).last() == orig[i]);
                assert(orig.skip(i + 1) =~= orig.skip(i).subrange(1, orig.skip(i).len() as int));
            }
            if !m.should_cleanup() {
                self.modals.push(m);
            }
            proof {
                i = i + 1;
            }
        }
        proof {
            assert(orig.take(i) =~= orig);
        }
    }
}

} // verus!
