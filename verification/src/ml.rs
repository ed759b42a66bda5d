use vstd::prelude::*;

use crate::ids::{fresh_id, id_string, id_text};
use crate::ui_event::UiError;

verus! {

/// How far the download of a model has come.
pub enum ModelDownloadStatus {
    NotDownloaded,
    Downloaded,
    /// `downloaded` of `total` bytes are in.
    Downloading { downloaded: u64, total: u64 },
    Failed(String),
}

/// A model that the worker offers, as it describes it.
pub struct ModelInfo {
    pub id: u128,
    pub name: String,
    pub model_type: String,
    pub size: u64,
    pub description: String,
}

/// A model that the worker offers, and how far its download has come.
pub struct Model {
    pub id: u128,
    pub name: String,
    pub model_type: String,
    pub size: u64,
    pub description: String,
    pub download_status: ModelDownloadStatus,
}

/// The models the worker offers, known once both of its lists came in.
pub struct ModelManager {
    pub models: Vec<Model>,
    pub is_loading_models_list: bool,
    pub is_loading_dl_models_list: bool,
}

/// A job's report on a model download.
pub enum JobStatus {
    Downloading { downloaded: u64, total: u64 },
    Complete,
    Error(String),
}

/// The index of the first model of `ms` with identifier `id`.
pub open spec fn model_index(ms: Seq<Model>, id: u128) -> Option<int>
    decreases ms.len(),
{
    if ms.len() == 0 {
        None
    } else if ms[0].id == id {
        Some(0)
    } else {
        match model_index(ms.skip(1), id) {
            Some(i) => Some(i + 1),
            None => None,
        }
    }
}

proof fn lemma_model_index(ms: Seq<Model>, id: u128)
    ensures
        model_index(ms, id) matches Some(i) ==> (0 <= i < ms.len() && ms[i].id == id
            && forall|j: int| 0 <= j < i ==> ms[j].id != id),
        model_index(ms, id) is None ==> forall|j: int| 0 <= j < ms.len() ==> ms[j].id != id,
    decreases ms.len(),
{
    if ms.len() > 0 && ms[0].id != id {
        lemma_model_index(ms.skip(1), id);
        assert forall|j: int| 1 <= j < ms.len() implies ms.skip(1)[j - 1] == ms[j] by {}
    }
}

fn find_model(ms: &Vec<Model>, id: u128) -> (r: Option<usize>)
    ensures
        r matches Some(i) ==> i < ms@.len() && ms@[i as int].id == id && model_index(ms@, id) == Some(i as int),
        r is None ==> model_index(ms@, id) is None,
{
    proof {
        lemma_model_index(ms@, id);
    }
    let mut i: usize = 0;
    while i < ms.len()
        invariant
            0 <= i <= ms@.len(),
            forall|j: int| 0 <= j < i ==> ms@[j].id != id,
        decreases ms@.len() - i,
    {
        if ms[i].id == id {
            proof {
                lemma_model_index(ms@, id);
                if let Some(k) = model_index(ms@, id) {
                    if k < i {
                        assert(ms@[k].id != id);
                    }
                    if k > i {
                        assert(ms@[i as int].id != id);
                    }
                } else {
                    assert(ms@[i as int].id == id);
                }
            }
            return Some(i);
        }
        i = i + 1;
    }
    proof {
        lemma_model_index(ms@, id);
        if let Some(k) = model_index(ms@, id) {
            assert(ms@[k].id != id);
        }
    }
    None
}

/// The message for a report on a model that is not known.
pub open spec fn unknown_model_text(id: u128) -> Seq<char> {
    "Could not find model with ID "@ + id_text(id)
}

/// The models after the worker listed `info`, on disk when `downloaded`:
/// a new model is added at the end; a known one becomes downloaded when
/// listed on disk and it was not downloaded or had failed.
pub open spec fn model_added(ms: Seq<Model>, info: ModelInfo, downloaded: bool) -> Seq<Model> {
    match model_index(ms, info.id) {
        Some(i) => if downloaded && (ms[i].download_status is NotDownloaded || ms[i].download_status is Failed) {
            ms.update(i, Model { download_status: ModelDownloadStatus::Downloaded, ..ms[i] })
        } else {
            ms
        },
        None => ms.push(
            Model {
                id: info.id,
                name: info.name,
                model_type: info.model_type,
                size: info.size,
                description: info.description,
                download_status: if downloaded {
                    ModelDownloadStatus::Downloaded
                } else {
                    ModelDownloadStatus::NotDownloaded
                },
            },
        ),
    }
}

/// The models after the worker listed each of `list`, in order.
pub open spec fn models_added(ms: Seq<Model>, list: Seq<ModelInfo>, downloaded: bool) -> Seq<Model>
    decreases list.len(),
{
    if list.len() == 0 {
        ms
    } else {
        models_added(model_added(ms, list[0], downloaded), list.skip(1), downloaded)
    }
}

/// The download status of the first model of `ms` with identifier `id`.
pub open spec fn status_of(ms: Seq<Model>, id: u128) -> Option<ModelDownloadStatus> {
    match model_index(ms, id) {
        Some(i) => Some(ms[i].download_status),
        None => None,
    }
}

proof fn lemma_model_index_is(ms: Seq<Model>, id: u128, i: int)
    requires
        0 <= i < ms.len(),
        ms[i].id == id,
        forall|j: int| 0 <= j < i ==> ms[j].id != id,
    ensures
        model_index(ms, id) == Some(i),
{
    lemma_model_index(ms, id);
    if let Some(k) = model_index(ms, id) {
        if k < i {
            assert(ms[k].id != id);
        }
        if k > i {
            assert(ms[i].id != id);
        }
    } else {
        assert(ms[i].id != id);
    }
}

/// What listing `info` does to the status of its model: `on_disk` tells
/// whether the list is that of the models on disk.
proof fn lemma_status_after(ms: Seq<Model>, info: ModelInfo, on_disk: bool)
    ensures
        on_disk && !(status_of(ms, info.id) matches Some(s) && s is Downloading) ==> status_of(
            model_added(ms, info, on_disk),
            info.id,
        ) == Some(ModelDownloadStatus::Downloaded),
        on_disk && (status_of(ms, info.id) matches Some(s) && s is Downloading) ==> status_of(
            model_added(ms, info, on_disk),
            info.id,
        ) == status_of(ms, info.id),
        !on_disk ==> status_of(model_added(ms, info, on_disk), info.id) == match status_of(ms, info.id) {
            Some(s) => Some(s),
            None => Some(ModelDownloadStatus::NotDownloaded),
        },
{
    lemma_model_index(ms, info.id);
    let r = model_added(ms, info, on_disk);
    match model_index(ms, info.id) {
        Some(i) => {
            assert(forall|j: int| 0 <= j < i ==> r[j] == ms[j]);
            lemma_model_index_is(r, info.id, i);
        },
        None => {
            assert(forall|j: int| 0 <= j < ms.len() ==> r[j] == ms[j]);
            lemma_model_index_is(r, info.id, ms.len() as int);
        },
    }
}

/// A model listed on disk is downloaded afterwards, unless a download of it
/// is under way: whether it was unknown, not downloaded, or failed before,
/// its status is then `Downloaded`. Listing a model for download never
/// changes the status of a model that is known, and adds an unknown one as
/// not downloaded.
pub proof fn lemma_listed_on_disk_is_downloaded(ms: Seq<Model>, info: ModelInfo)
    ensures
        !(status_of(ms, info.id) matches Some(s) && s is Downloading) ==> status_of(
            model_added(ms, info, true),
            info.id,
        ) == Some(ModelDownloadStatus::Downloaded),
        status_of(ms, info.id) is Some ==> status_of(model_added(ms, info, false), info.id) == status_of(
            ms,
            info.id,
        ),
        status_of(ms, info.id) is None ==> status_of(model_added(ms, info, false), info.id) == Some(
            ModelDownloadStatus::NotDownloaded,
        ),
{
    lemma_status_after(ms, info, true);
    lemma_status_after(ms, info, false);
}

/// The worker's two lists may come in either order: a model listed for
/// download as `a` and on disk as `b` ends with the same download status
/// whichever listing comes first.
pub proof fn lemma_list_order_irrelevant(ms: Seq<Model>, a: ModelInfo, b: ModelInfo)
    requires
        a.id == b.id,
    ensures
        status_of(model_added(model_added(ms, a, false), b, true), a.id) == status_of(
            model_added(model_added(ms, b, true), a, false),
            a.id,
        ),
{
    let m1 = model_added(ms, a, false);
    let m2 = model_added(ms, b, true);
    lemma_status_after(ms, a, false);
    lemma_status_after(ms, b, true);
    lemma_status_after(m1, b, true);
    lemma_status_after(m2, a, false);
}

impl ModelManager {
    pub fn new() -> (m: ModelManager)
        ensures
            m.models@.len() == 0,
            m.is_loading_models_list,
            m.is_loading_dl_models_list,
    {
        ModelManager { models: Vec::new(), is_loading_models_list: true, is_loading_dl_models_list: true }
    }

    /// The models, once both lists came in.
    pub fn models(&self) -> (r: Option<&Vec<Model>>)
        ensures
            r is Some <==> !self.is_loading_models_list && !self.is_loading_dl_models_list,
            r matches Some(v) ==> v@ == self.models@,
    {
        if self.is_loading_models_list || self.is_loading_dl_models_list {
            return None;
        }
        Some(&self.models)
    }

    /// Adds a model the worker listed, or, for one already known, marks it
    /// downloaded when it is listed as such and was not downloaded or had
    /// failed.
    pub fn add_or_update_model(&mut self, model: ModelInfo, downloaded: bool)
        ensures
            final(self).is_loading_models_list == old(self).is_loading_models_list,
            final(self).is_loading_dl_models_list == old(self).is_loading_dl_models_list,
            final(self).models@ == model_added(old(self).models@, model, downloaded),
    {
        match find_model(&self.models, model.id) {
            Some(i) => {
                if downloaded {
                    let upgrade = match self.models[i].download_status {
                        ModelDownloadStatus::NotDownloaded => true,
                        ModelDownloadStatus::Failed(_) => true,
                        _ => false,
                    };
                    if upgrade {
                        let ghost before = self.models@;
                        let mut m = self.models.remove(i);
                        m.download_status = ModelDownloadStatus::Downloaded;
                        self.models.insert(i, m);
                        assert(self.models@ =~= model_added(before, model, downloaded));
                    } else {
                        assert(self.models@ =~= model_added(self.models@, model, downloaded));
                    }
                } else {
                    assert(self.models@ =~= model_added(self.models@, model, downloaded));
                }
            },
            None => {
                self.models.push(
                    Model {
                        id: model.id,
                        name: model.name,
                        model_type: model.model_type,
                        size: model.size,
                        description: model.description,
                        download_status: if downloaded {
                            ModelDownloadStatus::Downloaded
                        } else {
                            ModelDownloadStatus::NotDownloaded
                        },
                    },
                );
            },
        }
    }

    /// The list of models on disk came in: each is added, or marked
    /// downloaded, in the order of the list.
    pub fn recv_models_list(&mut self, list: Vec<ModelInfo>)
        ensures
            !final(self).is_loading_models_list,
            final(self).is_loading_dl_models_list == old(self).is_loading_dl_models_list,
            final(self).models@ == models_added(old(self).models@, list@, true),
    {
        let ghost orig = list@;
        let mut list = list;
        while list.len() > 0
            invariant
                models_added(self.models@, list@, true) == models_added(old(self).models@, orig, true),
                self.is_loading_dl_models_list == old(self).is_loading_dl_models_list,
            decreases list@.len(),
        {
            let ghost l0 = list@;
            let m = list.remove(0);
            proof {
                assert(list@ =~= l0.skip(1));
            }
            self.add_or_update_model(m, true);
        }
        self.is_loading_models_list = false;
    }

    /// The list of models that can be downloaded came in: each is added, in
    /// the order of the list, if it is not known yet.
    pub fn recv_dl_models_list(&mut self, list: Vec<ModelInfo>)
        ensures
            !final(self).is_loading_dl_models_list,
            final(self).is_loading_models_list == old(self).is_loading_models_list,
            final(self).models@ == models_added(old(self).models@, list@, false),
    {
        let ghost orig = list@;
        let mut list = list;
        while list.len() > 0
            invariant
                models_added(self.models@, list@, false) == models_added(old(self).models@, orig, false),
                self.is_loading_models_list == old(self).is_loading_models_list,
            decreases list@.len(),
        {
            let ghost l0 = list@;
            let m = list.remove(0);
            proof {
                assert(list@ =~= l0.skip(1));
            }
            self.add_or_update_model(m, false);
        }
        self.is_loading_dl_models_list = false;
    }

    /// A report on the download of model `model_id`: an error for a model
    /// that is not known, otherwise its download status follows the report.
    pub fn recv_job_status(&mut self, model_id: u128, status: JobStatus) -> (r: Result<(), UiError>)
        ensures
            final(self).is_loading_models_list == old(self).is_loading_models_list,
            final(self).is_loading_dl_models_list == old(self).is_loading_dl_models_list,
            final(self).models@.len() == old(self).models@.len(),
            match model_index(old(self).models@, model_id) {
                None => r matches Err(UiError::Worker(m)) && m@ == unknown_model_text(model_id)
                    && final(self).models@ == old(self).models@,
                Some(i) => {
                    &&& r is Ok
                    &&& forall|j: int| 0 <= j < old(self).models@.len() && j != i ==> final(self).models@[j] == old(self).models@[j]
                    &&& final(self).models@[i].id == old(self).models@[i].id
                    &&& final(self).models@[i].name == old(self).models@[i].name
                    &&& final(self).models@[i].description == old(self).models@[i].description
                    &&& final(self).models@[i].download_status == match status {
                        JobStatus::Downloading { downloaded, total } => ModelDownloadStatus::Downloading { downloaded, total },
                        JobStatus::Complete => ModelDownloadStatus::Downloaded,
                        JobStatus::Error(e) => ModelDownloadStatus::Failed(e),
                    }
                },
            },
    {
        match find_model(&self.models, model_id) {
            None => {
                let mut m = "Could not find model with ID ".to_string();
                m.append(id_string(model_id).as_str());
                Err(UiError::Worker(m))
            },
            Some(i) => {
                let mut m = self.models.remove(i);
                m.download_status = match status {
                    JobStatus::Downloading { downloaded, total } => ModelDownloadStatus::Downloading { downloaded, total },
                    JobStatus::Complete => ModelDownloadStatus::Downloaded,
                    JobStatus::Error(e) => ModelDownloadStatus::Failed(e),
                };
                self.models.insert(i, m);
                Ok(())
            },
        }
    }
}

/// Whether a model can be downloaded: it is not on disk, or its download
/// failed.
pub fn can_download(m: &Model) -> (b: bool)
    ensures
        b == (m.download_status is NotDownloaded || m.download_status is Failed),
{
    match m.download_status {
        ModelDownloadStatus::NotDownloaded => true,
        ModelDownloadStatus::Failed(_) => true,
        _ => false,
    }
}

/// The files a stem separation wrote; an empty path means none.
pub enum TaskResult {
    Htdemucs {
        output_path_vocals: String,
        output_path_drums: String,
        output_path_bass: String,
        output_path_other: String,
    },
}

/// What a task needs once it is done.
pub enum TaskExtraData {
    Htdemucs { source_event_id: u128 },
}

/// Where a task stands; progress is kept as the bits of a 32-bit float.
pub enum TaskStatus {
    Running { progress: u32 },
    Complete(TaskResult),
    Failed(String),
    Cancelled,
}

/// A task the worker runs.
pub struct Task {
    pub id: u128,
    pub name: String,
    pub status: TaskStatus,
    pub is_finalized: bool,
    pub pending_completion: bool,
    pub extra_data: TaskExtraData,
}

/// The worker's report on a running task.
pub enum TaskInfoStatus {
    Running,
    Complete,
    Failed(String),
    Cancelled,
}

/// The tasks sent to the worker.
pub struct TaskManager {
    pub tasks: Vec<Task>,
}

/// The index of the first task of `ts` with identifier `id`.
pub open spec fn task_index(ts: Seq<Task>, id: u128) -> Option<int>
    decreases ts.len(),
{
    if ts.len() == 0 {
        None
    } else if ts[0].id == id {
        Some(0)
    } else {
        match task_index(ts.skip(1), id) {
            Some(i) => Some(i + 1),
            None => None,
        }
    }
}

proof fn lemma_task_index(ts: Seq<Task>, id: u128)
    ensures
        task_index(ts, id) matches Some(i) ==> (0 <= i < ts.len() && ts[i].id == id
            && forall|j: int| 0 <= j < i ==> ts[j].id != id),
        task_index(ts, id) is None ==> forall|j: int| 0 <= j < ts.len() ==> ts[j].id != id,
    decreases ts.len(),
{
    if ts.len() > 0 && ts[0].id != id {
        lemma_task_index(ts.skip(1), id);
        assert forall|j: int| 1 <= j < ts.len() implies ts.skip(1)[j - 1] == ts[j] by {}
    }
}

fn find_task(ts: &Vec<Task>, id: u128) -> (r: Option<usize>)
    ensures
        r matches Some(i) ==> i < ts@.len() && ts@[i as int].id == id && task_index(ts@, id) == Some(i as int),
        r is None ==> task_index(ts@, id) is None,
{
    proof {
        lemma_task_index(ts@, id);
    }
    let mut i: usize = 0;
    while i < ts.len()
        invariant
            0 <= i <= ts@.len(),
            forall|j: int| 0 <= j < i ==> ts@[j].id != id,
        decreases ts@.len() - i,
    {
        if ts[i].id == id {
            proof {
                lemma_task_index(ts@, id);
                if let Some(k) = task_index(ts@, id) {
                    if k < i {
                        assert(ts@[k].id != id);
                    }
                    if k > i {
                        assert(ts@[i as int].id != id);
                    }
                } else {
                    assert(ts@[i as int].id == id);
                }
            }
            return Some(i);
        }
        i = i + 1;
    }
    proof {
        lemma_task_index(ts@, id);
        if let Some(k) = task_index(ts@, id) {
            assert(ts@[k].id != id);
        }
    }
    None
}

/// The message for a report on a task that is not known.
pub open spec fn unknown_task_text(id: u128) -> Seq<char> {
    "Could not find task for ID "@ + id_text(id)
}

/// The named result files of a stem separation that were written, in the
/// order vocals, drums, bass, other.
pub open spec fn result_files(r: TaskResult) -> Seq<(Seq<char>, Seq<char>)> {
    match r {
        TaskResult::Htdemucs { output_path_vocals, output_path_drums, output_path_bass, output_path_other } => {
            let v = if output_path_vocals@.len() > 0 { seq![("vocals"@, output_path_vocals@)] } else { Seq::empty() };
            let d = if output_path_drums@.len() > 0 { seq![("drums"@, output_path_drums@)] } else { Seq::empty() };
            let b = if output_path_bass@.len() > 0 { seq![("bass"@, output_path_bass@)] } else { Seq::empty() };
            let o = if output_path_other@.len() > 0 { seq![("other"@, output_path_other@)] } else { Seq::empty() };
            v + d + b + o
        },
    }
}

/// A finished stem separation to bring into the project: the event that
/// was separated, and the named files that came out.
pub struct Completion {
    pub source_event_id: u128,
    pub files: Vec<(String, String)>,
}

fn push_file(files: &mut Vec<(String, String)>, name: &str, path: &String)
    ensures
        final(files)@.len() == old(files)@.len() + (if path@.len() > 0 { 1int } else { 0int }),
        forall|i: int| 0 <= i < old(files)@.len() ==> final(files)@[i] == old(files)@[i],
        path@.len() > 0 ==> final(files)@.last().0@ == name@ && final(files)@.last().1@ == path@,
{
    if !path.as_str().is_empty() {
        files.push((name.to_string(), path.clone()));
    }
}

/// A task after a poll: a complete task that waited to be brought in no
/// longer waits.
pub open spec fn polled(t: Task) -> Task {
    if t.pending_completion && t.status is Complete {
        Task { pending_completion: false, ..t }
    } else {
        t
    }
}

impl TaskManager {
    pub fn new() -> (m: TaskManager)
        ensures
            m.tasks@.len() == 0,
    {
        TaskManager { tasks: Vec::new() }
    }

    /// Records a new running task named `name` under a fresh identifier,
    /// which it returns; the caller sends the task to the worker under it.
    pub fn start_task(&mut self, name: String, extra_data: TaskExtraData) -> (id: u128)
        ensures
            final(self).tasks@ == old(self).tasks@.push(Task {
                id,
                name,
                status: TaskStatus::Running { progress: 0 },
                is_finalized: false,
                pending_completion: false,
                extra_data,
            }),
    {
        let id = fresh_id();
        self.tasks.push(
            Task {
                id,
                name,
                status: TaskStatus::Running { progress: 0 },
                is_finalized: false,
                pending_completion: false,
                extra_data,
            },
        );
        id
    }

    /// The task `id`.
    pub fn get_task(&self, id: u128) -> (r: Option<&Task>)
        ensures
            match task_index(self.tasks@, id) {
                Some(i) => r == Some(&self.tasks@[i]),
                None => r is None,
            },
    {
        match find_task(&self.tasks, id) {
            Some(i) => Some(&self.tasks[i]),
            None => None,
        }
    }

    /// The worker's report on task `id`, with the progress of a running
    /// task: a running, failed or cancelled task takes that status, and a
    /// completed one waits for its result.
    pub fn recv_task_info(&mut self, id: u128, status: TaskInfoStatus, progress: u32) -> (r: Result<(), UiError>)
        ensures
            final(self).tasks@.len() == old(self).tasks@.len(),
            match task_index(old(self).tasks@, id) {
                None => r matches Err(UiError::Worker(m)) && m@ == unknown_task_text(id)
                    && final(self).tasks@ == old(self).tasks@,
                Some(i) => {
                    &&& r is Ok
                    &&& forall|j: int| 0 <= j < old(self).tasks@.len() && j != i ==> final(self).tasks@[j] == old(self).tasks@[j]
                    &&& final(self).tasks@[i] == Task {
                        status: match status {
                            TaskInfoStatus::Running => TaskStatus::Running { progress },
                            TaskInfoStatus::Complete => old(self).tasks@[i].status,
                            TaskInfoStatus::Failed(e) => TaskStatus::Failed(e),
                            TaskInfoStatus::Cancelled => TaskStatus::Cancelled,
                        },
                        ..old(self).tasks@[i]
                    }
                },
            },
    {
        match find_task(&self.tasks, id) {
            None => {
                let mut m = "Could not find task for ID ".to_string();
                m.append(id_string(id).as_str());
                Err(UiError::Worker(m))
            },
            Some(i) => {
                let mut t = self.tasks.remove(i);
                match status {
                    TaskInfoStatus::Running => {
                        t.status = TaskStatus::Running { progress };
                    },
                    TaskInfoStatus::Complete => {},
                    TaskInfoStatus::Failed(e) => {
                        t.status = TaskStatus::Failed(e);
                    },
                    TaskInfoStatus::Cancelled => {
                        t.status = TaskStatus::Cancelled;
                    },
                }
                self.tasks.insert(i, t);
                Ok(())
            },
        }
    }

    /// The result of task `id`: it is complete, and waits to be brought in.
    pub fn recv_task_result(&mut self, id: u128, result: TaskResult) -> (r: Result<(), UiError>)
        ensures
            final(self).tasks@.len() == old(self).tasks@.len(),
            match task_index(old(self).tasks@, id) {
                None => r matches Err(UiError::Worker(m)) && m@ == unknown_task_text(id)
                    && final(self).tasks@ == old(self).tasks@,
                Some(i) => {
                    &&& r is Ok
                    &&& forall|j: int| 0 <= j < old(self).tasks@.len() && j != i ==> final(self).tasks@[j] == old(self).tasks@[j]
                    &&& final(self).tasks@[i] == Task {
                        status: TaskStatus::Complete(result),
                        pending_completion: true,
                        ..old(self).tasks@[i]
                    }
                },
            },
    {
        match find_task(&self.tasks, id) {
            None => {
                let mut m = "Could not find task for ID ".to_string();
                m.append(id_string(id).as_str());
                Err(UiError::Worker(m))
            },
            Some(i) => {
                let mut t = self.tasks.remove(i);
                t.status = TaskStatus::Complete(result);
                t.pending_completion = true;
                self.tasks.insert(i, t);
                Ok(())
            },
        }
    }

    /// Marks every task `id` as done with, to be dropped at the next poll.
    pub fn finalize_task(&mut self, id: u128)
        ensures
            final(self).tasks@.len() == old(self).tasks@.len(),
            forall|j: int| 0 <= j < old(self).tasks@.len() ==> final(self).tasks@[j] == if old(self).tasks@[j].id == id {
                Task { is_finalized: true, ..old(self).tasks@[j] }
            } else {
                old(self).tasks@[j]
            },
    {
        let ghost before = self.tasks@;
        let mut i: usize = 0;
        while i < self.tasks.len()
            invariant
                self.tasks@.len() == before.len(),
                0 <= i <= before.len(),
                forall|j: int| 0 <= j < i ==> self.tasks@[j] == if before[j].id == id {
                    Task { is_finalized: true, ..before[j] }
                } else {
                    before[j]
                },
                forall|j: int| i <= j < before.len() ==> self.tasks@[j] == before[j],
            decreases before.len() - i,
        {
            if self.tasks[i].id == id {
                let mut t = self.tasks.remove(i);
                t.is_finalized = true;
                self.tasks.insert(i, t);
            }
            i = i + 1;
        }
    }

    /// Brings in the results that came: each complete task waiting to be
    /// brought in gives the files it wrote, in the order of the tasks, and
    /// stops waiting; then the tasks done with are dropped.
    pub fn poll_tasks(&mut self) -> (done: Vec<Completion>)
        ensures
            completions_view(done@) == completions_of(old(self).tasks@),
            final(self).tasks@ == old(self).tasks@.map_values(|t: Task| polled(t)).filter(|t: Task| !t.is_finalized),
            forall|j: int| 0 <= j < final(self).tasks@.len() ==> !(#[trigger] final(self).tasks@[j]).is_finalized
                && !(final(self).tasks@[j].pending_completion && final(self).tasks@[j].status is Complete),
    {
        let mut done: Vec<Completion> = Vec::new();
        let mut kept: Vec<Task> = Vec::new();
        let ghost before = self.tasks@;
        let mut rest: Vec<Task> = Vec::new();
        std::mem::swap(&mut rest, &mut self.tasks);
        let ghost mut i: int = 0;
        assert(rest@ == before.skip(0));
        while rest.len() > 0
            invariant
                0 <= i <= before.len(),
                rest@ == before.skip(i),
                kept@ == before.take(i).map_values(|t: Task| polled(t)).filter(|t: Task| !t.is_finalized),
                forall|j: int| 0 <= j < kept@.len() ==> !(#[trigger] kept@[j]).is_finalized
                    && !(kept@[j].pending_completion && kept@[j].status is Complete),
                completions_view(done@) == completions_of(before.take(i)),
            decreases rest@.len(),
        {
            let mut t = rest.remove(0);
            proof {
                assert(t == before[i]);
                assert(rest@ =~= before.skip(i + 1));
                assert(before.take(i + 1).drop_last() =~= before.take(i));
                assert(before.take(i + 1).last() == t);
            }
            let ghost t0 = t;
            if t.pending_completion {
                match &t.status {
                    TaskStatus::Complete(TaskResult::Htdemucs {
                        output_path_vocals,
                        output_path_drums,
                        output_path_bass,
                        output_path_other,
                    }) => {
                        let mut files: Vec<(String, String)> = Vec::new();
                        push_file(&mut files, "vocals", output_path_vocals);
                        push_file(&mut files, "drums", output_path_drums);
                        push_file(&mut files, "bass", output_path_bass);
                        push_file(&mut files, "other", output_path_other);
                        let source = match t.extra_data {
                            TaskExtraData::Htdemucs { source_event_id } => source_event_id,
                        };
                        let c = Completion { source_event_id: source, files };
                        let ghost d0 = done@;
                        proof {
                            reveal_strlit("vocals");
                            reveal_strlit("drums");
                            reveal_strlit("bass");
                            reveal_strlit("other");
                            assert(files_view(c.files@) =~= (completion_of(t0)->0).1);
                        }
                        done.push(c);
                        proof {
                            assert(completions_view(done@) =~= completions_view(d0).push(completion_of(t0)->0));
                        }
                        t.pending_completion = false;
                    },
                    _ => {},
                }
            }
            proof {
                assert(t == polled(t0));
                reveal(Seq::filter);
                let m = before.take(i + 1).map_values(|t: Task| polled(t));
                assert(m.drop_last() =~= before.take(i).map_values(|t: Task| polled(t)));
                assert(m.last() == polled(t0));
            }
            if !t.is_finalized {
                kept.push(t);
            }
            proof {
                i = i + 1;
            }
        }
        proof {
            assert(before.take(i) =~= before);
        }
        self.tasks = kept;
        done
    }
}

/// The names and paths of files, as the contracts see them.
pub open spec fn files_view(fs: Seq<(String, String)>) -> Seq<(Seq<char>, Seq<char>)> {
    Seq::new(fs.len(), |f: int| (fs[f].0@, fs[f].1@))
}

/// Completions as the contracts see them: the event and the named files.
pub open spec fn completions_view(cs: Seq<Completion>) -> Seq<(u128, Seq<(Seq<char>, Seq<char>)>)> {
    Seq::new(cs.len(), |k: int| (cs[k].source_event_id, files_view(cs[k].files@)))
}

/// What task `t` gives when it is complete and waits to be brought in.
pub open spec fn completion_of(t: Task) -> Option<(u128, Seq<(Seq<char>, Seq<char>)>)> {
    if t.pending_completion {
        match (t.status, t.extra_data) {
            (TaskStatus::Complete(res), TaskExtraData::Htdemucs { source_event_id }) => Some(
                (source_event_id, result_files(res)),
            ),
            _ => None,
        }
    } else {
        None
    }
}

/// What the tasks `ts` give, in order.
pub open spec fn completions_of(ts: Seq<Task>) -> Seq<(u128, Seq<(Seq<char>, Seq<char>)>)>
    decreases ts.len(),
{
    if ts.len() == 0 {
        Seq::empty()
    } else {
        match completion_of(ts.last()) {
            Some(c) => completions_of(ts.drop_last()).push(c),
            None => completions_of(ts.drop_last()),
        }
    }
}

/// What the worker sends.
pub enum WorkerMessage {
    /// The models that can be downloaded.
    DlModelsList(Vec<ModelInfo>),
    /// How a model download goes.
    JobStatus(u128, JobStatus),
    /// The models on disk.
    ModelsList(Vec<ModelInfo>),
    /// A task's result.
    TaskResult(u128, TaskResult),
    /// How a task goes, with its progress.
    TaskInfo(u128, TaskInfoStatus, u32),
}

/// Hands a message of the worker to the models or the tasks it is about.
pub fn route_worker_message(models: &mut ModelManager, tasks: &mut TaskManager, msg: WorkerMessage) -> (r: Result<
    (),
    UiError,
>)
    ensures
        match msg {
            WorkerMessage::DlModelsList(_) => r is Ok && !final(models).is_loading_dl_models_list && *final(tasks) == *old(tasks),
            WorkerMessage::ModelsList(_) => r is Ok && !final(models).is_loading_models_list && *final(tasks) == *old(tasks),
            WorkerMessage::JobStatus(id, _) => *final(tasks) == *old(tasks) && (r is Ok <==> model_index(
                old(models).models@,
                id,
            ) is Some),
            WorkerMessage::TaskResult(id, _) => *final(models) == *old(models) && (r is Ok <==> task_index(
                old(tasks).tasks@,
                id,
            ) is Some),
            WorkerMessage::TaskInfo(id, _, _) => *final(models) == *old(models) && (r is Ok <==> task_index(
                old(tasks).tasks@,
                id,
            ) is Some),
        },
{
    match msg {
        WorkerMessage::DlModelsList(list) => {
            models.recv_dl_models_list(list);
            Ok(())
        },
        WorkerMessage::JobStatus(id, status) => models.recv_job_status(id, status),
        WorkerMessage::ModelsList(list) => {
            models.recv_models_list(list);
            Ok(())
        },
        WorkerMessage::TaskResult(id, result) => tasks.recv_task_result(id, result),
        WorkerMessage::TaskInfo(id, status, progress) => tasks.recv_task_info(id, status, progress),
    }
}

/// The models of a given type, for a choice list: identifier and name.
pub open spec fn of_type(ms: Seq<Model>, t: Seq<char>) -> Seq<(u128, Seq<char>)>
    decreases ms.len(),
{
    if ms.len() == 0 {
        Seq::empty()
    } else if ms.last().model_type@ == t {
        of_type(ms.drop_last(), t).push((ms.last().id, ms.last().name@))
    } else {
        of_type(ms.drop_last(), t)
    }
}

impl ModelManager {
    /// The models of type `model_type` to choose from, once the models are
    /// known.
    pub fn models_of_type(&self, model_type: &str) -> (r: Vec<(u128, String)>)
        ensures
            self.is_loading_models_list || self.is_loading_dl_models_list ==> r@.len() == 0,
            !self.is_loading_models_list && !self.is_loading_dl_models_list ==> r@.len() == of_type(
                self.models@,
                model_type@,
            ).len() && forall|i: int| 0 <= i < r@.len() ==> (#[trigger] r@[i]).0 == of_type(self.models@, model_type@)[i].0
                && r@[i].1@ == of_type(self.models@, model_type@)[i].1,
    {
        let mut r: Vec<(u128, String)> = Vec::new();
        if self.is_loading_models_list || self.is_loading_dl_models_list {
            return r;
        }
        let mut i: usize = 0;
        while i < self.models.len()
            invariant
                0 <= i <= self.models@.len(),
                r@.len() == of_type(self.models@.take(i as int), model_type@).len(),
                forall|k: int| 0 <= k < r@.len() ==> (#[trigger] r@[k]).0 == of_type(self.models@.take(i as int), model_type@)[k].0
                    && r@[k].1@ == of_type(self.models@.take(i as int), model_type@)[k].1,
            decreases self.models@.len() - i,
        {
            proof {
                assert(self.models@.take(i + 1).drop_last() =~= self.models@.take(i as int));
                assert(self.models@.take(i + 1).last() == self.models@[i as int]);
            }
            if crate::text::same_text(self.models[i].model_type.as_str(), model_type) {
                r.push((self.models[i].id, self.models[i].name.clone()));
            }
            i = i + 1;
        }
        proof {
            assert(self.models@.take(self.models@.len() as int) =~= self.models@);
        }
        r
    }

    /// The model chosen in a choice list, by identifier (0 for none): its
    /// identifier and name, once the models are known and it is one of
    /// them.
    pub fn model_selection(&self, current: u128) -> (r: Option<(u128, String)>)
        ensures
            match r {
                Some((id, name)) => !self.is_loading_models_list && !self.is_loading_dl_models_list && current != 0
                    && (model_index(self.models@, current) matches Some(i) && id == current && name@ == self.models@[i].name@),
                None => self.is_loading_models_list || self.is_loading_dl_models_list || current == 0
                    || model_index(self.models@, current) is None,
            },
    {
        if self.is_loading_models_list || self.is_loading_dl_models_list || current == 0 {
            return None;
        }
        match find_model(&self.models, current) {
            Some(i) => Some((current, self.models[i].name.clone())),
            None => None,
        }
    }
}

/// What starting the worker does.
#[derive(Debug, Clone, Copy, PartialEq, Eq, Structural)]
pub enum WorkerStart {
    /// The worker runs already: nothing is done.
    AlreadyRunning,
    /// The worker has stopped: its instance is shut down and a new one
    /// started.
    StopThenStart,
    /// There is no worker yet: one is started.
    Start,
}

/// Decides how to start the worker, given whether there is an instance and
/// whether its process still runs.
pub fn worker_start_action(has_instance: bool, running: bool) -> (a: WorkerStart)
    ensures
        a == (if !has_instance {
            WorkerStart::Start
        } else if running {
            WorkerStart::AlreadyRunning
        } else {
            WorkerStart::StopThenStart
        }),
{
    if has_instance {
        if running {
            WorkerStart::AlreadyRunning
        } else {
            WorkerStart::StopThenStart
        }
    } else {
        WorkerStart::Start
    }
}

/// The name of the worker's program: with `.exe` on Windows.
pub fn exe_name(windows: bool) -> (s: &'static str)
    ensures
        s@ == (if windows { "ksng-ml.exe"@ } else { "ksng-ml"@ }),
{
    if windows {
        "ksng-ml.exe"
    } else {
        "ksng-ml"
    }
}

/// How `size` writes a number of bytes in base-10 units, abbreviated.
pub uninterp spec fn size_text(bytes: u64) -> Seq<char>;

/// A number of bytes as a person reads it, such as "1.29 GB".
///
/// Wraps `size::Size::from_bytes` and the `Display` of `Size::format` with
/// `Base::Base10` and `Style::Abbreviated`. The contract names the result
/// after the number and says nothing more of it.
#[verifier::external_body]
fn format_size(bytes: u64) -> (s: String)
    ensures
        s@ == size_text(bytes),
{
    size::Size::from_bytes(bytes).format().with_base(size::Base::Base10).with_style(size::Style::Abbreviated).to_string()
}

/// The status column of a model: a word, or a progress bar over the bytes
/// downloaded.
pub enum StatusCell {
    Text(String),
    Progress { downloaded: u64, total: u64 },
}

/// A row of the list of models.
pub struct ModelRow {
    pub name: String,
    pub model_type: String,
    pub size: String,
    pub status: StatusCell,
}

/// The row of the list of models for `m`.
pub fn model_row(m: &Model) -> (r: ModelRow)
    ensures
        r.name@ == m.name@,
        r.model_type@ == m.model_type@,
        r.size@ == size_text(m.size),
        match m.download_status {
            ModelDownloadStatus::NotDownloaded => r.status matches StatusCell::Text(t) && t@ == "Not Downloaded"@,
            ModelDownloadStatus::Downloaded => r.status matches StatusCell::Text(t) && t@ == "Downloaded"@,
            ModelDownloadStatus::Downloading { downloaded, total } => r.status == StatusCell::Progress {
                downloaded,
                total,
            },
            ModelDownloadStatus::Failed(_) => r.status matches StatusCell::Text(t) && t@ == "Failed"@,
        },
{
    let status = match &m.download_status {
        ModelDownloadStatus::NotDownloaded => StatusCell::Text("Not Downloaded".to_string()),
        ModelDownloadStatus::Downloaded => StatusCell::Text("Downloaded".to_string()),
        ModelDownloadStatus::Downloading { downloaded, total } => StatusCell::Progress {
            downloaded: *downloaded,
            total: *total,
        },
        ModelDownloadStatus::Failed(_) => StatusCell::Text("Failed".to_string()),
    };
    ModelRow { name: m.name.clone(), model_type: m.model_type.clone(), size: format_size(m.size), status }
}

/// The models tab: which model is selected.
pub struct ModelsTab {
    pub selected_model: Option<u128>,
}

impl ModelsTab {
    pub fn new() -> (t: ModelsTab)
        ensures
            t.selected_model is None,
    {
        ModelsTab { selected_model: None }
    }

    /// A click on the row of model `id`.
    pub fn click(&mut self, id: u128)
        ensures
            final(self).selected_model == Some(id),
    {
        self.selected_model = Some(id);
    }

    /// The index of the selected model among the known ones, once they are
    /// known.
    pub fn selected_index(&self, models: &ModelManager) -> (r: Option<usize>)
        ensures
            match r {
                Some(i) => !models.is_loading_models_list && !models.is_loading_dl_models_list
                    && (self.selected_model matches Some(id) && model_index(models.models@, id) == Some(i as int)),
                None => models.is_loading_models_list || models.is_loading_dl_models_list || self.selected_model is None
                    || model_index(models.models@, self.selected_model->0) is None,
            },
    {
        match self.selected_model {
            None => None,
            Some(id) => {
                if models.is_loading_models_list || models.is_loading_dl_models_list {
                    return None;
                }
                find_model(&models.models, id)
            },
        }
    }
}

} // verus!
