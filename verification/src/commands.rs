use vstd::prelude::*;

use crate::context::EditorContext;
use crate::flags::UpdateFlags;
use crate::ui_event::UiError;

verus! {

/// An edit of the project that the user can undo and redo.
pub trait Command: Sized {
    /// Whether the command goes on the undo stack once done.
    spec fn spec_can_undo(&self) -> bool;

    fn can_undo(&self) -> (b: bool)
        ensures
            b == self.spec_can_undo(),
    ;

    /// What the undo and redo menu entries call the command.
    spec fn spec_description(&self) -> Seq<char>;

    fn description(&self) -> (s: String)
        ensures
            s@ == self.spec_description(),
    ;

    /// The bits of what the command changes, so that the editor can catch up.
    spec fn spec_update_flags(&self) -> u32;

    fn update_flags(&self) -> (f: UpdateFlags)
        ensures
            f.0 == self.spec_update_flags(),
    ;

    /// What `execute` does: the command run on `app` gives `r` and leaves
    /// the command as `after` and the editor as `app_after`.
    spec fn spec_execute(&self, app: EditorContext, r: Result<(), UiError>, after: Self, app_after: EditorContext) -> bool;

    /// What `undo` does, in the same terms.
    spec fn spec_undo(&self, app: EditorContext, r: Result<(), UiError>, after: Self, app_after: EditorContext) -> bool;

    /// Does the command.
    fn execute(&mut self, app: &mut EditorContext) -> (r: Result<(), UiError>)
        requires
            old(app).selection.wf(),
        ensures
            final(app).selection.wf(),
            final(self).spec_can_undo() == old(self).spec_can_undo(),
            final(self).spec_description() == old(self).spec_description(),
            old(self).spec_execute(*old(app), r, *final(self), *final(app)),
    ;

    /// Undoes the command.
    fn undo(&mut self, app: &mut EditorContext) -> (r: Result<(), UiError>)
        requires
            old(app).selection.wf(),
        ensures
            final(app).selection.wf(),
            final(self).spec_can_undo() == old(self).spec_can_undo(),
            final(self).spec_description() == old(self).spec_description(),
            old(self).spec_undo(*old(app), r, *final(self), *final(app)),
    ;
}

/// How many of `cmds` go on the undo stack.
pub open spec fn count_undoable<C: Command>(cmds: Seq<C>) -> nat
    decreases cmds.len(),
{
    if cmds.len() == 0 {
        0
    } else {
        count_undoable(cmds.drop_last()) + if cmds.last().spec_can_undo() {
            1nat
        } else {
            0nat
        }
    }
}

/// The three lists a dispatcher keeps: commands waiting to run, the undo
/// stack and the redo stack (tops last).
pub struct DispatcherView<C> {
    pub queue: Seq<C>,
    pub undo: Seq<C>,
    pub redo: Seq<C>,
}

/// Runs commands and keeps their history.
pub struct CommandDispatcher<C> {
    queue: std::collections::VecDeque<C>,
    undo_queue: Vec<C>,
    redo_queue: Vec<C>,
}

/// The history after `process` ran the queue `a.queue` to the end.
pub open spec fn processed_all<C: Command>(a: DispatcherView<C>, b: DispatcherView<C>) -> bool {
    &&& b.queue.len() == 0
    &&& b.undo.len() == a.undo.len() + count_undoable(a.queue)
    &&& b.undo.take(a.undo.len() as int) == a.undo
    &&& b.redo == if a.queue.len() > 0 {
        Seq::<C>::empty()
    } else {
        a.redo
    }
}

/// The history after `process` stopped at the `k`-th queued command, which
/// failed and is dropped.
pub open spec fn processed_failing_at<C: Command>(a: DispatcherView<C>, b: DispatcherView<C>, k: int) -> bool {
    &&& 0 <= k < a.queue.len()
    &&& b.queue == a.queue.skip(k + 1)
    &&& b.undo.len() == a.undo.len() + count_undoable(a.queue.take(k))
    &&& b.undo.take(a.undo.len() as int) == a.undo
    &&& b.redo == a.redo
}

/// The history after undoing its last command; `ok` says whether the undo
/// succeeded. A command whose undo fails is dropped.
pub open spec fn undone<C: Command>(a: DispatcherView<C>, b: DispatcherView<C>, ok: bool) -> bool {
    &&& b.queue == a.queue
    &&& if a.undo.len() == 0 {
        ok && b.undo == a.undo && b.redo == a.redo
    } else {
        &&& b.undo == a.undo.drop_last()
        &&& ok ==> b.redo.len() == a.redo.len() + 1 && b.redo.drop_last() == a.redo
            && b.redo.last().spec_can_undo() == a.undo.last().spec_can_undo()
            && b.redo.last().spec_description() == a.undo.last().spec_description()
        &&& !ok ==> b.redo == a.redo
    }
}

/// The history after redoing its last undone command; `ok` says whether it
/// succeeded. A command that fails is dropped.
pub open spec fn redone<C: Command>(a: DispatcherView<C>, b: DispatcherView<C>, ok: bool) -> bool {
    &&& b.queue == a.queue
    &&& if a.redo.len() == 0 {
        ok && b.undo == a.undo && b.redo == a.redo
    } else {
        &&& b.redo == a.redo.drop_last()
        &&& ok ==> b.undo.len() == a.undo.len() + 1 && b.undo.drop_last() == a.undo
            && b.undo.last().spec_can_undo() == a.redo.last().spec_can_undo()
            && b.undo.last().spec_description() == a.redo.last().spec_description()
        &&& !ok ==> b.undo == a.undo
    }
}

/// Records in `app` what `flags` ask for: a project edit marks the project
/// as changed and measures it again, and every flag is kept for the views to
/// act on.
/// Whether `after` is `before` once the flags `flags` of a command are
/// recorded: a project edit marks the project as changed and measures it
/// again, and every flag is kept for the views to act on.
pub open spec fn flags_recorded(before: EditorContext, after: EditorContext, flags: u32) -> bool {
    &&& after.selection == before.selection
    &&& after.event_queue == before.event_queue
    &&& after.refresh.0 == before.refresh.0 | flags
    &&& UpdateFlags(flags).has_flag_spec(UpdateFlags(1)) ==> (after.project matches Some(p) ==> p.dirty
        && p.length == crate::project::tracks_length(p.file.tracks@))
    &&& UpdateFlags(flags).has_flag_spec(UpdateFlags(1)) ==> (after.project is Some <==> before.project is Some)
    &&& !UpdateFlags(flags).has_flag_spec(UpdateFlags(1)) ==> after.project == before.project
}

pub fn apply_flags(flags: UpdateFlags, app: &mut EditorContext)
    ensures
        flags_recorded(*old(app), *final(app), flags.0),
{
    if flags.has_flag(UpdateFlags::make_dirty()) {
        app.set_dirty_state(true);
        if let Some(project) = &mut app.project {
            project.length = project.file.calculate_length();
        }
    }
    app.refresh = app.refresh | flags;
}

/// A successful undo, from history `a` and editor `app` to history `b` and
/// editor `app2`: with nothing to undo nothing changes; otherwise the top
/// command's own undo ran once on `app`, leaving the command as it now
/// stands on top of the redo stack, and then its flags were recorded.
pub open spec fn undo_step<C: Command>(a: DispatcherView<C>, b: DispatcherView<C>, app: EditorContext, app2: EditorContext) -> bool {
    &&& undone(a, b, true)
    &&& a.undo.len() == 0 ==> app2 == app
    &&& a.undo.len() > 0 ==> exists|mid: EditorContext|
        #[trigger] a.undo.last().spec_undo(app, Ok(()), b.redo.last(), mid)
            && flags_recorded(mid, app2, b.redo.last().spec_update_flags())
}

/// A successful redo, in the same terms: the top command of the redo stack
/// ran its own `execute` once on `app`, leaving the command as it now stands
/// on top of the undo stack, and then its flags were recorded.
pub open spec fn redo_step<C: Command>(a: DispatcherView<C>, b: DispatcherView<C>, app: EditorContext, app2: EditorContext) -> bool {
    &&& redone(a, b, true)
    &&& a.redo.len() == 0 ==> app2 == app
    &&& a.redo.len() > 0 ==> exists|mid: EditorContext|
        #[trigger] a.redo.last().spec_execute(app, Ok(()), b.undo.last(), mid)
            && flags_recorded(mid, app2, b.undo.last().spec_update_flags())
}

impl<C: Command> CommandDispatcher<C> {
    pub closed spec fn view(&self) -> DispatcherView<C> {
        DispatcherView { queue: self.queue@, undo: self.undo_queue@, redo: self.redo_queue@ }
    }

    /// No commands and no history.
    pub fn new() -> (d: Self)
        ensures
            d.view().queue.len() == 0,
            d.view().undo.len() == 0,
            d.view().redo.len() == 0,
    {
        CommandDispatcher {
            queue: std::collections::VecDeque::new(),
            undo_queue: Vec::new(),
            redo_queue: Vec::new(),
        }
    }

    /// Queues `command` to run at the next `process`.
    pub fn dispatch(&mut self, command: C)
        ensures
            final(self).view().queue == old(self).view().queue.push(command),
            final(self).view().undo == old(self).view().undo,
            final(self).view().redo == old(self).view().redo,
    {
        self.queue.push_back(command);
    }

    /// Runs the queued commands in order. Each one that succeeds has its
    /// flags applied and, if it can be undone, goes on the undo stack; once
    /// any has run, the redo stack is emptied. The first failure stops the
    /// run: that command is dropped and the rest stay queued.
    pub fn process(&mut self, app: &mut EditorContext) -> (r: Result<(), UiError>)
        requires
            old(app).selection.wf(),
        ensures
            final(app).selection.wf(),
            r is Ok ==> processed_all(old(self).view(), final(self).view()),
            r is Err ==> exists|k: int| processed_failing_at(old(self).view(), final(self).view(), k),
    {
        let ghost q0 = self.queue@;
        let ghost u0 = self.undo_queue@;
        let ghost r0 = self.redo_queue@;
        let ghost a = self.view();
        let mut did_command = false;
        let ghost mut k: int = 0;
        loop
            invariant
                0 <= k <= q0.len(),
                a == (DispatcherView { queue: q0, undo: u0, redo: r0 }),
                a == old(self).view(),
                app.selection.wf(),
                self.queue@ == q0.skip(k),
                self.undo_queue@.len() == u0.len() + count_undoable(q0.take(k)),
                self.undo_queue@.take(u0.len() as int) == u0,
                self.redo_queue@ == r0,
                did_command == (k > 0),
            ensures
                k == q0.len(),
                self.queue@.len() == 0,
                app.selection.wf(),
                self.undo_queue@.len() == u0.len() + count_undoable(q0),
                self.undo_queue@.take(u0.len() as int) == u0,
                self.redo_queue@ == r0,
                did_command == (k > 0),
            decreases q0.len() - k,
        {
            let next = self.queue.pop_front();
            match next {
                None => {
                    proof {
                        assert(q0.take(k) == q0);
                    }
                    break;
                },
                Some(mut command) => {
                    proof {
                        assert(q0.skip(k)[0] == q0[k]);
                        assert(q0.skip(k).drop_first() == q0.skip(k + 1));
                        assert(q0.take(k + 1).drop_last() == q0.take(k));
                        assert(q0.take(k + 1).last() == q0[k]);
                    }
                    match command.execute(app) {
                        Ok(()) => {},
                        Err(e) => {
                            assert(processed_failing_at(a, self.view(), k));
                            assert(a == old(self).view());
                            assert(exists|j: int| processed_failing_at(old(self).view(), self.view(), j));
                            return Err(e);
                        },
                    }
                    apply_flags(command.update_flags(), app);
                    let ghost u = self.undo_queue@;
                    if command.can_undo() {
                        self.undo_queue.push(command);
                        assert(self.undo_queue@.take(u0.len() as int) =~= u.take(u0.len() as int));
                    }
                    did_command = true;
                    proof {
                        k = k + 1;
                    }
                },
            }
        }
        if did_command {
            self.redo_queue.clear();
        }
        assert(processed_all(a, self.view()));
        Ok(())
    }

    /// The description of the command that `undo` would undo.
    pub fn undo_description(&self) -> (d: Option<String>)
        ensures
            d is Some <==> self.view().undo.len() > 0,
            d matches Some(t) ==> t@ == self.view().undo.last().spec_description(),
    {
        if self.undo_queue.len() > 0 {
            Some(self.undo_queue[self.undo_queue.len() - 1].description())
        } else {
            None
        }
    }

    /// The description of the command that `redo` would redo.
    pub fn redo_description(&self) -> (d: Option<String>)
        ensures
            d is Some <==> self.view().redo.len() > 0,
            d matches Some(t) ==> t@ == self.view().redo.last().spec_description(),
    {
        if self.redo_queue.len() > 0 {
            Some(self.redo_queue[self.redo_queue.len() - 1].description())
        } else {
            None
        }
    }

    /// Undoes the last command done, which then goes on the redo stack.
    pub fn undo(&mut self, app: &mut EditorContext) -> (r: Result<(), UiError>)
        requires
            old(app).selection.wf(),
        ensures
            final(app).selection.wf(),
            undone(old(self).view(), final(self).view(), r is Ok),
            r is Ok ==> undo_step(old(self).view(), final(self).view(), *old(app), *final(app)),
            old(self).view().undo.len() > 0 && r is Err ==> exists|c: C|
                #[trigger] old(self).view().undo.last().spec_undo(*old(app), r, c, *final(app)),
    {
        let ghost before = *app;
        match self.undo_queue.pop() {
            None => Ok(()),
            Some(mut command) => {
                let res = command.undo(app);
                let ghost mid = *app;
                assert(old(self).view().undo.last().spec_undo(before, res, command, mid));
                if res.is_err() {
                    return res;
                }
                apply_flags(command.update_flags(), app);
                let ghost r = self.redo_queue@;
                let ghost cmd = command;
                self.redo_queue.push(command);
                assert(self.redo_queue@.drop_last() =~= r);
                assert(self.view().redo.last() == cmd);
                assert(res is Ok);
                assert(res == Ok::<(), UiError>(res->Ok_0));
                assert(res->Ok_0 == ());
                assert(old(self).view().undo.last().spec_undo(before, Ok(()), self.view().redo.last(), mid));
                assert(flags_recorded(mid, *app, self.view().redo.last().spec_update_flags()));
                res
            },
        }
    }

    /// Does again the last command undone, which then goes back on the undo
    /// stack.
    pub fn redo(&mut self, app: &mut EditorContext) -> (r: Result<(), UiError>)
        requires
            old(app).selection.wf(),
        ensures
            final(app).selection.wf(),
            redone(old(self).view(), final(self).view(), r is Ok),
            r is Ok ==> redo_step(old(self).view(), final(self).view(), *old(app), *final(app)),
            old(self).view().redo.len() > 0 && r is Err ==> exists|c: C|
                #[trigger] old(self).view().redo.last().spec_execute(*old(app), r, c, *final(app)),
    {
        let ghost before = *app;
        match self.redo_queue.pop() {
            None => Ok(()),
            Some(mut command) => {
                let res = command.execute(app);
                let ghost mid = *app;
                assert(old(self).view().redo.last().spec_execute(before, res, command, mid));
                if res.is_err() {
                    return res;
                }
                apply_flags(command.update_flags(), app);
                let ghost u = self.undo_queue@;
                let ghost cmd = command;
                self.undo_queue.push(command);
                assert(self.undo_queue@.drop_last() =~= u);
                assert(self.view().undo.last() == cmd);
                assert(res is Ok);
                assert(res == Ok::<(), UiError>(res->Ok_0));
                assert(res->Ok_0 == ());
                assert(old(self).view().redo.last().spec_execute(before, Ok(()), self.view().undo.last(), mid));
                assert(flags_recorded(mid, *app, self.view().undo.last().spec_update_flags()));
                res
            },
        }
    }
}

/// Undoing a command and redoing it brings the history back: the undo stack
/// has the same commands below its top and, on top, the same command as the
/// menus name it, and the redo stack is as it was.
pub proof fn lemma_undo_then_redo<C: Command>(a: DispatcherView<C>, b: DispatcherView<C>, c: DispatcherView<C>)
    requires
        a.undo.len() > 0,
        undone(a, b, true),
        redone(b, c, true),
    ensures
        c.undo.len() == a.undo.len(),
        c.undo.drop_last() == a.undo.drop_last(),
        c.undo.last().spec_can_undo() == a.undo.last().spec_can_undo(),
        c.undo.last().spec_description() == a.undo.last().spec_description(),
        c.redo == a.redo,
        c.queue == a.queue,
{
}

/// Redoing a command and undoing it brings the history back in the same
/// way.
pub proof fn lemma_redo_then_undo<C: Command>(a: DispatcherView<C>, b: DispatcherView<C>, c: DispatcherView<C>)
    requires
        a.redo.len() > 0,
        redone(a, b, true),
        undone(b, c, true),
    ensures
        c.redo.len() == a.redo.len(),
        c.redo.drop_last() == a.redo.drop_last(),
        c.redo.last().spec_can_undo() == a.redo.last().spec_can_undo(),
        c.redo.last().spec_description() == a.redo.last().spec_description(),
        c.undo == a.undo,
        c.queue == a.queue,
{
}

/// Running any command empties the redo stack: nothing undone before a new
/// edit can be redone after it.
pub proof fn lemma_new_edit_clears_redo<C: Command>(a: DispatcherView<C>, b: DispatcherView<C>)
    requires
        a.queue.len() > 0,
        processed_all(a, b),
    ensures
        b.redo.len() == 0,
{
}

/// Undoing and then redoing, both successfully: the undo ran the top
/// command's own undo once on the editor as it was, which put that command
/// on the redo stack (so the redo entry of the menu names it, and the undo
/// entry names the command below); the redo then ran that same command's
/// own `execute` once on the editor as the undo left it. Afterwards the
/// command is back on top of the undo stack, above the same commands, and
/// the redo stack is as it was.
pub proof fn lemma_undo_then_redo_runs<C: Command>(
    a: DispatcherView<C>,
    b: DispatcherView<C>,
    c: DispatcherView<C>,
    app0: EditorContext,
    app1: EditorContext,
    app2: EditorContext,
)
    requires
        a.undo.len() > 0,
        undo_step(a, b, app0, app1),
        redo_step(b, c, app1, app2),
    ensures
        b.undo == a.undo.drop_last(),
        b.redo.len() == a.redo.len() + 1,
        b.redo.last().spec_description() == a.undo.last().spec_description(),
        c.undo.len() == a.undo.len(),
        c.undo.drop_last() == a.undo.drop_last(),
        c.redo == a.redo,
        c.queue == a.queue,
        exists|m1: EditorContext, m2: EditorContext|
            #[trigger] a.undo.last().spec_undo(app0, Ok(()), b.redo.last(), m1) && flags_recorded(
                m1,
                app1,
                b.redo.last().spec_update_flags(),
            ) && #[trigger] b.redo.last().spec_execute(app1, Ok(()), c.undo.last(), m2) && flags_recorded(
                m2,
                app2,
                c.undo.last().spec_update_flags(),
            ),
{
    let m1 = choose|mid: EditorContext|
        #[trigger] a.undo.last().spec_undo(app0, Ok(()), b.redo.last(), mid)
            && flags_recorded(mid, app1, b.redo.last().spec_update_flags());
    let m2 = choose|mid: EditorContext|
        #[trigger] b.redo.last().spec_execute(app1, Ok(()), c.undo.last(), mid)
            && flags_recorded(mid, app2, c.undo.last().spec_update_flags());
    assert(a.undo.last().spec_undo(app0, Ok(()), b.redo.last(), m1));
    assert(b.redo.last().spec_execute(app1, Ok(()), c.undo.last(), m2));
}

} // verus!
