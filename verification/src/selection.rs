use vstd::prelude::*;

verus! {

/// The tracks and events that the user has selected. At any time either
/// kind may be selected, and selecting one kind drops the selection of the
/// other.
pub struct SelectionManager {
    selected_tracks: Vec<u128>,
    selected_events: Vec<u128>,
}

pub open spec fn no_duplicates(s: Seq<u128>) -> bool {
    forall|i: int, j: int| 0 <= i < s.len() && 0 <= j < s.len() && i != j ==> s[i] != s[j]
}

/// What selecting `id` does to the set `sel` it belongs in; `single` says
/// whether the rest of the selection is dropped.
pub open spec fn select_in(sel: Set<u128>, id: u128, single: bool) -> Set<u128> {
    if sel.contains(id) {
        if single {
            if sel.len() > 1 {
                set![id]
            } else {
                Set::empty()
            }
        } else {
            sel.remove(id)
        }
    } else if single {
        set![id]
    } else {
        sel.insert(id)
    }
}

/// What selecting `id` does to the selection of the other kind.
pub open spec fn select_other(sel: Set<u128>, id: u128, other: Set<u128>) -> Set<u128> {
    if sel.contains(id) {
        other
    } else {
        Set::empty()
    }
}

proof fn lemma_no_dup_len(s: Seq<u128>)
    requires
        no_duplicates(s),
    ensures
        s.to_set().len() == s.len(),
        s.to_set().finite(),
{
    s.unique_seq_to_set();
}

/// A list of identifiers without repeats is as long as its set.
pub proof fn lemma_selected_len(v: Seq<u128>, s: Set<u128>)
    requires
        no_duplicates(v),
        v.to_set() == s,
    ensures
        s.len() == v.len(),
{
    lemma_no_dup_len(v);
}

/// Finds `id` in `v`.
fn index_of(v: &Vec<u128>, id: u128) -> (r: Option<usize>)
    ensures
        r matches Some(i) ==> i < v@.len() && v@[i as int] == id,
        r is None ==> !v@.contains(id),
{
    let mut i: usize = 0;
    while i < v.len()
        invariant
            0 <= i <= v@.len(),
            forall|j: int| 0 <= j < i ==> v@[j] != id,
        decreases v@.len() - i,
    {
        if v[i] == id {
            return Some(i);
        }
        i = i + 1;
    }
    None
}

/// Removes `id`, present once, from `v`.
fn remove_id(v: &mut Vec<u128>, id: u128)
    requires
        no_duplicates(old(v)@),
    ensures
        no_duplicates(final(v)@),
        final(v)@.to_set() == old(v)@.to_set().remove(id),
        final(v)@.len() <= old(v)@.len(),
{
    match index_of(v, id) {
        None => {
            assert(final(v)@.to_set() =~= old(v)@.to_set().remove(id));
        },
        Some(i) => {
            let ghost s = v@;
            v.remove(i);
            assert(v@ =~= s.subrange(0, i as int) + s.subrange(i + 1, s.len() as int));
            assert forall|x: u128| v@.to_set().contains(x) <==> s.to_set().remove(id).contains(x) by {
                if v@.to_set().contains(x) {
                    let j = choose|j: int| 0 <= j < v@.len() && v@[j] == x;
                    if j < i {
                        assert(s[j] == x);
                    } else {
                        assert(s[j + 1] == x);
                    }
                }
                if s.to_set().remove(id).contains(x) {
                    let j = choose|j: int| 0 <= j < s.len() && s[j] == x;
                    if j < i {
                        assert(v@[j] == x);
                    } else {
                        assert(v@[j - 1] == x);
                    }
                }
            }
            assert(v@.to_set() =~= s.to_set().remove(id));
        },
    }
}

fn select_impl(id: u128, single: bool, selected: &mut Vec<u128>, other: &mut Vec<u128>)
    requires
        no_duplicates(old(selected)@),
        no_duplicates(old(other)@),
    ensures
        no_duplicates(final(selected)@),
        no_duplicates(final(other)@),
        final(selected)@.to_set() == select_in(old(selected)@.to_set(), id, single),
        final(other)@.to_set() == select_other(old(selected)@.to_set(), id, old(other)@.to_set()),
        old(selected)@.contains(id) ==> final(other)@ == old(other)@,
        !old(selected)@.contains(id) ==> final(other)@.len() == 0,
{
    proof {
        lemma_no_dup_len(selected@);
    }
    match index_of(selected, id) {
        Some(_) => {
            assert(old(selected)@.to_set().contains(id));
            if single {
                let was_multiple = selected.len() > 1;
                selected.clear();
                if was_multiple {
                    selected.push(id);
                    assert(selected@ =~= seq![id]);
                    assert(selected@.to_set() =~= set![id]) by {
                        assert(selected@[0] == id);
                    }
                } else {
                    assert(selected@.to_set() =~= Set::<u128>::empty());
                }
            } else {
                remove_id(selected, id);
            }
        },
        None => {
            if single {
                selected.clear();
            }
            let ghost s = selected@;
            selected.push(id);
            assert(selected@.to_set() =~= s.to_set().insert(id)) by {
                assert(selected@ == s.push(id));
                assert forall|x: u128| selected@.to_set().contains(x) <==> s.to_set().insert(id).contains(
                    x,
                ) by {
                    if selected@.to_set().contains(x) && x != id {
                        let j = choose|j: int| 0 <= j < selected@.len() && selected@[j] == x;
                        assert(s[j] == x);
                    }
                    if s.to_set().contains(x) {
                        let j = choose|j: int| 0 <= j < s.len() && s[j] == x;
                        assert(selected@[j] == x);
                    }
                    if x == id {
                        assert(selected@[s.len() as int] == x);
                    }
                }
            }
            other.clear();
            assert(other@.to_set() =~= Set::<u128>::empty());
        },
    }
}

fn copy_ids(v: &Vec<u128>) -> (r: Vec<u128>)
    ensures
        r@ == v@,
{
    let mut r: Vec<u128> = Vec::new();
    let mut i: usize = 0;
    while i < v.len()
        invariant
            0 <= i <= v@.len(),
            r@ == v@.take(i as int),
        decreases v@.len() - i,
    {
        r.push(v[i]);
        i = i + 1;
        assert(r@ =~= v@.take(i as int));
    }
    assert(v@.take(v@.len() as int) == v@);
    r
}

impl SelectionManager {
    pub closed spec fn wf(&self) -> bool {
        &&& no_duplicates(self.selected_tracks@)
        &&& no_duplicates(self.selected_events@)
        &&& (self.selected_tracks@.len() == 0 || self.selected_events@.len() == 0)
    }

    /// The selected tracks.
    pub closed spec fn tracks(&self) -> Set<u128> {
        self.selected_tracks@.to_set()
    }

    /// The selected events.
    pub closed spec fn events(&self) -> Set<u128> {
        self.selected_events@.to_set()
    }

    /// Nothing selected.
    pub fn new() -> (s: SelectionManager)
        ensures
            s.wf(),
            s.tracks() == Set::<u128>::empty(),
            s.events() == Set::<u128>::empty(),
    {
        let s = SelectionManager { selected_tracks: Vec::new(), selected_events: Vec::new() };
        assert(s.tracks() =~= Set::<u128>::empty());
        assert(s.events() =~= Set::<u128>::empty());
        s
    }

    /// Selects the track `id`, or toggles it if it is selected: with `single`
    /// the rest of the track selection is dropped (and a track that was the
    /// only one selected is deselected); selecting a track that was not
    /// selected drops the event selection.
    pub fn select_track(&mut self, id: u128, single: bool)
        requires
            old(self).wf(),
        ensures
            final(self).wf(),
            final(self).tracks() == select_in(old(self).tracks(), id, single),
            final(self).events() == select_other(old(self).tracks(), id, old(self).events()),
    {
        select_impl(id, single, &mut self.selected_tracks, &mut self.selected_events);
    }

    /// Selects the event `id`, or toggles it, in the same way as
    /// `select_track`; selecting an event that was not selected drops the
    /// track selection.
    pub fn select_event(&mut self, id: u128, single: bool)
        requires
            old(self).wf(),
        ensures
            final(self).wf(),
            final(self).events() == select_in(old(self).events(), id, single),
            final(self).tracks() == select_other(old(self).events(), id, old(self).tracks()),
    {
        select_impl(id, single, &mut self.selected_events, &mut self.selected_tracks);
    }

    pub fn is_track_selected(&self, track_id: u128) -> (b: bool)
        ensures
            b == self.tracks().contains(track_id),
    {
        index_of(&self.selected_tracks, track_id).is_some()
    }

    pub fn is_event_selected(&self, event_id: u128) -> (b: bool)
        ensures
            b == self.events().contains(event_id),
    {
        index_of(&self.selected_events, event_id).is_some()
    }

    /// The selected tracks, each once.
    pub fn selected_tracks(&self) -> (v: Vec<u128>)
        requires
            self.wf(),
        ensures
            v@.to_set() == self.tracks(),
            no_duplicates(v@),
    {
        copy_ids(&self.selected_tracks)
    }

    /// The selected events, each once.
    pub fn selected_events(&self) -> (v: Vec<u128>)
        requires
            self.wf(),
        ensures
            v@.to_set() == self.events(),
            no_duplicates(v@),
    {
        copy_ids(&self.selected_events)
    }

    pub fn clear(&mut self)
        ensures
            final(self).wf(),
            final(self).tracks() == Set::<u128>::empty(),
            final(self).events() == Set::<u128>::empty(),
    {
        self.selected_tracks.clear();
        self.selected_events.clear();
        assert(final(self).tracks() =~= Set::<u128>::empty());
        assert(final(self).events() =~= Set::<u128>::empty());
    }

    pub fn clear_events(&mut self)
        requires
            old(self).wf(),
        ensures
            final(self).wf(),
            final(self).tracks() == old(self).tracks(),
            final(self).events() == Set::<u128>::empty(),
    {
        self.selected_events.clear();
        assert(final(self).events() =~= Set::<u128>::empty());
    }

    pub fn clear_tracks(&mut self)
        requires
            old(self).wf(),
        ensures
            final(self).wf(),
            final(self).events() == old(self).events(),
            final(self).tracks() == Set::<u128>::empty(),
    {
        self.selected_tracks.clear();
        assert(final(self).tracks() =~= Set::<u128>::empty());
    }

    pub fn remove_track(&mut self, id: u128)
        requires
            old(self).wf(),
        ensures
            final(self).wf(),
            final(self).tracks() == old(self).tracks().remove(id),
            final(self).events() == old(self).events(),
    {
        remove_id(&mut self.selected_tracks, id);
    }

    pub fn remove_event(&mut self, id: u128)
        requires
            old(self).wf(),
        ensures
            final(self).wf(),
            final(self).events() == old(self).events().remove(id),
            final(self).tracks() == old(self).tracks(),
    {
        remove_id(&mut self.selected_events, id);
    }
}

/// Tracks and events are never selected at the same time.
pub proof fn lemma_selection_exclusive(s: SelectionManager)
    requires
        s.wf(),
    ensures
        s.tracks().len() == 0 || s.events().len() == 0,
{
    if s.selected_tracks@.len() == 0 {
        assert(s.tracks() =~= Set::<u128>::empty());
    } else {
        assert(s.events() =~= Set::<u128>::empty());
    }
}

/// Adding an item to a selection twice (the shift-click toggle) gives the
/// selection back.
pub proof fn lemma_toggle_twice(sel: Set<u128>, id: u128)
    ensures
        select_in(select_in(sel, id, false), id, false) == sel,
{
    if sel.contains(id) {
        assert(select_in(select_in(sel, id, false), id, false) =~= sel);
    } else {
        assert(select_in(select_in(sel, id, false), id, false) =~= sel);
    }
}

/// A plain click on an item that is not selected makes it the whole
/// selection of its kind and drops the other kind.
pub proof fn lemma_single_select_fresh(sel: Set<u128>, other: Set<u128>, id: u128)
    requires
        !sel.contains(id),
    ensures
        select_in(sel, id, true) == set![id],
        select_other(sel, id, other) == Set::<u128>::empty(),
{
}

/// Whatever is clicked, the item clicked is selected afterwards unless it
/// was already selected; it is never selected twice, and a selection of one
/// kind stays finite.
pub proof fn lemma_select_contains(sel: Set<u128>, id: u128, single: bool)
    requires
        sel.finite(),
    ensures
        !sel.contains(id) ==> select_in(sel, id, single).contains(id),
        sel.contains(id) ==> !select_in(sel, id, false).contains(id),
        select_in(sel, id, single).finite(),
{
}

} // verus!
