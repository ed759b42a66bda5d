use vstd::prelude::*;

use crate::ids::{id_string, id_text};
use crate::ui_event::UiError;

verus! {

/// A saved project as the list of projects shows it: its identifier, its
/// name, and when it was last saved, as whole seconds and nanoseconds.
pub struct ProjectEntry {
    pub id: u128,
    pub name: String,
    pub last_modified: (i64, u32),
}

/// The list of saved projects, the most recently saved first.
pub struct ProjectManifest {
    pub entries: Vec<ProjectEntry>,
}

/// A saved project as the contracts see it.
pub type EntryView = (u128, Seq<char>, (i64, u32));

/// Whether time `a` is after time `b`.
pub open spec fn later(a: (i64, u32), b: (i64, u32)) -> bool {
    a.0 > b.0 || (a.0 == b.0 && a.1 > b.1)
}

/// `x` placed into `s`, which is in order from the latest, after every
/// entry that is not earlier than it.
pub open spec fn insert_by_time(s: Seq<EntryView>, x: EntryView) -> Seq<EntryView>
    decreases s.len(),
{
    if s.len() == 0 {
        seq![x]
    } else if later(x.2, s[0].2) {
        seq![x] + s
    } else {
        seq![s[0]] + insert_by_time(s.skip(1), x)
    }
}

/// `s` in order from the latest; entries saved at the same time keep their
/// order.
pub open spec fn sort_by_time(s: Seq<EntryView>) -> Seq<EntryView>
    decreases s.len(),
{
    if s.len() == 0 {
        s
    } else {
        insert_by_time(sort_by_time(s.drop_last()), s.last())
    }
}

/// The entries of `s` that are not for project `id`.
pub open spec fn without(s: Seq<EntryView>, id: u128) -> Seq<EntryView> {
    s.filter(|e: EntryView| e.0 != id)
}

proof fn lemma_without_push(s: Seq<EntryView>, x: EntryView, id: u128)
    ensures
        without(s.push(x), id) == if x.0 != id {
            without(s, id).push(x)
        } else {
            without(s, id)
        },
{
    reveal(Seq::filter);
    let t = s.push(x);
    assert(t.drop_last() =~= s);
    assert(t.last() == x);
    assert(t.len() > 0);
    assert(without(t, id) == (if x.0 != id {
        without(t.drop_last(), id).push(x)
    } else {
        without(t.drop_last(), id)
    }));
}

/// Whether `s` is in order from the latest.
pub open spec fn latest_first(s: Seq<EntryView>) -> bool {
    forall|i: int, j: int| 0 <= i < j < s.len() ==> !later(s[j].2, s[i].2)
}

/// The entries after the project `id`, named `name`, is saved at `now`:
/// its entry is brought up to date, or added at the end.
pub open spec fn saved(s: Seq<EntryView>, id: u128, name: Seq<char>, now: (i64, u32)) -> Seq<EntryView> {
    match first_index(s, id) {
        Some(i) => s.update(i, (id, name, now)),
        None => s.push((id, name, now)),
    }
}

/// The index of the first entry of `s` for project `id`.
pub open spec fn first_index(s: Seq<EntryView>, id: u128) -> Option<int>
    decreases s.len(),
{
    if s.len() == 0 {
        None
    } else if s[0].0 == id {
        Some(0)
    } else {
        match first_index(s.skip(1), id) {
            Some(i) => Some(i + 1),
            None => None,
        }
    }
}

proof fn lemma_first_index(s: Seq<EntryView>, id: u128)
    ensures
        first_index(s, id) matches Some(i) ==> (0 <= i < s.len() && s[i].0 == id
            && forall|j: int| 0 <= j < i ==> s[j].0 != id),
        first_index(s, id) is None ==> forall|j: int| 0 <= j < s.len() ==> s[j].0 != id,
    decreases s.len(),
{
    if s.len() > 0 && s[0].0 != id {
        lemma_first_index(s.skip(1), id);
        assert forall|j: int| 1 <= j < s.len() implies s.skip(1)[j - 1] == s[j] by {}
    }
}

proof fn lemma_insert_sorted(s: Seq<EntryView>, x: EntryView)
    requires
        latest_first(s),
    ensures
        latest_first(insert_by_time(s, x)),
        insert_by_time(s, x).len() == s.len() + 1,
        insert_by_time(s, x).to_multiset() == s.to_multiset().insert(x),
    decreases s.len(),
{
    broadcast use vstd::seq_lib::group_to_multiset_ensures;
    if s.len() == 0 {
        assert(insert_by_time(s, x) == seq![x]);
        assert(seq![x] =~= s.push(x));
    } else if later(x.2, s[0].2) {
        let r = seq![x] + s;
        assert forall|i: int, j: int| 0 <= i < j < r.len() implies !later(r[j].2, r[i].2) by {
            if i == 0 {
                assert(r[j] == s[j - 1]);
                if j > 1 {
                    assert(!later(s[j - 1].2, s[0].2));
                }
            } else {
                assert(r[i] == s[i - 1] && r[j] == s[j - 1]);
            }
        }
        vstd::seq_lib::lemma_multiset_commutative(seq![x], s);
        assert(seq![x] =~= Seq::<EntryView>::empty().push(x));
    } else {
        let t = s.skip(1);
        assert forall|i: int, j: int| 0 <= i < j < t.len() implies !later(t[j].2, t[i].2) by {
            assert(t[i] == s[i + 1] && t[j] == s[j + 1]);
        }
        lemma_insert_sorted(t, x);
        let it = insert_by_time(t, x);
        let r = seq![s[0]] + it;
        assert forall|j: int| 0 <= j < it.len() implies !later(it[j].2, s[0].2) by {
            assert(it.to_multiset().count(it[j]) > 0);
            assert(t.to_multiset().insert(x).count(it[j]) > 0);
            if it[j] != x {
                assert(t.to_multiset().count(it[j]) > 0);
                assert(t.contains(it[j]));
                let k = choose|k: int| 0 <= k < t.len() && t[k] == it[j];
                assert(s[k + 1] == it[j]);
            }
        }
        assert forall|i: int, j: int| 0 <= i < j < r.len() implies !later(r[j].2, r[i].2) by {
            if i == 0 {
                assert(r[j] == it[j - 1]);
            } else {
                assert(r[i] == it[i - 1] && r[j] == it[j - 1]);
            }
        }
        vstd::seq_lib::lemma_multiset_commutative(seq![s[0]], it);
        vstd::seq_lib::lemma_multiset_commutative(seq![s[0]], t);
        assert(seq![s[0]] + t =~= s);
        assert(seq![s[0]] =~= Seq::<EntryView>::empty().push(s[0]));
    }
}

/// Ordering by time gives the entries in order from the latest, each as
/// often as before.
pub proof fn lemma_sort_by_time(s: Seq<EntryView>)
    ensures
        latest_first(sort_by_time(s)),
        sort_by_time(s).to_multiset() == s.to_multiset(),
    decreases s.len(),
{
    broadcast use vstd::seq_lib::group_to_multiset_ensures;
    if s.len() > 0 {
        lemma_sort_by_time(s.drop_last());
        lemma_insert_sorted(sort_by_time(s.drop_last()), s.last());
        assert(s.drop_last().push(s.last()) =~= s);
    }
}

/// No two entries are for the same project.
pub open spec fn ids_distinct(s: Seq<EntryView>) -> bool {
    forall|i: int, j: int| 0 <= i < j < s.len() ==> s[i].0 != s[j].0
}

proof fn lemma_ids_distinct_sorted(s: Seq<EntryView>)
    requires
        ids_distinct(s),
    ensures
        ids_distinct(sort_by_time(s)),
{
    broadcast use vstd::seq_lib::group_to_multiset_ensures;
    let r = sort_by_time(s);
    lemma_sort_by_time(s);
    assert(s.no_duplicates()) by {
        assert forall|i: int, j: int| 0 <= i < s.len() && 0 <= j < s.len() && i != j implies s[i] != s[j] by {
            if i < j {
                assert(s[i].0 != s[j].0);
            } else {
                assert(s[j].0 != s[i].0);
            }
        }
    }
    s.lemma_multiset_has_no_duplicates();
    r.lemma_multiset_has_no_duplicates_conv();
    assert forall|a: int, b: int| 0 <= a < b < r.len() implies r[a].0 != r[b].0 by {
        assert(r[a] != r[b]);
        assert(r.contains(r[a]));
        assert(r.contains(r[b]));
        assert(r.to_multiset().count(r[a]) > 0);
        assert(r.to_multiset().count(r[b]) > 0);
        assert(s.contains(r[a]));
        assert(s.contains(r[b]));
        let p = choose|p: int| 0 <= p < s.len() && s[p] == r[a];
        let q = choose|q: int| 0 <= q < s.len() && s[q] == r[b];
        if p < q {
            assert(s[p].0 != s[q].0);
        } else if q < p {
            assert(s[q].0 != s[p].0);
        }
    }
}

/// Saving a project and then reading the list back finds it under the name
/// and time it was saved with: when the list had one entry per project, it
/// still has, in order from the latest, and grows only by a project that
/// was not in it.
pub proof fn lemma_save_then_read(s: Seq<EntryView>, id: u128, name: Seq<char>, now: (i64, u32))
    requires
        ids_distinct(s),
    ensures
        ({
            let r = sort_by_time(saved(s, id, name, now));
            &&& ids_distinct(r)
            &&& latest_first(r)
            &&& first_index(r, id) matches Some(i) && r[i] == (id, name, now)
            &&& r.len() == if first_index(s, id) is Some {
                s.len()
            } else {
                s.len() + 1
            }
        }),
{
    broadcast use vstd::seq_lib::group_to_multiset_ensures;
    let x = (id, name, now);
    let sv = saved(s, id, name, now);
    lemma_first_index(s, id);
    assert(ids_distinct(sv)) by {
        assert forall|i: int, j: int| 0 <= i < j < sv.len() implies sv[i].0 != sv[j].0 by {
            if j == s.len() {
                assert(sv[i] == s[i]);
            }
        }
    }
    assert(sv.contains(x)) by {
        match first_index(s, id) {
            Some(i) => assert(sv[i] == x),
            None => assert(sv[s.len() as int] == x),
        }
    }
    lemma_sort_by_time(sv);
    lemma_ids_distinct_sorted(sv);
    let r = sort_by_time(sv);
    assert(sv.to_multiset().count(x) > 0);
    assert(r.contains(x));
    let k = choose|k: int| 0 <= k < r.len() && r[k] == x;
    lemma_first_index(r, id);
    match first_index(r, id) {
        Some(i) => {
            if i < k {
                assert(r[i].0 != r[k].0);
            } else if k < i {
                assert(r[k].0 != r[i].0);
            }
        },
        None => {
            assert(r[k].0 == id);
        },
    }
    assert(r.len() == sv.len()) by {
        assert(r.to_multiset().len() == sv.to_multiset().len());
    }
}

/// Removing a project and then reading it back finds nothing.
pub proof fn lemma_remove_then_read(s: Seq<EntryView>, id: u128)
    ensures
        first_index(without(s, id), id) is None,
{
    let w = without(s, id);
    lemma_first_index(w, id);
    if let Some(i) = first_index(w, id) {
        s.lemma_filter_pred(|e: EntryView| e.0 != id, i);
    }
}

impl ProjectManifest {
    pub open spec fn view(&self) -> Seq<EntryView> {
        Seq::new(self.entries@.len(), |i: int| {
            let e = self.entries@[i];
            (e.id, e.name@, e.last_modified)
        })
    }

    pub fn new() -> (m: ProjectManifest)
        ensures
            m.view().len() == 0,
    {
        ProjectManifest { entries: Vec::new() }
    }

    /// Records that the project `id` was saved at `now` under `name` (an
    /// empty name when it has none), and puts the entries in order from the
    /// latest; entries saved at the same time keep their order.
    pub fn record_save(&mut self, id: u128, name: &Option<String>, now: (i64, u32))
        ensures
            final(self).view() == sort_by_time(saved(old(self).view(), id, match name {
                Some(n) => n@,
                None => Seq::empty(),
            }, now)),
    {
        let n = match name {
            Some(n) => n.clone(),
            None => String::new(),
        };
        let ghost nv = n@;
        let ghost before = self.view();
        proof {
            lemma_first_index(before, id);
        }
        let mut i: usize = 0;
        while i < self.entries.len() && self.entries[i].id != id
            invariant
                before == self.view(),
                0 <= i <= self.entries@.len(),
                forall|j: int| 0 <= j < i ==> self.entries@[j].id != id,
            decreases self.entries@.len() - i,
        {
            i = i + 1;
        }
        let found = i < self.entries.len();
        let ghost next = saved(before, id, nv, now);
        if found {
            proof {
                lemma_first_index(before, id);
                if let Some(k) = first_index(before, id) {
                    if k < i {
                        assert(before[k].0 == self.entries@[k].id);
                        assert(self.entries@[k].id != id);
                    }
                    if k > i {
                        assert(before[i as int].0 != id);
                    }
                } else {
                    assert(before[i as int].0 == id);
                }
            }
            self.entries.set(i, ProjectEntry { id, name: n, last_modified: now });
            proof {
                assert(self.view() =~= next);
            }
        } else {
            proof {
                lemma_first_index(before, id);
                if let Some(k) = first_index(before, id) {
                    assert(before[k].0 == self.entries@[k].id);
                    assert(self.entries@[k].id != id);
                }
            }
            self.entries.push(ProjectEntry { id, name: n, last_modified: now });
            proof {
                assert(self.view() =~= next);
            }
        }
        self.sort_latest_first();
    }

    /// Puts the entries in order from the latest, keeping the order of
    /// entries saved at the same time.
    pub fn sort_latest_first(&mut self)
        ensures
            final(self).view() == sort_by_time(old(self).view()),
    {
        let ghost all = self.view();
        let mut out = ProjectManifest { entries: Vec::new() };
        let mut i: usize = 0;
        while i < self.entries.len()
            invariant
                all == self.view(),
                0 <= i <= all.len(),
                out.view() == sort_by_time(all.take(i as int)),
            decreases all.len() - i,
        {
            proof {
                assert(all.take(i + 1).drop_last() =~= all.take(i as int));
                assert(all.take(i + 1).last() == all[i as int]);
            }
            let e = self.entries[i].duplicate();
            out.insert_in_order(e);
            i = i + 1;
        }
        proof {
            assert(all.take(all.len() as int) == all);
        }
        self.entries = out.entries;
    }

    /// Places `e` after every entry that is not earlier than it.
    fn insert_in_order(&mut self, e: ProjectEntry)
        ensures
            final(self).view() == insert_by_time(old(self).view(), (e.id, e.name@, e.last_modified)),
    {
        let ghost s = self.view();
        let ghost x = (e.id, e.name@, e.last_modified);
        let mut p: usize = 0;
        while p < self.entries.len() && !later_than(e.last_modified, self.entries[p].last_modified)
            invariant
                s == self.view(),
                x == (e.id, e.name@, e.last_modified),
                0 <= p <= s.len(),
                forall|k: int| 0 <= k < p ==> !later(x.2, s[k].2),
            decreases s.len() - p,
        {
            p = p + 1;
        }
        proof {
            lemma_insert_at(s, x, p as int);
        }
        self.entries.insert(p, e);
        proof {
            assert(self.view() =~= s.insert(p as int, x));
        }
    }

    /// Drops the entries of project `id`.
    pub fn remove(&mut self, id: u128)
        ensures
            final(self).view() == without(old(self).view(), id),
    {
        let ghost before = self.view();
        let mut kept = ProjectManifest { entries: Vec::new() };
        let mut i: usize = 0;
        while i < self.entries.len()
            invariant
                before == self.view(),
                0 <= i <= before.len(),
                kept.view() == without(before.take(i as int), id),
            decreases before.len() - i,
        {
            proof {
                assert(before.take(i + 1).drop_last() =~= before.take(i as int));
                assert(before.take(i + 1).last() == before[i as int]);
                lemma_without_push(before.take(i as int), before[i as int], id);
                assert(before.take(i as int).push(before[i as int]) =~= before.take(i + 1));
            }
            if self.entries[i].id != id {
                let ghost k0 = kept.view();
                kept.entries.push(self.entries[i].duplicate());
                proof {
                    assert(kept.view() =~= k0.push(before[i as int]));
                }
            }
            i = i + 1;
        }
        proof {
            assert(before.take(before.len() as int) == before);
        }
        self.entries = kept.entries;
    }

    /// The identifier and name of the saved project `id`, or the error that
    /// it is missing.
    pub fn entry_for(&self, id: u128) -> (r: Result<(u128, String), UiError>)
        ensures
            match first_index(self.view(), id) {
                Some(i) => r matches Ok((eid, name)) && eid == id && name@ == self.view()[i].1,
                None => r matches Err(UiError::Io(m)) && m@ == "Missing project file "@ + id_text(id),
            },
    {
        proof {
            lemma_first_index(self.view(), id);
        }
        let mut i: usize = 0;
        while i < self.entries.len()
            invariant
                0 <= i <= self.entries@.len(),
                forall|j: int| 0 <= j < i ==> self.entries@[j].id != id,
            decreases self.entries@.len() - i,
        {
            if self.entries[i].id == id {
                proof {
                    lemma_first_index(self.view(), id);
                    if let Some(k) = first_index(self.view(), id) {
                        if k < i {
                            assert(self.entries@[k].id != id);
                        }
                        if k > i {
                            assert(self.view()[i as int].0 == id);
                        }
                    } else {
                        assert(self.view()[i as int].0 == id);
                    }
                }
                return Ok((id, self.entries[i].name.clone()));
            }
            i = i + 1;
        }
        proof {
            lemma_first_index(self.view(), id);
            if let Some(k) = first_index(self.view(), id) {
                assert(self.entries@[k].id != id);
            }
        }
        let mut m = "Missing project file ".to_string();
        m.append(id_string(id).as_str());
        Err(UiError::Io(m))
    }
}

/// The name of the directory that holds the saved project `id`: the
/// project's UUID, written out.
pub fn project_dir_name(id: u128) -> (s: String)
    ensures
        s@ == id_text(id),
{
    id_string(id)
}

impl ProjectEntry {
    pub fn duplicate(&self) -> (e: ProjectEntry)
        ensures
            e == *self,
    {
        ProjectEntry { id: self.id, name: self.name.clone(), last_modified: self.last_modified }
    }
}

fn later_than(a: (i64, u32), b: (i64, u32)) -> (r: bool)
    ensures
        r == later(a, b),
{
    a.0 > b.0 || (a.0 == b.0 && a.1 > b.1)
}

/// Placing `x` by time puts it at the first entry that it is later than.
proof fn lemma_insert_at(s: Seq<EntryView>, x: EntryView, p: int)
    requires
        0 <= p <= s.len(),
        forall|k: int| 0 <= k < p ==> !later(x.2, s[k].2),
        p < s.len() ==> later(x.2, s[p].2),
    ensures
        insert_by_time(s, x) == s.insert(p, x),
    decreases s.len(),
{
    if s.len() == 0 {
        assert(s.insert(p, x) =~= seq![x]);
    } else if p == 0 {
        assert(s.insert(0, x) =~= seq![x] + s);
    } else {
        let t = s.skip(1);
        assert forall|k: int| 0 <= k < p - 1 implies !later(x.2, t[k].2) by {
            assert(t[k] == s[k + 1]);
        }
        if p - 1 < t.len() {
            assert(t[p - 1] == s[p]);
        }
        lemma_insert_at(t, x, p - 1);
        assert(seq![s[0]] + t.insert(p - 1, x) =~= s.insert(p, x));
    }
}

} // verus!
