use vstd::prelude::*;

use crate::models::habit::DeletedHabit;
use crate::models::habit::coerced_quantum;
use crate::models::habit::defaulted_unit;
use crate::models::habit::Habit;
use crate::models::habit::HabitId;
use crate::models::habit::HabitView;
use crate::models::habit_draft::DraftView;
use crate::models::habit_draft::HabitDraft;
use crate::models::habit_draft::habit_of_draft;
use crate::models::habit_log::Date;
use crate::models::habit_log::HabitLog;
use crate::models::habit_log::LogView;
use crate::models::habit_patch::HabitPatch;
use crate::models::habit_patch::PatchView;
use crate::models::quantum::Quantum;
use crate::models::quantum::bits_gt_zero;

verus! {

/// The mathematical model of a habit store: the identifier counter and the
/// habits in insertion order.
pub ghost struct HabitStoreView {
    pub current_id: u32,
    pub habits: Seq<HabitView>,
}

/// The mathematical model of a log store: the entry-identifier counter and
/// the (entry id, entry) pairs in insertion order.
pub ghost struct LogStoreView {
    pub current_id: u32,
    pub entries: Seq<(u32, LogView)>,
}

/// A store is well-formed when every habit carries an identifier that was
/// issued (at least one, at most the counter) and identifiers strictly
/// increase in insertion order, so none repeats.
pub open spec fn habit_store_wf(v: HabitStoreView) -> bool {
    &&& forall|i: int|
        0 <= i < v.habits.len() ==> 1 <= (#[trigger] v.habits[i]).id <= v.current_id
    &&& forall|i: int, j: int|
        0 <= i < j < v.habits.len() ==> (#[trigger] v.habits[i]).id < (#[trigger] v.habits[j]).id
}

/// The same shape of well-formedness for the log store, over the entry ids.
pub open spec fn log_store_wf(v: LogStoreView) -> bool {
    &&& forall|i: int|
        0 <= i < v.entries.len() ==> 1 <= (#[trigger] v.entries[i]).0 <= v.current_id
    &&& forall|i: int, j: int|
        0 <= i < j < v.entries.len() ==> (#[trigger] v.entries[i]).0 < (#[trigger] v.entries[j]).0
}

/// The position of the first habit carrying `id`, or -1 when none does.
pub open spec fn first_habit_index(s: Seq<HabitView>, id: u32) -> int
    decreases s.len(),
{
    if s.len() == 0 {
        -1
    } else if s[0].id == id {
        0
    } else {
        let r = first_habit_index(s.drop_first(), id);
        if r < 0 {
            -1
        } else {
            r + 1
        }
    }
}

pub proof fn lemma_first_habit_index(s: Seq<HabitView>, id: u32)
    ensures
        first_habit_index(s, id) == -1 <==> (forall|k: int|
            0 <= k < s.len() ==> (#[trigger] s[k]).id != id),
        first_habit_index(s, id) != -1 ==> {
            let fi = first_habit_index(s, id);
            &&& 0 <= fi < s.len()
            &&& s[fi].id == id
            &&& forall|k: int| 0 <= k < fi ==> (#[trigger] s[k]).id != id
        },
    decreases s.len(),
{
    if s.len() > 0 && s[0].id != id {
        let t = s.drop_first();
        lemma_first_habit_index(t, id);
        assert(forall|k: int| 0 <= k < t.len() ==> t[k] == s[k + 1]);
        if first_habit_index(t, id) == -1 {
            assert forall|k: int| 0 <= k < s.len() implies (#[trigger] s[k]).id != id by {
                if k > 0 {
                    assert(t[k - 1] == s[k]);
                    assert(t[k - 1].id != id);
                }
            }
        } else {
            let ft = first_habit_index(t, id);
            assert(s[ft + 1] == t[ft]);
            assert forall|k: int| 0 <= k < ft + 1 implies (#[trigger] s[k]).id != id by {
                if k > 0 {
                    assert(t[k - 1] == s[k]);
                    assert(t[k - 1].id != id);
                }
            }
        }
    }
}

/// The position of the first entry keyed `key`, or -1 when none is.
pub open spec fn first_entry_index(s: Seq<(u32, LogView)>, key: u32) -> int
    decreases s.len(),
{
    if s.len() == 0 {
        -1
    } else if s[0].0 == key {
        0
    } else {
        let r = first_entry_index(s.drop_first(), key);
        if r < 0 {
            -1
        } else {
            r + 1
        }
    }
}

pub proof fn lemma_first_entry_index(s: Seq<(u32, LogView)>, key: u32)
    ensures
        first_entry_index(s, key) == -1 <==> (forall|k: int|
            0 <= k < s.len() ==> (#[trigger] s[k]).0 != key),
        first_entry_index(s, key) != -1 ==> {
            let fi = first_entry_index(s, key);
            &&& 0 <= fi < s.len()
            &&& s[fi].0 == key
            &&& forall|k: int| 0 <= k < fi ==> (#[trigger] s[k]).0 != key
        },
    decreases s.len(),
{
    if s.len() > 0 && s[0].0 != key {
        let t = s.drop_first();
        lemma_first_entry_index(t, key);
        assert(forall|k: int| 0 <= k < t.len() ==> t[k] == s[k + 1]);
        if first_entry_index(t, key) == -1 {
            assert forall|k: int| 0 <= k < s.len() implies (#[trigger] s[k]).0 != key by {
                if k > 0 {
                    assert(t[k - 1] == s[k]);
                    assert(t[k - 1].0 != key);
                }
            }
        } else {
            let ft = first_entry_index(t, key);
            assert(s[ft + 1] == t[ft]);
            assert forall|k: int| 0 <= k < ft + 1 implies (#[trigger] s[k]).0 != key by {
                if k > 0 {
                    assert(t[k - 1] == s[k]);
                    assert(t[k - 1].0 != key);
                }
            }
        }
    }
}

/// The habit stored under `id`, if any.
pub open spec fn spec_get(v: HabitStoreView, id: u32) -> Option<HabitView> {
    let fi = first_habit_index(v.habits, id);
    if fi >= 0 {
        Some(v.habits[fi])
    } else {
        None
    }
}

/// Creating from a draft: the counter advances by one and the new habit,
/// built from the draft under the new identifier, is appended.
pub open spec fn spec_create(v: HabitStoreView, d: DraftView) -> (HabitStoreView, u32) {
    let id = (v.current_id + 1) as u32;
    (HabitStoreView { current_id: id, habits: v.habits.push(habit_of_draft(id, d)) }, id)
}

/// Deleting by identifier: the habit leaves the store and is handed back;
/// an unknown identifier changes nothing. The counter never goes back.
pub open spec fn spec_delete(v: HabitStoreView, id: u32) -> (HabitStoreView, Option<HabitView>) {
    let fi = first_habit_index(v.habits, id);
    if fi >= 0 {
        (
            HabitStoreView { current_id: v.current_id, habits: v.habits.remove(fi) },
            Some(v.habits[fi]),
        )
    } else {
        (v, None)
    }
}

/// The habit that applying a patch leaves behind: each present patch field
/// overwrites the habit's, except that an empty name and a non-positive
/// quantum are ignored. Identity and the active flag are untouched.
pub open spec fn apply_patch(h: HabitView, p: PatchView) -> HabitView {
    HabitView {
        id: h.id,
        name: match p.name {
            Some(n) => if n.len() > 0 {
                n
            } else {
                h.name
            },
            None => h.name,
        },
        quantum: match p.quantum {
            Some(q) => if bits_gt_zero(q) {
                q
            } else {
                h.quantum
            },
            None => h.quantum,
        },
        unit: match p.unit {
            Some(u) => u,
            None => h.unit,
        },
        streak: match p.streak {
            Some(s) => s,
            None => h.streak,
        },
        difficulty: match p.difficulty {
            Some(d) => d,
            None => h.difficulty,
        },
        kind: match p.kind {
            Some(k) => k,
            None => h.kind,
        },
        notes: match p.notes {
            Some(n) => n,
            None => h.notes,
        },
        active: h.active,
    }
}

/// Updating by identifier: the stored habit is replaced in place by the
/// patched one; an unknown identifier changes nothing. The second component
/// says whether anything was updated.
pub open spec fn spec_update(v: HabitStoreView, id: u32, p: PatchView) -> (HabitStoreView, bool) {
    let fi = first_habit_index(v.habits, id);
    if fi >= 0 {
        (
            HabitStoreView {
                current_id: v.current_id,
                habits: v.habits.update(fi, apply_patch(v.habits[fi], p)),
            },
            true,
        )
    } else {
        (v, false)
    }
}

/// Adding a log entry: the counter advances by one and the entry is
/// appended under the new entry identifier.
pub open spec fn spec_add(v: LogStoreView, l: LogView) -> (LogStoreView, u32) {
    let id = (v.current_id + 1) as u32;
    (LogStoreView { current_id: id, entries: v.entries.push((id, l)) }, id)
}

/// The (date, quantum) pairs of the entries that reference habit `id`, in
/// insertion order.
pub open spec fn group_pairs(entries: Seq<(u32, LogView)>, id: u32) -> Seq<(Date, u64)>
    decreases entries.len(),
{
    if entries.len() == 0 {
        Seq::empty()
    } else {
        let prefix = group_pairs(entries.drop_last(), id);
        let last = entries.last().1;
        if last.id == id {
            prefix.push((last.date, last.quantum))
        } else {
            prefix
        }
    }
}

/// The habit identifiers the entries reference, in order of first
/// occurrence, each once.
pub open spec fn habit_ids_in_order(entries: Seq<(u32, LogView)>) -> Seq<u32>
    decreases entries.len(),
{
    if entries.len() == 0 {
        Seq::empty()
    } else {
        let prefix = habit_ids_in_order(entries.drop_last());
        let id = entries.last().1.id;
        if prefix.contains(id) {
            prefix
        } else {
            prefix.push(id)
        }
    }
}

/// The bit patterns of a sequence of dated amounts.
pub open spec fn pairs_view(v: Seq<(Date, Quantum)>) -> Seq<(Date, u64)> {
    v.map_values(|p: (Date, Quantum)| (p.0, p.1.bits))
}

/// The keyed collection of habits, with its auto-incrementing identifier
/// counter.
pub struct HabitStore {
    current_id: u32,
    data: Vec<Habit>,
}

impl View for HabitStore {
    type V = HabitStoreView;

    closed spec fn view(&self) -> HabitStoreView {
        HabitStoreView { current_id: self.current_id, habits: self.data.deep_view() }
    }
}

impl HabitStore {
    pub open spec fn wf(&self) -> bool {
        habit_store_wf(self@)
    }

    /// An empty store whose counter has issued nothing.
    pub fn new() -> (s: HabitStore)
        ensures
            s@.current_id == 0,
            s@.habits == Seq::<HabitView>::empty(),
            s.wf(),
    {
        let s = HabitStore { current_id: 0, data: Vec::new() };
        proof {
            assert(s@.habits =~= Seq::<HabitView>::empty());
        }
        s
    }

    /// Rebuilds a store from its parts; the persistence layer uses this
    /// after parsing a stored text.
    pub(crate) fn from_parts(current_id: u32, data: Vec<Habit>) -> (s: HabitStore)
        ensures
            s@.current_id == current_id,
            s@.habits == data.deep_view(),
    {
        HabitStore { current_id, data }
    }

    /// The stored habits, in insertion order; the persistence layer renders
    /// from them.
    pub(crate) fn entries(&self) -> (r: &Vec<Habit>)
        ensures
            r.deep_view() == self@.habits,
    {
        &self.data
    }

    /// The value of the identifier counter: the last habit identifier
    /// issued, or zero if none was.
    pub fn counter(&self) -> (c: u32)
        ensures
            c == self@.current_id,
    {
        self.current_id
    }

    /// Allocates the next identifier, builds the habit from the draft, and
    /// inserts it. The draft is well-formed, so construction cannot fail.
    pub fn create(&mut self, draft: HabitDraft) -> (id: HabitId)
        requires
            old(self).wf(),
            old(self)@.current_id < u32::MAX,
            draft@.wf(),
        ensures
            final(self)@ == spec_create(old(self)@, draft@).0,
            id == spec_create(old(self)@, draft@).1,
            id == old(self)@.current_id + 1,
            final(self).wf(),
    {
        let ghost dv = draft@;
        let id = self.current_id + 1;
        self.current_id = id;
        let HabitDraft { name, quantum, unit, streak, difficulty, kind, notes } = draft;
        match Habit::new(id, name, quantum, unit, streak, difficulty, kind, notes) {
            Ok(h) => {
                let ghost hv = h@;
                self.data.push(h);
                proof {
                    assert(hv == habit_of_draft(id, dv));
                    assert(self@.habits =~= old(self)@.habits.push(hv));
                    assert forall|i: int, j: int|
                        0 <= i < j < self@.habits.len() implies (#[trigger] self@.habits[i]).id < (
                    #[trigger] self@.habits[j]).id by {
                        if j == self@.habits.len() - 1 {
                            assert(self@.habits[i] == old(self)@.habits[i]);
                        }
                    }
                    assert forall|i: int|
                        0 <= i < self@.habits.len() implies 1 <= (#[trigger] self@.habits[i]).id
                        <= self@.current_id by {
                        if i < self@.habits.len() - 1 {
                            assert(self@.habits[i] == old(self)@.habits[i]);
                        }
                    }
                }
            },
            Err(_) => {
                proof {
                    assert(false);
                }
            },
        }
        id
    }

    /// The position of the habit carrying `id`, if present.
    fn find_index(&self, id: HabitId) -> (r: Option<usize>)
        ensures
            match r {
                Some(j) => j < self@.habits.len() && self@.habits[j as int].id == id
                    && first_habit_index(self@.habits, id) == j as int,
                None => first_habit_index(self@.habits, id) == -1,
            },
    {
        let n = self.data.len();
        let mut i: usize = 0;
        while i < n
            invariant
                i <= n,
                n == self.data.len(),
                forall|k: int| 0 <= k < i ==> (#[trigger] self@.habits[k]).id != id,
            decreases n - i,
        {
            if self.data[i].id == id {
                proof {
                    lemma_first_habit_index(self@.habits, id);
                    let fi = first_habit_index(self@.habits, id);
                    assert(self@.habits[i as int].id == id);
                    assert(fi != -1);
                    assert(!(fi < i as int)) by {
                        if fi < i as int {
                            assert(self@.habits[fi].id != id);
                        }
                    }
                    assert(!(fi > i as int)) by {
                        if fi > i as int {
                            assert(self@.habits[i as int].id != id);
                        }
                    }
                }
                return Some(i);
            }
            i = i + 1;
        }
        proof {
            lemma_first_habit_index(self@.habits, id);
        }
        None
    }

    /// Read-only lookup by identifier.
    pub fn get(&self, id: HabitId) -> (r: Option<&Habit>)
        ensures
            match r {
                Some(h) => spec_get(self@, id) == Some(h@),
                None => spec_get(self@, id) is None,
            },
    {
        match self.find_index(id) {
            Some(j) => Some(&self.data[j]),
            None => None,
        }
    }

    /// Removes the habit carrying `id` and hands it back; absence is a
    /// normal outcome, not an error. The counter keeps its value, so the
    /// identifier is never reissued.
    pub fn delete(&mut self, id: HabitId) -> (r: Option<DeletedHabit>)
        requires
            old(self).wf(),
        ensures
            final(self)@ == spec_delete(old(self)@, id).0,
            match r {
                Some(dh) => spec_delete(old(self)@, id).1 == Some(dh@),
                None => spec_delete(old(self)@, id).1 is None,
            },
            final(self).wf(),
    {
        match self.find_index(id) {
            Some(j) => {
                let h = self.data.remove(j);
                proof {
                    assert(self@.habits =~= old(self)@.habits.remove(j as int));
                    assert forall|a: int, b: int|
                        0 <= a < b < self@.habits.len() implies (#[trigger] self@.habits[a]).id < (
                    #[trigger] self@.habits[b]).id by {
                        let oa = if a < j as int {
                            a
                        } else {
                            a + 1
                        };
                        let ob = if b < j as int {
                            b
                        } else {
                            b + 1
                        };
                        assert(self@.habits[a] == old(self)@.habits[oa]);
                        assert(self@.habits[b] == old(self)@.habits[ob]);
                    }
                    assert forall|a: int|
                        0 <= a < self@.habits.len() implies 1 <= (#[trigger] self@.habits[a]).id
                        <= self@.current_id by {
                        let oa = if a < j as int {
                            a
                        } else {
                            a + 1
                        };
                        assert(self@.habits[a] == old(self)@.habits[oa]);
                    }
                }
                Some(DeletedHabit(h))
            },
            None => None,
        }
    }

    /// All current habits, in the store's own order.
    pub fn list(&self) -> (r: Vec<&Habit>)
        ensures
            r.deep_view() == self@.habits,
            r@.len() == self@.habits.len(),
    {
        let n = self.data.len();
        let mut out: Vec<&Habit> = Vec::new();
        let mut i: usize = 0;
        while i < n
            invariant
                i <= n,
                n == self.data.len(),
                out@.len() == i,
                forall|k: int| 0 <= k < i ==> (#[trigger] out@[k])@ == self@.habits[k],
            decreases n - i,
        {
            out.push(&self.data[i]);
            i = i + 1;
        }
        proof {
            assert(out.deep_view() =~= self@.habits);
        }
        out
    }

    /// Applies every present patch field to the habit carrying `id`; an
    /// empty patched name and a non-positive patched quantum are ignored.
    /// Returns whether a habit was updated.
    pub fn update(&mut self, id: HabitId, patch: HabitPatch) -> (r: Option<()>)
        requires
            old(self).wf(),
        ensures
            final(self)@ == spec_update(old(self)@, id, patch@).0,
            r is Some <==> spec_update(old(self)@, id, patch@).1,
            final(self).wf(),
    {
        let ghost pv = patch@;
        match self.find_index(id) {
            Some(j) => {
                let ghost oldh = self@.habits[j as int];
                let mut h = self.data.remove(j);
                let HabitPatch { name, quantum, unit, streak, difficulty, kind, notes } = patch;
                match name {
                    Some(n) => {
                        if !n.0.as_str().is_empty() {
                            h.name = n;
                        }
                    },
                    None => {},
                }
                match quantum {
                    Some(q) => {
                        if q.gt_zero() {
                            h.quantum = q;
                        }
                    },
                    None => {},
                }
                match unit {
                    Some(u) => {
                        h.unit = u;
                    },
                    None => {},
                }
                match streak {
                    Some(s) => {
                        h.streak = s;
                    },
                    None => {},
                }
                match difficulty {
                    Some(d) => {
                        h.difficulty = d;
                    },
                    None => {},
                }
                match kind {
                    Some(k) => {
                        h.kind = k;
                    },
                    None => {},
                }
                match notes {
                    Some(n) => {
                        h.notes = n;
                    },
                    None => {},
                }
                proof {
                    assert(h@ == apply_patch(oldh, pv));
                }
                self.data.insert(j, h);
                proof {
                    assert(self@.habits =~= old(self)@.habits.update(
                        j as int,
                        apply_patch(oldh, pv),
                    ));
                    assert forall|a: int, b: int|
                        0 <= a < b < self@.habits.len() implies (#[trigger] self@.habits[a]).id < (
                    #[trigger] self@.habits[b]).id by {
                        assert(self@.habits[a].id == old(self)@.habits[a].id);
                        assert(self@.habits[b].id == old(self)@.habits[b].id);
                    }
                    assert forall|a: int|
                        0 <= a < self@.habits.len() implies 1 <= (#[trigger] self@.habits[a]).id
                        <= self@.current_id by {
                        assert(self@.habits[a].id == old(self)@.habits[a].id);
                    }
                }
                Some(())
            },
            None => None,
        }
    }
}

/// The keyed collection of log entries, with its own independent counter.
pub struct HabitLogStore {
    current_id: u32,
    data: Vec<(u32, HabitLog)>,
}

impl View for HabitLogStore {
    type V = LogStoreView;

    closed spec fn view(&self) -> LogStoreView {
        LogStoreView { current_id: self.current_id, entries: self.data.deep_view() }
    }
}

impl HabitLogStore {
    pub open spec fn wf(&self) -> bool {
        log_store_wf(self@)
    }

    /// An empty log store whose counter has issued nothing.
    pub fn new() -> (s: HabitLogStore)
        ensures
            s@.current_id == 0,
            s@.entries == Seq::<(u32, LogView)>::empty(),
            s.wf(),
    {
        let s = HabitLogStore { current_id: 0, data: Vec::new() };
        proof {
            assert(s@.entries =~= Seq::<(u32, LogView)>::empty());
        }
        s
    }

    /// Rebuilds a log store from its parts; the persistence layer uses this
    /// after parsing a stored text.
    pub(crate) fn from_parts(current_id: u32, data: Vec<(u32, HabitLog)>) -> (s: HabitLogStore)
        ensures
            s@.current_id == current_id,
            s@.entries == data.deep_view(),
    {
        HabitLogStore { current_id, data }
    }

    /// The stored entries, in insertion order; the persistence layer
    /// renders from them.
    pub(crate) fn entries(&self) -> (r: &Vec<(u32, HabitLog)>)
        ensures
            r.deep_view() == self@.entries,
    {
        &self.data
    }

    /// The value of the entry-identifier counter: the last entry
    /// identifier issued, or zero if none was.
    pub fn counter(&self) -> (c: u32)
        ensures
            c == self@.current_id,
    {
        self.current_id
    }

    /// Allocates the next entry identifier and inserts the entry under it.
    pub fn add(&mut self, log: HabitLog) -> (id: u32)
        requires
            old(self).wf(),
            old(self)@.current_id < u32::MAX,
        ensures
            final(self)@ == spec_add(old(self)@, log@).0,
            id == spec_add(old(self)@, log@).1,
            id == old(self)@.current_id + 1,
            final(self).wf(),
    {
        let ghost lv = log@;
        let id = self.current_id + 1;
        self.current_id = id;
        self.data.push((id, log));
        proof {
            assert(self@.entries =~= old(self)@.entries.push((id, lv)));
            assert forall|i: int, j: int|
                0 <= i < j < self@.entries.len() implies (#[trigger] self@.entries[i]).0 < (
            #[trigger] self@.entries[j]).0 by {
                if j == self@.entries.len() - 1 {
                    assert(self@.entries[i] == old(self)@.entries[i]);
                }
            }
            assert forall|i: int|
                0 <= i < self@.entries.len() implies 1 <= (#[trigger] self@.entries[i]).0
                <= self@.current_id by {
                if i < self@.entries.len() - 1 {
                    assert(self@.entries[i] == old(self)@.entries[i]);
                }
            }
        }
        id
    }

    /// The position of the entry keyed `id`, if present.
    fn find_index(&self, id: u32) -> (r: Option<usize>)
        ensures
            match r {
                Some(j) => j < self@.entries.len() && self@.entries[j as int].0 == id
                    && first_entry_index(self@.entries, id) == j as int,
                None => first_entry_index(self@.entries, id) == -1,
            },
    {
        let n = self.data.len();
        let mut i: usize = 0;
        while i < n
            invariant
                i <= n,
                n == self.data.len(),
                forall|k: int| 0 <= k < i ==> (#[trigger] self@.entries[k]).0 != id,
            decreases n - i,
        {
            if self.data[i].0 == id {
                proof {
                    lemma_first_entry_index(self@.entries, id);
                    let fi = first_entry_index(self@.entries, id);
                    assert(self@.entries[i as int].0 == id);
                    assert(fi != -1);
                    assert(!(fi < i as int)) by {
                        if fi < i as int {
                            assert(self@.entries[fi].0 != id);
                        }
                    }
                    assert(!(fi > i as int)) by {
                        if fi > i as int {
                            assert(self@.entries[i as int].0 != id);
                        }
                    }
                }
                return Some(i);
            }
            i = i + 1;
        }
        proof {
            lemma_first_entry_index(self@.entries, id);
        }
        None
    }

    /// Read-only lookup by entry identifier.
    pub fn get(&self, id: u32) -> (r: Option<&HabitLog>)
        ensures
            match r {
                Some(l) => {
                    let fi = first_entry_index(self@.entries, id);
                    fi >= 0 && self@.entries[fi].1 == l@
                },
                None => first_entry_index(self@.entries, id) == -1,
            },
    {
        match self.find_index(id) {
            Some(j) => Some(&self.data[j].1),
            None => None,
        }
    }

    /// All current entries, in the store's own order.
    pub fn list(&self) -> (r: Vec<&HabitLog>)
        ensures
            r@.len() == self@.entries.len(),
            forall|k: int| 0 <= k < r@.len() ==> (#[trigger] r@[k])@ == self@.entries[k].1,
    {
        let n = self.data.len();
        let mut out: Vec<&HabitLog> = Vec::new();
        let mut i: usize = 0;
        while i < n
            invariant
                i <= n,
                n == self.data.len(),
                out@.len() == i,
                forall|k: int| 0 <= k < i ==> (#[trigger] out@[k])@ == self@.entries[k].1,
            decreases n - i,
        {
            out.push(&self.data[i].1);
            i = i + 1;
        }
        out
    }

    /// Collects, for each habit that the entries reference, the (date,
    /// quantum) pairs recorded against it, in insertion order; the groups
    /// come in order of the habit's first occurrence.
    pub fn get_log_by_habit(&self) -> (r: Vec<(u32, Vec<(Date, Quantum)>)>)
        ensures
            r@.len() == habit_ids_in_order(self@.entries).len(),
            forall|i: int|
                0 <= i < r@.len() ==> (#[trigger] r@[i]).0 == habit_ids_in_order(self@.entries)[i],
            forall|i: int|
                0 <= i < r@.len() ==> pairs_view((#[trigger] r@[i]).1@) == group_pairs(
                    self@.entries,
                    r@[i].0,
                ),
    {
        let n = self.data.len();
        let mut ids: Vec<u32> = Vec::new();
        let mut i: usize = 0;
        while i < n
            invariant
                i <= n,
                n == self.data.len(),
                ids@ == habit_ids_in_order(self@.entries.subrange(0, i as int)),
            decreases n - i,
        {
            proof {
                assert(self@.entries.subrange(0, i as int + 1).drop_last() =~= self@.entries
                    .subrange(0, i as int));
                assert(self@.entries.subrange(0, i as int + 1).last() == self@.entries[i as int]);
            }
            let id = self.data[i].1.id;
            if !vec_contains_u32(&ids, id) {
                ids.push(id);
            }
            i = i + 1;
        }
        proof {
            assert(self@.entries.subrange(0, n as int) =~= self@.entries);
        }
        let m = ids.len();
        let mut out: Vec<(u32, Vec<(Date, Quantum)>)> = Vec::new();
        let mut g: usize = 0;
        while g < m
            invariant
                g <= m,
                m == ids@.len(),
                n == self.data.len(),
                ids@ == habit_ids_in_order(self@.entries),
                out@.len() == g,
                forall|k: int| 0 <= k < g ==> (#[trigger] out@[k]).0 == ids@[k],
                forall|k: int|
                    0 <= k < g ==> pairs_view((#[trigger] out@[k]).1@) == group_pairs(
                        self@.entries,
                        ids@[k],
                    ),
            decreases m - g,
        {
            let id = ids[g];
            let mut pairs: Vec<(Date, Quantum)> = Vec::new();
            let mut i: usize = 0;
            while i < n
                invariant
                    i <= n,
                    n == self.data.len(),
                    pairs_view(pairs@) == group_pairs(self@.entries.subrange(0, i as int), id),
                decreases n - i,
            {
                proof {
                    assert(self@.entries.subrange(0, i as int + 1).drop_last() =~= self@.entries
                        .subrange(0, i as int));
                    assert(self@.entries.subrange(0, i as int + 1).last()
                        == self@.entries[i as int]);
                }
                let e = &self.data[i].1;
                if e.id == id {
                    let ghost prev = pairs@;
                    pairs.push((e.date, e.quantum));
                    proof {
                        assert(pairs_view(pairs@) =~= pairs_view(prev).push(
                            (e.date, e.quantum.bits),
                        ));
                    }
                }
                i = i + 1;
            }
            proof {
                assert(self@.entries.subrange(0, n as int) =~= self@.entries);
            }
            out.push((id, pairs));
            g = g + 1;
        }
        out
    }

    /// The first entry recorded against habit `habit_id`, with its entry
    /// identifier, if any entry references that habit.
    #[allow(dead_code)]
    fn get_log_entry(&self, habit_id: &HabitId) -> (r: Option<(&u32, &HabitLog)>)
        ensures
            match r {
                Some(p) => exists|i: int|
                    0 <= i < self@.entries.len() && (#[trigger] self@.entries[i]) == (*p.0, p.1@)
                        && p.1@.id == *habit_id && (forall|k: int|
                        0 <= k < i ==> (#[trigger] self@.entries[k]).1.id != *habit_id),
                None => forall|i: int|
                    0 <= i < self@.entries.len() ==> (#[trigger] self@.entries[i]).1.id
                        != *habit_id,
            },
    {
        let n = self.data.len();
        let mut i: usize = 0;
        while i < n
            invariant
                i <= n,
                n == self.data.len(),
                forall|k: int| 0 <= k < i ==> (#[trigger] self@.entries[k]).1.id != *habit_id,
            decreases n - i,
    {
            let p = &self.data[i];
            if p.1.id == *habit_id {
                proof {
                    let ghost ii = i as int;
                    assert(self@.entries[ii] == (self.data@[ii].0, self.data@[ii].1@));
                    assert(self@.entries[ii].1.id == *habit_id);
                }
                return Some((&p.0, &p.1));
            }
            i = i + 1;
        }
        None
    }
}

/// Whether `v` holds `x`.
fn vec_contains_u32(v: &Vec<u32>, x: u32) -> (r: bool)
    ensures
        r == v@.contains(x),
{
    let n = v.len();
    let mut i: usize = 0;
    while i < n
        invariant
            i <= n,
            n == v@.len(),
            forall|k: int| 0 <= k < i ==> v@[k] != x,
        decreases n - i,
    {
        if v[i] == x {
            return true;
        }
        i = i + 1;
    }
    proof {
        assert(!v@.contains(x));
    }
    false
}

/// Law: creating from a draft and then looking up the returned identifier
/// finds exactly the habit built from that draft: its name is the draft's,
/// its quantum the draft's (coerced), its unit the draft's (defaulted).
pub proof fn lemma_create_then_get(v: HabitStoreView, d: DraftView)
    requires
        habit_store_wf(v),
        v.current_id < u32::MAX,
    ensures
        ({
            let (v2, id) = spec_create(v, d);
            &&& spec_get(v2, id) == Some(habit_of_draft(id, d))
            &&& spec_get(v2, id)->Some_0.name == d.name
            &&& spec_get(v2, id)->Some_0.quantum == coerced_quantum(d.quantum)
            &&& spec_get(v2, id)->Some_0.unit == defaulted_unit(d.unit)
        }),
{
    let (v2, id) = spec_create(v, d);
    let h = habit_of_draft(id, d);
    lemma_first_habit_index(v2.habits, id);
    let fi = first_habit_index(v2.habits, id);
    assert(v2.habits[v.habits.len() as int] == h);
    assert(h.id == id);
    assert(fi != -1);
    if fi < v.habits.len() {
        assert(v2.habits[fi] == v.habits[fi]);
        assert(v.habits[fi].id <= v.current_id);
        assert(false);
    }
    assert(fi == v.habits.len());
}

/// Law: deleting an identifier the store never issued (zero, or above the
/// counter) changes nothing and reports absence.
pub proof fn lemma_delete_unissued(v: HabitStoreView, id: u32)
    requires
        habit_store_wf(v),
        id == 0 || id > v.current_id,
    ensures
        spec_delete(v, id) == (v, None::<HabitView>),
{
    lemma_first_habit_index(v.habits, id);
    assert forall|k: int| 0 <= k < v.habits.len() implies (#[trigger] v.habits[k]).id != id by {
        assert(1 <= v.habits[k].id <= v.current_id);
    }
}

/// Law: deleting a just-created identifier hands back the created habit,
/// restores the habit sequence, and a subsequent lookup of that identifier
/// reports absence.
pub proof fn lemma_delete_just_created(v: HabitStoreView, d: DraftView)
    requires
        habit_store_wf(v),
        v.current_id < u32::MAX,
    ensures
        ({
            let (v2, id) = spec_create(v, d);
            let (v3, removed) = spec_delete(v2, id);
            &&& removed == Some(habit_of_draft(id, d))
            &&& v3.habits == v.habits
            &&& spec_get(v3, id) is None
        }),
{
    let (v2, id) = spec_create(v, d);
    lemma_create_then_get(v, d);
    let fi = first_habit_index(v2.habits, id);
    lemma_first_habit_index(v2.habits, id);
    assert(fi == v.habits.len());
    let (v3, removed) = spec_delete(v2, id);
    assert(v2.habits.remove(v.habits.len() as int) =~= v.habits);
    lemma_first_habit_index(v3.habits, id);
    assert forall|k: int| 0 <= k < v3.habits.len() implies (#[trigger] v3.habits[k]).id != id by {
        assert(1 <= v3.habits[k].id <= v.current_id);
    }
}

/// Law: two sequential creations yield distinct, increasing identifiers,
/// whatever deletion happens between them: deletion never rewinds the
/// counter, so no identifier is reused.
pub proof fn lemma_create_ids_increase(v: HabitStoreView, d1: DraftView, x: u32, d2: DraftView)
    requires
        habit_store_wf(v),
        v.current_id + 1 < u32::MAX,
    ensures
        ({
            let (v1, id1) = spec_create(v, d1);
            let (v1d, removed) = spec_delete(v1, x);
            let (v2, id2) = spec_create(v1d, d2);
            id1 < id2
        }),
{
    let (v1, id1) = spec_create(v, d1);
    let (v1d, removed) = spec_delete(v1, x);
    assert(v1d.current_id == v1.current_id);
}

proof fn lemma_first_index_update_same_id(s: Seq<HabitView>, fi: int, h2: HabitView, id: u32)
    requires
        0 <= fi < s.len(),
        first_habit_index(s, id) == fi,
        s[fi].id == id,
        h2.id == id,
    ensures
        first_habit_index(s.update(fi, h2), id) == fi,
        s.update(fi, h2)[fi] == h2,
{
    let s2 = s.update(fi, h2);
    lemma_first_habit_index(s, id);
    lemma_first_habit_index(s2, id);
    let fi2 = first_habit_index(s2, id);
    assert(s2[fi].id == id);
    assert(fi2 != -1);
    if fi2 < fi {
        assert(s2[fi2] == s[fi2]);
        assert(s[fi2].id != id);
        assert(false);
    }
    if fi2 > fi {
        assert(s2[fi].id != id);
        assert(false);
    }
}

/// Law: updating with a patch that carries only a positive quantum changes
/// that habit's quantum alone; its name, unit, notes, classification, and
/// active flag keep their values.
pub proof fn lemma_update_quantum_only(v: HabitStoreView, id: u32, p: PatchView)
    requires
        habit_store_wf(v),
        spec_get(v, id) is Some,
        p.name is None,
        p.unit is None,
        p.streak is None,
        p.difficulty is None,
        p.kind is None,
        p.notes is None,
        p.quantum matches Some(q) && bits_gt_zero(q),
    ensures
        ({
            let (v2, updated) = spec_update(v, id, p);
            let h = spec_get(v, id)->Some_0;
            &&& updated
            &&& spec_get(v2, id) == Some(HabitView { quantum: p.quantum->Some_0, ..h })
        }),
{
    let fi = first_habit_index(v.habits, id);
    lemma_first_habit_index(v.habits, id);
    let h = v.habits[fi];
    let h2 = apply_patch(h, p);
    lemma_first_index_update_same_id(v.habits, fi, h2, id);
}

/// Law: updating with a non-positive (or NaN) quantum in the patch leaves
/// the stored quantum unchanged, whatever else the patch carries.
pub proof fn lemma_update_nonpositive_quantum(v: HabitStoreView, id: u32, p: PatchView)
    requires
        habit_store_wf(v),
        spec_get(v, id) is Some,
        p.quantum matches Some(q) && !bits_gt_zero(q),
    ensures
        ({
            let (v2, updated) = spec_update(v, id, p);
            &&& updated
            &&& spec_get(v2, id) is Some
            &&& spec_get(v2, id)->Some_0.quantum == spec_get(v, id)->Some_0.quantum
        }),
{
    let fi = first_habit_index(v.habits, id);
    lemma_first_habit_index(v.habits, id);
    let h = v.habits[fi];
    let h2 = apply_patch(h, p);
    lemma_first_index_update_same_id(v.habits, fi, h2, id);
}

} // verus!
