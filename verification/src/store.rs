//! The persistence and lifecycle engine.
//!
//! `TodoStore` owns the active table and the archive table. Every
//! operation is one atomic call; its contract states the new table
//! contents over the model of `crate::model`, and every operation
//! preserves the store invariant `inv`.

use vstd::prelude::*;

use crate::model::archive_batch;
use crate::model::archive_wf;
use crate::model::archived_of;
use crate::model::completed_rows;
use crate::model::decrease_spec;
use crate::model::delete_spec;
use crate::model::has_id;
use crate::model::increase_spec;
use crate::model::lemma_idx_of_unique;
use crate::model::lemma_order_total;
use crate::model::lemma_order_transitive;
use crate::model::lemma_table_wf_filter;
use crate::model::lemma_table_wf_remove;
use crate::model::lemma_to_multiset_insert;
use crate::model::ordered_before;
use crate::model::remaining_rows;
use crate::model::rename_spec;
use crate::model::reprioritized;
use crate::model::retitled;
use crate::model::sorted_listing;
use crate::model::step_down;
use crate::model::step_up;
use crate::model::table_wf;
use crate::model::TodoRec;
use crate::model::toggle_spec;
use crate::model::toggled;

use crate::todo::archived_views;
use crate::todo::ArchivedTodo;
use crate::todo::Todo;
use crate::todo::views;

verus! {

/// The engine: the two tables, the id source of each, and the logical
/// clock that stamps inserts and migrations.
pub struct TodoStore {
    todos: Vec<Todo>,
    archived: Vec<ArchivedTodo>,
    next_id: u64,
    next_archived_id: u64,
    clock: u64,
}

impl TodoStore {
    /// The contents of the active table, oldest insert first.
    pub closed spec fn active(&self) -> Seq<TodoRec> {
        views(self.todos@)
    }

    /// The contents of the archive table, oldest migration first.
    pub closed spec fn archive(&self) -> Seq<crate::model::ArchivedRec> {
        archived_views(self.archived@)
    }

    /// The id the next insert will be assigned.
    pub closed spec fn next_todo_id(&self) -> int {
        self.next_id as int
    }

    /// The id the next migrated row will be assigned in the archive.
    pub closed spec fn next_archive_id(&self) -> int {
        self.next_archived_id as int
    }

    /// The logical clock: strictly above every stamp in either table.
    pub closed spec fn now(&self) -> int {
        self.clock as int
    }

    /// The store invariant: both tables are well formed against their id
    /// sources and the clock.
    pub closed spec fn inv(&self) -> bool {
        &&& table_wf(self.active(), self.next_todo_id(), self.now())
        &&& archive_wf(self.archive(), self.next_archive_id(), self.now())
        &&& self.next_id >= 1
        &&& self.next_archived_id >= 1
    }

    /// A fresh store: both tables empty, ids starting at 1.
    pub fn new() -> (s: TodoStore)
        ensures
            s.inv(),
            s.active() == Seq::<TodoRec>::empty(),
            s.archive() == Seq::<crate::model::ArchivedRec>::empty(),
            s.next_todo_id() == 1,
            s.next_archive_id() == 1,
            s.now() == 0,
    {
        let s = TodoStore {
            todos: Vec::new(),
            archived: Vec::new(),
            next_id: 1,
            next_archived_id: 1,
            clock: 0,
        };
        proof {
            assert(s.active() =~= Seq::<TodoRec>::empty());
            assert(s.archive() =~= Seq::<crate::model::ArchivedRec>::empty());
        }
        s
    }

    /// Insert one row. The row gets the next free id and the current
    /// clock stamp, and is appended to the active table; the archive is
    /// untouched. Returns the assigned id, which no existing row carries.
    pub fn save(&mut self, title: String, priority: i64, completed: bool) -> (id: u64)
        requires
            old(self).inv(),
            title@.len() > 0,
            old(self).next_todo_id() < u64::MAX,
            old(self).now() < u64::MAX,
        ensures
            final(self).inv(),
            id as int == old(self).next_todo_id(),
            !has_id(old(self).active(), id as int),
            final(self).active() == old(self).active().push(
                TodoRec {
                    id: id as int,
                    title: title@,
                    priority: priority as int,
                    completed: completed,
                    created_at: old(self).now(),
                },
            ),
            final(self).archive() == old(self).archive(),
            final(self).next_todo_id() == old(self).next_todo_id() + 1,
            final(self).next_archive_id() == old(self).next_archive_id(),
            final(self).now() == old(self).now() + 1,
    {
        let id = self.next_id;
        let row = Todo {
            id: id,
            title: title,
            priority: priority,
            completed: completed,
            created_at: self.clock,
        };
        proof {
            assert(views(self.todos@.push(row)) =~= views(self.todos@).push(row@));
        }
        self.todos.push(row);
        self.next_id = self.next_id + 1;
        self.clock = self.clock + 1;
        id
    }

    /// The position of the active row with the given id, if any.
    fn find_index(&self, id: u64) -> (r: Option<usize>)
        ensures
            match r {
                Some(j) => j < self.active().len() && self.active()[j as int].id == id as int,
                None => !has_id(self.active(), id as int),
            },
    {
        let n = self.todos.len();
        let mut k: usize = 0;
        while k < n
            invariant
                k <= n,
                n == self.todos.len(),
                forall|i: int| 0 <= i < k ==> (#[trigger] self.active()[i]).id != id as int,
            decreases n - k,
        {
            if self.todos[k].id == id {
                return Some(k);
            }
            k = k + 1;
        }
        None
    }

    /// Replace the title of the row with the given id; a silent no-op when
    /// no row matches, as a caller cannot distinguish the two outcomes
    /// from the returned confirmation. Nothing else changes.
    pub fn rename(&mut self, id: u64, new_title: String) -> (confirmed: u64)
        requires
            old(self).inv(),
            new_title@.len() > 0,
        ensures
            final(self).inv(),
            confirmed == id,
            final(self).active() == rename_spec(old(self).active(), id as int, new_title@),
            final(self).archive() == old(self).archive(),
            final(self).next_todo_id() == old(self).next_todo_id(),
            final(self).next_archive_id() == old(self).next_archive_id(),
            final(self).now() == old(self).now(),
    {
        let ghost s0 = self.active();
        if let Some(j) = self.find_index(id) {
            proof {
                lemma_idx_of_unique(s0, id as int, j as int);
            }
            let row = &mut self.todos[j];
            row.title = new_title;
            proof {
                assert(self.active() =~= s0.update(j as int, retitled(s0[j as int], new_title@)));
                assert(self.active() == rename_spec(s0, id as int, new_title@));
            }
        }
        id
    }

    /// Flip the completion flag of the row with the given id; a silent
    /// no-op when no row matches. Nothing else changes.
    pub fn toggle_completion(&mut self, id: u64) -> (confirmed: u64)
        requires
            old(self).inv(),
        ensures
            final(self).inv(),
            confirmed == id,
            final(self).active() == toggle_spec(old(self).active(), id as int),
            final(self).archive() == old(self).archive(),
            final(self).next_todo_id() == old(self).next_todo_id(),
            final(self).next_archive_id() == old(self).next_archive_id(),
            final(self).now() == old(self).now(),
    {
        let ghost s0 = self.active();
        if let Some(j) = self.find_index(id) {
            proof {
                lemma_idx_of_unique(s0, id as int, j as int);
            }
            let row = &mut self.todos[j];
            row.completed = !row.completed;
            proof {
                assert(self.active() =~= s0.update(j as int, toggled(s0[j as int])));
            }
        }
        id
    }

    /// Move the row with the given id one priority step up; a silent
    /// no-op when no row matches. Nothing else changes.
    pub fn increase_priority(&mut self, id: u64) -> (confirmed: u64)
        requires
            old(self).inv(),
        ensures
            final(self).inv(),
            confirmed == id,
            final(self).active() == increase_spec(old(self).active(), id as int),
            final(self).archive() == old(self).archive(),
            final(self).next_todo_id() == old(self).next_todo_id(),
            final(self).next_archive_id() == old(self).next_archive_id(),
            final(self).now() == old(self).now(),
    {
        let ghost s0 = self.active();
        if let Some(j) = self.find_index(id) {
            proof {
                lemma_idx_of_unique(s0, id as int, j as int);
            }
            let row = &mut self.todos[j];
            row.priority = if row.priority == i64::MAX {
                i64::MIN
            } else {
                row.priority + 1
            };
            proof {
                assert(self.active() =~= s0.update(
                    j as int,
                    reprioritized(s0[j as int], step_up(s0[j as int].priority)),
                ));
            }
        }
        id
    }

    /// Move the row with the given id one priority step down; a silent
    /// no-op when no row matches. Nothing else changes.
    pub fn decrease_priority(&mut self, id: u64) -> (confirmed: u64)
        requires
            old(self).inv(),
        ensures
            final(self).inv(),
            confirmed == id,
            final(self).active() == decrease_spec(old(self).active(), id as int),
            final(self).archive() == old(self).archive(),
            final(self).next_todo_id() == old(self).next_todo_id(),
            final(self).next_archive_id() == old(self).next_archive_id(),
            final(self).now() == old(self).now(),
    {
        let ghost s0 = self.active();
        if let Some(j) = self.find_index(id) {
            proof {
                lemma_idx_of_unique(s0, id as int, j as int);
            }
            let row = &mut self.todos[j];
            row.priority = if row.priority == i64::MIN {
                i64::MAX
            } else {
                row.priority - 1
            };
            proof {
                assert(self.active() =~= s0.update(
                    j as int,
                    reprioritized(s0[j as int], step_down(s0[j as int].priority)),
                ));
            }
        }
        id
    }

    /// Remove the row with the given id. Returns the number of rows that
    /// matched: 1 when the id existed, 0 when it did not, and the call is
    /// then a no-op rather than an error. Nothing else changes.
    pub fn delete(&mut self, id: u64) -> (rows: u64)
        requires
            old(self).inv(),
        ensures
            final(self).inv(),
            final(self).active() == delete_spec(old(self).active(), id as int),
            rows as int == if has_id(old(self).active(), id as int) {
                1int
            } else {
                0int
            },
            final(self).archive() == old(self).archive(),
            final(self).next_todo_id() == old(self).next_todo_id(),
            final(self).next_archive_id() == old(self).next_archive_id(),
            final(self).now() == old(self).now(),
    {
        let ghost s0 = self.active();
        if let Some(j) = self.find_index(id) {
            proof {
                lemma_idx_of_unique(s0, id as int, j as int);
                lemma_table_wf_remove(s0, self.next_id as int, self.clock as int, j as int);
            }
            self.todos.remove(j);
            proof {
                assert(self.active() =~= s0.remove(j as int));
            }
            1
        } else {
            0
        }
    }

    /// Empty the active table in one stroke. The archive and all id
    /// sources are untouched: ids of cleared rows are never reused.
    pub fn clear_all(&mut self)
        requires
            old(self).inv(),
        ensures
            final(self).inv(),
            final(self).active() == Seq::<TodoRec>::empty(),
            final(self).archive() == old(self).archive(),
            final(self).next_todo_id() == old(self).next_todo_id(),
            final(self).next_archive_id() == old(self).next_archive_id(),
            final(self).now() == old(self).now(),
    {
        self.todos.clear();
        proof {
            assert(self.active() =~= Seq::<TodoRec>::empty());
        }
    }

    /// Destructive reset: both tables dropped and recreated empty, with
    /// fresh id sequences, as on a clean startup.
    pub fn initialize(&mut self)
        ensures
            final(self).inv(),
            final(self).active() == Seq::<TodoRec>::empty(),
            final(self).archive() == Seq::<crate::model::ArchivedRec>::empty(),
            final(self).next_todo_id() == 1,
            final(self).next_archive_id() == 1,
            final(self).now() == 0,
    {
        *self = TodoStore::new();
    }

    /// Migrate every completed row into the archive and remove it from
    /// the active table, as one atomic step: a row is counted as migrated
    /// exactly when it is also removed. Each migrated row keeps its
    /// title, priority, flag and creation stamp, and gets the next free
    /// archive id and the stamp of the migration. Returns the number of
    /// rows migrated.
    pub fn archive_completed(&mut self) -> (count: u64)
        requires
            old(self).inv(),
            old(self).next_archive_id() + old(self).active().len() <= u64::MAX,
            old(self).now() + old(self).active().len() <= u64::MAX,
        ensures
            final(self).inv(),
            count as int == completed_rows(old(self).active()).len(),
            final(self).active() == remaining_rows(old(self).active()),
            final(self).archive() == old(self).archive() + archive_batch(
                completed_rows(old(self).active()),
                old(self).next_archive_id(),
                old(self).now(),
            ),
            final(self).next_todo_id() == old(self).next_todo_id(),
            final(self).next_archive_id() == old(self).next_archive_id() + count,
            final(self).now() == old(self).now() + count,
    {
        let ghost s0 = self.active();
        let ghost id0 = self.next_archive_id();
        let ghost t0 = self.now();
        let n = self.todos.len();
        let mut kept: Vec<Todo> = Vec::new();
        let mut batch: Vec<ArchivedTodo> = Vec::new();
        let mut count: u64 = 0;
        let mut k: usize = 0;
        proof {
            assert(views(self.todos@.take(0)) =~= Seq::<TodoRec>::empty());
            assert(views(kept@) =~= Seq::<TodoRec>::empty());
            assert(archived_views(batch@) =~= Seq::<crate::model::ArchivedRec>::empty());
            reveal(Seq::filter);
            assert(archive_batch(completed_rows(views(self.todos@.take(0))), id0, t0) =~= Seq::<
                crate::model::ArchivedRec,
            >::empty());
        }
        while k < n
            invariant
                k <= n,
                n == self.todos@.len(),
                count <= k,
                self.inv(),
                id0 == self.next_archive_id(),
                t0 == self.now(),
                id0 + n <= u64::MAX,
                t0 + n <= u64::MAX,
                views(kept@) == remaining_rows(views(self.todos@.take(k as int))),
                archived_views(batch@) == archive_batch(
                    completed_rows(views(self.todos@.take(k as int))),
                    id0,
                    t0,
                ),
                count as int == completed_rows(views(self.todos@.take(k as int))).len(),
            decreases n - k,
        {
            let ghost pk = views(self.todos@.take(k as int));
            let t = self.todos[k].clone();
            proof {
                broadcast use vstd::prelude::Seq::lemma_filter_push;
                broadcast use vstd::prelude::Seq::lemma_filter_len;

                assert(self.todos@.take(k as int + 1) =~= self.todos@.take(k as int).push(
                    self.todos@[k as int],
                ));
                assert(views(self.todos@.take(k as int + 1)) =~= pk.push(t@));
            }
            if t.completed {
                let row = ArchivedTodo {
                    id: self.next_archived_id + count,
                    title: t.title,
                    priority: t.priority,
                    completed: t.completed,
                    created_at: t.created_at,
                    archived_at: self.clock + count,
                };
                batch.push(row);
                count = count + 1;
                proof {
                    assert(completed_rows(pk.push(t@)) =~= completed_rows(pk).push(t@));
                    assert(archive_batch(completed_rows(pk).push(t@), id0, t0) =~= archive_batch(
                        completed_rows(pk),
                        id0,
                        t0,
                    ).push(archived_of(t@, id0 + completed_rows(pk).len(), t0 + completed_rows(
                        pk,
                    ).len())));
                    assert(archived_views(batch@) =~= archive_batch(
                        completed_rows(views(self.todos@.take(k as int + 1))),
                        id0,
                        t0,
                    ));
                }
            } else {
                kept.push(t);
                proof {
                    assert(remaining_rows(pk.push(t@)) =~= remaining_rows(pk).push(t@));
                    assert(views(kept@) =~= remaining_rows(views(self.todos@.take(k as int + 1))));
                }
            }
            k = k + 1;
        }
        proof {
            assert(self.todos@.take(n as int) =~= self.todos@);
            lemma_table_wf_filter(
                s0,
                self.next_todo_id(),
                self.now(),
                self.now() + count,
                |r: TodoRec| !r.completed,
            );
            crate::model::lemma_filter_keeps_creation_order(s0, |r: TodoRec| r.completed);
        }
        let ghost a0 = self.archive();
        self.todos = kept;
        self.archived.append(&mut batch);
        self.next_archived_id = self.next_archived_id + count;
        self.clock = self.clock + count;
        proof {
            let cr = completed_rows(s0);
            let ab = archive_batch(cr, id0, t0);
            assert(self.active() == remaining_rows(s0));
            assert(self.archive() =~= a0 + ab);
            let fa = self.archive();
            assert(cr.len() == count);
            assert forall|i: int|
                0 <= i < fa.len() implies {
                &&& 1 <= (#[trigger] fa[i]).id < id0 + count
                &&& 0 <= fa[i].archived_at < t0 + count
                &&& i64::MIN as int <= fa[i].priority <= i64::MAX as int
                &&& fa[i].title.len() > 0
            } by {
                if i < a0.len() {
                    assert(fa[i] == a0[i]);
                } else {
                    let j = i - a0.len();
                    assert(fa[i] == archived_of(cr[j], id0 + j, t0 + j));
                    let m = choose|m: int| 0 <= m < s0.len() && #[trigger] cr[j] == s0[m];
                    assert(1 <= s0[m].id);
                }
            }
            assert forall|i: int, j: int| 0 <= i < j < fa.len() implies (#[trigger] fa[i]).id < (
            #[trigger] fa[j]).id && fa[i].archived_at < fa[j].archived_at by {
                if j < a0.len() {
                    assert(fa[i] == a0[i] && fa[j] == a0[j]);
                } else if i < a0.len() {
                    assert(fa[i] == a0[i]);
                    assert(fa[j] == archived_of(cr[j - a0.len()], id0 + j - a0.len(), t0 + j
                        - a0.len()));
                } else {
                    assert(fa[i] == archived_of(cr[i - a0.len()], id0 + i - a0.len(), t0 + i
                        - a0.len()));
                    assert(fa[j] == archived_of(cr[j - a0.len()], id0 + j - a0.len(), t0 + j
                        - a0.len()));
                }
            }
            assert(archive_wf(fa, id0 + count, t0 + count));
        }
        count
    }

    /// The archive listing: most recently archived first, the exact
    /// reverse of the order of migration.
    pub fn list_archived(&self) -> (res: Vec<ArchivedTodo>)
        requires
            self.inv(),
        ensures
            archived_views(res@) == self.archive().reverse(),
    {
        let n = self.archived.len();
        let mut res: Vec<ArchivedTodo> = Vec::new();
        let mut k: usize = 0;
        while k < n
            invariant
                k <= n,
                n == self.archived@.len(),
                res@.len() == k,
                forall|i: int|
                    0 <= i < k ==> archived_views(res@)[i] == self.archive()[n - 1 - i],
            decreases n - k,
        {
            let ghost r0 = res@;
            let row = self.archived[n - 1 - k].clone();
            res.push(row);
            k = k + 1;
            proof {
                assert forall|i: int| 0 <= i < k implies archived_views(res@)[i] == self.archive()[
                n - 1 - i] by {
                    if i < k - 1 {
                        assert(res@[i] == r0[i]);
                        assert(archived_views(r0)[i] == self.archive()[n - 1 - i]);
                    } else {
                        assert(res@[i] == row);
                    }
                }
            }
        }
        proof {
            assert(archived_views(res@) =~= self.archive().reverse());
        }
        res
    }

    /// The canonical listing of the active table: a permutation of its
    /// rows sorted by priority descending, creation stamp ascending.
    pub fn list(&self) -> (res: Vec<Todo>)
        requires
            self.inv(),
        ensures
            views(res@).to_multiset() == self.active().to_multiset(),
            sorted_listing(views(res@)),
            res@.len() == self.active().len(),
    {
        let n = self.todos.len();
        let mut res: Vec<Todo> = Vec::new();
        let mut k: usize = 0;
        proof {
            assert(views(res@) =~= Seq::<TodoRec>::empty());
            assert(views(self.todos@.take(0)) =~= Seq::<TodoRec>::empty());
        }
        while k < n
            invariant
                k <= n,
                n == self.todos.len(),
                res@.len() == k,
                views(res@).to_multiset() == views(self.todos@.take(k as int)).to_multiset(),
                sorted_listing(views(res@)),
            decreases n - k,
        {
            let t = self.todos[k].clone();
            let mut pos: usize = 0;
            while pos < res.len() && comes_before(&res[pos], &t)
                invariant
                    pos <= res@.len(),
                    forall|i: int| 0 <= i < pos ==> ordered_before(views(res@)[i], t@),
                decreases res@.len() - pos,
            {
                pos = pos + 1;
            }
            proof {
                broadcast use vstd::seq_lib::group_to_multiset_ensures;

                let old_v = views(res@);
                let new_v = old_v.insert(pos as int, t@);
                old_v.insert_ensures(pos as int, t@);
                assert forall|i: int, j: int| 0 <= i <= j < new_v.len() implies ordered_before(
                    new_v[i],
                    new_v[j],
                ) by {
                    if pos < old_v.len() {
                        lemma_order_total(old_v[pos as int], t@);
                    }
                    if i <= j < pos {
                        assert(ordered_before(new_v[i], new_v[j]));
                    } else if pos < i <= j {
                        assert(ordered_before(new_v[i], new_v[j]));
                    } else if i < pos && j == pos {
                        assert(ordered_before(new_v[i], new_v[j]));
                    } else if i == pos && pos < j {
                        lemma_order_transitive(t@, old_v[pos as int], old_v[j - 1]);
                    } else if i < pos && pos < j {
                        lemma_order_transitive(old_v[i], t@, new_v[j]);
                        assert(ordered_before(new_v[i], new_v[j]));
                    }
                }
                lemma_to_multiset_insert(old_v, pos as int, t@);
                assert(views(res@.insert(pos as int, t)) =~= new_v);
                assert(self.todos@.take(k as int + 1) =~= self.todos@.take(k as int).push(
                    self.todos@[k as int],
                ));
                assert(views(self.todos@.take(k as int + 1)) =~= views(
                    self.todos@.take(k as int),
                ).push(t@));
                assert(views(self.todos@.take(k as int + 1)).to_multiset() =~= views(
                    self.todos@.take(k as int),
                ).to_multiset().insert(t@));
                assert(new_v.to_multiset() =~= views(self.todos@.take(k as int + 1)).to_multiset());
            }
            res.insert(pos, t);
            k = k + 1;
        }
        proof {
            assert(self.todos@.take(n as int) =~= self.todos@);
        }
        res
    }
}

/// Whether row `a` may stand at or before row `b` in the canonical listing.
fn comes_before(a: &Todo, b: &Todo) -> (r: bool)
    ensures
        r == ordered_before(a@, b@),
{
    a.priority > b.priority || (a.priority == b.priority && a.created_at <= b.created_at)
}

} // verus!
