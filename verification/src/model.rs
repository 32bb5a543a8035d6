//! Mathematical model of the two tables.
//!
//! A `TodoRec` is the spec-level value of one active row, an `ArchivedRec`
//! of one archived row. The listing order and the well-formedness of a
//! table are stated here, over sequences of records.

use vstd::prelude::*;

verus! {

/// Spec-level value of one row of the active table.
#[verifier::ext_equal]
pub ghost struct TodoRec {
    pub id: int,
    pub title: Seq<char>,
    pub priority: int,
    pub completed: bool,
    pub created_at: int,
}

/// Spec-level value of one row of the archive table.
#[verifier::ext_equal]
pub ghost struct ArchivedRec {
    pub id: int,
    pub title: Seq<char>,
    pub priority: int,
    pub completed: bool,
    pub created_at: int,
    pub archived_at: int,
}

/// The canonical display order: higher priority first, and within one
/// priority tier the earlier creation stamp first.
pub open spec fn ordered_before(a: TodoRec, b: TodoRec) -> bool {
    a.priority > b.priority || (a.priority == b.priority && a.created_at <= b.created_at)
}

/// A listing is sorted when every pair of positions respects the display order.
pub open spec fn sorted_listing(s: Seq<TodoRec>) -> bool {
    forall|i: int, j: int| 0 <= i <= j < s.len() ==> ordered_before(#[trigger] s[i], #[trigger] s[j])
}

/// No two rows of the table carry the same id.
pub open spec fn ids_unique(s: Seq<TodoRec>) -> bool {
    forall|i: int, j: int|
        0 <= i < j < s.len() ==> (#[trigger] s[i]).id != (#[trigger] s[j]).id
}

/// Some row of the table carries the given id.
pub open spec fn has_id(s: Seq<TodoRec>, id: int) -> bool {
    exists|i: int| 0 <= i < s.len() && (#[trigger] s[i]).id == id
}

/// The position of the row with the given id; meaningful when `has_id`
/// holds and ids are unique.
pub open spec fn idx_of(s: Seq<TodoRec>, id: int) -> int {
    choose|i: int| 0 <= i < s.len() && (#[trigger] s[i]).id == id
}

/// The given record with its title replaced.
pub open spec fn retitled(r: TodoRec, title: Seq<char>) -> TodoRec {
    TodoRec { title: title, ..r }
}

/// The given record with its completion flag flipped.
pub open spec fn toggled(r: TodoRec) -> TodoRec {
    TodoRec { completed: !r.completed, ..r }
}

/// The given record with its priority replaced.
pub open spec fn reprioritized(r: TodoRec, p: int) -> TodoRec {
    TodoRec { priority: p, ..r }
}

/// One priority step up. Priorities are unbounded in the design, so at the
/// top of the machine range the step wraps, which keeps a step down an
/// exact inverse everywhere.
pub open spec fn step_up(p: int) -> int {
    if p == i64::MAX as int {
        i64::MIN as int
    } else {
        p + 1
    }
}

/// One priority step down; the exact inverse of `step_up`.
pub open spec fn step_down(p: int) -> int {
    if p == i64::MIN as int {
        i64::MAX as int
    } else {
        p - 1
    }
}

/// The table after renaming the row with the given id; unchanged when no
/// row matches.
pub open spec fn rename_spec(s: Seq<TodoRec>, id: int, title: Seq<char>) -> Seq<TodoRec> {
    if has_id(s, id) {
        s.update(idx_of(s, id), retitled(s[idx_of(s, id)], title))
    } else {
        s
    }
}

/// The table after flipping the completion flag of the row with the given
/// id; unchanged when no row matches.
pub open spec fn toggle_spec(s: Seq<TodoRec>, id: int) -> Seq<TodoRec> {
    if has_id(s, id) {
        s.update(idx_of(s, id), toggled(s[idx_of(s, id)]))
    } else {
        s
    }
}

/// The table after one priority step up on the row with the given id.
pub open spec fn increase_spec(s: Seq<TodoRec>, id: int) -> Seq<TodoRec> {
    if has_id(s, id) {
        s.update(idx_of(s, id), reprioritized(s[idx_of(s, id)], step_up(s[idx_of(s, id)].priority)))
    } else {
        s
    }
}

/// The table after one priority step down on the row with the given id.
pub open spec fn decrease_spec(s: Seq<TodoRec>, id: int) -> Seq<TodoRec> {
    if has_id(s, id) {
        s.update(
            idx_of(s, id),
            reprioritized(s[idx_of(s, id)], step_down(s[idx_of(s, id)].priority)),
        )
    } else {
        s
    }
}

/// The table after deleting the row with the given id; unchanged when no
/// row matches.
pub open spec fn delete_spec(s: Seq<TodoRec>, id: int) -> Seq<TodoRec> {
    if has_id(s, id) {
        s.remove(idx_of(s, id))
    } else {
        s
    }
}

/// The rows that stay active after a bulk archive: those not completed,
/// in their original order.
pub open spec fn remaining_rows(s: Seq<TodoRec>) -> Seq<TodoRec> {
    s.filter(|r: TodoRec| !r.completed)
}

/// The rows that a bulk archive migrates: those completed, in their
/// original order.
pub open spec fn completed_rows(s: Seq<TodoRec>) -> Seq<TodoRec> {
    s.filter(|r: TodoRec| r.completed)
}

/// The archive snapshot of one active row, under a fresh archive id and
/// the stamp of the migration.
pub open spec fn archived_of(r: TodoRec, id: int, stamp: int) -> ArchivedRec {
    ArchivedRec {
        id: id,
        title: r.title,
        priority: r.priority,
        completed: r.completed,
        created_at: r.created_at,
        archived_at: stamp,
    }
}

/// The archive rows produced by migrating a batch, with consecutive ids
/// from `id0` and consecutive stamps from `stamp0`.
pub open spec fn archive_batch(batch: Seq<TodoRec>, id0: int, stamp0: int) -> Seq<ArchivedRec> {
    Seq::new(batch.len(), |i: int| archived_of(batch[i], id0 + i, stamp0 + i))
}

/// With unique ids, any position holding the given id is the position
/// `idx_of` denotes.
pub proof fn lemma_idx_of_unique(s: Seq<TodoRec>, id: int, j: int)
    requires
        ids_unique(s),
        0 <= j < s.len(),
        s[j].id == id,
    ensures
        has_id(s, id),
        idx_of(s, id) == j,
{
    assert(has_id(s, id));
    let i = idx_of(s, id);
    assert(0 <= i < s.len() && s[i].id == id);
    if i != j {
        assert(s[i].id != s[j].id);
    }
}

/// Removing a row keeps the active table well formed.
pub proof fn lemma_table_wf_remove(s: Seq<TodoRec>, next_id: int, now: int, j: int)
    requires
        table_wf(s, next_id, now),
        0 <= j < s.len(),
    ensures
        table_wf(s.remove(j), next_id, now),
{
    s.remove_ensures(j);
    let r = s.remove(j);
    assert forall|a: int, b: int| 0 <= a < b < r.len() implies (#[trigger] r[a]).created_at < (
    #[trigger] r[b]).created_at && r[a].id != r[b].id by {
        let a0 = if a < j {
            a
        } else {
            a + 1
        };
        let b0 = if b < j {
            b
        } else {
            b + 1
        };
        assert(r[a] == s[a0] && r[b] == s[b0]);
        assert(s[a0].created_at < s[b0].created_at);
        assert(s[a0].id != s[b0].id);
    }
}

/// Filtering a table keeps the relative order of creation stamps, and
/// every kept row is a row of the original table.
pub proof fn lemma_filter_keeps_creation_order(s: Seq<TodoRec>, p: spec_fn(TodoRec) -> bool)
    requires
        forall|i: int, j: int|
            0 <= i < j < s.len() ==> (#[trigger] s[i]).created_at < (#[trigger] s[j]).created_at,
    ensures
        forall|i: int, j: int|
            0 <= i < j < s.filter(p).len() ==> (#[trigger] s.filter(p)[i]).created_at < (
            #[trigger] s.filter(p)[j]).created_at,
        forall|i: int|
            0 <= i < s.filter(p).len() ==> exists|j: int|
                0 <= j < s.len() && #[trigger] s.filter(p)[i] == s[j],
    decreases s.len(),
{
    reveal(Seq::filter);
    if s.len() != 0 {
        let s0 = s.drop_last();
        lemma_filter_keeps_creation_order(s0, p);
        let f0 = s0.filter(p);
        let f = s.filter(p);
        assert forall|i: int| 0 <= i < f.len() implies exists|j: int|
            0 <= j < s.len() && #[trigger] f[i] == s[j] by {
            if i < f0.len() {
                let j0 = choose|j: int| 0 <= j < s0.len() && #[trigger] f0[i] == s0[j];
                assert(f[i] == s[j0]);
            } else {
                assert(f[i] == s[s.len() - 1]);
            }
        }
        assert forall|i: int, j: int| 0 <= i < j < f.len() implies (#[trigger] f[i]).created_at < (
        #[trigger] f[j]).created_at by {
            if j < f0.len() {
                assert(f0[i].created_at < f0[j].created_at);
            } else {
                let j0 = choose|a: int| 0 <= a < s0.len() && #[trigger] f0[i] == s0[a];
                assert(s[j0].created_at < s[s.len() - 1].created_at);
            }
        }
    }
}

/// Filtering a well-formed table leaves a well-formed table, also against
/// any later clock.
pub proof fn lemma_table_wf_filter(
    s: Seq<TodoRec>,
    next_id: int,
    now: int,
    later: int,
    p: spec_fn(TodoRec) -> bool,
)
    requires
        table_wf(s, next_id, now),
        now <= later,
    ensures
        table_wf(s.filter(p), next_id, later),
{
    lemma_filter_keeps_creation_order(s, p);
    let f = s.filter(p);
    assert forall|i: int|
        0 <= i < f.len() implies {
        &&& 1 <= (#[trigger] f[i]).id < next_id
        &&& 0 <= f[i].created_at < later
        &&& i64::MIN as int <= f[i].priority <= i64::MAX as int
        &&& f[i].title.len() > 0
    } by {
        let j = choose|j: int| 0 <= j < s.len() && #[trigger] f[i] == s[j];
        assert(1 <= s[j].id < next_id);
    }
    assert forall|i: int, j: int| 0 <= i < j < f.len() implies (#[trigger] f[i]).id != (
    #[trigger] f[j]).id by {
        let a = choose|a: int| 0 <= a < s.len() && #[trigger] f[i] == s[a];
        let b = choose|b: int| 0 <= b < s.len() && #[trigger] f[j] == s[b];
        assert(f[i].created_at < f[j].created_at);
        if a < b {
            assert(s[a].id != s[b].id);
        } else if b < a {
            assert(s[b].id != s[a].id);
        } else {
            assert(s[a].created_at == s[b].created_at);
        }
    }
}

/// The display order is total: of any two rows, one may stand first.
pub proof fn lemma_order_total(a: TodoRec, b: TodoRec)
    ensures
        ordered_before(a, b) || ordered_before(b, a),
{
}

/// The display order is transitive.
pub proof fn lemma_order_transitive(a: TodoRec, b: TodoRec, c: TodoRec)
    requires
        ordered_before(a, b),
        ordered_before(b, c),
    ensures
        ordered_before(a, c),
{
}

/// Inserting an element anywhere in a sequence adds exactly that element
/// to its multiset of contents.
pub proof fn lemma_to_multiset_insert<A>(s: Seq<A>, i: int, a: A)
    requires
        0 <= i <= s.len(),
    ensures
        s.insert(i, a).to_multiset() =~= s.to_multiset().insert(a),
{
    broadcast use vstd::seq_lib::group_to_multiset_ensures;
    broadcast use vstd::multiset::group_multiset_axioms;

    let pre = s.subrange(0, i);
    let post = s.subrange(i, s.len() as int);
    vstd::seq_lib::lemma_multiset_commutative(pre.push(a), post);
    vstd::seq_lib::lemma_multiset_commutative(pre, post);
    assert(s =~= pre + post);
    assert(pre.push(a).to_multiset() =~= pre.to_multiset().insert(a));
}

/// Well-formedness of the active table against its id source and clock:
/// ids are positive, below the next id to be assigned, and unique; creation
/// stamps grow strictly along the table and stay below the clock; titles
/// are non-empty.
pub open spec fn table_wf(s: Seq<TodoRec>, next_id: int, now: int) -> bool {
    &&& forall|i: int|
        0 <= i < s.len() ==> {
            &&& 1 <= (#[trigger] s[i]).id < next_id
            &&& 0 <= s[i].created_at < now
            &&& i64::MIN as int <= s[i].priority <= i64::MAX as int
            &&& s[i].title.len() > 0
        }
    &&& forall|i: int, j: int|
        0 <= i < j < s.len() ==> (#[trigger] s[i]).created_at < (#[trigger] s[j]).created_at
    &&& ids_unique(s)
}

/// Well-formedness of the archive table: ids and stamps grow strictly
/// along the table (it is append-only), and stay below their sources.
pub open spec fn archive_wf(a: Seq<ArchivedRec>, next_id: int, now: int) -> bool {
    &&& forall|i: int|
        0 <= i < a.len() ==> {
            &&& 1 <= (#[trigger] a[i]).id < next_id
            &&& 0 <= a[i].archived_at < now
            &&& i64::MIN as int <= a[i].priority <= i64::MAX as int
            &&& a[i].title.len() > 0
        }
    &&& forall|i: int, j: int|
        0 <= i < j < a.len() ==> (#[trigger] a[i]).id < (#[trigger] a[j]).id
    &&& forall|i: int, j: int|
        0 <= i < j < a.len() ==> (#[trigger] a[i]).archived_at < (#[trigger] a[j]).archived_at
}

} // verus!
