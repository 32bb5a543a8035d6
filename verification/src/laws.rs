//! The lifecycle laws of the engine, stated across operations and proved
//! from the models the operation contracts use.

use vstd::prelude::*;

use crate::model::archive_batch;
use crate::model::completed_rows;
use crate::model::decrease_spec;
use crate::model::has_id;
use crate::model::ids_unique;
use crate::model::idx_of;
use crate::model::increase_spec;
use crate::model::lemma_idx_of_unique;
use crate::model::remaining_rows;
use crate::model::reprioritized;
use crate::model::step_down;
use crate::model::step_up;
use crate::model::toggle_spec;
use crate::model::toggled;
use crate::model::TodoRec;

verus! {

/// Saving a fresh row and then listing shows that row exactly once: some
/// listed position holds it, every listed position with its id holds it,
/// and no two listed positions share its id. The premises are what
/// `TodoStore::save` ensures about the table it leaves behind and what
/// `TodoStore::list` ensures about the listing.
pub proof fn lemma_save_then_list_exactly_one(
    active: Seq<TodoRec>,
    listed: Seq<TodoRec>,
    r: TodoRec,
)
    requires
        ids_unique(active),
        forall|i: int| 0 <= i < active.len() ==> (#[trigger] active[i]).id != r.id,
        listed.to_multiset() == active.push(r).to_multiset(),
    ensures
        exists|i: int| 0 <= i < listed.len() && #[trigger] listed[i] == r,
        forall|i: int| 0 <= i < listed.len() && (#[trigger] listed[i]).id == r.id ==> listed[i] == r,
        forall|i: int, j: int|
            0 <= i < j < listed.len() ==> !((#[trigger] listed[i]).id == r.id && (
            #[trigger] listed[j]).id == r.id),
{
    broadcast use vstd::seq_lib::group_to_multiset_ensures;

    let s = active.push(r);
    assert forall|i: int, j: int| 0 <= i < j < s.len() implies #[trigger] s[i] != #[trigger] s[j] by {
        assert(s[i].id != s[j].id);
    }
    assert(s.no_duplicates());
    s.lemma_multiset_has_no_duplicates();
    listed.lemma_multiset_has_no_duplicates_conv();
    assert(s[active.len() as int] == r);
    assert(s.contains(r));
    assert(listed.to_multiset().count(r) > 0);
    assert(listed.contains(r));
    assert forall|i: int|
        0 <= i < listed.len() && (#[trigger] listed[i]).id == r.id implies listed[i] == r by {
        assert(listed.contains(listed[i]));
        assert(listed.to_multiset().count(listed[i]) > 0);
        assert(s.contains(listed[i]));
        let j = choose|j: int| 0 <= j < s.len() && s[j] == listed[i];
        if j < active.len() {
            assert(active[j].id != r.id);
        }
    }
    assert forall|i: int, j: int| 0 <= i < j < listed.len() implies !((#[trigger] listed[i]).id
        == r.id && (#[trigger] listed[j]).id == r.id) by {
        if listed[i].id == r.id && listed[j].id == r.id {
            assert(listed[i] == r && listed[j] == r);
            assert(listed.no_duplicates());
        }
    }
}

/// Flipping the completion flag of the same row twice restores the
/// table; one flip changes nothing but that flag.
pub proof fn lemma_toggle_involution(s: Seq<TodoRec>, id: int)
    requires
        ids_unique(s),
    ensures
        toggle_spec(toggle_spec(s, id), id) == s,
{
    if has_id(s, id) {
        let j = idx_of(s, id);
        assert(0 <= j < s.len() && s[j].id == id);
        let s1 = s.update(j, toggled(s[j]));
        assert(toggle_spec(s, id) == s1);
        assert forall|a: int, b: int| 0 <= a < b < s1.len() implies (#[trigger] s1[a]).id != (
        #[trigger] s1[b]).id by {
            assert(s1[a].id == s[a].id && s1[b].id == s[b].id);
        }
        lemma_idx_of_unique(s1, id, j);
        assert(toggle_spec(s1, id) == s1.update(j, toggled(s1[j])));
        assert(toggled(toggled(s[j])) == s[j]);
        assert(s1.update(j, toggled(s1[j])) =~= s);
    }
}

/// One priority step up then one step down on the same row restores the
/// table, whatever the priority was: the step has no floor or ceiling,
/// and at the very edge of the machine range the two wraps cancel.
pub proof fn lemma_priority_round_trip(s: Seq<TodoRec>, id: int)
    requires
        ids_unique(s),
        forall|i: int|
            0 <= i < s.len() ==> i64::MIN as int <= (#[trigger] s[i]).priority <= i64::MAX as int,
    ensures
        decrease_spec(increase_spec(s, id), id) == s,
{
    if has_id(s, id) {
        let j = idx_of(s, id);
        assert(0 <= j < s.len() && s[j].id == id);
        let s1 = s.update(j, reprioritized(s[j], step_up(s[j].priority)));
        assert(increase_spec(s, id) == s1);
        assert forall|a: int, b: int| 0 <= a < b < s1.len() implies (#[trigger] s1[a]).id != (
        #[trigger] s1[b]).id by {
            assert(s1[a].id == s[a].id && s1[b].id == s[b].id);
        }
        lemma_idx_of_unique(s1, id, j);
        assert(decrease_spec(s1, id) == s1.update(
            j,
            reprioritized(s1[j], step_down(s1[j].priority)),
        ));
        assert(step_down(step_up(s[j].priority)) == s[j].priority);
        assert(reprioritized(s1[j], step_down(s1[j].priority)) == s[j]);
        assert(s1.update(j, s[j]) =~= s);
    }
}

/// Every row that a filter keeps satisfies its predicate, so a table
/// whose rows all satisfy a predicate is its own filtering.
proof fn lemma_filter_identity(s: Seq<TodoRec>, p: spec_fn(TodoRec) -> bool)
    requires
        forall|i: int| 0 <= i < s.len() ==> p(#[trigger] s[i]),
    ensures
        s.filter(p) == s,
    decreases s.len(),
{
    reveal(Seq::filter);
    if s.len() != 0 {
        lemma_filter_identity(s.drop_last(), p);
        assert(s.drop_last().push(s.last()) =~= s);
    }
}

/// A bulk archive right after a bulk archive migrates nothing: the first
/// pass leaves no completed row behind, so the second finds none, adds
/// nothing to the archive, and leaves the active table as it was.
pub proof fn lemma_archive_completed_twice(s: Seq<TodoRec>, id0: int, t0: int)
    ensures
        completed_rows(remaining_rows(s)).len() == 0,
        remaining_rows(remaining_rows(s)) == remaining_rows(s),
        archive_batch(completed_rows(remaining_rows(s)), id0, t0) == Seq::<
            crate::model::ArchivedRec,
        >::empty(),
{
    broadcast use vstd::prelude::Seq::lemma_filter_pred;

    let kept = remaining_rows(s);
    assert(forall|i: int| 0 <= i < kept.len() ==> !(#[trigger] kept[i]).completed);
    kept.lemma_all_neg_filter_empty(|r: TodoRec| r.completed);
    lemma_filter_identity(kept, |r: TodoRec| !r.completed);
    assert(archive_batch(completed_rows(kept), id0, t0) =~= Seq::<
        crate::model::ArchivedRec,
    >::empty());
}

} // verus!
