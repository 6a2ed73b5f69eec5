//! What holds of the world whatever is done to it.

use crate::api::{
    create_object_result, create_object_world, get_attr_result, get_state_result,
    move_object_result, move_object_world, save_package_result, save_package_world, send_result,
    send_world, set_attr_result, set_attr_world, set_state_result, set_state_world, told,
    ApiError, ContextView,
};
use crate::chat::ClientMessageView;
use crate::dict::{lemma_put_same, unique_keys};
use crate::package::{well_formed, PackageView};
use crate::state::{
    after_extraction, due_timers, is_due, lemma_create_keeps_ok, lemma_move_keeps_ok,
    move_result, moved, next_id, ready, ready_among, waiting_timers, with_new_object, Error,
    StateView,
};
use crate::types::{GameTime, Id, TimerView};
use crate::value::ValueView;
use crate::world::{by_time, insert_point, lemma_insert_point_bounds, WorldView};
use vstd::prelude::*;

verus! {

/// One change of the object graph.
pub enum Change {
    /// A new object of the given kind.
    Create(PackageView),
    /// An object is to be put under another, or nowhere.
    Move(Id, Option<Id>),
}

/// The state after one change. A move that is refused changes nothing.
pub open spec fn changed(s: StateView, change: Change) -> StateView {
    match change {
        Change::Create(kind) => with_new_object(s, kind),
        Change::Move(child, new_parent) => moved(s, child, new_parent),
    }
}

/// The state after a sequence of changes.
pub open spec fn changed_by_all(s: StateView, changes: Seq<Change>) -> StateView
    decreases changes.len(),
{
    if changes.len() == 0 {
        s
    } else {
        changed(changed_by_all(s, changes.drop_last()), changes.last())
    }
}

/// Whether every object made by `changes` is of a well-formed kind.
pub open spec fn kinds_well_formed(changes: Seq<Change>) -> bool {
    forall|i: int|
        0 <= i < changes.len() && (#[trigger] changes[i]) is Create ==> well_formed(
            changes[i]->Create_0,
        )
}

/// No change removes an object.
pub proof fn lemma_changes_keep_objects(s: StateView, changes: Seq<Change>, n: int)
    requires
        0 <= n <= changes.len(),
    ensures
        changed_by_all(s, changes.take(n)).objects.len() <= changed_by_all(
            s,
            changes,
        ).objects.len(),
        n < changes.len() && changes[n] is Create ==> changed_by_all(
            s,
            changes.take(n),
        ).objects.len() < changed_by_all(s, changes).objects.len(),
    decreases changes.len() - n,
{
    if n == changes.len() {
        assert(changes.take(n) =~= changes);
    } else {
        let m = changes.len() - 1;
        assert(changes.drop_last() =~= changes.take(m));
        assert(changes.take(m).take(n) =~= changes.take(n));
        if n < m {
            lemma_changes_keep_objects(s, changes.take(m), n);
            assert(changes.take(m)[n] == changes[n]);
        } else {
            assert(changes.last() == changes[n]);
        }
    }
}

/// Whatever objects are made and however they are moved, the parents form a
/// forest: from every object the chain of parents comes to an end. A move
/// that would close a circle is refused and changes nothing.
pub proof fn law_moves_never_make_a_cycle(s: StateView, changes: Seq<Change>)
    requires
        s.ok(),
        kinds_well_formed(changes),
        changed_by_all(s, changes).objects.len() <= usize::MAX,
    ensures
        changed_by_all(s, changes).ok(),
        changed_by_all(s, changes).forest(),
        forall|x: Id|
            changed_by_all(s, changes).valid(x) ==> #[trigger] changed_by_all(s, changes).rooted(
                x,
            ),
    decreases changes.len(),
{
    if changes.len() > 0 {
        let front = changes.drop_last();
        let before = changed_by_all(s, front);
        assert(front =~= changes.take(changes.len() - 1));
        lemma_changes_keep_objects(s, changes, changes.len() - 1);
        assert forall|i: int|
            0 <= i < front.len() && (#[trigger] front[i]) is Create implies well_formed(
            front[i]->Create_0,
        ) by {
            assert(front[i] == changes[i]);
        }
        law_moves_never_make_a_cycle(s, front);
        match changes.last() {
            Change::Create(kind) => {
                assert(changes[changes.len() - 1] is Create);
                lemma_create_keeps_ok(before, kind);
            },
            Change::Move(child, new_parent) => {
                lemma_move_keeps_ok(before, child, new_parent);
            },
        }
    }
}

/// A move under an object that is the child itself, or stands below it, is
/// refused as a circle, and the state stays as it was.
pub proof fn law_circular_move_is_refused(s: StateView, child: Id, new_parent: Id)
    requires
        s.valid(child),
        s.valid(new_parent),
        s.within(new_parent, child),
    ensures
        move_result(s, child, Some(new_parent)) == Err::<(), Error>(Error::CyclicHierarchy),
        moved(s, child, Some(new_parent)) == s,
{
}

/// No id is given out twice: of two objects made one after the other, the
/// second gets another id than the first, and both ids name objects in every
/// later state.
pub proof fn law_ids_are_never_reused(s: StateView, changes: Seq<Change>, i: int, j: int)
    requires
        0 <= i < j < changes.len(),
        changes[i] is Create,
        changes[j] is Create,
        changed_by_all(s, changes).objects.len() <= usize::MAX,
    ensures
        next_id(changed_by_all(s, changes.take(i))) != next_id(
            changed_by_all(s, changes.take(j)),
        ),
        changed_by_all(s, changes).valid(next_id(changed_by_all(s, changes.take(i)))),
        changed_by_all(s, changes).valid(next_id(changed_by_all(s, changes.take(j)))),
{
    lemma_changes_keep_objects(s, changes, i);
    lemma_changes_keep_objects(s, changes, j);
    lemma_changes_keep_objects(s, changes.take(j), i);
    assert(changes.take(j).take(i) =~= changes.take(i));
    assert(changes.take(j)[i] == changes[i]);
}

/// What an object writes into its own storage, it reads back. The storage of
/// another object it can neither write nor read.
pub proof fn law_state_round_trip(
    w: WorldView,
    c: ContextView,
    id: Id,
    key: Seq<char>,
    value: ValueView,
)
    requires
        w.state.ok(),
    ensures
        set_state_result(w, c, id, key) is Ok ==> get_state_result(
            set_state_world(w, c, id, key, value),
            c,
            id,
            key,
        ) == Ok::<ValueView, ApiError>(value),
        id != c.id() ==> set_state_result(w, c, id, key) == Err::<ValueView, ApiError>(
            ApiError::SetOtherState,
        ),
        id != c.id() ==> get_state_result(w, c, id, key) == Err::<ValueView, ApiError>(
            ApiError::GetOtherState,
        ),
        id != c.id() ==> set_state_world(w, c, id, key, value) == w,
{
    if set_state_result(w, c, id, key) is Ok {
        assert(unique_keys(w.state.objects[id.0 as int].state));
        lemma_put_same(w.state.object(id).state, key, value);
    }
}

/// What an object sets as its attribute, every object reads: the reading
/// does not depend on who reads.
pub proof fn law_attrs_are_world_readable(
    w: WorldView,
    c: ContextView,
    id: Id,
    key: Seq<char>,
    value: ValueView,
)
    requires
        w.state.ok(),
        set_attr_result(w, c, id, key) is Ok,
    ensures
        get_attr_result(set_attr_world(w, c, id, key, value), id, key) == Ok::<
            ValueView,
            ApiError,
        >(value),
{
    assert(unique_keys(w.state.objects[id.0 as int].attrs));
    lemma_put_same(w.state.object(id).attrs, key, value);
}

/// A query changes nothing: whatever it asks to set, send, make, move or
/// save is refused, and the world stays as it was. What an object asks of
/// itself is refused for being asked by a query.
pub proof fn law_query_changes_nothing(
    w: WorldView,
    c: ContextView,
    id: Id,
    key: Seq<char>,
    value: ValueView,
    parent: Option<Id>,
    kind: PackageView,
    shown: ClientMessageView,
)
    requires
        c.in_query,
    ensures
        told(w, c, shown) == w,
        set_attr_result(w, c, id, key) is Err,
        set_attr_world(w, c, id, key, value) == w,
        set_attr_result(w, c, c.id(), key) == Err::<ValueView, ApiError>(
            ApiError::MutationDuringQuery,
        ),
        set_state_result(w, c, id, key) is Err,
        set_state_world(w, c, id, key, value) == w,
        set_state_result(w, c, c.id(), key) == Err::<ValueView, ApiError>(
            ApiError::MutationDuringQuery,
        ),
        send_result(c) == Err::<(), ApiError>(ApiError::MutationDuringQuery),
        send_world(w, c, id, key, value) == w,
        create_object_result(w, c, parent, kind) == Err::<Id, ApiError>(
            ApiError::MutationDuringQuery,
        ),
        create_object_world(w, c, parent, kind, value) == w,
        move_object_result(w, c, id, parent) is Err,
        move_object_world(w, c, id, parent) == w,
        save_package_result(w, c, key) is Err,
        save_package_world(w, c, key, key) == w,
{
}

/// Whether `timers` holds `t`, whatever its name.
pub open spec fn holds_timer(timers: Seq<(Seq<char>, TimerView)>, t: TimerView) -> bool {
    exists|i: int| 0 <= i < timers.len() && (#[trigger] timers[i]).1 == t
}

/// The timers of one object that come due are those that it holds and that
/// are due.
pub proof fn lemma_due_timers_exact(
    timers: Seq<(Seq<char>, TimerView)>,
    owner: Id,
    after: GameTime,
    until: GameTime,
    o: Id,
    t: TimerView,
)
    ensures
        due_timers(timers, owner, after, until).contains((o, t)) <==> (o == owner && holds_timer(
            timers,
            t,
        ) && is_due(t, after, until)),
    decreases timers.len(),
{
    let all = due_timers(timers, owner, after, until);
    if timers.len() > 0 {
        let front = timers.drop_last();
        let before = due_timers(front, owner, after, until);
        lemma_due_timers_exact(front, owner, after, until, o, t);
        if all.contains((o, t)) {
            let i = choose|i: int| 0 <= i < all.len() && all[i] == (o, t);
            if i < before.len() {
                assert(before[i] == (o, t));
                assert(before.contains((o, t)));
                let k = choose|k: int| 0 <= k < front.len() && (#[trigger] front[k]).1 == t;
                assert(timers[k].1 == t);
            } else {
                assert(timers[timers.len() - 1].1 == t);
            }
        }
        if o == owner && holds_timer(timers, t) && is_due(t, after, until) {
            let k = choose|k: int| 0 <= k < timers.len() && (#[trigger] timers[k]).1 == t;
            if k < front.len() {
                assert(front[k].1 == t);
                assert(before.contains((o, t)));
                let i = choose|i: int| 0 <= i < before.len() && before[i] == (o, t);
                assert(all[i] == (o, t));
            } else {
                assert(all[all.len() - 1] == (o, t));
            }
        }
    }
}

/// The timers of the first `n` objects that come due are those that one of
/// these objects holds and that are due.
pub proof fn lemma_ready_among_exact(s: StateView, n: nat, until: GameTime, o: Id, t: TimerView)
    requires
        n <= s.objects.len() <= usize::MAX,
    ensures
        ready_among(s, n, until).contains((o, t)) <==> (o.0 < n && holds_timer(
            s.object(o).timers,
            t,
        ) && is_due(t, s.current_time, until)),
    decreases n,
{
    if n > 0 {
        let before = ready_among(s, (n - 1) as nat, until);
        let last = due_timers(
            s.objects[n - 1].timers,
            Id((n - 1) as usize),
            s.current_time,
            until,
        );
        let all = ready_among(s, n, until);
        lemma_ready_among_exact(s, (n - 1) as nat, until, o, t);
        lemma_due_timers_exact(
            s.objects[n - 1].timers,
            Id((n - 1) as usize),
            s.current_time,
            until,
            o,
            t,
        );
        if all.contains((o, t)) {
            let i = choose|i: int| 0 <= i < all.len() && all[i] == (o, t);
            if i < before.len() {
                assert(before[i] == (o, t));
            } else {
                assert(last[i - before.len()] == (o, t));
            }
        }
        if before.contains((o, t)) {
            let i = choose|i: int| 0 <= i < before.len() && before[i] == (o, t);
            assert(all[i] == (o, t));
        }
        if last.contains((o, t)) {
            let i = choose|i: int| 0 <= i < last.len() && last[i] == (o, t);
            assert(all[before.len() + i] == (o, t));
        }
    }
}

/// The timers that are handed out when the clock is to move to `until` are
/// exactly those that some object holds and that come due after the moment
/// that the clock shows and no later than `until`.
pub proof fn law_ready_timers_are_the_due_ones(s: StateView, until: GameTime, o: Id, t: TimerView)
    requires
        s.objects.len() <= usize::MAX,
    ensures
        ready(s, until).contains((o, t)) <==> (s.valid(o) && holds_timer(s.object(o).timers, t)
            && is_due(t, s.current_time, until)),
{
    lemma_ready_among_exact(s, s.objects.len(), until, o, t);
}

/// Among the timers that stay, none is due.
pub proof fn lemma_waiting_timers_not_due(
    timers: Seq<(Seq<char>, TimerView)>,
    owner: Id,
    after: GameTime,
    until: GameTime,
)
    ensures
        due_timers(waiting_timers(timers, after, until), owner, after, until) == Seq::<
            (Id, TimerView),
        >::empty(),
    decreases timers.len(),
{
    if timers.len() > 0 {
        lemma_waiting_timers_not_due(timers.drop_last(), owner, after, until);
        if !is_due(timers.last().1, after, until) {
            let kept = waiting_timers(timers, after, until);
            assert(kept.drop_last() =~= waiting_timers(timers.drop_last(), after, until));
            assert(kept.last() == timers.last());
        }
    }
}

/// Once the timers that are due have been handed out, asking again for the
/// same moment hands out none.
pub proof fn law_timers_are_handed_out_once(s: StateView, until: GameTime)
    ensures
        ready(after_extraction(s, until), until) == Seq::<(Id, TimerView)>::empty(),
{
    let b = after_extraction(s, until);
    lemma_ready_among_empty(s, until, s.objects.len());
}

/// Of the first `n` objects, none has a due timer left.
pub proof fn lemma_ready_among_empty(s: StateView, until: GameTime, n: nat)
    requires
        n <= s.objects.len(),
    ensures
        ready_among(after_extraction(s, until), n, until) == Seq::<(Id, TimerView)>::empty(),
    decreases n,
{
    let b = after_extraction(s, until);
    if n > 0 {
        lemma_ready_among_empty(s, until, (n - 1) as nat);
        lemma_waiting_timers_not_due(
            s.objects[n - 1].timers,
            Id((n - 1) as usize),
            s.current_time,
            until,
        );
        assert(ready_among(b, n, until) =~= Seq::<(Id, TimerView)>::empty());
    }
}


/// Whether the timers stand in the order of their times, the earliest first.
pub open spec fn in_order_of_time(timers: Seq<(Id, TimerView)>) -> bool {
    forall|i: int, j: int|
        0 <= i < j < timers.len() ==> (#[trigger] timers[i]).1.target_time.0 <= (
        #[trigger] timers[j]).1.target_time.0
}

/// The messages of the timers that come due together are sent in the order
/// of the timers' times, the earliest first.
pub proof fn law_timers_fire_in_order(timers: Seq<(Id, TimerView)>)
    ensures
        in_order_of_time(by_time(timers)),
    decreases timers.len(),
{
    if timers.len() > 0 {
        let front = by_time(timers.drop_last());
        let x = timers.last();
        let p = insert_point(front, x.1.target_time.0);
        let all = by_time(timers);
        law_timers_fire_in_order(timers.drop_last());
        lemma_insert_point_bounds(front, x.1.target_time.0);
        assert forall|i: int, j: int| 0 <= i < j < all.len() implies (
        #[trigger] all[i]).1.target_time.0 <= (#[trigger] all[j]).1.target_time.0 by {
            let fi = if i < p {
                i
            } else {
                i - 1
            };
            let fj = if j < p {
                j
            } else {
                j - 1
            };
            if i == p {
                assert(all[j] == front[fj]);
            } else if j == p {
                assert(all[i] == front[fi]);
                if p > 0 && fi < p - 1 {
                    assert(front[fi].1.target_time.0 <= front[p - 1].1.target_time.0);
                }
            } else {
                assert(all[i] == front[fi]);
                assert(all[j] == front[fj]);
            }
        }
    }
}

/// Putting timers in the order of their times neither loses nor adds a timer.
pub proof fn law_ordering_keeps_the_timers(timers: Seq<(Id, TimerView)>)
    ensures
        by_time(timers).to_multiset() == timers.to_multiset(),
    decreases timers.len(),
{
    broadcast use vstd::seq_lib::group_to_multiset_ensures;

    if timers.len() == 0 {
        assert(by_time(timers) =~= timers);
    } else {
        let front = by_time(timers.drop_last());
        let x = timers.last();
        let p = insert_point(front, x.1.target_time.0);
        let all = by_time(timers);
        law_ordering_keeps_the_timers(timers.drop_last());
        lemma_insert_point_bounds(front, x.1.target_time.0);
        assert(all.remove(p) =~= front);
        assert(all[p] == x);
        assert(all.remove(p).to_multiset() == all.to_multiset().remove(x));
        assert(timers.drop_last().push(x) =~= timers);
        assert(timers.to_multiset() == timers.drop_last().to_multiset().insert(x));
        assert(all.to_multiset().count(x) > 0) by {
            assert(all.contains(x));
        }
        assert(all.to_multiset() =~= all.to_multiset().remove(x).insert(x));
    }
}

/// Timers that already stand in the order of their times stay as they are:
/// timers that come due at the same moment are never swapped.
pub proof fn law_timers_in_order_stay(timers: Seq<(Id, TimerView)>)
    requires
        in_order_of_time(timers),
    ensures
        by_time(timers) == timers,
    decreases timers.len(),
{
    if timers.len() == 0 {
        assert(by_time(timers) =~= timers);
    } else {
        let front = timers.drop_last();
        let x = timers.last();
        assert forall|i: int, j: int| 0 <= i < j < front.len() implies (
        #[trigger] front[i]).1.target_time.0 <= (#[trigger] front[j]).1.target_time.0 by {
            assert(front[i] == timers[i]);
            assert(front[j] == timers[j]);
        }
        law_timers_in_order_stay(front);
        if front.len() > 0 {
            assert(front.last() == timers[front.len() - 1]);
            assert(front.last().1.target_time.0 <= x.1.target_time.0);
        }
        assert(insert_point(front, x.1.target_time.0) == front.len());
        assert(front.insert(front.len() as int, x) =~= timers);
    }
}

} // verus!
