//! The world: its state, and what its scripts have asked to be sent.

use crate::chat::{ClientMessageView, ToClientMessage};
use crate::dict::reversed;
use crate::state::{after_extraction, ready, timers_view, State, StateView};
use crate::types::{timer_message, GameTime, Id, Message, MessageView, Timer, TimerView};
use vstd::prelude::*;

verus! {

/// The world. Besides its state it holds what was asked for during the turns
/// run so far and is still to be carried out: the messages to deliver, in the
/// order in which they were sent, the messages for clients, and whether the
/// scripts are to be loaded anew.
#[derive(Debug, Clone, PartialEq)]
pub struct World {
    pub state: State,
    pub outbox: Vec<Message>,
    pub client_messages: Vec<(Id, ToClientMessage)>,
    pub reload_requested: bool,
}

/// The mathematical content of the world.
pub struct WorldView {
    pub state: StateView,
    pub outbox: Seq<MessageView>,
    pub client_messages: Seq<(Id, ClientMessageView)>,
    pub reload_requested: bool,
}

/// The content of a list of messages.
pub open spec fn messages_view(v: Seq<Message>) -> Seq<MessageView> {
    Seq::new(v.len(), |i: int| v[i]@)
}

/// The content of a list of messages for clients.
pub open spec fn client_messages_view(v: Seq<(Id, ToClientMessage)>) -> Seq<
    (Id, ClientMessageView),
> {
    Seq::new(v.len(), |i: int| (v[i].0, v[i].1@))
}

/// The messages by which the given timers are delivered to their owners.
pub open spec fn timer_messages(timers: Seq<(Id, TimerView)>) -> Seq<MessageView> {
    Seq::new(timers.len(), |i: int| timer_message(timers[i].0, timers[i].1))
}

/// Where a timer that comes due at `time` goes among timers in the order of
/// their times: behind the last that comes due no later.
pub open spec fn insert_point(sorted: Seq<(Id, TimerView)>, time: u64) -> int
    decreases sorted.len(),
{
    if sorted.len() == 0 {
        0
    } else if sorted.last().1.target_time.0 <= time {
        sorted.len() as int
    } else {
        insert_point(sorted.drop_last(), time)
    }
}

/// The given timers in the order of their times, the earliest first; timers
/// that come due at the same moment stay in the order in which they were given.
pub open spec fn by_time(timers: Seq<(Id, TimerView)>) -> Seq<(Id, TimerView)>
    decreases timers.len(),
{
    if timers.len() == 0 {
        Seq::empty()
    } else {
        let front = by_time(timers.drop_last());
        front.insert(insert_point(front, timers.last().1.target_time.0), timers.last())
    }
}

/// The insert point is a place in the list.
pub proof fn lemma_insert_point_bounds(sorted: Seq<(Id, TimerView)>, time: u64)
    ensures
        0 <= insert_point(sorted, time) <= sorted.len(),
        forall|k: int|
            insert_point(sorted, time) <= k < sorted.len() ==> (
            #[trigger] sorted[k]).1.target_time.0 > time,
        insert_point(sorted, time) > 0 ==> sorted[insert_point(sorted, time) - 1].1.target_time.0
            <= time,
    decreases sorted.len(),
{
    if sorted.len() > 0 && sorted.last().1.target_time.0 > time {
        lemma_insert_point_bounds(sorted.drop_last(), time);
        let p = insert_point(sorted, time);
        assert forall|k: int| p <= k < sorted.len() implies (#[trigger] sorted[k]).1.target_time.0
            > time by {
            if k < sorted.len() - 1 {
                assert(sorted.drop_last()[k] == sorted[k]);
            }
        }
    }
}

/// Puts timers in the order of their times, the earliest first; timers that
/// come due at the same moment stay in the order in which they were given.
pub fn sort_by_time(timers: Vec<(Id, Timer)>) -> (r: Vec<(Id, Timer)>)
    ensures
        timers_view(r@) == by_time(timers_view(timers@)),
{
    let ghost all = timers_view(timers@);
    let ghost n = timers@.len();
    let mut rest = reversed(timers);
    let mut out: Vec<(Id, Timer)> = Vec::new();
    assert(all.take(0) =~= Seq::empty());
    assert(timers_view(out@) =~= by_time(all.take(0)));
    while rest.len() > 0
        invariant
            all.len() == n,
            rest@.len() + out@.len() == n,
            forall|j: int|
                0 <= j < rest@.len() ==> ((#[trigger] rest@[j]).0, rest@[j].1@) == all[n - 1 - j],
            timers_view(out@) == by_time(all.take(out@.len() as int)),
        decreases rest.len(),
    {
        let ghost k = out@.len() as int;
        let ghost before = timers_view(out@);
        let entry = rest.pop().unwrap();
        let time = entry.1.target_time.0;
        proof {
            assert((entry.0, entry.1@) == all[k]);
            assert(all.take(k + 1).drop_last() =~= all.take(k));
            assert(all.take(k + 1).last() == all[k]);
        }
        let mut p: usize = out.len();
        assert(before.take(p as int) =~= before);
        while p > 0 && out[p - 1].1.target_time.0 > time
            invariant
                p <= out@.len(),
                before == timers_view(out@),
                insert_point(before, time) == insert_point(before.take(p as int), time),
            decreases p,
        {
            proof {
                assert(before.take(p as int).last() == before[p - 1]);
                assert(before.take(p as int).drop_last() =~= before.take(p - 1));
            }
            p -= 1;
        }
        proof {
            if p > 0 {
                assert(before.take(p as int).last() == before[p - 1]);
            }
            assert(insert_point(before, time) == p);
        }
        let ghost shown = (entry.0, entry.1@);
        out.insert(p, entry);
        assert(timers_view(out@) =~= before.insert(p as int, shown));
    }
    assert(all.take(n as int) =~= all);
    out
}

impl View for World {
    type V = WorldView;

    open spec fn view(&self) -> WorldView {
        WorldView {
            state: self.state@,
            outbox: messages_view(self.outbox@),
            client_messages: client_messages_view(self.client_messages@),
            reload_requested: self.reload_requested,
        }
    }
}

impl WorldView {
    /// The world with one more message to deliver.
    pub open spec fn sending(self, message: MessageView) -> WorldView {
        WorldView { outbox: self.outbox.push(message), ..self }
    }

    /// The world with one more message for the clients of `id`.
    pub open spec fn telling(self, id: Id, message: ClientMessageView) -> WorldView {
        WorldView { client_messages: self.client_messages.push((id, message)), ..self }
    }

    /// The world with another state.
    pub open spec fn with_state(self, state: StateView) -> WorldView {
        WorldView { state, ..self }
    }
}

impl World {
    /// Whether the world's state is one that a world can be in.
    pub open spec fn wf(&self) -> bool {
        self.state.wf()
    }

    /// The world in the given state, with nothing to carry out.
    pub fn new(state: State) -> (r: World)
        requires
            state.wf(),
        ensures
            r.wf(),
            r@ == (WorldView {
                state: state@,
                outbox: Seq::empty(),
                client_messages: Seq::empty(),
                reload_requested: false,
            }),
    {
        let r = World {
            state,
            outbox: Vec::new(),
            client_messages: Vec::new(),
            reload_requested: false,
        };
        assert(r@.outbox =~= Seq::empty());
        assert(r@.client_messages =~= Seq::empty());
        r
    }

    /// The state of the world.
    pub fn get_state(&self) -> (r: &State)
        ensures
            r == &self.state,
    {
        &self.state
    }

    /// Puts a message at the end of those to deliver.
    pub fn send_message(&mut self, message: Message)
        ensures
            final(self)@ == old(self)@.sending(message@),
            final(self).state == old(self).state,
    {
        self.outbox.push(message);
        assert(self@.outbox =~= old(self)@.outbox.push(message@));
    }

    /// Puts a message for the clients of `id` at the end of those to hand over.
    pub fn send_client_message(&mut self, id: Id, message: ToClientMessage)
        ensures
            final(self)@ == old(self)@.telling(id, message@),
            final(self).state == old(self).state,
    {
        self.client_messages.push((id, message));
        assert(self@.client_messages =~= old(self)@.client_messages.push((id, message@)));
    }

    /// Asks for every script to be loaded anew before the next turn.
    pub fn reload_code(&mut self)
        ensures
            final(self)@ == (WorldView { reload_requested: true, ..old(self)@ }),
            final(self).state == old(self).state,
    {
        self.reload_requested = true;
    }

    /// Moves the clock to `new_time`. Every timer that comes due on the way is
    /// taken out and put, as a message from its owner to its owner, at the end
    /// of the messages to deliver: the timers in the order of their times, the
    /// earliest first. A moment that is not later than the one that the clock
    /// shows changes nothing.
    pub fn advance_time(&mut self, new_time: GameTime)
        requires
            old(self).wf(),
        ensures
            final(self).wf(),
            final(self)@ == advanced(old(self)@, new_time),
    {
        if !new_time.is_after(self.state.get_current_time()) {
            return ;
        }
        let due = self.state.extract_ready_timers(new_time);
        self.state.set_current_time(new_time);
        let ghost base = self@.outbox;
        let due = sort_by_time(due);
        let ghost all = due@;
        let mut rest = reversed(due);
        while rest.len() > 0
            invariant
                rest@.len() <= all.len(),
                forall|j: int|
                    0 <= j < rest@.len() ==> rest@[j] == all[all.len() - 1 - j],
                self@.outbox == base + timer_messages(
                    timers_view(all.take(all.len() - rest@.len())),
                ),
                self@.client_messages == old(self)@.client_messages,
                self.reload_requested == old(self).reload_requested,
                self@.state == (StateView {
                    current_time: new_time,
                    ..after_extraction(old(self)@.state, new_time)
                }),
                self.wf(),
            decreases rest.len(),
        {
            let ghost n = all.len() - rest@.len();
            let entry = rest.pop().unwrap();
            let ghost before = self@.outbox;
            self.outbox.push(entry.1.into_message(entry.0));
            proof {
                assert(entry == all[n]);
                assert(self@.outbox =~= before.push(timer_message(entry.0, entry.1@)));
                assert(timer_messages(timers_view(all.take(n + 1)))
                    =~= timer_messages(timers_view(all.take(n))).push(
                    timer_message(entry.0, entry.1@),
                ));
            }
        }
        proof {
            assert(all.take(all.len() as int) =~= all);
        }
    }
}

/// The world after its clock was asked to move to `new_time`.
pub open spec fn advanced(w: WorldView, new_time: GameTime) -> WorldView {
    if new_time.0 > w.state.current_time.0 {
        WorldView {
            state: StateView {
                current_time: new_time,
                ..after_extraction(w.state, new_time)
            },
            outbox: w.outbox + timer_messages(by_time(ready(w.state, new_time))),
            ..w
        }
    } else {
        w
    }
}

} // verus!
