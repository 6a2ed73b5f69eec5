//! The dispatcher: the one place where messages are handled, one at a time.
//!
//! The dispatcher keeps one interpreter for each kind of object. It decides
//! here which interpreter handles a message and what has to be done to it
//! first; building interpreters and running scripts is left to its caller,
//! which reports back how that went.

use crate::api::ExecutionContext;
use crate::chat::{ClientMessageView, ToClientMessage};
use crate::dict::{has_key, index_of, lemma_lookup_at, lookup, put, unique_keys, Dict};
use crate::package::{reference_text, PackageReference, PackageView};
use crate::state::Error;
use crate::types::{GameTime, Message, MessageView};
use crate::world::{advanced, World, WorldView};
use vstd::prelude::*;

verus! {

/// What the dispatcher can be told to do, besides handling a message.
#[derive(Debug, PartialEq, Eq, Clone, Copy, Structural)]
pub enum ControlMessage {
    /// Give up every interpreter, so that each kind loads its scripts anew.
    ReloadCode,
}

/// How far the interpreter of one kind has come.
#[derive(Debug, Clone, PartialEq, Eq)]
pub enum ExecutorStatus {
    /// It is yet to be built.
    Missing,
    /// It is built, and the main package is yet to be loaded into it.
    Created,
    /// It is built and the main package is loaded.
    Loaded,
    /// It could not be built, for the reason given. It fails every message
    /// until the scripts are loaded anew.
    Failed(String),
}

/// The mathematical content of an `ExecutorStatus`.
pub enum StatusView {
    Missing,
    Created,
    Loaded,
    Failed(Seq<char>),
}

impl View for ExecutorStatus {
    type V = StatusView;

    open spec fn view(&self) -> StatusView {
        match self {
            ExecutorStatus::Missing => StatusView::Missing,
            ExecutorStatus::Created => StatusView::Created,
            ExecutorStatus::Loaded => StatusView::Loaded,
            ExecutorStatus::Failed(reason) => StatusView::Failed(reason@),
        }
    }
}

impl ExecutorStatus {
    /// A copy with the same content.
    pub fn duplicate(&self) -> (r: ExecutorStatus)
        ensures
            r@ == self@,
    {
        match self {
            ExecutorStatus::Missing => ExecutorStatus::Missing,
            ExecutorStatus::Created => ExecutorStatus::Created,
            ExecutorStatus::Loaded => ExecutorStatus::Loaded,
            ExecutorStatus::Failed(reason) => ExecutorStatus::Failed(reason.clone()),
        }
    }
}

/// What is to happen to a message: the interpreter that handles it, by its
/// place among the interpreters, how far that interpreter has come, and the
/// context in which the script runs.
#[derive(Debug, Clone, PartialEq)]
pub struct Dispatch {
    pub kind: PackageReference,
    pub slot: usize,
    pub status: ExecutorStatus,
    pub context: ExecutionContext,
}

/// The dispatcher.
#[derive(Debug, Clone, PartialEq)]
pub struct WorldActor {
    executors: Dict<ExecutorStatus>,
    start_game_time: Option<GameTime>,
}

/// The mathematical content of the dispatcher: how far the interpreter of each
/// kind has come, by the written form of the kind and in the order in which
/// the kinds were first needed, and the moment that the world's clock showed
/// when the dispatcher started.
pub struct ActorView {
    pub executors: Seq<(Seq<char>, StatusView)>,
    pub start_game_time: Option<GameTime>,
}

impl View for WorldActor {
    type V = ActorView;

    closed spec fn view(&self) -> ActorView {
        ActorView { executors: self.executors@, start_game_time: self.start_game_time }
    }
}

/// The interpreters once the one for `kind` is asked for: those that were
/// there, and after them a missing one for `kind` where it had none.
pub open spec fn with_executor(executors: Seq<(Seq<char>, StatusView)>, kind: PackageView) -> Seq<
    (Seq<char>, StatusView),
> {
    if has_key(executors, reference_text(kind)) {
        executors
    } else {
        executors.push((reference_text(kind), StatusView::Missing))
    }
}

/// The place of the interpreter for `kind`, once it is asked for.
pub open spec fn slot_of(executors: Seq<(Seq<char>, StatusView)>, kind: PackageView) -> int {
    if has_key(executors, reference_text(kind)) {
        index_of(executors, reference_text(kind))
    } else {
        executors.len() as int
    }
}

/// How far the interpreter for `kind` has come, once it is asked for.
pub open spec fn status_of(executors: Seq<(Seq<char>, StatusView)>, kind: PackageView)
    -> StatusView {
    match lookup(executors, reference_text(kind)) {
        Some(status) => status,
        None => StatusView::Missing,
    }
}

/// The moment `elapsed` seconds after `start`.
pub open spec fn game_time_after(start: GameTime, elapsed: u64) -> GameTime {
    GameTime((start.0 + elapsed) as u64)
}

impl WorldActor {
    /// Whether the dispatcher is in order: no kind has two interpreters.
    pub open spec fn wf(&self) -> bool {
        unique_keys(self@.executors)
    }

    /// A dispatcher with no interpreter, which has not started.
    pub fn new() -> (r: WorldActor)
        ensures
            r.wf(),
            r@ == (ActorView { executors: Seq::empty(), start_game_time: None }),
    {
        WorldActor { executors: Dict::new(), start_game_time: None }
    }

    /// Starts the dispatcher: it notes the moment that the world's clock shows.
    pub fn started(&mut self, world: &World)
        ensures
            final(self)@ == (ActorView {
                start_game_time: Some(world@.state.current_time),
                ..old(self)@
            }),
    {
        self.start_game_time = Some(world.state.get_current_time());
    }

    /// The moment that the world's clock showed when the dispatcher started,
    /// if it has started.
    pub fn start_game_time(&self) -> (r: Option<GameTime>)
        ensures
            r == self@.start_game_time,
    {
        self.start_game_time
    }

    /// The number of kinds that have an interpreter.
    pub fn executor_count(&self) -> (r: usize)
        ensures
            r == self@.executors.len(),
    {
        self.executors.len()
    }

    /// Finds the interpreter for `kind`, and makes room for one where the kind
    /// has none yet: the place of the interpreter, and how far it has come.
    pub fn executor(&mut self, kind: &PackageReference) -> (r: (usize, ExecutorStatus))
        requires
            old(self).wf(),
        ensures
            final(self).wf(),
            final(self)@ == (ActorView {
                executors: with_executor(old(self)@.executors, kind@),
                ..old(self)@
            }),
            r.0 == slot_of(old(self)@.executors, kind@),
            r.1@ == status_of(old(self)@.executors, kind@),
    {
        let key = kind.to_string();
        match self.executors.find(key.as_str()) {
            Some(i) => {
                proof {
                    lemma_lookup_at(self@.executors, i as int);
                }
                (i, self.executors.value_at(i).duplicate())
            },
            None => {
                let slot = self.executors.len();
                let _ = self.executors.insert(key, ExecutorStatus::Missing);
                (slot, ExecutorStatus::Missing)
            },
        }
    }

    /// Notes how far the interpreter for `kind` has come.
    pub fn record(&mut self, kind: &PackageReference, status: ExecutorStatus)
        requires
            old(self).wf(),
        ensures
            final(self).wf(),
            final(self)@ == (ActorView {
                executors: put(old(self)@.executors, reference_text(kind@), status@),
                ..old(self)@
            }),
    {
        let _ = self.executors.insert(kind.to_string(), status);
    }

    /// Carries out a control message: to load the scripts anew is to give up
    /// every interpreter.
    pub fn handle_control(&mut self, message: ControlMessage)
        ensures
            final(self).wf(),
            final(self)@ == (ActorView { executors: Seq::empty(), ..old(self)@ }),
    {
        match message {
            ControlMessage::ReloadCode => {
                self.executors = Dict::new();
            },
        }
    }

    /// Decides how a message is handled: by the interpreter of the kind of its
    /// target. A message to what is no object is dropped.
    pub fn execute_message(&mut self, world: &World, message: Message) -> (r: Result<
        Dispatch,
        Error,
    >)
        requires
            old(self).wf(),
        ensures
            final(self).wf(),
            dispatched(old(self)@, final(self)@, world@, message@, false, r),
    {
        self.dispatch(world, message, false)
    }

    /// Decides how a query is handled: as a message is, by a script that may
    /// not change anything.
    pub fn execute_query(&mut self, world: &World, message: Message) -> (r: Result<
        Dispatch,
        Error,
    >)
        requires
            old(self).wf(),
        ensures
            final(self).wf(),
            dispatched(old(self)@, final(self)@, world@, message@, true, r),
    {
        self.dispatch(world, message, true)
    }

    fn dispatch(&mut self, world: &World, message: Message, is_query: bool) -> (r: Result<
        Dispatch,
        Error,
    >)
        requires
            old(self).wf(),
        ensures
            final(self).wf(),
            dispatched(old(self)@, final(self)@, world@, message@, is_query, r),
    {
        let kind = match world.state.kind(message.target) {
            Ok(k) => k,
            Err(e) => {
                return Err(e);
            },
        };
        let (slot, status) = self.executor(&kind);
        Ok(Dispatch { kind, slot, status, context: ExecutionContext::new(message, is_query) })
    }

    /// Tells the user at the origin of a message that its script failed:
    /// a line in the log of that user's clients, at level `error`. Where no
    /// user is at the origin, nobody is told.
    pub fn report_error(world: &mut World, message: &Message, error: String)
        ensures
            final(world).state == old(world).state,
            final(world)@ == match message@.original_user {
                Some(user) => old(world)@.telling(
                    user,
                    ClientMessageView::Log { level: "error"@, message: error@ },
                ),
                None => old(world)@,
            },
    {
        match message.original_user {
            Some(user) => {
                world.send_client_message(user, ToClientMessage::log("error", error));
            },
            None => {},
        }
    }

    /// Moves the world's clock to where it should be `elapsed` seconds after
    /// the dispatcher started, and sends the timers that come due on the way.
    pub fn advance_time(&self, world: &mut World, elapsed: u64)
        requires
            old(world).wf(),
            self@.start_game_time is Some,
            self@.start_game_time.unwrap().0 + elapsed <= u64::MAX,
        ensures
            final(world).wf(),
            final(world)@ == advanced(
                old(world)@,
                game_time_after(self@.start_game_time->0, elapsed),
            ),
    {
        let start = self.start_game_time.unwrap();
        world.advance_time(start.add(elapsed));
    }
}

/// What holds once the dispatcher has decided how to handle `message`: where
/// the target is no object, the message is refused and the dispatcher is as it
/// was; else the interpreter of the target's kind is found, or room is made
/// for it, and the script is to run in the context of the message.
pub open spec fn dispatched(
    before: ActorView,
    after: ActorView,
    w: WorldView,
    message: MessageView,
    is_query: bool,
    r: Result<Dispatch, Error>,
) -> bool {
    if !w.state.valid(message.target) {
        r == Err::<Dispatch, Error>(Error::InvalidObjectId(message.target)) && after == before
    } else {
        let kind = w.state.object(message.target).kind;
        &&& after == (ActorView { executors: with_executor(before.executors, kind), ..before })
        &&& r is Ok
        &&& r->Ok_0.kind@ == kind
        &&& r->Ok_0.slot == slot_of(before.executors, kind)
        &&& r->Ok_0.status@ == status_of(before.executors, kind)
        &&& r->Ok_0.context@.current_message == message
        &&& r->Ok_0.context@.in_query == is_query
    }
}

} // verus!
