//! What a script may ask of the world while it handles a message.
//!
//! Each function takes the world and the context of the turn: the message
//! that is being handled, whose target is the object that asks, and whether
//! the turn is a query. A query may read and may not change anything.

use crate::chat::{
    fresh_name, html_rows, texts_of, ClientMessageView, RowView, ToClientMessage,
};
use crate::dict::{delete, lookup, put, reversed};
use crate::package::{
    package_error_text, parse_reference, reference_text, root_text, PackageError,
    PackageReference, PackageView,
};
use crate::state::{
    error_text, live_content, move_result, moved, next_id, shares_room_result,
    with_live_content, with_new_object, Error, ObjectView,
};
use crate::types::{id_text, GameTime, Id, Message, MessageView, Timer, TimerView};
use crate::value::{SerializableValue, ValueView};
use crate::world::{World, WorldView};
use vstd::prelude::*;
use vstd::string::*;

verus! {

/// Why the world refused what a script asked.
#[derive(Debug, PartialEq, Eq, Clone, Copy, Structural)]
pub enum ApiError {
    /// The object graph refused.
    State(Error),
    /// A query asked to change or send something.
    MutationDuringQuery,
    /// A query asked for a query.
    NestedQuery,
    /// An object asked to write the private storage of another.
    SetOtherState,
    /// An object asked to read the private storage of another.
    GetOtherState,
    /// An object asked to write an attribute of another.
    SetOtherAttr,
    /// The text is no package reference.
    Package(PackageError),
    /// The package is not a live package of the user who asked.
    NotYourPackage,
    /// The object is neither the one that asked nor in the same room.
    MoveNotAllowed,
    /// The delay is shorter than one second.
    DelayTooShort,
    /// The package is neither a system package nor a live one.
    UnsupportedRepo,
    /// The world holds no such live package.
    PackageNotFound,
    /// The package is not one of those that come with the system.
    NotSystemPackage,
}

/// The context of one turn.
#[derive(Debug, Clone, PartialEq)]
pub struct ExecutionContext {
    /// The message that is being handled.
    pub current_message: Message,
    /// Whether the turn is a query.
    pub in_query: bool,
}

/// The mathematical content of the context of a turn.
pub struct ContextView {
    pub current_message: MessageView,
    pub in_query: bool,
}

impl View for ExecutionContext {
    type V = ContextView;

    open spec fn view(&self) -> ContextView {
        ContextView { current_message: self.current_message@, in_query: self.in_query }
    }
}

impl ContextView {
    /// The object that asks: the target of the message that is being handled.
    pub open spec fn id(self) -> Id {
        self.current_message.target
    }

    /// The message that the object that asks sends to `target`.
    pub open spec fn message_to(self, target: Id, name: Seq<char>, payload: ValueView)
        -> MessageView {
        MessageView {
            target,
            immediate_sender: self.id(),
            original_user: self.current_message.original_user,
            name,
            payload,
        }
    }
}

impl ExecutionContext {
    /// The context for handling `message`, as a query or not.
    pub fn new(message: Message, is_query: bool) -> (r: ExecutionContext)
        ensures
            r@ == (ContextView { current_message: message@, in_query: is_query }),
    {
        ExecutionContext { current_message: message, in_query: is_query }
    }

    /// The object that asks.
    pub fn get_id(&self) -> (r: Id)
        ensures
            r == self@.id(),
    {
        self.current_message.target
    }

    /// The user at the origin of the message that is being handled.
    pub fn get_original_user(&self) -> (r: Option<Id>)
        ensures
            r == self@.current_message.original_user,
    {
        self.current_message.original_user
    }

    /// The message that the object that asks sends to `target`.
    pub fn message_to(&self, target: Id, name: String, payload: SerializableValue) -> (r: Message)
        ensures
            r@ == self@.message_to(target, name@, payload@),
    {
        Message {
            target,
            immediate_sender: self.current_message.target,
            original_user: self.current_message.original_user,
            name,
            payload,
        }
    }
}

/// The children of an object, in the order of their creation.
pub fn get_children(world: &World, object_id: Id) -> (r: Vec<Id>)
    ensures
        r@ == world@.state.children(object_id),
{
    world.state.children(object_id)
}

/// The parent of an object.
pub fn get_parent(world: &World, object_id: Id) -> (r: Result<Option<Id>, ApiError>)
    ensures
        r == if world@.state.valid(object_id) {
            Ok::<Option<Id>, ApiError>(world@.state.object(object_id).parent)
        } else {
            Err::<Option<Id>, ApiError>(ApiError::State(Error::InvalidObjectId(object_id)))
        },
{
    match world.state.parent(object_id) {
        Ok(p) => Ok(p),
        Err(e) => Err(ApiError::State(e)),
    }
}

/// Whether a message may be sent: by anything but a query.
pub open spec fn send_result(c: ContextView) -> Result<(), ApiError> {
    if c.in_query {
        Err(ApiError::MutationDuringQuery)
    } else {
        Ok(())
    }
}

/// The world after `send`: with the message on its way, unless a query asked.
pub open spec fn send_world(
    w: WorldView,
    c: ContextView,
    target: Id,
    name: Seq<char>,
    payload: ValueView,
) -> WorldView {
    if c.in_query {
        w
    } else {
        w.sending(c.message_to(target, name, payload))
    }
}

/// Sends a message to `target`, in the name of the object that asks and of
/// the user at the origin of the turn. A query may not send.
pub fn send(
    world: &mut World,
    context: &ExecutionContext,
    target: Id,
    name: String,
    payload: SerializableValue,
) -> (r: Result<(), ApiError>)
    ensures
        final(world).state == old(world).state,
        r == send_result(context@),
        final(world)@ == send_world(old(world)@, context@, target, name@, payload@),
{
    if context.in_query {
        return Err(ApiError::MutationDuringQuery);
    }
    world.send_message(context.message_to(target, name, payload));
    Ok(())
}

/// The name of the user whose object is `id`, if it is a user's.
pub fn get_username(world: &World, id: Id) -> (r: Option<String>)
    requires
        world.wf(),
    ensures
        match r {
            Some(name) => lookup(world@.state.users, name@) == Some(id),
            None => forall|j: int|
                0 <= j < world@.state.users.len() ==> (#[trigger] world@.state.users[j]).1 != id,
        },
{
    world.state.username(id)
}

/// The kind of an object.
pub fn get_kind(world: &World, id: Id) -> (r: Result<PackageReference, ApiError>)
    ensures
        match r {
            Ok(k) => world@.state.valid(id) && k@ == world@.state.object(id).kind,
            Err(e) => !world@.state.valid(id) && e == ApiError::State(Error::InvalidObjectId(id)),
        },
{
    match world.state.kind(id) {
        Ok(k) => Ok(k),
        Err(e) => Err(ApiError::State(e)),
    }
}

/// What a script reads where nothing is stored: nil.
pub open spec fn or_nil(v: Option<ValueView>) -> ValueView {
    match v {
        Some(x) => x,
        None => ValueView::Nil,
    }
}

/// The outcome of `set_state` for the object `id`, asked by the object of the
/// context: the object writes its own storage only, and not during a query.
pub open spec fn set_state_result(w: WorldView, c: ContextView, id: Id, key: Seq<char>)
    -> Result<ValueView, ApiError> {
    if id != c.id() {
        Err(ApiError::SetOtherState)
    } else if c.in_query {
        Err(ApiError::MutationDuringQuery)
    } else if !w.state.valid(id) {
        Err(ApiError::State(Error::InvalidObjectId(id)))
    } else {
        Ok(or_nil(lookup(w.state.object(id).state, key)))
    }
}

/// The world after `set_state`: with the value written where the object may
/// write, as it was where it may not.
pub open spec fn set_state_world(
    w: WorldView,
    c: ContextView,
    id: Id,
    key: Seq<char>,
    value: ValueView,
) -> WorldView {
    if set_state_result(w, c, id, key) is Ok {
        w.with_state(
            w.state.with_object(
                id,
                ObjectView {
                    state: put(w.state.object(id).state, key, value),
                    ..w.state.object(id)
                },
            ),
        )
    } else {
        w
    }
}

/// Writes into the private storage of the object that asks, and hands back
/// the value that stood there, or nil.
pub fn set_state(
    world: &mut World,
    context: &ExecutionContext,
    id: Id,
    key: String,
    value: SerializableValue,
) -> (r: Result<SerializableValue, ApiError>)
    requires
        old(world).wf(),
    ensures
        final(world).wf(),
        match r {
            Ok(v) => set_state_result(old(world)@, context@, id, key@) == Ok::<
                ValueView,
                ApiError,
            >(v@),
            Err(e) => set_state_result(old(world)@, context@, id, key@) == Err::<
                ValueView,
                ApiError,
            >(e),
        },
        final(world)@ == set_state_world(old(world)@, context@, id, key@, value@),
{
    if id.0 != context.get_id().0 {
        return Err(ApiError::SetOtherState);
    }
    if context.in_query {
        return Err(ApiError::MutationDuringQuery);
    }
    match world.state.set_state(id, key, value) {
        Ok(Some(v)) => Ok(v),
        Ok(None) => Ok(SerializableValue::Nil),
        Err(e) => Err(ApiError::State(e)),
    }
}

/// The outcome of `get_state` for the object `id`, asked by the object of the
/// context: the object reads its own storage only.
pub open spec fn get_state_result(w: WorldView, c: ContextView, id: Id, key: Seq<char>)
    -> Result<ValueView, ApiError> {
    if id != c.id() {
        Err(ApiError::GetOtherState)
    } else if !w.state.valid(id) {
        Err(ApiError::State(Error::InvalidObjectId(id)))
    } else {
        Ok(or_nil(lookup(w.state.object(id).state, key)))
    }
}

/// Reads from the private storage of the object that asks: the value, or nil.
pub fn get_state(world: &World, context: &ExecutionContext, id: Id, key: &str) -> (r: Result<
    SerializableValue,
    ApiError,
>)
    requires
        world.wf(),
    ensures
        match r {
            Ok(v) => get_state_result(world@, context@, id, key@) == Ok::<ValueView, ApiError>(
                v@,
            ),
            Err(e) => get_state_result(world@, context@, id, key@) == Err::<ValueView, ApiError>(
                e,
            ),
        },
{
    if id.0 != context.get_id().0 {
        return Err(ApiError::GetOtherState);
    }
    match world.state.get_state(id, key) {
        Ok(Some(v)) => Ok(v),
        Ok(None) => Ok(SerializableValue::Nil),
        Err(e) => Err(ApiError::State(e)),
    }
}

/// The outcome of `set_attr` for the object `id`, asked by the object of the
/// context: the object writes its own attributes only, and not during a query.
pub open spec fn set_attr_result(w: WorldView, c: ContextView, id: Id, key: Seq<char>) -> Result<
    ValueView,
    ApiError,
> {
    if id != c.id() {
        Err(ApiError::SetOtherAttr)
    } else if c.in_query {
        Err(ApiError::MutationDuringQuery)
    } else if !w.state.valid(id) {
        Err(ApiError::State(Error::InvalidObjectId(id)))
    } else {
        Ok(or_nil(lookup(w.state.object(id).attrs, key)))
    }
}

/// The world after `set_attr`: with the attribute set where the object may
/// set it, as it was where it may not.
pub open spec fn set_attr_world(
    w: WorldView,
    c: ContextView,
    id: Id,
    key: Seq<char>,
    value: ValueView,
) -> WorldView {
    if set_attr_result(w, c, id, key) is Ok {
        w.with_state(
            w.state.with_object(
                id,
                ObjectView {
                    attrs: put(w.state.object(id).attrs, key, value),
                    ..w.state.object(id)
                },
            ),
        )
    } else {
        w
    }
}

/// Sets an attribute of the object that asks, and hands back the value that
/// it had, or nil.
pub fn set_attr(
    world: &mut World,
    context: &ExecutionContext,
    id: Id,
    key: String,
    value: SerializableValue,
) -> (r: Result<SerializableValue, ApiError>)
    requires
        old(world).wf(),
    ensures
        final(world).wf(),
        match r {
            Ok(v) => set_attr_result(old(world)@, context@, id, key@) == Ok::<
                ValueView,
                ApiError,
            >(v@),
            Err(e) => set_attr_result(old(world)@, context@, id, key@) == Err::<
                ValueView,
                ApiError,
            >(e),
        },
        final(world)@ == set_attr_world(old(world)@, context@, id, key@, value@),
{
    if id.0 != context.get_id().0 {
        return Err(ApiError::SetOtherAttr);
    }
    if context.in_query {
        return Err(ApiError::MutationDuringQuery);
    }
    match world.state.set_attr(id, key, value) {
        Ok(Some(v)) => Ok(v),
        Ok(None) => Ok(SerializableValue::Nil),
        Err(e) => Err(ApiError::State(e)),
    }
}

/// The outcome of `get_attr`: any object may read the attributes of any other.
pub open spec fn get_attr_result(w: WorldView, id: Id, key: Seq<char>) -> Result<
    ValueView,
    ApiError,
> {
    if !w.state.valid(id) {
        Err(ApiError::State(Error::InvalidObjectId(id)))
    } else {
        Ok(or_nil(lookup(w.state.object(id).attrs, key)))
    }
}

/// Reads an attribute of an object: the value, or nil.
pub fn get_attr(world: &World, id: Id, key: &str) -> (r: Result<SerializableValue, ApiError>)
    requires
        world.wf(),
    ensures
        match r {
            Ok(v) => get_attr_result(world@, id, key@) == Ok::<ValueView, ApiError>(v@),
            Err(e) => get_attr_result(world@, id, key@) == Err::<ValueView, ApiError>(e),
        },
{
    match world.state.get_attr(id, key) {
        Ok(Some(v)) => Ok(v),
        Ok(None) => Ok(SerializableValue::Nil),
        Err(e) => Err(ApiError::State(e)),
    }
}


/// The names of the attributes of an object, as strings for a script, in the
/// order in which the attributes were first set.
pub fn list_attrs(world: &World, id: Id) -> (r: Result<Vec<SerializableValue>, ApiError>)
    ensures
        match r {
            Ok(names) => {
                &&& world@.state.valid(id)
                &&& names.len() == world@.state.object(id).attrs.len()
                &&& forall|i: int|
                    0 <= i < names.len() ==> (#[trigger] names[i])@ == ValueView::String(
                        world@.state.object(id).attrs[i].0,
                    )
            },
            Err(e) => !world@.state.valid(id) && e == ApiError::State(Error::InvalidObjectId(id)),
        },
{
    match world.state.list_attrs(id) {
        Ok(names) => {
            let ghost all = names@;
            let mut out: Vec<SerializableValue> = Vec::new();
            let mut rest = reversed(names);
            while rest.len() > 0
                invariant
                    rest@.len() + out@.len() == all.len(),
                    forall|j: int| 0 <= j < rest@.len() ==> rest@[j] == all[all.len() - 1 - j],
                    forall|j: int|
                        0 <= j < out@.len() ==> (#[trigger] out[j])@ == ValueView::String(
                            all[j]@,
                        ),
                decreases rest.len(),
            {
                let name = rest.pop().unwrap();
                out.push(SerializableValue::String(name));
            }
            Ok(out)
        },
        Err(e) => Err(ApiError::State(e)),
    }
}

/// The world after an object asked to show something to its clients: with the
/// message on its way to them, unless a query asked.
pub open spec fn told(w: WorldView, c: ContextView, message: ClientMessageView) -> WorldView {
    if c.in_query {
        w
    } else {
        w.telling(c.id(), message)
    }
}

/// Shows a row of HTML to the clients of the object that asks. A query may not.
pub fn send_user_tell_html(world: &mut World, context: &ExecutionContext, message: &str) -> (r:
    Result<(), ApiError>)
    ensures
        final(world).state == old(world).state,
        r == send_result(context@),
        final(world)@ == told(
            old(world)@,
            context@,
            (ClientMessageView::Tell { content: RowView { is_html: true, body: message@ } }),
        ),
{
    if context.in_query {
        return Err(ApiError::MutationDuringQuery);
    }
    world.send_client_message(context.get_id(), ToClientMessage::tell_html(message));
    Ok(())
}

/// Shows earlier rows of HTML to the clients of the object that asks. A query
/// may not.
pub fn send_user_backlog_html(
    world: &mut World,
    context: &ExecutionContext,
    messages: &Vec<String>,
) -> (r: Result<(), ApiError>)
    ensures
        final(world).state == old(world).state,
        r == send_result(context@),
        final(world)@ == told(
            old(world)@,
            context@,
            (ClientMessageView::Backlog { history: html_rows(texts_of(messages@)) }),
        ),
{
    if context.in_query {
        return Err(ApiError::MutationDuringQuery);
    }
    world.send_client_message(context.get_id(), ToClientMessage::backlog_html(messages));
    Ok(())
}

/// Hands a file to edit to the clients of the object that asks. A query may not.
pub fn send_user_edit_file(
    world: &mut World,
    context: &ExecutionContext,
    name: String,
    content: String,
) -> (r: Result<(), ApiError>)
    ensures
        final(world).state == old(world).state,
        r == send_result(context@),
        final(world)@ == told(
            old(world)@,
            context@,
            (ClientMessageView::EditFile { name: name@, content: content@ }),
        ),
{
    if context.in_query {
        return Err(ApiError::MutationDuringQuery);
    }
    world.send_client_message(context.get_id(), ToClientMessage::edit_file(name, content));
    Ok(())
}

/// Every user with the written form of the id of the user's object.
pub open spec fn users_value(users: Seq<(Seq<char>, Id)>) -> ValueView {
    ValueView::Dict(
        Seq::new(users.len(), |i: int| (users[i].0, ValueView::String(id_text(users[i].1)))),
    )
}

/// Every user of the world, as a dictionary from the user's name to the
/// written form of the id of the user's object.
pub fn get_all_users(world: &World) -> (r: SerializableValue)
    ensures
        r@ == users_value(world@.state.users),
{
    let users = world.state.get_all_users();
    let mut out: Vec<(String, SerializableValue)> = Vec::new();
    let mut i: usize = 0;
    while i < users.len()
        invariant
            i <= users.len(),
            out.len() == i,
            users.len() == world@.state.users.len(),
            forall|j: int|
                0 <= j < users.len() ==> ((#[trigger] users[j]).0@, users[j].1)
                    == world@.state.users[j],
            forall|j: int|
                0 <= j < i ==> (#[trigger] out[j]).0@ == world@.state.users[j].0 && out[j].1@
                    == ValueView::String(id_text(world@.state.users[j].1)),
        decreases users.len() - i,
    {
        out.push((users[i].0.clone(), SerializableValue::String(users[i].1.to_string())));
        i += 1;
    }
    let r = SerializableValue::Dict(out);
    assert(r@->Dict_0 =~= users_value(world@.state.users)->Dict_0);
    r
}

/// The outcome of `create_object`: the id of the new object, unless a query
/// asked or the new object cannot be put where it was meant to go.
pub open spec fn create_object_result(
    w: WorldView,
    c: ContextView,
    parent: Option<Id>,
    kind: PackageView,
) -> Result<Id, ApiError> {
    let id = next_id(w.state);
    if c.in_query {
        Err(ApiError::MutationDuringQuery)
    } else {
        match move_result(with_new_object(w.state, kind), id, parent) {
            Ok(_) => Ok(id),
            Err(e) => Err(ApiError::State(e)),
        }
    }
}

/// The world after `create_object`: as it was where a query asked; else with
/// the new object, which stays even where it could not be put under `parent`;
/// and, where it could, with the message `created` on its way to it.
pub open spec fn create_object_world(
    w: WorldView,
    c: ContextView,
    parent: Option<Id>,
    kind: PackageView,
    payload: ValueView,
) -> WorldView {
    let id = next_id(w.state);
    let made = with_new_object(w.state, kind);
    if c.in_query {
        w
    } else if move_result(made, id, parent) is Ok {
        w.with_state(moved(made, id, parent)).sending(c.message_to(id, "created"@, payload))
    } else {
        w.with_state(made)
    }
}

/// Makes a new object of the given kind under `parent`, and sends it the
/// message `created` with the given payload. A query may not.
pub fn create_object(
    world: &mut World,
    context: &ExecutionContext,
    parent: Option<Id>,
    kind: PackageReference,
    created_payload: SerializableValue,
) -> (r: Result<Id, ApiError>)
    requires
        old(world).wf(),
    ensures
        final(world).wf(),
        r == create_object_result(old(world)@, context@, parent, kind@),
        final(world)@ == create_object_world(
            old(world)@,
            context@,
            parent,
            kind@,
            created_payload@,
        ),
{
    if context.in_query {
        return Err(ApiError::MutationDuringQuery);
    }
    let id = world.state.create_object(kind);
    match world.state.move_object(id, parent) {
        Ok(_) => {},
        Err(e) => {
            return Err(ApiError::State(e));
        },
    }
    world.send_message(context.message_to(id, String::from_str("created"), created_payload));
    Ok(id)
}

/// What is told of a move: the child, and its new parent or nil.
pub open spec fn move_payload(child: Id, new_parent: Option<Id>) -> ValueView {
    ValueView::Dict(
        seq![
            ("child"@, ValueView::String(id_text(child))),
            (
                "new_parent"@,
                match new_parent {
                    Some(p) => ValueView::String(id_text(p)),
                    None => ValueView::Nil,
                },
            ),
        ],
    )
}

/// The outcome of `move_object`: an object may move itself and what is in its
/// room, not during a query, and only where the graph allows the move.
pub open spec fn move_object_result(
    w: WorldView,
    c: ContextView,
    child: Id,
    new_parent: Option<Id>,
) -> Result<(), ApiError> {
    if child != c.id() && shares_room_result(w.state, child, c.id()) is Err {
        Err(ApiError::State(shares_room_result(w.state, child, c.id())->Err_0))
    } else if child != c.id() && shares_room_result(w.state, child, c.id()) == Ok::<bool, Error>(
        false,
    ) {
        Err(ApiError::MoveNotAllowed)
    } else if c.in_query {
        Err(ApiError::MutationDuringQuery)
    } else {
        match move_result(w.state, child, new_parent) {
            Ok(_) => Ok(()),
            Err(e) => Err(ApiError::State(e)),
        }
    }
}

/// The world after `move_object`: as it was where the move was refused; else
/// with the child under its new parent, the message `parent_changed` on its
/// way to the child and, where there is a new parent, `child_added` to it.
pub open spec fn move_object_world(
    w: WorldView,
    c: ContextView,
    child: Id,
    new_parent: Option<Id>,
) -> WorldView {
    if move_object_result(w, c, child, new_parent) is Ok {
        let told = w.with_state(moved(w.state, child, new_parent)).sending(
            c.message_to(child, "parent_changed"@, move_payload(child, new_parent)),
        );
        match new_parent {
            Some(p) => told.sending(
                c.message_to(p, "child_added"@, move_payload(child, new_parent)),
            ),
            None => told,
        }
    } else {
        w
    }
}

/// The payload of the messages that tell of a move.
fn make_move_payload(child: Id, new_parent: Option<Id>) -> (r: SerializableValue)
    ensures
        r@ == move_payload(child, new_parent),
{
    let mut info: Vec<(String, SerializableValue)> = Vec::new();
    let moved = SerializableValue::String(child.to_string());
    let target = match new_parent {
        Some(p) => SerializableValue::String(p.to_string()),
        None => SerializableValue::Nil,
    };
    assert(moved@ == ValueView::String(id_text(child)));
    assert(target@ == match new_parent {
        Some(p) => ValueView::String(id_text(p)),
        None => ValueView::Nil,
    });
    info.push((String::from_str("child"), moved));
    info.push((String::from_str("new_parent"), target));
    let r = SerializableValue::Dict(info);
    assert(r@->Dict_0 =~= move_payload(child, new_parent)->Dict_0);
    r
}

/// Puts `child` under `new_parent`, or nowhere, and tells both.
pub fn move_object(
    world: &mut World,
    context: &ExecutionContext,
    child: Id,
    new_parent: Option<Id>,
) -> (r: Result<(), ApiError>)
    requires
        old(world).wf(),
    ensures
        final(world).wf(),
        r == move_object_result(old(world)@, context@, child, new_parent),
        final(world)@ == move_object_world(old(world)@, context@, child, new_parent),
{
    let sender = context.get_id();
    if child.0 != sender.0 {
        match world.state.shares_room(child, sender) {
            Ok(true) => {},
            Ok(false) => {
                return Err(ApiError::MoveNotAllowed);
            },
            Err(e) => {
                return Err(ApiError::State(e));
            },
        }
    }
    if context.in_query {
        return Err(ApiError::MutationDuringQuery);
    }
    match world.state.move_object(child, new_parent) {
        Ok(_) => {},
        Err(e) => {
            return Err(ApiError::State(e));
        },
    }
    world.send_message(
        context.message_to(
            child,
            String::from_str("parent_changed"),
            make_move_payload(child, new_parent),
        ),
    );
    match new_parent {
        Some(p) => {
            world.send_message(
                context.message_to(
                    p,
                    String::from_str("child_added"),
                    make_move_payload(child, new_parent),
                ),
            );
        },
        None => {},
    }
    Ok(())
}


/// The given pieces, each followed by a space.
pub open spec fn spaced(pieces: Seq<Seq<char>>) -> Seq<char>
    decreases pieces.len(),
{
    if pieces.len() == 0 {
        Seq::empty()
    } else {
        spaced(pieces.drop_last()) + pieces.last() + " "@
    }
}

/// The line that a script prints: the object that prints, the name of the
/// message that it handles, and the pieces.
pub open spec fn print_line(c: ContextView, pieces: Seq<Seq<char>>) -> Seq<char> {
    id_text(c.current_message.target) + " (for "@ + c.current_message.name + "): "@ + spaced(
        pieces,
    )
}

/// Makes the line that a script prints, and hands it back for the server's
/// log. Where a user is at the origin of the turn, the line also goes to the
/// log of that user's clients. A query may print.
pub fn print_override(world: &mut World, context: &ExecutionContext, pieces: &Vec<String>) -> (r:
    String)
    ensures
        final(world).state == old(world).state,
        r@ == print_line(context@, texts_of(pieces@)),
        final(world)@ == match context@.current_message.original_user {
            Some(user) => old(world)@.telling(
                user,
                ClientMessageView::Log { level: "info"@, message: r@ },
            ),
            None => old(world)@,
        },
{
    let mut result = context.current_message.target.to_string();
    result.append(" (for ");
    result.append(context.current_message.name.as_str());
    result.append("): ");
    let ghost head = result@;
    let ghost all = texts_of(pieces@);
    let mut i: usize = 0;
    assert(all.take(0) =~= Seq::empty());
    assert(result@ =~= head + spaced(all.take(0)));
    while i < pieces.len()
        invariant
            i <= pieces.len(),
            all == texts_of(pieces@),
            result@ == head + spaced(all.take(i as int)),
        decreases pieces.len() - i,
    {
        proof {
            assert(all.take(i + 1).drop_last() =~= all.take(i as int));
            assert(all.take(i + 1).last() == pieces[i as int]@);
        }
        result.append(pieces[i].as_str());
        result.append(" ");
        assert(result@ =~= head + spaced(all.take(i + 1)));
        i += 1;
    }
    assert(all.take(i as int) =~= all);
    match context.current_message.original_user {
        Some(user) => {
            world.send_client_message(user, ToClientMessage::log("info", result.clone()));
        },
        None => {},
    }
    result
}

/// The timer that `set_delay` arms.
pub open spec fn delay_timer(
    w: WorldView,
    c: ContextView,
    seconds: u64,
    message_name: Seq<char>,
    payload: ValueView,
) -> TimerView {
    TimerView {
        target_time: GameTime((w.state.current_time.0 + seconds) as u64),
        original_user: c.current_message.original_user,
        message_name,
        payload,
    }
}

/// Whether `set_delay` arms a timer, and why not where it does not.
pub open spec fn set_delay_result(w: WorldView, c: ContextView, seconds: u64) -> Result<
    (),
    ApiError,
> {
    if c.in_query {
        Err(ApiError::MutationDuringQuery)
    } else if seconds < 1 {
        Err(ApiError::DelayTooShort)
    } else if !w.state.valid(c.id()) {
        Err(ApiError::State(Error::InvalidObjectId(c.id())))
    } else {
        Ok(())
    }
}

/// Arms a timer of the object that asks: after `seconds` seconds, at least
/// one, the object receives the message `message_name` with the given
/// payload. The timer takes the place of the one that the object had under the
/// same name. Without a name the timer gets a new one, drawn at random. The
/// name is handed back. A query may not.
pub fn set_delay(
    world: &mut World,
    context: &ExecutionContext,
    name: Option<String>,
    seconds: u64,
    message_name: String,
    payload: SerializableValue,
) -> (r: Result<String, ApiError>)
    requires
        old(world).wf(),
        old(world)@.state.current_time.0 + seconds <= u64::MAX,
    ensures
        final(world).wf(),
        match r {
            Ok(used) => {
                &&& set_delay_result(old(world)@, context@, seconds) is Ok
                &&& name is Some ==> used@ == name->0@
                &&& final(world)@ == old(world)@.with_state(
                    old(world)@.state.with_object(
                        context@.id(),
                        ObjectView {
                            timers: put(
                                old(world)@.state.object(context@.id()).timers,
                                used@,
                                delay_timer(
                                    old(world)@,
                                    context@,
                                    seconds,
                                    message_name@,
                                    payload@,
                                ),
                            ),
                            ..old(world)@.state.object(context@.id())
                        },
                    ),
                )
            },
            Err(e) => {
                &&& set_delay_result(old(world)@, context@, seconds) == Err::<(), ApiError>(e)
                &&& final(world)@ == old(world)@
            },
        },
{
    if context.in_query {
        return Err(ApiError::MutationDuringQuery);
    }
    if seconds < 1 {
        return Err(ApiError::DelayTooShort);
    }
    let id = context.get_id();
    let name = match name {
        Some(n) => n,
        None => fresh_name(),
    };
    let now = world.state.get_current_time();
    let timer = Timer {
        target_time: now.add(seconds),
        original_user: context.get_original_user(),
        message_name,
        payload,
    };
    match world.state.set_timer(id, name.clone(), timer) {
        Ok(_) => Ok(name),
        Err(e) => Err(ApiError::State(e)),
    }
}

/// Whether `clear_delay` goes through, and why not where it does not.
pub open spec fn clear_delay_result(w: WorldView, c: ContextView) -> Result<(), ApiError> {
    if c.in_query {
        Err(ApiError::MutationDuringQuery)
    } else if !w.state.valid(c.id()) {
        Err(ApiError::State(Error::InvalidObjectId(c.id())))
    } else {
        Ok(())
    }
}

/// Disarms the timer `name` of the object that asks, if it has one, and hands
/// the name back. A query may not.
pub fn clear_delay(world: &mut World, context: &ExecutionContext, name: String) -> (r: Result<
    String,
    ApiError,
>)
    requires
        old(world).wf(),
    ensures
        final(world).wf(),
        match r {
            Ok(cleared) => {
                &&& clear_delay_result(old(world)@, context@) is Ok
                &&& cleared@ == name@
                &&& final(world)@ == old(world)@.with_state(
                    old(world)@.state.with_object(
                        context@.id(),
                        ObjectView {
                            timers: delete(old(world)@.state.object(context@.id()).timers, name@),
                            ..old(world)@.state.object(context@.id())
                        },
                    ),
                )
            },
            Err(e) => {
                &&& clear_delay_result(old(world)@, context@) == Err::<(), ApiError>(e)
                &&& final(world)@ == old(world)@
            },
        },
{
    if context.in_query {
        return Err(ApiError::MutationDuringQuery);
    }
    match world.state.clear_timer(context.get_id(), name.as_str()) {
        Ok(_) => Ok(name),
        Err(e) => Err(ApiError::State(e)),
    }
}

/// A query that may be run: the message to hand to the target, and whether
/// the target is of the same kind as the object that asks, so that the
/// interpreter at work can run the query itself.
#[derive(Debug, Clone, PartialEq)]
pub struct QueryPlan {
    pub message: Message,
    pub same_kind: bool,
}

/// The outcome of `query`: the message and whether the kinds are the same,
/// unless one of the two is no object or a query asked.
pub open spec fn query_result(
    w: WorldView,
    c: ContextView,
    target: Id,
    name: Seq<char>,
    payload: ValueView,
) -> Result<(MessageView, bool), ApiError> {
    if !w.state.valid(c.id()) {
        Err(ApiError::State(Error::InvalidObjectId(c.id())))
    } else if !w.state.valid(target) {
        Err(ApiError::State(Error::InvalidObjectId(target)))
    } else if c.in_query {
        Err(ApiError::NestedQuery)
    } else {
        Ok(
            (
                c.message_to(target, name, payload),
                w.state.object(c.id()).kind == w.state.object(target).kind,
            ),
        )
    }
}

/// Prepares a query of `target`: a message that the target handles at once,
/// without changing anything, and answers with a value. A query may not ask
/// for a query.
pub fn query(
    world: &World,
    context: &ExecutionContext,
    target: Id,
    name: String,
    payload: SerializableValue,
) -> (r: Result<QueryPlan, ApiError>)
    ensures
        match r {
            Ok(plan) => query_result(world@, context@, target, name@, payload@) == Ok::<
                (MessageView, bool),
                ApiError,
            >((plan.message@, plan.same_kind)),
            Err(e) => query_result(world@, context@, target, name@, payload@) == Err::<
                (MessageView, bool),
                ApiError,
            >(e),
        },
{
    let id = context.get_id();
    let kind = match world.state.kind(id) {
        Ok(k) => k,
        Err(e) => {
            return Err(ApiError::State(e));
        },
    };
    let target_kind = match world.state.kind(target) {
        Ok(k) => k,
        Err(e) => {
            return Err(ApiError::State(e));
        },
    };
    if context.in_query {
        return Err(ApiError::NestedQuery);
    }
    Ok(
        QueryPlan {
            message: context.message_to(target, name, payload),
            same_kind: kind.same_as(&target_kind),
        },
    )
}

/// Where the text of a package is found.
#[derive(Debug, Clone, PartialEq, Eq)]
pub enum PackageSource {
    /// The package is live: this is its text, to be loaded under `chunk_name`.
    Live { content: String, chunk_name: String },
    /// The package comes with the system: its text is in the file of the
    /// package `package` under the system's root.
    SystemFile { package: String, chunk_name: String },
}

/// The mathematical content of a `PackageSource`.
pub enum SourceView {
    Live { content: Seq<char>, chunk_name: Seq<char> },
    SystemFile { package: Seq<char>, chunk_name: Seq<char> },
}

impl View for PackageSource {
    type V = SourceView;

    open spec fn view(&self) -> SourceView {
        match self {
            PackageSource::Live { content, chunk_name } => SourceView::Live {
                content: content@,
                chunk_name: chunk_name@,
            },
            PackageSource::SystemFile { package, chunk_name } => SourceView::SystemFile {
                package: package@,
                chunk_name: chunk_name@,
            },
        }
    }
}

/// Where `require` finds the package called `name`: a live package in the
/// world, a system package in its file, and no other.
pub open spec fn require_result(w: WorldView, name: Seq<char>) -> Result<SourceView, ApiError> {
    match parse_reference(name) {
        None => Err(ApiError::Package(PackageError::InvalidReference)),
        Some(p) => if p.repo == Some("live"@) {
            match live_content(w.state, p) {
                Some(content) => Ok(SourceView::Live { content, chunk_name: reference_text(p) }),
                None => Err(ApiError::PackageNotFound),
            }
        } else if root_text(p) == "system"@ {
            Ok(SourceView::SystemFile { package: p.package, chunk_name: reference_text(p) })
        } else {
            Err(ApiError::UnsupportedRepo)
        },
    }
}

/// Finds the text of the package that a script asks for by name.
pub fn require(world: &World, package_name: &str) -> (r: Result<PackageSource, ApiError>)
    requires
        world.wf(),
    ensures
        match r {
            Ok(source) => require_result(world@, package_name@) == Ok::<SourceView, ApiError>(
                source@,
            ),
            Err(e) => require_result(world@, package_name@) == Err::<SourceView, ApiError>(e),
        },
{
    let reference = match PackageReference::new(package_name) {
        Ok(p) => p,
        Err(e) => {
            return Err(ApiError::Package(e));
        },
    };
    if reference.is_live_package() {
        match world.state.get_live_package_content(&reference) {
            Some(content) => Ok(
                PackageSource::Live { content, chunk_name: reference.to_string() },
            ),
            None => Err(ApiError::PackageNotFound),
        }
    } else if reference.is_system_package() {
        Ok(
            PackageSource::SystemFile {
                package: String::from_str(reference.package()),
                chunk_name: reference.to_string(),
            },
        )
    } else {
        Err(ApiError::UnsupportedRepo)
    }
}

/// Which module a script gets where the package that it asked for has just
/// been loaded: the one that found its way into the interpreter's table of
/// loaded packages in the meantime, if any, else the one just loaded, which
/// is then to be stored.
pub fn first_loaded<T>(in_table: Option<T>, loaded: T) -> (r: (T, bool))
    ensures
        r == match in_table {
            Some(earlier) => (earlier, false),
            None => (loaded, true),
        },
{
    match in_table {
        Some(earlier) => (earlier, false),
        None => (loaded, true),
    }
}

/// What `get_package_content` finds: the text of a live package, if the world
/// holds it, or the system package whose file is to be read.
#[derive(Debug, Clone, PartialEq, Eq)]
pub enum PackageContent {
    Live { content: Option<String> },
    SystemFile { package: String },
}

/// The mathematical content of a `PackageContent`.
pub enum ContentView {
    Live { content: Option<Seq<char>> },
    SystemFile { package: Seq<char> },
}

impl View for PackageContent {
    type V = ContentView;

    open spec fn view(&self) -> ContentView {
        match self {
            PackageContent::Live { content } => ContentView::Live {
                content: match content {
                    Some(c) => Some(c@),
                    None => None,
                },
            },
            PackageContent::SystemFile { package } => ContentView::SystemFile {
                package: package@,
            },
        }
    }
}

/// What `get_package_content` finds for the package called `name`.
pub open spec fn package_content_result(w: WorldView, name: Seq<char>) -> Result<
    ContentView,
    ApiError,
> {
    match parse_reference(name) {
        None => Err(ApiError::Package(PackageError::InvalidReference)),
        Some(p) => if p.repo == Some("live"@) {
            Ok(ContentView::Live { content: live_content(w.state, p) })
        } else if root_text(p) == "system"@ {
            Ok(ContentView::SystemFile { package: p.package })
        } else {
            Err(ApiError::NotSystemPackage)
        },
    }
}

/// Finds the text of a package for a script that wants to show it.
pub fn get_package_content(world: &World, name: &str) -> (r: Result<PackageContent, ApiError>)
    requires
        world.wf(),
    ensures
        match r {
            Ok(found) => package_content_result(world@, name@) == Ok::<ContentView, ApiError>(
                found@,
            ),
            Err(e) => package_content_result(world@, name@) == Err::<ContentView, ApiError>(e),
        },
{
    let package = match PackageReference::new(name) {
        Ok(p) => p,
        Err(e) => {
            return Err(ApiError::Package(e));
        },
    };
    if package.is_live_package() {
        Ok(PackageContent::Live { content: world.state.get_live_package_content(&package) })
    } else if package.is_system_package() {
        Ok(PackageContent::SystemFile { package: String::from_str(package.package()) })
    } else {
        Err(ApiError::NotSystemPackage)
    }
}

/// Whether a package may be saved: it is a live package of the user whose
/// object asks, and no query asks.
pub open spec fn save_package_result(w: WorldView, c: ContextView, name: Seq<char>) -> Result<
    (),
    ApiError,
> {
    match parse_reference(name) {
        None => Err(ApiError::Package(PackageError::InvalidReference)),
        Some(p) => if lookup(w.state.users, p.user) == Some(c.id()) && p.repo == Some("live"@) {
            if c.in_query {
                Err(ApiError::MutationDuringQuery)
            } else {
                Ok(())
            }
        } else {
            Err(ApiError::NotYourPackage)
        },
    }
}

/// The world after a package was to be saved: with the new text, and with
/// the scripts to be loaded anew, where the package may be saved; as it was
/// where it may not.
pub open spec fn save_package_world(
    w: WorldView,
    c: ContextView,
    name: Seq<char>,
    content: Seq<char>,
) -> WorldView {
    if save_package_result(w, c, name) is Ok {
        WorldView {
            state: with_live_content(w.state, parse_reference(name)->0, content),
            reload_requested: true,
            ..w
        }
    } else {
        w
    }
}

/// Saves the text of a live package of the user whose object asks, and asks
/// for every script to be loaded anew.
pub fn send_save_package_content(
    world: &mut World,
    context: &ExecutionContext,
    name: &str,
    content: String,
) -> (r: Result<(), ApiError>)
    requires
        old(world).wf(),
    ensures
        final(world).wf(),
        r == save_package_result(old(world)@, context@, name@),
        final(world)@ == save_package_world(old(world)@, context@, name@, content@),
{
    let destination = match PackageReference::new(name) {
        Ok(p) => p,
        Err(e) => {
            return Err(ApiError::Package(e));
        },
    };
    let owner = world.state.user_id(destination.user());
    let owned = match owner {
        Some(id) => id.0 == context.get_id().0,
        None => false,
    };
    if owned && destination.is_live_package() {
        if context.in_query {
            return Err(ApiError::MutationDuringQuery);
        }
        world.state.set_live_package_content(destination, content);
        world.reload_code();
        Ok(())
    } else {
        Err(ApiError::NotYourPackage)
    }
}

/// What a script is told where the world refused what it asked.
pub open spec fn api_error_text(e: ApiError) -> Seq<char> {
    match e {
        ApiError::State(inner) => error_text(inner),
        ApiError::MutationDuringQuery => "Unable to set/send during a query."@,
        ApiError::NestedQuery => "You currently can't run a query from a query, sorry."@,
        ApiError::SetOtherState => "Can only set your own state."@,
        ApiError::GetOtherState => "Can only get your own state."@,
        ApiError::SetOtherAttr => "Can only set your own attrs."@,
        ApiError::Package(inner) => package_error_text(inner),
        ApiError::NotYourPackage =>
            "You can only write to live packages named $username/live.something"@,
        ApiError::MoveNotAllowed =>
            "only something in the same room or the object itself can move an object"@,
        ApiError::DelayTooShort => "Delay expected to be > 1 second"@,
        ApiError::UnsupportedRepo => "Only the system or live repos are currently supported."@,
        ApiError::PackageNotFound => "Can't find local package"@,
        ApiError::NotSystemPackage => "Package is not a system package"@,
    }
}

impl ApiError {
    /// What a script is told of the error.
    pub fn to_string(&self) -> (r: String)
        ensures
            r@ == api_error_text(*self),
    {
        match self {
            ApiError::State(inner) => inner.to_string(),
            ApiError::MutationDuringQuery => String::from_str("Unable to set/send during a query."),
            ApiError::NestedQuery => String::from_str(
                "You currently can't run a query from a query, sorry.",
            ),
            ApiError::SetOtherState => String::from_str("Can only set your own state."),
            ApiError::GetOtherState => String::from_str("Can only get your own state."),
            ApiError::SetOtherAttr => String::from_str("Can only set your own attrs."),
            ApiError::Package(inner) => inner.to_string(),
            ApiError::NotYourPackage => String::from_str(
                "You can only write to live packages named $username/live.something",
            ),
            ApiError::MoveNotAllowed => String::from_str(
                "only something in the same room or the object itself can move an object",
            ),
            ApiError::DelayTooShort => String::from_str("Delay expected to be > 1 second"),
            ApiError::UnsupportedRepo => String::from_str(
                "Only the system or live repos are currently supported.",
            ),
            ApiError::PackageNotFound => String::from_str("Can't find local package"),
            ApiError::NotSystemPackage => String::from_str("Package is not a system package"),
        }
    }
}

} // verus!
