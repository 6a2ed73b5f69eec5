//! Identities, time, messages and timers.

use crate::text::{
    chars_of, decimal, decimal_digits, lemma_decimal_round_trip, parse_digits, parse_index_spec,
    string_of,
};
use crate::value::{ScriptValue, ScriptView, SerializableValue, ValueView};
use vstd::prelude::*;
use vstd::string::*;

verus! {

/// A stable handle for an object of the world: the index at which it was created.
#[derive(Debug, PartialEq, Eq, Clone, Copy, Hash, Structural)]
pub struct Id(pub usize);

impl View for Id {
    type V = Id;

    open spec fn view(&self) -> Id {
        *self
    }
}

/// Why a value is not an object id.
#[derive(Debug, PartialEq, Eq, Clone, Copy, Structural)]
pub enum IdError {
    /// The value is not a string.
    NotAString,
    /// The string does not start with `#`.
    MissingMarker,
    /// What follows the `#` is not an index.
    InvalidIndex,
}

/// The written form of an id: `#` and the decimal numeral of its index.
pub open spec fn id_text(id: Id) -> Seq<char> {
    seq!['#'] + decimal(id.0 as nat)
}

/// The id that a text stands for.
pub open spec fn parse_id(s: Seq<char>) -> Result<Id, IdError> {
    if s.len() > 0 && s[0] == '#' {
        match parse_index_spec(s.subrange(1, s.len() as int)) {
            Some(n) => Ok(Id(n)),
            None => Err(IdError::InvalidIndex),
        }
    } else {
        Err(IdError::MissingMarker)
    }
}

/// The id that a script value stands for.
pub open spec fn id_of_script(v: ScriptView) -> Result<Id, IdError> {
    match v {
        ScriptView::String(s) => parse_id(s),
        _ => Err(IdError::NotAString),
    }
}

/// Reading back the written form of an id gives that id.
pub proof fn lemma_id_text_round_trip(id: Id)
    ensures
        parse_id(id_text(id)) == Ok::<Id, IdError>(id),
{
    let s = id_text(id);
    let d = decimal(id.0 as nat);
    lemma_decimal_round_trip(id.0 as nat);
    assert(s.subrange(1, s.len() as int) =~= d);
    assert(s[0] == '#');
}

/// Two ids are written alike only if they are the same id.
pub proof fn lemma_id_text_injective(a: Id, b: Id)
    requires
        id_text(a) == id_text(b),
    ensures
        a == b,
{
    lemma_id_text_round_trip(a);
    lemma_id_text_round_trip(b);
}

impl Id {
    /// The id that wraps the index `id`.
    pub fn new(id: usize) -> (r: Id)
        ensures
            r == Id(id),
    {
        Id(id)
    }

    /// The index that the id wraps.
    pub fn index(&self) -> (r: usize)
        ensures
            r == self.0,
    {
        self.0
    }

    /// The written form, `#` and the index.
    pub fn to_string(&self) -> (r: String)
        ensures
            r@ == id_text(*self),
    {
        let mut chars: Vec<char> = Vec::new();
        chars.push('#');
        let mut digits = decimal_digits(self.0);
        chars.append(&mut digits);
        assert(chars@ =~= id_text(*self));
        string_of(&chars)
    }

    /// Reads the written form of an id.
    pub fn parse(s: &str) -> (r: Result<Id, IdError>)
        ensures
            r == parse_id(s@),
    {
        let chars = chars_of(s);
        if chars.len() == 0 || chars[0] != '#' {
            return Err(IdError::MissingMarker);
        }
        let from: usize = if chars.len() > 1 && chars[1] == '+' {
            2
        } else {
            1
        };
        proof {
            let rest = s@.subrange(1, s@.len() as int);
            if from == 2 {
                assert(rest[0] == '+');
                assert(rest.subrange(1, rest.len() as int) =~= chars@.subrange(
                    2,
                    chars.len() as int,
                ));
            } else {
                assert(rest =~= chars@.subrange(1, chars.len() as int));
            }
        }
        match parse_digits(&chars, from) {
            Some(n) => Ok(Id(n)),
            None => Err(IdError::InvalidIndex),
        }
    }

    /// Reads an id from a value that a script handed over.
    pub fn from_script(v: &ScriptValue) -> (r: Result<Id, IdError>)
        ensures
            r == id_of_script(v@),
    {
        match v {
            ScriptValue::String(s) => Id::parse(s.as_str()),
            _ => Err(IdError::NotAString),
        }
    }

    /// The id as a script receives it: its written form, as a string.
    pub fn to_script(&self) -> (r: ScriptValue)
        ensures
            r@ == ScriptView::String(id_text(*self)),
    {
        ScriptValue::String(self.to_string())
    }
}

/// A moment of the world's clock, in seconds since the world began.
#[derive(Debug, PartialEq, Eq, PartialOrd, Ord, Clone, Copy, Hash, Structural)]
pub struct GameTime(pub u64);

impl GameTime {
    /// The moment `seconds` seconds after the world began.
    pub fn new(seconds: u64) -> (r: GameTime)
        ensures
            r == GameTime(seconds),
    {
        GameTime(seconds)
    }

    /// The seconds since the world began.
    pub fn seconds(&self) -> (r: u64)
        ensures
            r == self.0,
    {
        self.0
    }

    /// The moment `rhs` seconds later.
    pub fn add(self, rhs: u64) -> (r: GameTime)
        requires
            self.0 + rhs <= u64::MAX,
        ensures
            r.0 == self.0 + rhs,
    {
        GameTime(self.0 + rhs)
    }

    /// The moment `rhs` seconds later, if the clock can show it.
    pub fn checked_add(self, rhs: u64) -> (r: Option<GameTime>)
        ensures
            r == if self.0 + rhs <= u64::MAX {
                Some(GameTime((self.0 + rhs) as u64))
            } else {
                None::<GameTime>
            },
    {
        match self.0.checked_add(rhs) {
            Some(t) => Some(GameTime(t)),
            None => None,
        }
    }

    /// Whether this moment comes after `other`.
    pub fn is_after(&self, other: GameTime) -> (r: bool)
        ensures
            r == (self.0 > other.0),
    {
        self.0 > other.0
    }
}

impl Default for GameTime {
    fn default() -> (r: GameTime)
        ensures
            r == GameTime(0),
    {
        GameTime(0)
    }
}

/// An event addressed to an object.
#[derive(Debug, Clone, PartialEq)]
pub struct Message {
    pub target: Id,
    pub immediate_sender: Id,
    /// The user at the origin of the chain of messages that led to this one.
    pub original_user: Option<Id>,
    pub name: String,
    pub payload: SerializableValue,
}

/// The mathematical content of a `Message`.
pub struct MessageView {
    pub target: Id,
    pub immediate_sender: Id,
    pub original_user: Option<Id>,
    pub name: Seq<char>,
    pub payload: ValueView,
}

impl View for Message {
    type V = MessageView;

    open spec fn view(&self) -> MessageView {
        MessageView {
            target: self.target,
            immediate_sender: self.immediate_sender,
            original_user: self.original_user,
            name: self.name@,
            payload: self.payload@,
        }
    }
}

impl Message {
    /// A copy with the same content.
    pub fn duplicate(&self) -> (r: Message)
        ensures
            r@ == self@,
    {
        Message {
            target: self.target,
            immediate_sender: self.immediate_sender,
            original_user: self.original_user,
            name: self.name.clone(),
            payload: self.payload.duplicate(),
        }
    }
}

/// A message that an object has asked to receive at a later moment.
#[derive(Debug, Clone, PartialEq)]
pub struct Timer {
    pub target_time: GameTime,
    pub original_user: Option<Id>,
    pub message_name: String,
    pub payload: SerializableValue,
}

/// The mathematical content of a `Timer`.
pub struct TimerView {
    pub target_time: GameTime,
    pub original_user: Option<Id>,
    pub message_name: Seq<char>,
    pub payload: ValueView,
}

impl View for Timer {
    type V = TimerView;

    open spec fn view(&self) -> TimerView {
        TimerView {
            target_time: self.target_time,
            original_user: self.original_user,
            message_name: self.message_name@,
            payload: self.payload@,
        }
    }
}

/// The message by which a timer is delivered to its owner: from the owner, to
/// the owner, with the timer's name, payload and user.
pub open spec fn timer_message(owner: Id, timer: TimerView) -> MessageView {
    MessageView {
        target: owner,
        immediate_sender: owner,
        original_user: timer.original_user,
        name: timer.message_name,
        payload: timer.payload,
    }
}

impl Timer {
    /// A copy with the same content.
    pub fn duplicate(&self) -> (r: Timer)
        ensures
            r@ == self@,
    {
        Timer {
            target_time: self.target_time,
            original_user: self.original_user,
            message_name: self.message_name.clone(),
            payload: self.payload.duplicate(),
        }
    }

    /// Turns a timer that has come due into the message for its owner.
    pub fn into_message(self, owner: Id) -> (r: Message)
        ensures
            r@ == timer_message(owner, self@),
    {
        Message {
            target: owner,
            immediate_sender: owner,
            original_user: self.original_user,
            name: self.message_name,
            payload: self.payload,
        }
    }
}

/// What is said of a value that is no object id.
pub open spec fn id_error_text(e: IdError) -> Seq<char> {
    match e {
        IdError::NotAString => "Expected a string for an object id"@,
        IdError::MissingMarker => "Invalid object id"@,
        IdError::InvalidIndex => "Invalid object index"@,
    }
}

impl IdError {
    /// What is said of the error.
    pub fn to_string(&self) -> (r: String)
        ensures
            r@ == id_error_text(*self),
    {
        match self {
            IdError::NotAString => String::from_str("Expected a string for an object id"),
            IdError::MissingMarker => String::from_str("Invalid object id"),
            IdError::InvalidIndex => String::from_str("Invalid object index"),
        }
    }
}

} // verus!
