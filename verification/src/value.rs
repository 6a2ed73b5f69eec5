//! The dynamically typed values that cross between scripts and the world.

use vstd::prelude::*;
use vstd::string::*;

verus! {

/// A value as the world stores and sends it.
///
/// `Number` holds a 64-bit IEEE 754 number as its bit pattern, so that every
/// number, whatever it is, is kept exactly.
#[derive(Debug, PartialEq)]
pub enum SerializableValue {
    Nil,
    Boolean(bool),
    Integer(i64),
    Number(u64),
    String(String),
    Table(Vec<(SerializableValue, SerializableValue)>),
    Dict(Vec<(String, SerializableValue)>),
}

/// The mathematical content of a `SerializableValue`.
pub enum ValueView {
    Nil,
    Boolean(bool),
    Integer(i64),
    Number(u64),
    String(Seq<char>),
    Table(Seq<(ValueView, ValueView)>),
    Dict(Seq<(Seq<char>, ValueView)>),
}

/// The content of a value: strings by their characters, lists by their items.
pub open spec fn value_view(v: SerializableValue) -> ValueView
    decreases v,
{
    match v {
        SerializableValue::Nil => ValueView::Nil,
        SerializableValue::Boolean(b) => ValueView::Boolean(b),
        SerializableValue::Integer(i) => ValueView::Integer(i),
        SerializableValue::Number(n) => ValueView::Number(n),
        SerializableValue::String(s) => ValueView::String(s@),
        SerializableValue::Table(pairs) => ValueView::Table(
            Seq::new(
                pairs.len() as nat,
                |i: int|
                    if 0 <= i < pairs.len() {
                        (value_view(pairs[i].0), value_view(pairs[i].1))
                    } else {
                        (ValueView::Nil, ValueView::Nil)
                    },
            ),
        ),
        SerializableValue::Dict(entries) => ValueView::Dict(
            Seq::new(
                entries.len() as nat,
                |i: int|
                    if 0 <= i < entries.len() {
                        (entries[i].0@, value_view(entries[i].1))
                    } else {
                        (Seq::<char>::empty(), ValueView::Nil)
                    },
            ),
        ),
    }
}

impl View for SerializableValue {
    type V = ValueView;

    open spec fn view(&self) -> ValueView {
        value_view(*self)
    }
}

impl SerializableValue {
    /// A copy with the same content.
    pub fn duplicate(&self) -> (r: SerializableValue)
        ensures
            r@ == self@,
        decreases self,
    {
        match self {
            SerializableValue::Nil => SerializableValue::Nil,
            SerializableValue::Boolean(b) => SerializableValue::Boolean(*b),
            SerializableValue::Integer(i) => SerializableValue::Integer(*i),
            SerializableValue::Number(n) => SerializableValue::Number(*n),
            SerializableValue::String(s) => SerializableValue::String(s.clone()),
            SerializableValue::Table(pairs) => {
                let mut out: Vec<(SerializableValue, SerializableValue)> = Vec::new();
                let mut i: usize = 0;
                while i < pairs.len()
                    invariant
                        i <= pairs.len(),
                        out.len() == i,
                        *self == SerializableValue::Table(*pairs),
                        decreases_to!(self => pairs),
                        forall|k: int|
                            0 <= k < i ==> (#[trigger] out[k]).0@ == pairs[k].0@ && out[k].1@
                                == pairs[k].1@,
                    decreases pairs.len() - i,
                {
                    assert(decreases_to!(*pairs => pairs[i as int]));
                        let key = pairs[i].0.duplicate();
                    let value = pairs[i].1.duplicate();
                    out.push((key, value));
                    i += 1;
                }
                let r = SerializableValue::Table(out);
                assert(r@->Table_0.len() == self@->Table_0.len());
                assert forall|k: int| 0 <= k < out.len() implies r@->Table_0[k]
                    == self@->Table_0[k] by {
                    assert(out[k].0@ == pairs[k].0@);
                }
                assert(r@->Table_0 =~= self@->Table_0);
                r
            },
            SerializableValue::Dict(entries) => {
                let mut out: Vec<(String, SerializableValue)> = Vec::new();
                let mut i: usize = 0;
                while i < entries.len()
                    invariant
                        i <= entries.len(),
                        out.len() == i,
                        *self == SerializableValue::Dict(*entries),
                        decreases_to!(self => entries),
                        forall|k: int|
                            0 <= k < i ==> (#[trigger] out[k]).0@ == entries[k].0@ && out[k].1@
                                == entries[k].1@,
                    decreases entries.len() - i,
                {
                    assert(decreases_to!(*entries => entries[i as int]));
                    let key = entries[i].0.clone();
                    let value = entries[i].1.duplicate();
                    out.push((key, value));
                    i += 1;
                }
                let r = SerializableValue::Dict(out);
                assert(r@->Dict_0 =~= self@->Dict_0);
                r
            },
        }
    }
}


/// A value as a script holds it. Beyond what the world can store, a script can
/// hold handles that mean nothing outside its interpreter; they are kept here
/// by their kind only.
#[derive(Debug, PartialEq)]
pub enum ScriptValue {
    Nil,
    Boolean(bool),
    Integer(i64),
    Number(u64),
    String(String),
    /// A script string that is not valid UTF-8.
    Bytes,
    Table(Vec<(ScriptValue, ScriptValue)>),
    Function,
    UserData,
    LightUserData,
    Thread,
    Error,
}

/// The mathematical content of a `ScriptValue`.
pub enum ScriptView {
    Nil,
    Boolean(bool),
    Integer(i64),
    Number(u64),
    String(Seq<char>),
    Bytes,
    Table(Seq<(ScriptView, ScriptView)>),
    Function,
    UserData,
    LightUserData,
    Thread,
    Error,
}

/// Why a script value cannot be stored: the kind of value that stood in the way.
#[derive(Debug, PartialEq, Eq, Clone, Copy, Structural)]
pub enum ConversionError {
    Bytes,
    Function,
    UserData,
    LightUserData,
    Thread,
    Error,
}

/// The content of a script value.
pub open spec fn script_view(v: ScriptValue) -> ScriptView
    decreases v,
{
    match v {
        ScriptValue::Nil => ScriptView::Nil,
        ScriptValue::Boolean(b) => ScriptView::Boolean(b),
        ScriptValue::Integer(i) => ScriptView::Integer(i),
        ScriptValue::Number(n) => ScriptView::Number(n),
        ScriptValue::String(s) => ScriptView::String(s@),
        ScriptValue::Bytes => ScriptView::Bytes,
        ScriptValue::Table(pairs) => ScriptView::Table(
            Seq::new(
                pairs.len() as nat,
                |i: int|
                    if 0 <= i < pairs.len() {
                        (script_view(pairs[i].0), script_view(pairs[i].1))
                    } else {
                        (ScriptView::Nil, ScriptView::Nil)
                    },
            ),
        ),
        ScriptValue::Function => ScriptView::Function,
        ScriptValue::UserData => ScriptView::UserData,
        ScriptValue::LightUserData => ScriptView::LightUserData,
        ScriptValue::Thread => ScriptView::Thread,
        ScriptValue::Error => ScriptView::Error,
    }
}

impl View for ScriptValue {
    type V = ScriptView;

    open spec fn view(&self) -> ScriptView {
        script_view(*self)
    }
}

/// What a script value becomes when the world takes it: the same value, or the
/// first thing in it, reading keys before values and pairs in order, that the
/// world cannot store.
pub open spec fn stored(v: ScriptView) -> Result<ValueView, ConversionError>
    decreases v,
{
    match v {
        ScriptView::Nil => Ok(ValueView::Nil),
        ScriptView::Boolean(b) => Ok(ValueView::Boolean(b)),
        ScriptView::Integer(i) => Ok(ValueView::Integer(i)),
        ScriptView::Number(n) => Ok(ValueView::Number(n)),
        ScriptView::String(s) => Ok(ValueView::String(s)),
        ScriptView::Bytes => Err(ConversionError::Bytes),
        ScriptView::Table(pairs) => match stored_pairs(pairs) {
            Ok(p) => Ok(ValueView::Table(p)),
            Err(e) => Err(e),
        },
        ScriptView::Function => Err(ConversionError::Function),
        ScriptView::UserData => Err(ConversionError::UserData),
        ScriptView::LightUserData => Err(ConversionError::LightUserData),
        ScriptView::Thread => Err(ConversionError::Thread),
        ScriptView::Error => Err(ConversionError::Error),
    }
}

/// `stored` on each pair of a table, in order.
pub open spec fn stored_pairs(pairs: Seq<(ScriptView, ScriptView)>) -> Result<
    Seq<(ValueView, ValueView)>,
    ConversionError,
>
    decreases pairs,
{
    if pairs.len() == 0 {
        Ok(Seq::empty())
    } else {
        match stored_pairs(pairs.drop_last()) {
            Err(e) => Err(e),
            Ok(front) => match stored(pairs.last().0) {
                Err(e) => Err(e),
                Ok(key) => match stored(pairs.last().1) {
                    Err(e) => Err(e),
                    Ok(value) => Ok(front.push((key, value))),
                },
            },
        }
    }
}

/// A failure among the first pairs of a table is the failure of the whole table.
pub proof fn lemma_stored_pairs_prefix_error(pairs: Seq<(ScriptView, ScriptView)>, n: int)
    requires
        0 <= n <= pairs.len(),
        stored_pairs(pairs.take(n)) is Err,
    ensures
        stored_pairs(pairs) == stored_pairs(pairs.take(n)),
    decreases pairs.len() - n,
{
    if n == pairs.len() {
        assert(pairs.take(n) =~= pairs);
    } else {
        assert(pairs.take(n + 1).drop_last() =~= pairs.take(n));
        lemma_stored_pairs_prefix_error(pairs, n + 1);
    }
}

impl ScriptValue {
    /// The value as the world stores it, or what in it cannot be stored.
    pub fn to_value(&self) -> (r: Result<SerializableValue, ConversionError>)
        ensures
            match r {
                Ok(v) => stored(self@) == Ok::<ValueView, ConversionError>(v@),
                Err(e) => stored(self@) == Err::<ValueView, ConversionError>(e),
            },
        decreases self,
    {
        match self {
            ScriptValue::Nil => Ok(SerializableValue::Nil),
            ScriptValue::Boolean(b) => Ok(SerializableValue::Boolean(*b)),
            ScriptValue::Integer(i) => Ok(SerializableValue::Integer(*i)),
            ScriptValue::Number(n) => Ok(SerializableValue::Number(*n)),
            ScriptValue::String(s) => Ok(SerializableValue::String(s.clone())),
            ScriptValue::Bytes => Err(ConversionError::Bytes),
            ScriptValue::Table(pairs) => {
                let ghost all = self@->Table_0;
                let mut out: Vec<(SerializableValue, SerializableValue)> = Vec::new();
                let mut i: usize = 0;
                assert(all.take(0) =~= Seq::empty());
                assert(SerializableValue::Table(out)@->Table_0 =~= Seq::empty());
                while i < pairs.len()
                    invariant
                        i <= pairs.len(),
                        *self == ScriptValue::Table(*pairs),
                        decreases_to!(self => pairs),
                        all == self@->Table_0,
                        all.len() == pairs.len(),
                        stored_pairs(all.take(i as int)) == Ok::<
                            Seq<(ValueView, ValueView)>,
                            ConversionError,
                        >(SerializableValue::Table(out)@->Table_0),
                    decreases pairs.len() - i,
                {
                    assert(decreases_to!(*pairs => pairs[i as int]));
                    let ghost before = SerializableValue::Table(out)@->Table_0;
                    proof {
                        assert(all.take(i + 1).drop_last() =~= all.take(i as int));
                        assert(all.take(i + 1).last() == all[i as int]);
                        assert(all[i as int] == (pairs[i as int].0@, pairs[i as int].1@));
                    }
                    let key = match pairs[i].0.to_value() {
                        Ok(k) => k,
                        Err(e) => {
                            proof {
                                lemma_stored_pairs_prefix_error(all, i + 1);
                            }
                            return Err(e);
                        },
                    };
                    let value = match pairs[i].1.to_value() {
                        Ok(v) => v,
                        Err(e) => {
                            proof {
                                lemma_stored_pairs_prefix_error(all, i + 1);
                            }
                            return Err(e);
                        },
                    };
                    let ghost kv = (key@, value@);
                    out.push((key, value));
                    proof {
                        assert(SerializableValue::Table(out)@->Table_0 =~= before.push(kv));
                    }
                    i += 1;
                }
                assert(all.take(i as int) =~= all);
                Ok(SerializableValue::Table(out))
            },
            ScriptValue::Function => Err(ConversionError::Function),
            ScriptValue::UserData => Err(ConversionError::UserData),
            ScriptValue::LightUserData => Err(ConversionError::LightUserData),
            ScriptValue::Thread => Err(ConversionError::Thread),
            ScriptValue::Error => Err(ConversionError::Error),
        }
    }
}


impl Clone for SerializableValue {
    fn clone(&self) -> (r: SerializableValue)
        ensures
            r@ == self@,
    {
        self.duplicate()
    }
}

/// What a stored value is when handed to a script: the same value, a dictionary
/// as a table keyed by strings.
pub open spec fn scripted(v: ValueView) -> ScriptView
    decreases v,
{
    match v {
        ValueView::Nil => ScriptView::Nil,
        ValueView::Boolean(b) => ScriptView::Boolean(b),
        ValueView::Integer(i) => ScriptView::Integer(i),
        ValueView::Number(n) => ScriptView::Number(n),
        ValueView::String(s) => ScriptView::String(s),
        ValueView::Table(pairs) => ScriptView::Table(
            Seq::new(
                pairs.len(),
                |i: int|
                    if 0 <= i < pairs.len() {
                        (scripted(pairs[i].0), scripted(pairs[i].1))
                    } else {
                        (ScriptView::Nil, ScriptView::Nil)
                    },
            ),
        ),
        ValueView::Dict(entries) => ScriptView::Table(
            Seq::new(
                entries.len(),
                |i: int|
                    if 0 <= i < entries.len() {
                        (ScriptView::String(entries[i].0), scripted(entries[i].1))
                    } else {
                        (ScriptView::Nil, ScriptView::Nil)
                    },
            ),
        ),
    }
}

impl SerializableValue {
    /// The value as a script receives it.
    pub fn to_script(&self) -> (r: ScriptValue)
        ensures
            r@ == scripted(self@),
        decreases self,
    {
        match self {
            SerializableValue::Nil => ScriptValue::Nil,
            SerializableValue::Boolean(b) => ScriptValue::Boolean(*b),
            SerializableValue::Integer(i) => ScriptValue::Integer(*i),
            SerializableValue::Number(n) => ScriptValue::Number(*n),
            SerializableValue::String(s) => ScriptValue::String(s.clone()),
            SerializableValue::Table(pairs) => {
                let mut out: Vec<(ScriptValue, ScriptValue)> = Vec::new();
                let mut i: usize = 0;
                while i < pairs.len()
                    invariant
                        i <= pairs.len(),
                        out.len() == i,
                        *self == SerializableValue::Table(*pairs),
                        decreases_to!(self => pairs),
                        forall|k: int|
                            0 <= k < i ==> (#[trigger] out[k]).0@ == scripted(pairs[k].0@)
                                && out[k].1@ == scripted(pairs[k].1@),
                    decreases pairs.len() - i,
                {
                    assert(decreases_to!(*pairs => pairs[i as int]));
                    let key = pairs[i].0.to_script();
                    let value = pairs[i].1.to_script();
                    out.push((key, value));
                    i += 1;
                }
                let r = ScriptValue::Table(out);
                assert(r@->Table_0 =~= scripted(self@)->Table_0);
                r
            },
            SerializableValue::Dict(entries) => {
                let mut out: Vec<(ScriptValue, ScriptValue)> = Vec::new();
                let mut i: usize = 0;
                while i < entries.len()
                    invariant
                        i <= entries.len(),
                        out.len() == i,
                        *self == SerializableValue::Dict(*entries),
                        decreases_to!(self => entries),
                        forall|k: int|
                            0 <= k < i ==> (#[trigger] out[k]).0@ == ScriptView::String(
                                entries[k].0@,
                            ) && out[k].1@ == scripted(entries[k].1@),
                    decreases entries.len() - i,
                {
                    assert(decreases_to!(*entries => entries[i as int]));
                    let key = ScriptValue::String(entries[i].0.clone());
                    let value = entries[i].1.to_script();
                    out.push((key, value));
                    i += 1;
                }
                let r = ScriptValue::Table(out);
                assert(r@->Table_0 =~= scripted(self@)->Table_0);
                r
            },
        }
    }
}

/// The name of the kind of script value that could not be stored.
pub open spec fn kind_name(e: ConversionError) -> Seq<char> {
    match e {
        ConversionError::Bytes => "string"@,
        ConversionError::Function => "function"@,
        ConversionError::UserData => "userdata"@,
        ConversionError::LightUserData => "light userdata"@,
        ConversionError::Thread => "thread"@,
        ConversionError::Error => "error"@,
    }
}

impl ConversionError {
    /// The name of the kind of script value that could not be stored.
    pub fn from_name(&self) -> (r: &'static str)
        ensures
            r@ == kind_name(*self),
    {
        match self {
            ConversionError::Bytes => "string",
            ConversionError::Function => "function",
            ConversionError::UserData => "userdata",
            ConversionError::LightUserData => "light userdata",
            ConversionError::Thread => "thread",
            ConversionError::Error => "error",
        }
    }
}

} // verus!
