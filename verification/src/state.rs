//! The state of the world: its objects, users, live packages and clock.

use crate::dict::{
    delete, lemma_lookup_at, lookup, pairs_view, put, reversed, unique_keys, Dict,
};
use crate::package::{
    is_name, is_word, lemma_parse_sound, parse_reference, reference_text, well_formed,
    PackageReference, PackageView,
};
use crate::types::{id_text, GameTime, Id, Timer, TimerView};
use crate::value::{SerializableValue, ValueView};
use vstd::prelude::*;
use vstd::string::*;

verus! {

/// What can go wrong when the object graph is read or changed.
#[derive(Debug, PartialEq, Eq, Clone, Copy, Structural)]
pub enum Error {
    /// The id names no object of the world.
    InvalidObjectId(Id),
    /// The move would put an object inside itself.
    CyclicHierarchy,
}

/// The mathematical content of an object.
pub struct ObjectView {
    pub parent: Option<Id>,
    pub kind: PackageView,
    /// What everyone may read of the object and only the object may write.
    pub attrs: Seq<(Seq<char>, ValueView)>,
    /// What only the object itself may read and write.
    pub state: Seq<(Seq<char>, ValueView)>,
    pub timers: Seq<(Seq<char>, TimerView)>,
}

/// The mathematical content of the world's state. Live packages are keyed by
/// the written form of their reference.
pub struct StateView {
    pub objects: Seq<ObjectView>,
    pub entrance: Id,
    pub users: Seq<(Seq<char>, Id)>,
    pub live_packages: Seq<(Seq<char>, Seq<char>)>,
    pub current_time: GameTime,
}

/// The package that defines how the user `name` behaves.
pub open spec fn user_package(name: Seq<char>) -> PackageView {
    PackageView { user: name, repo: Some("live"@), package: "user"@ }
}

/// The package that defines how rooms behave.
pub open spec fn room_package() -> PackageView {
    PackageView { user: "system"@, repo: None, package: "room"@ }
}

/// A new object of the given kind: nowhere, with nothing set.
pub open spec fn fresh_object(kind: PackageView) -> ObjectView {
    ObjectView {
        parent: None,
        kind,
        attrs: Seq::empty(),
        state: Seq::empty(),
        timers: Seq::empty(),
    }
}

impl StateView {
    /// Whether `id` names an object.
    pub open spec fn valid(self, id: Id) -> bool {
        id.0 < self.objects.len()
    }

    /// The object that `id` names.
    pub open spec fn object(self, id: Id) -> ObjectView {
        self.objects[id.0 as int]
    }

    /// The object reached from `x` by going to the parent `k` times, if the
    /// chain of parents is that long.
    pub open spec fn ancestor(self, x: Id, k: nat) -> Option<Id>
        decreases k,
    {
        if k == 0 {
            Some(x)
        } else if self.valid(x) {
            match self.object(x).parent {
                Some(p) => self.ancestor(p, (k - 1) as nat),
                None => None,
            }
        } else {
            None
        }
    }

    /// Whether the chain of parents that starts at `x` comes to an end.
    pub open spec fn rooted(self, x: Id) -> bool {
        exists|k: nat| self.ancestor(x, k) is None
    }

    /// Whether `top` is `x` itself or stands somewhere above `x`.
    pub open spec fn within(self, x: Id, top: Id) -> bool {
        exists|k: nat| self.ancestor(x, k) == Some(top)
    }

    /// Whether `room` is the topmost object above `x`, or `x` itself where
    /// nothing is above it.
    pub open spec fn room_of(self, x: Id, room: Id) -> bool {
        exists|k: nat|
            #[trigger] self.ancestor(x, k) == Some(room) && self.ancestor(x, k + 1) is None
    }

    /// Whether the parents form a forest of objects of this world: every parent
    /// is an object, and no chain of parents goes round.
    pub open spec fn forest(self) -> bool {
        &&& forall|x: Id|
            self.valid(x) && (#[trigger] self.object(x)).parent is Some ==> self.valid(
                self.object(x).parent->0,
            )
        &&& forall|x: Id| self.valid(x) ==> #[trigger] self.rooted(x)
    }

    /// Whether every user is an object of this world that was made for that user.
    pub open spec fn users_ok(self) -> bool {
        &&& unique_keys(self.users)
        &&& forall|j: int|
            0 <= j < self.users.len() ==> {
                &&& is_word((#[trigger] self.users[j]).0)
                &&& self.valid(self.users[j].1)
                &&& self.object(self.users[j].1).kind == user_package(self.users[j].0)
            }
    }

    /// Whether every package held in the world is a live package.
    pub open spec fn live_packages_ok(self) -> bool {
        &&& unique_keys(self.live_packages)
        &&& forall|j: int|
            0 <= j < self.live_packages.len() ==> {
                &&& parse_reference((#[trigger] self.live_packages[j]).0) is Some
                &&& parse_reference(self.live_packages[j].0)->0.repo == Some("live"@)
            }
    }

    /// Whether each object's dictionaries hold no key twice and its kind is a
    /// well-formed reference.
    pub open spec fn objects_ok(self) -> bool {
        forall|i: int|
            0 <= i < self.objects.len() ==> {
                &&& unique_keys((#[trigger] self.objects[i]).attrs)
                &&& unique_keys(self.objects[i].state)
                &&& unique_keys(self.objects[i].timers)
                &&& well_formed(self.objects[i].kind)
            }
    }

    /// Whether the state is one that a world can be in.
    pub open spec fn ok(self) -> bool {
        &&& self.objects.len() <= usize::MAX
        &&& self.valid(self.entrance)
        &&& self.forest()
        &&& self.objects_ok()
        &&& self.users_ok()
        &&& self.live_packages_ok()
    }

    /// The ids of the objects whose parent is `id`, among the first `n`
    /// objects, in the order of their creation.
    pub open spec fn children_among(self, id: Id, n: nat) -> Seq<Id>
        decreases n,
    {
        if n == 0 {
            Seq::empty()
        } else {
            let before = self.children_among(id, (n - 1) as nat);
            if n <= self.objects.len() && self.objects[n - 1].parent == Some(id) {
                before.push(Id((n - 1) as usize))
            } else {
                before
            }
        }
    }

    /// The ids of the objects whose parent is `id`, in the order of their creation.
    pub open spec fn children(self, id: Id) -> Seq<Id> {
        self.children_among(id, self.objects.len())
    }

    /// Whether two objects have the same room.
    pub open spec fn same_room(self, a: Id, b: Id) -> bool {
        exists|room: Id| self.room_of(a, room) && self.room_of(b, room)
    }

    /// The state with one object replaced.
    pub open spec fn with_object(self, id: Id, object: ObjectView) -> StateView {
        StateView { objects: self.objects.update(id.0 as int, object), ..self }
    }
}

/// Once a chain of parents has ended, it stays ended.
pub proof fn lemma_ancestor_none_stays(s: StateView, x: Id, k: nat, later: nat)
    requires
        s.ancestor(x, k) is None,
        k <= later,
    ensures
        s.ancestor(x, later) is None,
    decreases k,
{
    if k > 0 && s.valid(x) && s.object(x).parent is Some {
        lemma_ancestor_none_stays(s, s.object(x).parent->0, (k - 1) as nat, (later - 1) as nat);
    }
}

/// Going up `a` times and then `b` times is going up `a + b` times.
pub proof fn lemma_ancestor_add(s: StateView, x: Id, a: nat, b: nat)
    requires
        s.ancestor(x, a) is Some,
    ensures
        s.ancestor(x, a + b) == s.ancestor(s.ancestor(x, a)->0, b),
    decreases a,
{
    if a > 0 {
        lemma_ancestor_add(s, s.object(x).parent->0, (a - 1) as nat, b);
    }
}

/// In a forest every object on a chain of parents is an object of the world.
pub proof fn lemma_ancestor_valid(s: StateView, x: Id, k: nat)
    requires
        s.forest(),
        s.valid(x),
        s.ancestor(x, k) is Some,
    ensures
        s.valid(s.ancestor(x, k)->0),
    decreases k,
{
    if k > 0 {
        assert(s.object(x).parent is Some);
        lemma_ancestor_valid(s, s.object(x).parent->0, (k - 1) as nat);
    }
}

/// An object has one room only.
pub proof fn lemma_room_unique(s: StateView, x: Id, a: Id, b: Id)
    requires
        s.room_of(x, a),
        s.room_of(x, b),
    ensures
        a == b,
{
    let ka = choose|k: nat| #[trigger] s.ancestor(x, k) == Some(a) && s.ancestor(x, k + 1) is None;
    let kb = choose|k: nat| #[trigger] s.ancestor(x, k) == Some(b) && s.ancestor(x, k + 1) is None;
    if ka < kb {
        lemma_ancestor_none_stays(s, x, ka + 1, kb);
    } else if kb < ka {
        lemma_ancestor_none_stays(s, x, kb + 1, ka);
    }
}


/// Chains of parents are the same in two states whose objects have the same
/// parents, the second having at least the objects of the first.
pub proof fn lemma_ancestor_same_parents(a: StateView, b: StateView, x: Id, k: nat)
    requires
        a.forest(),
        a.valid(x),
        a.objects.len() <= b.objects.len(),
        forall|y: Id| a.valid(y) ==> (#[trigger] b.object(y)).parent == a.object(y).parent,
    ensures
        b.ancestor(x, k) == a.ancestor(x, k),
    decreases k,
{
    if k > 0 {
        assert(b.object(x).parent == a.object(x).parent);
        if a.object(x).parent is Some {
            lemma_ancestor_same_parents(a, b, a.object(x).parent->0, (k - 1) as nat);
        }
    }
}

/// A state with the same objects under the same parents as a forest is a forest.
pub proof fn lemma_forest_same_parents(a: StateView, b: StateView)
    requires
        a.forest(),
        a.objects.len() == b.objects.len(),
        forall|y: Id| a.valid(y) ==> (#[trigger] b.object(y)).parent == a.object(y).parent,
    ensures
        b.forest(),
{
    assert forall|x: Id| b.valid(x) implies #[trigger] b.rooted(x) by {
        assert(a.rooted(x));
        let k = choose|k: nat| a.ancestor(x, k) is None;
        lemma_ancestor_same_parents(a, b, x, k);
    }
    assert forall|x: Id| b.valid(x) && (#[trigger] b.object(x)).parent is Some implies b.valid(
        b.object(x).parent->0,
    ) by {
        assert(a.object(x).parent is Some);
    }
}

/// A new object leaves the state in order.
pub proof fn lemma_create_keeps_ok(a: StateView, kind: PackageView)
    requires
        a.ok(),
        well_formed(kind),
        a.objects.len() < usize::MAX,
    ensures
        with_new_object(a, kind).ok(),
{
    let b = with_new_object(a, kind);
    assert forall|x: Id| b.valid(x) implies #[trigger] b.rooted(x) by {
        if a.valid(x) {
            assert(a.rooted(x));
            let k = choose|k: nat| a.ancestor(x, k) is None;
            lemma_ancestor_same_parents(a, b, x, k);
        } else {
            assert(b.ancestor(x, 1) is None);
        }
    }
    assert forall|x: Id| b.valid(x) && (#[trigger] b.object(x)).parent is Some implies b.valid(
        b.object(x).parent->0,
    ) by {
        if a.valid(x) {
            assert(a.object(x).parent is Some);
        }
    }
    assert forall|i: int| 0 <= i < b.objects.len() implies {
        &&& unique_keys((#[trigger] b.objects[i]).attrs)
        &&& unique_keys(b.objects[i].state)
        &&& unique_keys(b.objects[i].timers)
        &&& well_formed(b.objects[i].kind)
    } by {
        if i < a.objects.len() {
            assert(well_formed(a.objects[i].kind));
        }
    }
    assert forall|j: int| 0 <= j < b.users.len() implies {
        &&& is_word((#[trigger] b.users[j]).0)
        &&& b.valid(b.users[j].1)
        &&& b.object(b.users[j].1).kind == user_package(b.users[j].0)
    } by {
        assert(a.valid(a.users[j].1));
        assert(b.object(a.users[j].1) == a.object(a.users[j].1));
    }
}

/// An object of the world.
#[derive(Debug, Clone, PartialEq)]
struct Object {
    parent: Option<Id>,
    kind: PackageReference,
    attrs: Dict<SerializableValue>,
    state: Dict<SerializableValue>,
    timers: Dict<Timer>,
}

impl View for Object {
    type V = ObjectView;

    closed spec fn view(&self) -> ObjectView {
        ObjectView {
            parent: self.parent,
            kind: self.kind@,
            attrs: self.attrs@,
            state: self.state@,
            timers: self.timers@,
        }
    }
}

impl Object {
    fn new(kind: PackageReference) -> (r: Object)
        ensures
            r@ == fresh_object(kind@),
    {
        Object { parent: None, kind, attrs: Dict::new(), state: Dict::new(), timers: Dict::new() }
    }
}

/// The state of the world. Objects are made and never removed, so an id, once
/// given out, names the same object for as long as the world lasts.
#[derive(Debug, Clone, PartialEq)]
pub struct State {
    objects: Vec<Object>,
    entrance: Id,
    users: Dict<Id>,
    live_packages: Dict<String>,
    current_time: GameTime,
}

impl View for State {
    type V = StateView;

    closed spec fn view(&self) -> StateView {
        StateView {
            objects: Seq::new(self.objects.len() as nat, |i: int| self.objects[i]@),
            entrance: self.entrance,
            users: self.users@,
            live_packages: self.live_packages@,
            current_time: self.current_time,
        }
    }
}

impl State {
    /// Whether the state is one that a world can be in.
    pub open spec fn wf(&self) -> bool {
        self@.ok()
    }

    /// A world with one object, the room at its entrance.
    pub fn new() -> (r: State)
        ensures
            r.wf(),
            r@ == (StateView {
                objects: seq![fresh_object(room_package())],
                entrance: Id(0),
                users: Seq::empty(),
                live_packages: Seq::empty(),
                current_time: GameTime(0),
            }),
    {
        let kind = PackageReference::for_room();
        proof {
            use_type_invariant(&kind);
        }
        let entrance = Object::new(kind);
        let mut objects: Vec<Object> = Vec::new();
        objects.push(entrance);
        let r = State {
            objects,
            entrance: Id(0),
            users: Dict::new(),
            live_packages: Dict::new(),
            current_time: GameTime(0),
        };
        proof {
            assert(r@.objects =~= seq![fresh_object(room_package())]);
            assert forall|x: Id| r@.valid(x) implies #[trigger] r@.rooted(x) by {
                assert(r@.ancestor(x, 1) is None);
            }
        }
        r
    }

    /// Makes a new object of the given kind, with no parent, and gives its id:
    /// one that no object had before.
    pub fn create_object(&mut self, kind: PackageReference) -> (id: Id)
        requires
            old(self).wf(),
        ensures
            final(self).wf(),
            id == next_id(old(self)@),
            final(self)@ == with_new_object(old(self)@, kind@),
    {
        proof {
            use_type_invariant(&kind);
        }
        let id = Id(self.objects.len());
        self.objects.push(Object::new(kind));
        proof {
            assert(self@.objects =~= old(self)@.objects.push(fresh_object(kind@)));
            lemma_create_keeps_ok(old(self)@, kind@);
        }
        id
    }

    /// The number of objects.
    pub fn object_count(&self) -> (r: usize)
        ensures
            r == self@.objects.len(),
    {
        self.objects.len()
    }

    /// Whether `id` names an object.
    pub fn is_valid(&self, id: Id) -> (r: bool)
        ensures
            r == self@.valid(id),
    {
        id.0 < self.objects.len()
    }

    /// The room at which users arrive.
    pub fn entrance(&self) -> (r: Id)
        ensures
            r == self@.entrance,
    {
        self.entrance
    }

    /// The parent of an object.
    pub fn parent(&self, of: Id) -> (r: Result<Option<Id>, Error>)
        ensures
            r == if self@.valid(of) {
                Ok::<Option<Id>, Error>(self@.object(of).parent)
            } else {
                Err::<Option<Id>, Error>(Error::InvalidObjectId(of))
            },
    {
        if of.0 < self.objects.len() {
            Ok(self.objects[of.0].parent)
        } else {
            Err(Error::InvalidObjectId(of))
        }
    }

    /// The kind of an object.
    pub fn kind(&self, id: Id) -> (r: Result<PackageReference, Error>)
        ensures
            match r {
                Ok(k) => self@.valid(id) && k@ == self@.object(id).kind,
                Err(e) => !self@.valid(id) && e == Error::InvalidObjectId(id),
            },
    {
        if id.0 < self.objects.len() {
            Ok(self.objects[id.0].kind.duplicate())
        } else {
            Err(Error::InvalidObjectId(id))
        }
    }

    /// The objects whose parent is `id`, in the order of their creation.
    pub fn children(&self, id: Id) -> (r: Vec<Id>)
        ensures
            r@ == self@.children(id),
    {
        let mut out: Vec<Id> = Vec::new();
        let mut i: usize = 0;
        while i < self.objects.len()
            invariant
                i <= self.objects.len(),
                out@ == self@.children_among(id, i as nat),
            decreases self.objects.len() - i,
        {
            let is_child = match self.objects[i].parent {
                Some(p) => p.0 == id.0,
                None => false,
            };
            if is_child {
                out.push(Id(i));
            }
            i += 1;
        }
        out
    }

    /// Reads an attribute of an object.
    pub fn get_attr(&self, id: Id, name: &str) -> (r: Result<Option<SerializableValue>, Error>)
        requires
            self.wf(),
        ensures
            match r {
                Ok(Some(v)) => self@.valid(id) && lookup(self@.object(id).attrs, name@) == Some(
                    v@,
                ),
                Ok(None) => self@.valid(id) && lookup(self@.object(id).attrs, name@) is None,
                Err(e) => !self@.valid(id) && e == Error::InvalidObjectId(id),
            },
    {
        if id.0 < self.objects.len() {
            assert(self@.objects[id.0 as int] == self.objects[id.0 as int]@);
            match self.objects[id.0].attrs.get(name) {
                Some(v) => Ok(Some(v.duplicate())),
                None => Ok(None),
            }
        } else {
            Err(Error::InvalidObjectId(id))
        }
    }

    /// Reads from the private storage of an object.
    pub fn get_state(&self, id: Id, name: &str) -> (r: Result<Option<SerializableValue>, Error>)
        requires
            self.wf(),
        ensures
            match r {
                Ok(Some(v)) => self@.valid(id) && lookup(self@.object(id).state, name@) == Some(
                    v@,
                ),
                Ok(None) => self@.valid(id) && lookup(self@.object(id).state, name@) is None,
                Err(e) => !self@.valid(id) && e == Error::InvalidObjectId(id),
            },
    {
        if id.0 < self.objects.len() {
            assert(self@.objects[id.0 as int] == self.objects[id.0 as int]@);
            match self.objects[id.0].state.get(name) {
                Some(v) => Ok(Some(v.duplicate())),
                None => Ok(None),
            }
        } else {
            Err(Error::InvalidObjectId(id))
        }
    }

    /// Sets an attribute of an object, and hands back the value that it had.
    pub fn set_attr(&mut self, id: Id, key: String, value: SerializableValue) -> (r: Result<
        Option<SerializableValue>,
        Error,
    >)
        requires
            old(self).wf(),
        ensures
            final(self).wf(),
            match r {
                Ok(previous) => {
                    &&& old(self)@.valid(id)
                    &&& final(self)@ == old(self)@.with_object(
                        id,
                        ObjectView {
                            attrs: put(old(self)@.object(id).attrs, key@, value@),
                            ..old(self)@.object(id)
                        },
                    )
                    &&& match previous {
                        Some(v) => lookup(old(self)@.object(id).attrs, key@) == Some(v@),
                        None => lookup(old(self)@.object(id).attrs, key@) is None,
                    }
                },
                Err(e) => {
                    &&& !old(self)@.valid(id)
                    &&& e == Error::InvalidObjectId(id)
                    &&& final(self)@ == old(self)@
                },
            },
    {
        if id.0 < self.objects.len() {
            assert(self@.objects[id.0 as int] == self.objects[id.0 as int]@);
            let previous = self.objects[id.0].attrs.insert(key, value);
            proof {
                let a = old(self)@;
                let b = self@;
                assert(b.objects =~= a.objects.update(
                    id.0 as int,
                    ObjectView { attrs: put(a.object(id).attrs, key@, value@), ..a.object(id) },
                ));
                lemma_ok_same_graph(a, b);
            }
            Ok(previous)
        } else {
            Err(Error::InvalidObjectId(id))
        }
    }

    /// Writes into the private storage of an object, and hands back the value
    /// that stood there.
    pub fn set_state(&mut self, id: Id, key: String, value: SerializableValue) -> (r: Result<
        Option<SerializableValue>,
        Error,
    >)
        requires
            old(self).wf(),
        ensures
            final(self).wf(),
            match r {
                Ok(previous) => {
                    &&& old(self)@.valid(id)
                    &&& final(self)@ == old(self)@.with_object(
                        id,
                        ObjectView {
                            state: put(old(self)@.object(id).state, key@, value@),
                            ..old(self)@.object(id)
                        },
                    )
                    &&& match previous {
                        Some(v) => lookup(old(self)@.object(id).state, key@) == Some(v@),
                        None => lookup(old(self)@.object(id).state, key@) is None,
                    }
                },
                Err(e) => {
                    &&& !old(self)@.valid(id)
                    &&& e == Error::InvalidObjectId(id)
                    &&& final(self)@ == old(self)@
                },
            },
    {
        if id.0 < self.objects.len() {
            assert(self@.objects[id.0 as int] == self.objects[id.0 as int]@);
            let previous = self.objects[id.0].state.insert(key, value);
            proof {
                let a = old(self)@;
                let b = self@;
                assert(b.objects =~= a.objects.update(
                    id.0 as int,
                    ObjectView { state: put(a.object(id).state, key@, value@), ..a.object(id) },
                ));
                lemma_ok_same_graph(a, b);
            }
            Ok(previous)
        } else {
            Err(Error::InvalidObjectId(id))
        }
    }

    /// The names of the attributes of an object, in the order in which they
    /// were first set.
    pub fn list_attrs(&self, id: Id) -> (r: Result<Vec<String>, Error>)
        ensures
            match r {
                Ok(names) => {
                    &&& self@.valid(id)
                    &&& names.len() == self@.object(id).attrs.len()
                    &&& forall|i: int|
                        0 <= i < names.len() ==> (#[trigger] names[i])@ == self@.object(
                            id,
                        ).attrs[i].0
                },
                Err(e) => !self@.valid(id) && e == Error::InvalidObjectId(id),
            },
    {
        if id.0 < self.objects.len() {
            assert(self@.objects[id.0 as int] == self.objects[id.0 as int]@);
            let attrs = &self.objects[id.0].attrs;
            let mut names: Vec<String> = Vec::new();
            let mut i: usize = 0;
            while i < attrs.len()
                invariant
                    i <= attrs@.len(),
                    names.len() == i,
                    forall|j: int| 0 <= j < i ==> (#[trigger] names[j])@ == attrs@[j].0,
                decreases attrs@.len() - i,
            {
                names.push(String::from_str(attrs.key_at(i)));
                i += 1;
            }
            Ok(names)
        } else {
            Err(Error::InvalidObjectId(id))
        }
    }

    /// Arms the timer `name` of an object, in the place of the timer that it
    /// had under that name, if any.
    pub fn set_timer(&mut self, id: Id, name: String, timer: Timer) -> (r: Result<(), Error>)
        requires
            old(self).wf(),
        ensures
            final(self).wf(),
            match r {
                Ok(_) => {
                    &&& old(self)@.valid(id)
                    &&& final(self)@ == old(self)@.with_object(
                        id,
                        ObjectView {
                            timers: put(old(self)@.object(id).timers, name@, timer@),
                            ..old(self)@.object(id)
                        },
                    )
                },
                Err(e) => {
                    &&& !old(self)@.valid(id)
                    &&& e == Error::InvalidObjectId(id)
                    &&& final(self)@ == old(self)@
                },
            },
    {
        if id.0 < self.objects.len() {
            assert(self@.objects[id.0 as int] == self.objects[id.0 as int]@);
            let _ = self.objects[id.0].timers.insert(name, timer);
            proof {
                let a = old(self)@;
                let b = self@;
                assert(b.objects =~= a.objects.update(
                    id.0 as int,
                    ObjectView { timers: put(a.object(id).timers, name@, timer@), ..a.object(id) },
                ));
                lemma_ok_same_graph(a, b);
            }
            Ok(())
        } else {
            Err(Error::InvalidObjectId(id))
        }
    }

    /// The timer `name` of an object, if it has one.
    pub fn get_timer(&self, id: Id, name: &str) -> (r: Result<Option<Timer>, Error>)
        requires
            self.wf(),
        ensures
            match r {
                Ok(Some(t)) => self@.valid(id) && lookup(self@.object(id).timers, name@) == Some(
                    t@,
                ),
                Ok(None) => self@.valid(id) && lookup(self@.object(id).timers, name@) is None,
                Err(e) => !self@.valid(id) && e == Error::InvalidObjectId(id),
            },
    {
        if id.0 < self.objects.len() {
            assert(self@.objects[id.0 as int] == self.objects[id.0 as int]@);
            match self.objects[id.0].timers.get(name) {
                Some(t) => Ok(Some(t.duplicate())),
                None => Ok(None),
            }
        } else {
            Err(Error::InvalidObjectId(id))
        }
    }

    /// Disarms the timer `name` of an object, if it has one.
    pub fn clear_timer(&mut self, id: Id, name: &str) -> (r: Result<(), Error>)
        requires
            old(self).wf(),
        ensures
            final(self).wf(),
            match r {
                Ok(_) => {
                    &&& old(self)@.valid(id)
                    &&& final(self)@ == old(self)@.with_object(
                        id,
                        ObjectView {
                            timers: delete(old(self)@.object(id).timers, name@),
                            ..old(self)@.object(id)
                        },
                    )
                },
                Err(e) => {
                    &&& !old(self)@.valid(id)
                    &&& e == Error::InvalidObjectId(id)
                    &&& final(self)@ == old(self)@
                },
            },
    {
        if id.0 < self.objects.len() {
            assert(self@.objects[id.0 as int] == self.objects[id.0 as int]@);
            let _ = self.objects[id.0].timers.remove(name);
            proof {
                let a = old(self)@;
                let b = self@;
                assert(b.objects =~= a.objects.update(
                    id.0 as int,
                    ObjectView { timers: delete(a.object(id).timers, name@), ..a.object(id) },
                ));
                lemma_ok_same_graph(a, b);
            }
            Ok(())
        } else {
            Err(Error::InvalidObjectId(id))
        }
    }

    /// The moment that the world's clock shows.
    pub fn get_current_time(&self) -> (r: GameTime)
        ensures
            r == self@.current_time,
    {
        self.current_time
    }

    /// Moves the world's clock forward to `new_time`. The clock never goes
    /// back: an earlier moment leaves it as it is.
    pub fn set_current_time(&mut self, new_time: GameTime)
        requires
            old(self).wf(),
        ensures
            final(self).wf(),
            final(self)@ == (StateView {
                current_time: if new_time.0 > old(self)@.current_time.0 {
                    new_time
                } else {
                    old(self)@.current_time
                },
                ..old(self)@
            }),
    {
        if new_time.0 > self.current_time.0 {
            self.current_time = new_time;
        }
        proof {
            lemma_ok_same_graph(old(self)@, self@);
        }
    }

    /// Puts `child` under `new_parent`, or nowhere. The move is refused, and
    /// nothing changes, where one of the two is no object or where the new
    /// parent is the child itself or stands somewhere below it.
    pub fn move_object(&mut self, child: Id, new_parent: Option<Id>) -> (r: Result<(), Error>)
        requires
            old(self).wf(),
        ensures
            final(self).wf(),
            r == move_result(old(self)@, child, new_parent),
            final(self)@ == moved(old(self)@, child, new_parent),
    {
        if child.0 >= self.objects.len() {
            return Err(Error::InvalidObjectId(child));
        }
        let ghost a = self@;
        match new_parent {
            None => {},
            Some(p) => {
                if p.0 >= self.objects.len() {
                    return Err(Error::InvalidObjectId(p));
                }
                let ghost depth = choose|k: nat| a.ancestor(p, k) is None;
                let ghost mut steps: nat = 0;
                let mut cur: Option<Id> = Some(p);
                assert(a.rooted(p));
                while cur.is_some()
                    invariant
                        self@ == a,
                        a == old(self)@,
                        a.ok(),
                        a.valid(child),
                        new_parent == Some(p),
                        a.valid(p),
                        a.ancestor(p, depth) is None,
                        a.ancestor(p, steps) == cur,
                        cur is Some ==> a.valid(cur->0),
                        forall|j: nat| j < steps ==> a.ancestor(p, j) != Some(child),
                    decreases depth - steps,
                {
                    let c = cur.unwrap();
                    proof {
                        if steps >= depth {
                            lemma_ancestor_none_stays(a, p, depth, steps);
                        }
                    }
                    if c.0 == child.0 {
                        assert(a.within(p, child));
                        return Err(Error::CyclicHierarchy);
                    }
                    assert(a.objects[c.0 as int] == self.objects[c.0 as int]@);
                    cur = self.objects[c.0].parent;
                    proof {
                        lemma_ancestor_add(a, p, steps, 1);
                        assert(a.ancestor(c, 1) == a.object(c).parent) by {
                            reveal_with_fuel(StateView::ancestor, 2);
                        }
                        if cur is Some {
                            assert(a.object(c).parent is Some);
                        }
                        steps = steps + 1;
                    }
                }
                proof {
                    assert forall|k: nat| a.ancestor(p, k) != Some(child) by {
                        if k >= steps {
                            lemma_ancestor_none_stays(a, p, steps, k);
                        }
                    }
                }
            },
        }
        assert(a.objects[child.0 as int] == self.objects[child.0 as int]@);
        self.objects[child.0].parent = new_parent;
        proof {
            let b = self@;
            assert(b.objects =~= a.objects.update(
                child.0 as int,
                ObjectView { parent: new_parent, ..a.object(child) },
            ));
            lemma_move_keeps_ok(a, child, new_parent);
        }
        Ok(())
    }

    /// The room of an object: the topmost object above it, or the object
    /// itself where nothing is above it.
    pub fn room(&self, id: Id) -> (r: Result<Id, Error>)
        requires
            self.wf(),
        ensures
            match r {
                Ok(room) => self@.valid(id) && self@.valid(room) && self@.room_of(id, room),
                Err(e) => !self@.valid(id) && e == Error::InvalidObjectId(id),
            },
    {
        if id.0 >= self.objects.len() {
            return Err(Error::InvalidObjectId(id));
        }
        let ghost a = self@;
        assert(a.rooted(id));
        let ghost depth = choose|k: nat| a.ancestor(id, k) is None;
        let ghost mut steps: nat = 0;
        let mut cur = id;
        loop
            invariant
                self@ == a,
                a.ok(),
                a.valid(id),
                a.valid(cur),
                a.ancestor(id, depth) is None,
                a.ancestor(id, steps) == Some(cur),
            decreases depth - steps,
        {
            proof {
                if steps >= depth {
                    lemma_ancestor_none_stays(a, id, depth, steps);
                }
                lemma_ancestor_add(a, id, steps, 1);
                assert(a.ancestor(cur, 1) == a.object(cur).parent) by {
                    reveal_with_fuel(StateView::ancestor, 2);
                }
            }
            assert(a.objects[cur.0 as int] == self.objects[cur.0 as int]@);
            match self.objects[cur.0].parent {
                None => {
                    return Ok(cur);
                },
                Some(p) => {
                    assert(a.object(cur).parent is Some);
                    cur = p;
                    proof {
                        steps = steps + 1;
                    }
                },
            }
        }
    }

    /// Whether two objects are in the same room.
    pub fn shares_room(&self, a: Id, b: Id) -> (r: Result<bool, Error>)
        requires
            self.wf(),
        ensures
            r == shares_room_result(self@, a, b),
    {
        let room_a = match self.room(a) {
            Ok(room) => room,
            Err(e) => {
                return Err(e);
            },
        };
        let room_b = match self.room(b) {
            Ok(room) => room,
            Err(e) => {
                return Err(e);
            },
        };
        proof {
            if room_a == room_b {
                assert(self@.same_room(a, b));
            } else {
                if self@.same_room(a, b) {
                    let shared = choose|room: Id|
                        self@.room_of(a, room) && self@.room_of(b, room);
                    lemma_room_unique(self@, a, room_a, shared);
                    lemma_room_unique(self@, b, room_b, shared);
                }
            }
        }
        Ok(room_a.0 == room_b.0)
    }

    /// The object of the user `username`: the one that the user has, or a new
    /// one, made for the user and put in the entrance.
    pub fn get_or_create_user(&mut self, username: &str) -> (id: Id)
        requires
            old(self).wf(),
            is_word(username@),
        ensures
            final(self).wf(),
            match lookup(old(self)@.users, username@) {
                Some(known) => id == known && final(self)@ == old(self)@,
                None => {
                    &&& id.0 == old(self)@.objects.len()
                    &&& final(self)@ == (StateView {
                        objects: old(self)@.objects.push(
                            ObjectView {
                                parent: Some(old(self)@.entrance),
                                ..fresh_object(user_package(username@))
                            },
                        ),
                        users: old(self)@.users.push((username@, id)),
                        ..old(self)@
                    })
                },
            },
    {
        let ghost a = self@;
        match self.users.get(username) {
            Some(id) => {
                return *id;
            },
            None => {},
        }
        let id = self.create_object(PackageReference::for_user(username));
        let ghost b = self@;
        let entrance = self.entrance;
        proof {
            assert(b.object(id) == fresh_object(user_package(username@)));
            assert forall|k: nat| b.ancestor(entrance, k) != Some(id) by {
                lemma_ancestor_same_parents(a, b, entrance, k);
                if a.ancestor(entrance, k) is Some {
                    lemma_ancestor_valid(a, entrance, k);
                }
            }
            assert(move_result(b, id, Some(entrance)) is Ok);
        }
        let moved = self.move_object(id, Some(entrance));
        let ghost c = self@;
        let _ = self.users.insert(String::from_str(username), id);
        proof {
            let d = self@;
            assert(d.objects =~= a.objects.push(
                ObjectView { parent: Some(a.entrance), ..fresh_object(user_package(username@)) },
            ));
            assert(d.users =~= a.users.push((username@, id)));
            assert(d.forest()) by {
                lemma_forest_same_parents(c, d);
            }
            assert forall|j: int| 0 <= j < d.users.len() implies {
                &&& is_word((#[trigger] d.users[j]).0)
                &&& d.valid(d.users[j].1)
                &&& d.object(d.users[j].1).kind == user_package(d.users[j].0)
            } by {
                if j < a.users.len() {
                    assert(a.valid(a.users[j].1));
                    assert(d.object(a.users[j].1) == a.object(a.users[j].1));
                }
            }
        }
        id
    }

    /// The object of the user `username`, if the world knows the user.
    pub fn user_id(&self, username: &str) -> (r: Option<Id>)
        requires
            self.wf(),
        ensures
            r == lookup(self@.users, username@),
    {
        match self.users.get(username) {
            Some(id) => Some(*id),
            None => None,
        }
    }

    /// The name of the user whose object is `id`, if it is a user's.
    pub fn username(&self, id: Id) -> (r: Option<String>)
        requires
            self.wf(),
        ensures
            match r {
                Some(name) => lookup(self@.users, name@) == Some(id),
                None => forall|j: int| 0 <= j < self@.users.len() ==> (#[trigger] self@.users[j]).1
                    != id,
            },
    {
        let mut i: usize = 0;
        while i < self.users.len()
            invariant
                i <= self.users@.len(),
                self.wf(),
                forall|j: int| 0 <= j < i ==> (#[trigger] self@.users[j]).1 != id,
            decreases self.users@.len() - i,
        {
            if self.users.value_at(i).0 == id.0 {
                proof {
                    lemma_lookup_at(self@.users, i as int);
                }
                return Some(String::from_str(self.users.key_at(i)));
            }
            i += 1;
        }
        None
    }

    /// Every user with the user's object, in the order in which they came.
    pub fn get_all_users(&self) -> (r: Vec<(String, Id)>)
        ensures
            r.len() == self@.users.len(),
            forall|i: int|
                0 <= i < r.len() ==> ((#[trigger] r[i]).0@, r[i].1) == self@.users[i],
    {
        let mut out: Vec<(String, Id)> = Vec::new();
        let mut i: usize = 0;
        while i < self.users.len()
            invariant
                i <= self.users@.len(),
                out.len() == i,
                forall|j: int| 0 <= j < i ==> ((#[trigger] out[j]).0@, out[j].1) == self@.users[j],
            decreases self.users@.len() - i,
        {
            out.push((String::from_str(self.users.key_at(i)), *self.users.value_at(i)));
            i += 1;
        }
        out
    }

    /// The text of a live package, if the world holds it. A package that is
    /// not live is never held.
    pub fn get_live_package_content(&self, package: &PackageReference) -> (r: Option<String>)
        requires
            self.wf(),
        ensures
            match r {
                Some(content) => Some(content@) == live_content(self@, package@),
                None => live_content(self@, package@) is None,
            },
    {
        if !package.is_live_package() {
            return None;
        }
        let key = package.to_string();
        match self.live_packages.get(key.as_str()) {
            Some(content) => Some(content.clone()),
            None => None,
        }
    }

    /// Writes the text of a live package. A package that is not live is not
    /// written, and nothing changes.
    pub fn set_live_package_content(&mut self, package: PackageReference, content: String)
        requires
            old(self).wf(),
        ensures
            final(self).wf(),
            final(self)@ == with_live_content(old(self)@, package@, content@),
    {
        if !package.is_live_package() {
            return ;
        }
        let key = package.to_string();
        let _ = self.live_packages.insert(key, content);
        proof {
            let a = old(self)@;
            let b = self@;
            lemma_ok_same_objects(a, b);
            assert forall|j: int| 0 <= j < b.live_packages.len() implies {
                &&& parse_reference((#[trigger] b.live_packages[j]).0) is Some
                &&& parse_reference(b.live_packages[j].0)->0.repo == Some("live"@)
            } by {
                if j < a.live_packages.len() && b.live_packages[j] == a.live_packages[j] {
                } else {
                    assert(b.live_packages[j].0 == key@);
                }
            }
        }
    }

    /// Takes out of the world every timer that has come due between the moment
    /// that the clock shows, not included, and `new_time`, included, and hands
    /// each back with its owner: by owner in the order of creation, and for one
    /// owner in the order in which the timers were first armed. The clock is
    /// left as it is.
    pub fn extract_ready_timers(&mut self, new_time: GameTime) -> (r: Vec<(Id, Timer)>)
        requires
            old(self).wf(),
        ensures
            final(self).wf(),
            final(self)@ == after_extraction(old(self)@, new_time),
            timers_view(r@) == ready(old(self)@, new_time),
    {
        let ghost a = self@;
        let now = self.current_time;
        let mut out: Vec<(Id, Timer)> = Vec::new();
        let mut i: usize = 0;
        assert(timers_view(out@) =~= ready_among(a, 0, new_time));
        while i < self.objects.len()
            invariant
                a == old(self)@,
                a.ok(),
                now == a.current_time,
                i <= self.objects.len(),
                self@.objects.len() == a.objects.len(),
                self@.entrance == a.entrance,
                self@.users == a.users,
                self@.live_packages == a.live_packages,
                self@.current_time == a.current_time,
                forall|k: int|
                    0 <= k < i ==> (#[trigger] self@.objects[k]) == (ObjectView {
                        timers: waiting_timers(a.objects[k].timers, now, new_time),
                        ..a.objects[k]
                    }),
                forall|k: int|
                    0 <= k < i ==> unique_keys(
                        #[trigger] waiting_timers(a.objects[k].timers, now, new_time),
                    ),
                forall|k: int|
                    i <= k < a.objects.len() ==> (#[trigger] self@.objects[k]) == a.objects[k],
                timers_view(out@) == ready_among(a, i as nat, new_time),
            decreases self.objects.len() - i,
        {
            let ghost before = self@;
            assert(before.objects[i as int] == self.objects[i as int]@);
            assert(before.objects[i as int] == a.objects[i as int]);
            take_due(&mut self.objects[i].timers, Id(i), now, new_time, &mut out);
            proof {
                let b = self@;
                assert(b.objects[i as int] == self.objects[i as int]@);
                assert forall|k: int| 0 <= k < a.objects.len() && k != i implies b.objects[k]
                    == before.objects[k] by {
                    assert(b.objects[k] == self.objects[k]@);
                }
            }
            i += 1;
        }
        proof {
            let b = self@;
            assert(b.objects =~= after_extraction(a, new_time).objects);
            assert forall|y: Id| a.valid(y) implies {
                &&& (#[trigger] b.object(y)).parent == a.object(y).parent
                &&& b.object(y).kind == a.object(y).kind
                &&& unique_keys(b.object(y).attrs)
                &&& unique_keys(b.object(y).state)
                &&& unique_keys(b.object(y).timers)
            } by {
                assert(b.object(y) == b.objects[y.0 as int]);
                assert(unique_keys(a.objects[y.0 as int].attrs));
                assert(unique_keys(waiting_timers(a.objects[y.0 as int].timers, now, new_time)));
            }
            lemma_ok_same_graph(a, b);
        }
        out
    }
}

/// A state stays in order when its objects keep their parents and kinds, and
/// every dictionary in it still holds no key twice.
pub proof fn lemma_ok_same_graph(a: StateView, b: StateView)
    requires
        a.ok(),
        a.objects.len() == b.objects.len(),
        a.entrance == b.entrance,
        a.users == b.users,
        a.live_packages == b.live_packages,
        forall|y: Id|
            a.valid(y) ==> {
                &&& (#[trigger] b.object(y)).parent == a.object(y).parent
                &&& b.object(y).kind == a.object(y).kind
                &&& unique_keys(b.object(y).attrs)
                &&& unique_keys(b.object(y).state)
                &&& unique_keys(b.object(y).timers)
            },
    ensures
        b.ok(),
{
    lemma_forest_same_parents(a, b);
    assert forall|i: int| 0 <= i < b.objects.len() implies {
        &&& unique_keys((#[trigger] b.objects[i]).attrs)
        &&& unique_keys(b.objects[i].state)
        &&& unique_keys(b.objects[i].timers)
        &&& well_formed(b.objects[i].kind)
    } by {
        let y = Id(i as usize);
        assert(b.object(y) == b.objects[i]);
        assert(well_formed(a.objects[i].kind));
    }
    assert forall|j: int| 0 <= j < b.users.len() implies {
        &&& is_word((#[trigger] b.users[j]).0)
        &&& b.valid(b.users[j].1)
        &&& b.object(b.users[j].1).kind == user_package(b.users[j].0)
    } by {
        assert(a.valid(a.users[j].1));
        assert(b.object(a.users[j].1).kind == a.object(a.users[j].1).kind);
    }
}


/// The id that the next new object gets: the number of objects so far.
pub open spec fn next_id(s: StateView) -> Id {
    Id(s.objects.len() as usize)
}

/// The state with one more object, of the given kind.
pub open spec fn with_new_object(s: StateView, kind: PackageView) -> StateView {
    StateView { objects: s.objects.push(fresh_object(kind)), ..s }
}

/// Whether a move is allowed, and why not where it is not.
pub open spec fn move_result(s: StateView, child: Id, new_parent: Option<Id>) -> Result<
    (),
    Error,
> {
    if !s.valid(child) {
        Err(Error::InvalidObjectId(child))
    } else {
        match new_parent {
            None => Ok(()),
            Some(p) => if !s.valid(p) {
                Err(Error::InvalidObjectId(p))
            } else if s.within(p, child) {
                Err(Error::CyclicHierarchy)
            } else {
                Ok(())
            },
        }
    }
}

/// The state after a move was asked for: the child under its new parent where
/// the move is allowed, the same state where it is not.
pub open spec fn moved(s: StateView, child: Id, new_parent: Option<Id>) -> StateView {
    if move_result(s, child, new_parent) is Ok {
        s.with_object(child, ObjectView { parent: new_parent, ..s.object(child) })
    } else {
        s
    }
}

/// The chain of parents of an object that is not below `child` does not change
/// when `child` is moved.
pub proof fn lemma_move_keeps_chain(
    a: StateView,
    child: Id,
    new_parent: Option<Id>,
    y: Id,
    k: nat,
)
    requires
        a.forest(),
        a.valid(child),
        a.valid(y),
        !a.within(y, child),
    ensures
        a.with_object(child, ObjectView { parent: new_parent, ..a.object(child) }).ancestor(y, k)
            == a.ancestor(y, k),
    decreases k,
{
    let b = a.with_object(child, ObjectView { parent: new_parent, ..a.object(child) });
    if k > 0 {
        assert(a.ancestor(y, 0) == Some(y));
        assert(y != child);
        assert(b.object(y) == a.object(y));
        match a.object(y).parent {
            Some(q) => {
                assert forall|j: nat| a.ancestor(q, j) != Some(child) by {
                    assert(a.ancestor(y, j + 1) == a.ancestor(q, j));
                }
                lemma_move_keeps_chain(a, child, new_parent, q, (k - 1) as nat);
            },
            None => {},
        }
    }
}

/// After an allowed move, the chain of parents of every object that was at or
/// below `child` still comes to an end.
pub proof fn lemma_move_keeps_rooted_below(
    a: StateView,
    child: Id,
    new_parent: Option<Id>,
    x: Id,
    j: nat,
)
    requires
        a.forest(),
        a.valid(x),
        move_result(a, child, new_parent) is Ok,
        a.ancestor(x, j) == Some(child),
    ensures
        a.with_object(child, ObjectView { parent: new_parent, ..a.object(child) }).rooted(x),
    decreases j,
{
    let b = a.with_object(child, ObjectView { parent: new_parent, ..a.object(child) });
    if x == child {
        match new_parent {
            None => {
                assert(b.ancestor(child, 1) is None);
            },
            Some(p) => {
                assert(a.rooted(p));
                let k = choose|k: nat| a.ancestor(p, k) is None;
                lemma_move_keeps_chain(a, child, new_parent, p, k);
                assert(b.ancestor(child, k + 1) == b.ancestor(p, k));
            },
        }
    } else {
        assert(j > 0);
        assert(b.object(x) == a.object(x));
        let q = a.object(x).parent->0;
        lemma_move_keeps_rooted_below(a, child, new_parent, q, (j - 1) as nat);
        let k = choose|k: nat| b.ancestor(q, k) is None;
        assert(b.ancestor(x, k + 1) == b.ancestor(q, k));
    }
}

/// An allowed move leaves the state in order: the parents still form a forest.
pub proof fn lemma_move_keeps_ok(a: StateView, child: Id, new_parent: Option<Id>)
    requires
        a.ok(),
    ensures
        moved(a, child, new_parent).ok(),
{
    if move_result(a, child, new_parent) is Ok {
        let b = a.with_object(child, ObjectView { parent: new_parent, ..a.object(child) });
        assert forall|x: Id| b.valid(x) implies #[trigger] b.rooted(x) by {
            if a.within(x, child) {
                let j = choose|j: nat| a.ancestor(x, j) == Some(child);
                lemma_move_keeps_rooted_below(a, child, new_parent, x, j);
            } else {
                assert(a.rooted(x));
                let k = choose|k: nat| a.ancestor(x, k) is None;
                lemma_move_keeps_chain(a, child, new_parent, x, k);
            }
        }
        assert forall|x: Id|
            b.valid(x) && (#[trigger] b.object(x)).parent is Some implies b.valid(
            b.object(x).parent->0,
        ) by {
            if x != child {
                assert(b.object(x) == a.object(x));
                assert(a.object(x).parent is Some);
            }
        }
        assert forall|i: int| 0 <= i < b.objects.len() implies {
            &&& unique_keys((#[trigger] b.objects[i]).attrs)
            &&& unique_keys(b.objects[i].state)
            &&& unique_keys(b.objects[i].timers)
            &&& well_formed(b.objects[i].kind)
        } by {
            assert(well_formed(a.objects[i].kind));
        }
        assert forall|j: int| 0 <= j < b.users.len() implies {
            &&& is_word((#[trigger] b.users[j]).0)
            &&& b.valid(b.users[j].1)
            &&& b.object(b.users[j].1).kind == user_package(b.users[j].0)
        } by {
            assert(a.valid(a.users[j].1));
            assert(b.object(a.users[j].1).kind == a.object(a.users[j].1).kind);
        }
    }
}


/// Whether two objects share a room, or the first of them that is no object.
pub open spec fn shares_room_result(s: StateView, a: Id, b: Id) -> Result<bool, Error> {
    if !s.valid(a) {
        Err(Error::InvalidObjectId(a))
    } else if !s.valid(b) {
        Err(Error::InvalidObjectId(b))
    } else {
        Ok(s.same_room(a, b))
    }
}


/// The text that the world holds for a package: that of a live package that was
/// written, nothing for any other.
pub open spec fn live_content(s: StateView, package: PackageView) -> Option<Seq<char>> {
    if package.repo == Some("live"@) {
        lookup(s.live_packages, reference_text(package))
    } else {
        None
    }
}

/// The state after a package was written: with the new text where the package
/// is live, the same state where it is not.
pub open spec fn with_live_content(s: StateView, package: PackageView, content: Seq<char>)
    -> StateView {
    if package.repo == Some("live"@) {
        StateView {
            live_packages: put(s.live_packages, reference_text(package), content),
            ..s
        }
    } else {
        s
    }
}

/// The objects and users of a state that is in order are in order in any state
/// that has the same objects, users and entrance.
pub proof fn lemma_ok_same_objects(a: StateView, b: StateView)
    requires
        a.ok(),
        a.objects == b.objects,
        a.entrance == b.entrance,
        a.users == b.users,
    ensures
        b.objects.len() <= usize::MAX,
        b.valid(b.entrance),
        b.forest(),
        b.objects_ok(),
        b.users_ok(),
{
    lemma_forest_same_parents(a, b);
    assert forall|j: int| 0 <= j < b.users.len() implies {
        &&& is_word((#[trigger] b.users[j]).0)
        &&& b.valid(b.users[j].1)
        &&& b.object(b.users[j].1).kind == user_package(b.users[j].0)
    } by {
        assert(a.valid(a.users[j].1));
        assert(b.object(a.users[j].1) == a.object(a.users[j].1));
    }
}


/// Whether a timer comes due after the moment `after` and no later than `until`.
pub open spec fn is_due(t: TimerView, after: GameTime, until: GameTime) -> bool {
    after.0 < t.target_time.0 && t.target_time.0 <= until.0
}

/// The timers among `timers` that come due, each with its owner, in their order.
pub open spec fn due_timers(
    timers: Seq<(Seq<char>, TimerView)>,
    owner: Id,
    after: GameTime,
    until: GameTime,
) -> Seq<(Id, TimerView)>
    decreases timers.len(),
{
    if timers.len() == 0 {
        Seq::empty()
    } else {
        let before = due_timers(timers.drop_last(), owner, after, until);
        if is_due(timers.last().1, after, until) {
            before.push((owner, timers.last().1))
        } else {
            before
        }
    }
}

/// The timers among `timers` that do not come due, in their order.
pub open spec fn waiting_timers(
    timers: Seq<(Seq<char>, TimerView)>,
    after: GameTime,
    until: GameTime,
) -> Seq<(Seq<char>, TimerView)>
    decreases timers.len(),
{
    if timers.len() == 0 {
        Seq::empty()
    } else {
        let before = waiting_timers(timers.drop_last(), after, until);
        if is_due(timers.last().1, after, until) {
            before
        } else {
            before.push(timers.last())
        }
    }
}

/// The timers of the first `n` objects that come due by `until`, each with its owner.
pub open spec fn ready_among(s: StateView, n: nat, until: GameTime) -> Seq<(Id, TimerView)>
    decreases n,
{
    if n == 0 || n > s.objects.len() {
        Seq::empty()
    } else {
        ready_among(s, (n - 1) as nat, until) + due_timers(
            s.objects[n - 1].timers,
            Id((n - 1) as usize),
            s.current_time,
            until,
        )
    }
}

/// The timers of the world that come due by `until`, each with its owner.
pub open spec fn ready(s: StateView, until: GameTime) -> Seq<(Id, TimerView)> {
    ready_among(s, s.objects.len(), until)
}

/// The state once the timers that come due by `until` are taken out.
pub open spec fn after_extraction(s: StateView, until: GameTime) -> StateView {
    StateView {
        objects: Seq::new(
            s.objects.len(),
            |i: int|
                ObjectView {
                    timers: waiting_timers(s.objects[i].timers, s.current_time, until),
                    ..s.objects[i]
                },
        ),
        ..s
    }
}

/// The content of a list of timers with their owners.
pub open spec fn timers_view(v: Seq<(Id, Timer)>) -> Seq<(Id, TimerView)> {
    Seq::new(v.len(), |i: int| (v[i].0, v[i].1@))
}

/// Moves the timers of one object that come due from `timers` to the end of `out`.
fn take_due(
    timers: &mut Dict<Timer>,
    owner: Id,
    after: GameTime,
    until: GameTime,
    out: &mut Vec<(Id, Timer)>,
)
    requires
        old(timers).wf(),
    ensures
        final(timers).wf(),
        final(timers)@ == waiting_timers(old(timers)@, after, until),
        timers_view(final(out)@) == timers_view(old(out)@) + due_timers(
            old(timers)@,
            owner,
            after,
            until,
        ),
{
    let ghost all = timers@;
    let ghost base = timers_view(out@);
    let ghost mut pos: int = 0;
    let mut j: usize = 0;
    proof {
        assert(all.take(0) =~= Seq::empty());
        assert(all.skip(0) =~= all);
        assert(timers@ =~= waiting_timers(all.take(0), after, until) + all.skip(0));
        assert(timers_view(out@) =~= base + due_timers(all.take(0), owner, after, until));
    }
    while j < timers.len()
        invariant
            timers.wf(),
            0 <= pos <= all.len(),
            j == waiting_timers(all.take(pos), after, until).len(),
            timers@ == waiting_timers(all.take(pos), after, until) + all.skip(pos),
            timers_view(out@) == base + due_timers(all.take(pos), owner, after, until),
        decreases all.len() - pos,
    {
        proof {
            assert(timers@[j as int] == all.skip(pos)[0]);
            assert(all.take(pos + 1).drop_last() =~= all.take(pos));
            assert(all.take(pos + 1).last() == all[pos]);
        }
        let target = timers.value_at(j).target_time;
        let ghost kept = waiting_timers(all.take(pos), after, until);
        if after.0 < target.0 && target.0 <= until.0 {
            let ghost out_before = out@;
            let entry = timers.remove_at(j);
            out.push((owner, entry.1));
            proof {
                assert(timers@ =~= kept + all.skip(pos + 1));
                assert(timers_view(out@) =~= timers_view(out_before).push((owner, all[pos].1)));
                assert(timers_view(out@) =~= base + due_timers(
                    all.take(pos + 1),
                    owner,
                    after,
                    until,
                ));
                pos = pos + 1;
            }
        } else {
            proof {
                assert(timers@ =~= kept.push(all[pos]) + all.skip(pos + 1));
                pos = pos + 1;
            }
            j += 1;
        }
    }
    proof {
        assert(all.take(pos) =~= all);
        assert(timers@ =~= waiting_timers(all, after, until));
    }
}


/// One object as it is written down when the world is saved.
#[derive(Debug, PartialEq)]
pub struct ObjectRecord {
    pub parent: Option<Id>,
    pub kind: PackageReference,
    pub attrs: Vec<(String, SerializableValue)>,
    pub state: Vec<(String, SerializableValue)>,
    pub timers: Vec<(String, Timer)>,
}

impl View for ObjectRecord {
    type V = ObjectView;

    open spec fn view(&self) -> ObjectView {
        ObjectView {
            parent: self.parent,
            kind: self.kind@,
            attrs: pairs_view(self.attrs@),
            state: pairs_view(self.state@),
            timers: pairs_view(self.timers@),
        }
    }
}

/// The whole state of the world as it is written down when the world is
/// saved, and read when it is brought back.
#[derive(Debug, PartialEq)]
pub struct Snapshot {
    pub objects: Vec<ObjectRecord>,
    pub entrance: Id,
    pub users: Vec<(String, Id)>,
    pub live_packages: Vec<(PackageReference, String)>,
    pub current_time: GameTime,
}

/// The live packages of a snapshot, each under the written form of its reference.
pub open spec fn packages_view(v: Seq<(PackageReference, String)>) -> Seq<(Seq<char>, Seq<char>)> {
    Seq::new(v.len(), |i: int| (reference_text(v[i].0@), v[i].1@))
}

impl View for Snapshot {
    type V = StateView;

    open spec fn view(&self) -> StateView {
        StateView {
            objects: Seq::new(self.objects.len() as nat, |i: int| self.objects[i]@),
            entrance: self.entrance,
            users: pairs_view(self.users@),
            live_packages: packages_view(self.live_packages@),
            current_time: self.current_time,
        }
    }
}

/// Going round a circle of parents any number of times leads back to where
/// it began.
pub proof fn lemma_circle_rounds(s: StateView, x: Id, c: nat, rounds: nat)
    requires
        s.ancestor(x, c) == Some(x),
    ensures
        s.ancestor(x, rounds * c) == Some(x),
    decreases rounds,
{
    if rounds == 0 {
        assert(rounds * c == 0) by (nonlinear_arith)
            requires
                rounds == 0,
        ;
    } else {
        lemma_circle_rounds(s, x, c, (rounds - 1) as nat);
        lemma_ancestor_add(s, x, ((rounds - 1) * c) as nat, c);
        assert((rounds - 1) * c + c == rounds * c) by (nonlinear_arith);
    }
}

/// An object that is reached from itself by going to the parent is on a
/// circle: its chain of parents never ends.
pub proof fn lemma_circle_never_ends(s: StateView, x: Id, c: nat)
    requires
        c >= 1,
        s.ancestor(x, c) == Some(x),
    ensures
        !s.rooted(x),
{
    assert forall|k: nat| s.ancestor(x, k) is Some by {
        lemma_circle_rounds(s, x, c, k + 1);
        assert((k + 1) * c >= k) by (nonlinear_arith)
            requires
                c >= 1,
        ;
        if s.ancestor(x, k) is None {
            lemma_ancestor_none_stays(s, x, k, (k + 1) * c);
        }
    }
}

/// A chain of parents in a state in which only the first `done` objects have
/// their parents yet, the others having none, is a chain in the state in
/// which every object has its parent.
pub proof fn lemma_partial_chain(partial: StateView, whole: StateView, done: int, x: Id, k: nat)
    requires
        partial.objects.len() == whole.objects.len(),
        forall|y: Id|
            partial.valid(y) && y.0 < done ==> (#[trigger] partial.object(y)).parent
                == whole.object(y).parent,
        forall|y: Id|
            partial.valid(y) && y.0 >= done ==> (#[trigger] partial.object(y)).parent is None,
        partial.ancestor(x, k) is Some,
    ensures
        whole.ancestor(x, k) == partial.ancestor(x, k),
    decreases k,
{
    if k > 0 {
        assert(partial.valid(x));
        assert(partial.object(x).parent is Some);
        assert(x.0 < done);
        lemma_partial_chain(partial, whole, done, partial.object(x).parent->0, (k - 1) as nat);
    }
}

/// Whether every key is the written form of the reference of a live package.
pub open spec fn all_live(packages: Seq<(Seq<char>, Seq<char>)>) -> bool {
    forall|j: int|
        0 <= j < packages.len() ==> {
            &&& parse_reference((#[trigger] packages[j]).0) is Some
            &&& parse_reference(packages[j].0)->0.repo == Some("live"@)
        }
}

/// The dictionary of the live packages that were written down, unless one of
/// them is not live or stands twice.
fn live_dict(packages: Vec<(PackageReference, String)>) -> (r: Option<Dict<String>>)
    ensures
        match r {
            Some(d) => d.wf() && d@ == packages_view(packages@) && all_live(d@),
            None => !(unique_keys(packages_view(packages@)) && all_live(packages_view(packages@))),
        },
{
    let ghost all = packages@;
    let ghost whole = packages_view(all);
    let mut rest = reversed(packages);
    let mut live: Dict<String> = Dict::new();
    assert(live@ =~= whole.take(0));
    while rest.len() > 0
        invariant
            whole == packages_view(all),
            all == packages@,
            rest@.len() + live@.len() == all.len(),
            live.wf(),
            live@ == whole.take(live@.len() as int),
            forall|j: int| 0 <= j < rest@.len() ==> rest@[j] == all[all.len() - 1 - j],
            all_live(live@),
        decreases rest.len(),
    {
        let ghost k = live@.len() as int;
        let ghost before = live@;
        let entry = rest.pop().unwrap();
        assert(entry == all[k]);
        let key = entry.0.to_string();
        assert(whole[k] == (key@, entry.1@));
        if !entry.0.is_live_package() {
            return None;
        }
        match live.find(key.as_str()) {
            Some(i) => {
                assert(whole[i as int] == live@[i as int]);
                assert(whole[i as int].0 == whole[k].0);
                return None;
            },
            None => {
                let _ = live.insert(key, entry.1);
                assert(live@ =~= before.push(whole[k]));
                assert(live@ =~= whole.take(k + 1));
                assert forall|j: int| 0 <= j < live@.len() implies {
                    &&& parse_reference((#[trigger] live@[j]).0) is Some
                    &&& parse_reference(live@[j].0)->0.repo == Some("live"@)
                } by {
                    if j < k {
                        assert(live@[j] == before[j]);
                    }
                }
            },
        }
    }
    assert(whole.take(whole.len() as int) =~= whole);
    Some(live)
}

/// The pairs of a dictionary of values, copied.
fn value_pairs(d: &Dict<SerializableValue>) -> (r: Vec<(String, SerializableValue)>)
    ensures
        pairs_view(r@) == d@,
{
    let mut out: Vec<(String, SerializableValue)> = Vec::new();
    let mut i: usize = 0;
    while i < d.len()
        invariant
            i <= d@.len(),
            out.len() == i,
            forall|j: int| 0 <= j < i ==> ((#[trigger] out[j]).0@, out[j].1@) == d@[j],
        decreases d@.len() - i,
    {
        out.push((String::from_str(d.key_at(i)), d.value_at(i).duplicate()));
        i += 1;
    }
    assert(pairs_view(out@) =~= d@);
    out
}

/// The pairs of a dictionary of timers, copied.
fn timer_pairs(d: &Dict<Timer>) -> (r: Vec<(String, Timer)>)
    ensures
        pairs_view(r@) == d@,
{
    let mut out: Vec<(String, Timer)> = Vec::new();
    let mut i: usize = 0;
    while i < d.len()
        invariant
            i <= d@.len(),
            out.len() == i,
            forall|j: int| 0 <= j < i ==> ((#[trigger] out[j]).0@, out[j].1@) == d@[j],
        decreases d@.len() - i,
    {
        out.push((String::from_str(d.key_at(i)), d.value_at(i).duplicate()));
        i += 1;
    }
    assert(pairs_view(out@) =~= d@);
    out
}

impl State {
    /// Writes the whole state down.
    pub fn snapshot(&self) -> (r: Snapshot)
        requires
            self.wf(),
        ensures
            r@ == self@,
    {
        let mut objects: Vec<ObjectRecord> = Vec::new();
        let mut i: usize = 0;
        while i < self.objects.len()
            invariant
                i <= self.objects.len(),
                objects.len() == i,
                forall|j: int| 0 <= j < i ==> (#[trigger] objects[j])@ == self.objects[j]@,
            decreases self.objects.len() - i,
        {
            let o = &self.objects[i];
            objects.push(
                ObjectRecord {
                    parent: o.parent,
                    kind: o.kind.duplicate(),
                    attrs: value_pairs(&o.attrs),
                    state: value_pairs(&o.state),
                    timers: timer_pairs(&o.timers),
                },
            );
            i += 1;
        }
        let users = self.get_all_users();
        let mut live_packages: Vec<(PackageReference, String)> = Vec::new();
        let mut j: usize = 0;
        while j < self.live_packages.len()
            invariant
                self.wf(),
                j <= self.live_packages@.len(),
                live_packages.len() == j,
                forall|k: int|
                    0 <= k < j ==> (
                        reference_text((#[trigger] live_packages[k]).0@),
                        live_packages[k].1@,
                    ) == self.live_packages@[k],
            decreases self.live_packages@.len() - j,
        {
            proof {
                assert(parse_reference(self@.live_packages[j as int].0) is Some);
                lemma_parse_sound(self@.live_packages[j as int].0);
            }
            match PackageReference::new(self.live_packages.key_at(j)) {
                Ok(p) => {
                    live_packages.push((p, self.live_packages.value_at(j).clone()));
                },
                Err(_) => {
                    assert(false);
                },
            }
            j += 1;
        }
        let r = Snapshot {
            objects,
            entrance: self.entrance,
            users,
            live_packages,
            current_time: self.current_time,
        };
        proof {
            assert(r@.objects =~= self@.objects);
            assert(r@.users =~= self@.users);
            assert(r@.live_packages =~= self@.live_packages);
        }
        r
    }

    /// Brings back the state that was written down, if what was written is a
    /// state that a world can be in.
    #[verifier::rlimit(40)]
    pub fn restore(snapshot: Snapshot) -> (r: Option<State>)
        ensures
            match r {
                Some(s) => s.wf() && s@ == snapshot@,
                None => !snapshot@.ok(),
            },
    {
        let ghost whole = snapshot@;
        let Snapshot {
            objects: records,
            entrance,
            users: user_pairs,
            live_packages: packages,
            current_time,
        } = snapshot;
        let n = records.len();
        if entrance.0 >= n {
            return None;
        }
        // The objects, each without its parent yet.
        let ghost all = records@;
        let mut rest = reversed(records);
        let mut objects: Vec<Object> = Vec::new();
        let mut parents: Vec<Option<Id>> = Vec::new();
        while rest.len() > 0
            invariant
                whole == snapshot@,
                all.len() == n,
                whole.objects.len() == n,
                forall|j: int| 0 <= j < n ==> whole.objects[j] == (#[trigger] all[j])@,
                rest@.len() + objects@.len() == n,
                parents@.len() == objects@.len(),
                forall|j: int| 0 <= j < rest@.len() ==> rest@[j] == all[n - 1 - j],
                forall|j: int|
                    0 <= j < objects@.len() ==> (#[trigger] objects@[j])@ == (ObjectView {
                        parent: None,
                        ..whole.objects[j]
                    }),
                forall|j: int|
                    0 <= j < objects@.len() ==> {
                        &&& unique_keys((#[trigger] whole.objects[j]).attrs)
                        &&& unique_keys(whole.objects[j].state)
                        &&& unique_keys(whole.objects[j].timers)
                        &&& well_formed(whole.objects[j].kind)
                    },
                forall|j: int|
                    0 <= j < parents@.len() ==> (#[trigger] parents@[j]) == whole.objects[j].parent,
            decreases rest.len(),
        {
            let ghost k = objects@.len() as int;
            let record = rest.pop().unwrap();
            assert(record == all[k]);
            let ObjectRecord { parent, kind, attrs, state, timers } = record;
            proof {
                use_type_invariant(&kind);
            }
            let attrs = match Dict::from_pairs(attrs) {
                Some(d) => d,
                None => {
                    assert(!unique_keys(whole.objects[k].attrs));
                    return None;
                },
            };
            let state = match Dict::from_pairs(state) {
                Some(d) => d,
                None => {
                    assert(!unique_keys(whole.objects[k].state));
                    return None;
                },
            };
            let timers = match Dict::from_pairs(timers) {
                Some(d) => d,
                None => {
                    assert(!unique_keys(whole.objects[k].timers));
                    return None;
                },
            };
            objects.push(Object { parent: None, kind, attrs, state, timers });
            parents.push(parent);
        }
        // The users: each an object of this world that was made for the user.
        let users = match Dict::from_pairs(user_pairs) {
            Some(d) => d,
            None => {
                return None;
            },
        };
        let mut u: usize = 0;
        while u < users.len()
            invariant
                whole == snapshot@,
                u <= users@.len(),
                users@ == whole.users,
                objects@.len() == n,
                whole.objects.len() == n,
                forall|j: int|
                    0 <= j < n ==> (#[trigger] objects@[j])@ == (ObjectView {
                        parent: None,
                        ..whole.objects[j]
                    }),
                forall|j: int|
                    0 <= j < u ==> {
                        &&& is_word((#[trigger] whole.users[j]).0)
                        &&& whole.valid(whole.users[j].1)
                        &&& whole.object(whole.users[j].1).kind == user_package(whole.users[j].0)
                    },
            decreases users@.len() - u,
        {
            let name = users.key_at(u);
            let id = *users.value_at(u);
            if !is_name(name) || id.0 >= n {
                return None;
            }
            assert(objects@[id.0 as int]@.kind == whole.objects[id.0 as int].kind);
            if !objects[id.0].kind.same_as(&PackageReference::for_user(name)) {
                return None;
            }
            u += 1;
        }
        // The live packages.
        let live = match live_dict(packages) {
            Some(d) => d,
            None => {
                return None;
            },
        };
        let mut s = State { objects, entrance, users, live_packages: live, current_time };
        proof {
            let a = s@;
            assert forall|x: Id| a.valid(x) implies #[trigger] a.rooted(x) by {
                assert(a.object(x).parent is None);
                assert(a.ancestor(x, 1) is None);
            }
            assert forall|j: int| 0 <= j < a.users.len() implies {
                &&& is_word((#[trigger] a.users[j]).0)
                &&& a.valid(a.users[j].1)
                &&& a.object(a.users[j].1).kind == user_package(a.users[j].0)
            } by {
                assert(whole.object(whole.users[j].1).kind == user_package(whole.users[j].0));
            }
            assert forall|i: int| 0 <= i < a.objects.len() implies {
                &&& unique_keys((#[trigger] a.objects[i]).attrs)
                &&& unique_keys(a.objects[i].state)
                &&& unique_keys(a.objects[i].timers)
                &&& well_formed(a.objects[i].kind)
            } by {
                assert(unique_keys(whole.objects[i].attrs));
            }
            assert(a.ok());
        }
        // The parents, one object after the other: a parent that is no object
        // or that closes a circle is found when it is set.
        let mut i: usize = 0;
        while i < n
            invariant
                whole == snapshot@,
                i <= n,
                s.wf(),
                n == whole.objects.len(),
                s@.objects.len() == n,
                parents@.len() == n,
                forall|j: int|
                    0 <= j < n ==> (#[trigger] parents@[j]) == whole.objects[j].parent,
                forall|j: int| 0 <= j < i ==> (#[trigger] s@.objects[j]) == whole.objects[j],
                forall|j: int|
                    i <= j < n ==> (#[trigger] s@.objects[j]) == (ObjectView {
                        parent: None,
                        ..whole.objects[j]
                    }),
                s@.entrance == whole.entrance,
                s@.users == whole.users,
                s@.live_packages == whole.live_packages,
                s@.current_time == whole.current_time,
            decreases n - i,
        {
            let ghost before = s@;
            match parents[i] {
                None => {
                    assert(s@.objects[i as int] == whole.objects[i as int]);
                },
                Some(p) => {
                    let moved_ok = s.move_object(Id(i), Some(p));
                    proof {
                        assert(whole.object(Id(i)).parent == Some(p));
                        if moved_ok is Err {
                            if !before.valid(p) {
                                assert(!whole.valid(p));
                                assert(whole.valid(Id(i)));
                                assert(!whole.forest());
                            } else {
                                assert(before.within(p, Id(i)));
                                let k = choose|k: nat| before.ancestor(p, k) == Some(Id(i));
                                assert forall|y: Id|
                                    before.valid(y) && y.0 < i implies (#[trigger] before.object(
                                    y,
                                )).parent == whole.object(y).parent by {
                                    assert(before.objects[y.0 as int] == whole.objects[y.0 as int]);
                                }
                                assert forall|y: Id|
                                    before.valid(y) && y.0 >= i implies (#[trigger] before.object(
                                    y,
                                )).parent is None by {
                                    assert(before.objects[y.0 as int].parent is None);
                                }
                                lemma_partial_chain(before, whole, i as int, p, k);
                                assert(whole.ancestor(Id(i), k + 1) == whole.ancestor(p, k));
                                lemma_circle_never_ends(whole, Id(i), k + 1);
                                assert(whole.valid(Id(i)));
                                assert(!whole.forest());
                            }
                        } else {
                            assert(s@.objects[i as int] == whole.objects[i as int]);
                            assert forall|j: int| 0 <= j < n && j != i implies s@.objects[j]
                                == before.objects[j] by {}
                        }
                    }
                    if moved_ok.is_err() {
                        return None;
                    }
                },
            }
            i += 1;
        }
        assert(s@.objects =~= whole.objects);
        Some(s)
    }
}

/// What is said of an error of the object graph.
pub open spec fn error_text(e: Error) -> Seq<char> {
    match e {
        Error::InvalidObjectId(id) => "Invalid object Id "@ + id_text(id),
        Error::CyclicHierarchy => "An object cannot be put inside itself"@,
    }
}

impl Error {
    /// What is said of the error.
    pub fn to_string(&self) -> (r: String)
        ensures
            r@ == error_text(*self),
    {
        match self {
            Error::InvalidObjectId(id) => {
                let mut said = String::from_str("Invalid object Id ");
                said.append(id.to_string().as_str());
                said
            },
            Error::CyclicHierarchy => String::from_str("An object cannot be put inside itself"),
        }
    }
}

} // verus!
