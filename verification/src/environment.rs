//! Scopes: the variables of each block, from the innermost block outward.
use vstd::prelude::*;
use crate::scanner::Token;
use crate::value::{clone_slot, slot_view, Value, ValueView};

verus! {

/// The variables of one block: what each name is bound to. A name that was
/// declared without a value is bound to `None`.
pub type Frame = Map<Seq<char>, Option<ValueView>>;

/// What looking up `name` gives in a chain of frames, innermost first: the
/// binding in the first frame that holds the name, if any does.
pub open spec fn lookup(scopes: Seq<Frame>, name: Seq<char>) -> Option<Option<ValueView>>
    decreases scopes.len(),
{
    if scopes.len() == 0 {
        None
    } else if scopes[0].contains_key(name) {
        Some(scopes[0][name])
    } else {
        lookup(scopes.drop_first(), name)
    }
}

/// The chain after `name` was declared in its innermost frame.
pub open spec fn declared(scopes: Seq<Frame>, name: Seq<char>, slot: Option<ValueView>) -> Seq<
    Frame,
> {
    scopes.update(0, scopes[0].insert(name, slot))
}

/// The chain after `value` was assigned to `name`: the first frame that
/// holds the name binds it to the value; where none does, nothing changes.
pub open spec fn assigned(scopes: Seq<Frame>, name: Seq<char>, value: ValueView) -> Seq<Frame>
    decreases scopes.len(),
{
    if scopes.len() == 0 {
        scopes
    } else if scopes[0].contains_key(name) {
        scopes.update(0, scopes[0].insert(name, Some(value)))
    } else {
        seq![scopes[0]] + assigned(scopes.drop_first(), name, value)
    }
}

/// An assignment adds no frame and drops none.
pub proof fn assigned_keeps_depth(scopes: Seq<Frame>, name: Seq<char>, value: ValueView)
    ensures
        assigned(scopes, name, value).len() == scopes.len(),
    decreases scopes.len(),
{
    if scopes.len() > 0 && !scopes[0].contains_key(name) {
        assigned_keeps_depth(scopes.drop_first(), name, value);
    }
}

/// Shadowing: a name declared in the innermost frame is bound there, every
/// other name is bound as before, and the enclosing frames are as they were.
pub proof fn declaration_shadows(scopes: Seq<Frame>, name: Seq<char>, slot: Option<ValueView>)
    requires
        scopes.len() >= 1,
    ensures
        lookup(declared(scopes, name, slot), name) == Some(slot),
        declared(scopes, name, slot).drop_first() == scopes.drop_first(),
        forall|other: Seq<char>|
            other != name ==> lookup(declared(scopes, name, slot), other) == lookup(scopes, other),
{
    let after = declared(scopes, name, slot);
    assert(after.drop_first() =~= scopes.drop_first());
}

/// A variable that is declared in a block is gone when the block ends, and
/// the scopes around the block are as if it had never been declared.
pub proof fn block_declaration_is_local(
    scopes: Seq<Frame>,
    name: Seq<char>,
    slot: Option<ValueView>,
)
    ensures
        declared(seq![Map::<Seq<char>, Option<ValueView>>::empty()] + scopes, name, slot)
            .drop_first() == scopes,
{
    let inner = seq![Map::<Seq<char>, Option<ValueView>>::empty()] + scopes;
    assert(declared(inner, name, slot).drop_first() =~= scopes);
}

/// Assignment reaches outward: where some frame holds the name, the name
/// is then bound to the value; where none does, nothing changes. Every other
/// name is bound as before.
pub proof fn assignment_reaches_outward(scopes: Seq<Frame>, name: Seq<char>, value: ValueView)
    ensures
        lookup(scopes, name) is Some ==> lookup(assigned(scopes, name, value), name) == Some(
            Some(value),
        ),
        lookup(scopes, name) is None ==> assigned(scopes, name, value) == scopes,
        forall|other: Seq<char>|
            other != name ==> lookup(assigned(scopes, name, value), other) == lookup(
                scopes,
                other,
            ),
    decreases scopes.len(),
{
    if scopes.len() > 0 {
        let rest = scopes.drop_first();
        let after = assigned(scopes, name, value);
        if scopes[0].contains_key(name) {
            assert(after.drop_first() =~= rest);
        } else {
            assignment_reaches_outward(rest, name, value);
            assert(after.drop_first() =~= assigned(rest, name, value));
            assert(after[0] == scopes[0]);
            if lookup(scopes, name) is None {
                assert(after =~= scopes);
            }
        }
        assert forall|other: Seq<char>| other != name implies lookup(after, other) == lookup(
            scopes,
            other,
        ) by {
            assert(after[0].contains_key(other) == scopes[0].contains_key(other));
            if scopes[0].contains_key(other) {
                assert(after[0][other] == scopes[0][other]);
            } else if scopes[0].contains_key(name) {
                assert(lookup(after.drop_first(), other) == lookup(rest, other));
            } else {
                assert(lookup(assigned(rest, name, value), other) == lookup(rest, other));
            }
        }
    }
}

/// An assignment made in a block to a variable of the scopes around it
/// outlasts the block: it changes the first frame around the block that
/// holds the name.
pub proof fn block_assignment_outlasts(scopes: Seq<Frame>, name: Seq<char>, value: ValueView)
    ensures
        assigned(seq![Map::<Seq<char>, Option<ValueView>>::empty()] + scopes, name, value)
            .drop_first() == assigned(scopes, name, value),
{
    let inner = seq![Map::<Seq<char>, Option<ValueView>>::empty()] + scopes;
    assert(inner.drop_first() =~= scopes);
    assert(assigned(inner, name, value).drop_first() =~= assigned(scopes, name, value));
}

/// The frame that a list of bindings makes.
pub open spec fn frame_of(bindings: Seq<(String, Option<Value>)>) -> Frame
    decreases bindings.len(),
{
    if bindings.len() == 0 {
        Map::empty()
    } else {
        frame_of(bindings.drop_last()).insert(
            bindings.last().0@,
            slot_view(bindings.last().1),
        )
    }
}

/// Whether no name stands twice in the list.
pub open spec fn distinct_names(bindings: Seq<(String, Option<Value>)>) -> bool {
    forall|i: int, j: int|
        0 <= i < j < bindings.len() ==> (#[trigger] bindings[i]).0@ != (#[trigger] bindings[j]).0@
}

/// A frame holds exactly the names of its list, each with its binding.
proof fn frame_of_holds(bindings: Seq<(String, Option<Value>)>, name: Seq<char>)
    requires
        distinct_names(bindings),
    ensures
        frame_of(bindings).contains_key(name) <==> exists|i: int|
            0 <= i < bindings.len() && (#[trigger] bindings[i]).0@ == name,
        forall|i: int|
            0 <= i < bindings.len() && (#[trigger] bindings[i]).0@ == name ==> frame_of(
                bindings,
            )[name] == slot_view(bindings[i].1),
    decreases bindings.len(),
{
    if bindings.len() > 0 {
        let front = bindings.drop_last();
        assert forall|i: int, j: int| 0 <= i < j < front.len() implies (#[trigger] front[i]).0@
            != (#[trigger] front[j]).0@ by {
            assert(front[i] == bindings[i] && front[j] == bindings[j]);
        }
        frame_of_holds(front, name);
        if frame_of(front).contains_key(name) {
            let i = choose|i: int| 0 <= i < front.len() && (#[trigger] front[i]).0@ == name;
            assert(bindings[i] == front[i]);
        }
        assert forall|i: int|
            0 <= i < bindings.len() && (#[trigger] bindings[i]).0@ == name implies frame_of(
            bindings,
        )[name] == slot_view(bindings[i].1) by {
            if i < bindings.len() - 1 {
                assert(front[i] == bindings[i]);
                assert(bindings[i].0@ != bindings[bindings.len() - 1].0@);
            }
        }
        if exists|i: int| 0 <= i < bindings.len() && (#[trigger] bindings[i]).0@ == name {
            let i = choose|i: int| 0 <= i < bindings.len() && (#[trigger] bindings[i]).0@ == name;
            if i < bindings.len() - 1 {
                assert(front[i] == bindings[i]);
            }
        }
    }
}

/// Binding a new name at the end of the list binds it in the frame.
proof fn frame_of_push(bindings: Seq<(String, Option<Value>)>, binding: (String, Option<Value>))
    ensures
        frame_of(bindings.push(binding)) == frame_of(bindings).insert(
            binding.0@,
            slot_view(binding.1),
        ),
{
    assert(bindings.push(binding).drop_last() =~= bindings);
}

/// Replacing the binding of a name in the list rebinds it in the frame.
proof fn frame_of_update(
    bindings: Seq<(String, Option<Value>)>,
    i: int,
    binding: (String, Option<Value>),
)
    requires
        distinct_names(bindings),
        0 <= i < bindings.len(),
        bindings[i].0@ == binding.0@,
    ensures
        frame_of(bindings.update(i, binding)) == frame_of(bindings).insert(
            binding.0@,
            slot_view(binding.1),
        ),
        distinct_names(bindings.update(i, binding)),
    decreases bindings.len(),
{
    let updated = bindings.update(i, binding);
    let front = bindings.drop_last();
    if i == bindings.len() - 1 {
        assert(updated.drop_last() =~= front);
        assert(frame_of(updated) =~= frame_of(bindings).insert(binding.0@, slot_view(binding.1)));
    } else {
        assert forall|a: int, b: int| 0 <= a < b < front.len() implies (#[trigger] front[a]).0@
            != (#[trigger] front[b]).0@ by {
            assert(front[a] == bindings[a] && front[b] == bindings[b]);
        }
        assert(front[i] == bindings[i]);
        frame_of_update(front, i, binding);
        assert(updated.drop_last() =~= front.update(i, binding));
        assert(updated.last() == bindings.last());
        assert(bindings[i].0@ != bindings[bindings.len() - 1].0@);
        assert(frame_of(updated) =~= frame_of(bindings).insert(binding.0@, slot_view(binding.1)));
    }
    assert forall|a: int, b: int| 0 <= a < b < updated.len() implies (#[trigger] updated[a]).0@
        != (#[trigger] updated[b]).0@ by {
        assert(bindings[a].0@ != bindings[b].0@);
    }
}

/// Why a name could not be read.
#[derive(Debug, Clone, Copy, PartialEq, Eq, Structural)]
pub enum Error {
    /// No frame of the chain holds the name.
    NameDoesNotExist,
}

/// The variables of a block, and the environment of the block around it.
pub struct Environment {
    enclosing: Option<Box<Environment>>,
    values: Vec<(String, Option<Value>)>,
}

/// The frames of an environment, its own first.
pub closed spec fn frames(environment: Environment) -> Seq<Frame>
    decreases environment,
{
    match environment.enclosing {
        Some(outer) => seq![frame_of(environment.values@)] + frames(*outer),
        None => seq![frame_of(environment.values@)],
    }
}

/// Whether no frame of an environment lists a name twice.
pub closed spec fn frames_distinct(environment: Environment) -> bool
    decreases environment,
{
    &&& distinct_names(environment.values@)
    &&& match environment.enclosing {
        Some(outer) => frames_distinct(*outer),
        None => true,
    }
}

impl View for Environment {
    type V = Seq<Frame>;

    open spec fn view(&self) -> Seq<Frame> {
        frames(*self)
    }
}

impl Environment {
    /// Every frame lists each of its names once.
    pub open spec fn wf(&self) -> bool {
        frames_distinct(*self)
    }

    /// An environment always has a frame of its own.
    pub proof fn has_frame(&self)
        ensures
            self@.len() >= 1,
    {
    }

    /// The outermost environment, with no variables.
    pub fn new() -> (environment: Environment)
        ensures
            environment.wf(),
            environment@ == seq![Map::<Seq<char>, Option<ValueView>>::empty()],
    {
        Environment { enclosing: None, values: Vec::new() }
    }

    /// The environment of a block inside the one of `enclosed`, with no
    /// variables of its own.
    pub fn enclosing(enclosed: Environment) -> (environment: Environment)
        requires
            enclosed.wf(),
        ensures
            environment.wf(),
            environment@ == seq![Map::<Seq<char>, Option<ValueView>>::empty()] + enclosed@,
    {
        Environment { enclosing: Some(Box::new(enclosed)), values: Vec::new() }
    }

    /// Gives up the innermost frame: the environment around this one, if
    /// there is one.
    pub fn into_enclosing(self) -> (outer: Option<Environment>)
        requires
            self.wf(),
        ensures
            outer is Some <==> self@.len() > 1,
            match outer {
                Some(environment) => environment.wf() && environment@ == self@.drop_first(),
                None => self@.len() == 1,
            },
    {
        match self.enclosing {
            Some(outer) => {
                assert(self@.drop_first() =~= frames(*outer));
                Some(*outer)
            },
            None => None,
        }
    }

    /// Where `name` stands in the list of this frame.
    fn position(&self, name: &String) -> (r: Option<usize>)
        requires
            self.wf(),
        ensures
            match r {
                Some(i) => i < self.values@.len() && self.values@[i as int].0@ == name@,
                None => forall|i: int| 0 <= i < self.values@.len() ==> self.values@[i].0@ != name@,
            },
    {
        let mut i: usize = 0;
        while i < self.values.len()
            invariant
                i <= self.values@.len(),
                forall|k: int| 0 <= k < i ==> self.values@[k].0@ != name@,
            decreases self.values.len() - i,
        {
            if self.values[i].0 == *name {
                return Some(i);
            }
            i += 1;
        }
        None
    }

    /// Declares `name` in the innermost frame, bound to `value`. A binding
    /// of the same name in that frame is replaced; those of enclosing frames
    /// are untouched.
    pub fn define(&mut self, name: String, value: Option<Value>)
        requires
            old(self).wf(),
        ensures
            final(self).wf(),
            final(self)@ == declared(old(self)@, name@, slot_view(value)),
            final(self)@.len() == old(self)@.len(),
    {
        let ghost before = self.values@;
        proof {
            frame_of_holds(before, name@);
        }
        match self.position(&name) {
            Some(i) => {
                proof {
                    frame_of_update(before, i as int, (name, value));
                }
                self.values.set(i, (name, value));
            },
            None => {
                proof {
                    frame_of_push(before, (name, value));
                }
                self.values.push((name, value));
            },
        }
        assert(self@ =~= declared(old(self)@, name@, slot_view(value)));
    }

    /// Assigns `value` to the variable that `name` names: the one of the
    /// first frame, from the innermost outward, that holds the name. Returns
    /// whether there is one.
    pub fn assign(&mut self, name: &Token, value: Value) -> (found: bool)
        requires
            old(self).wf(),
        ensures
            final(self).wf(),
            found == lookup(old(self)@, name.lexeme@) is Some,
            final(self)@ == assigned(old(self)@, name.lexeme@, value@),
            final(self)@.len() == old(self)@.len(),
        decreases *old(self),
    {
        let ghost before = self.values@;
        proof {
            assigned_keeps_depth(old(self)@, name.lexeme@, value@);
            reveal_with_fuel(assigned, 2);
            reveal_with_fuel(lookup, 2);
            frame_of_holds(before, name.lexeme@);
            assert(self@[0] == frame_of(before));
        }
        match self.position(&name.lexeme) {
            Some(i) => {
                assert(before[i as int].0@ == name.lexeme@);
                assert(frame_of(before).contains_key(name.lexeme@));
                let binding = (name.lexeme.clone(), Some(value));
                proof {
                    frame_of_update(before, i as int, binding);
                }
                self.values.set(i, binding);
                assert(self@ =~= assigned(old(self)@, name.lexeme@, value@));
                true
            },
            None => {
                assert(!frame_of(before).contains_key(name.lexeme@));
                match &mut self.enclosing {
                    Some(environment) => {
                        let ghost outer = frames(**environment);
                        assert(old(self)@.drop_first() =~= outer);
                        let found = environment.assign(name, value);
                        assert(self.values@ == before);
                        assert(self@ =~= seq![frame_of(before)] + assigned(
                            outer,
                            name.lexeme@,
                            value@,
                        ));
                        found
                    },
                    None => {
                        assert(old(self)@.drop_first() =~= Seq::<Frame>::empty());
                        assert(self@ =~= assigned(old(self)@, name.lexeme@, value@));
                        false
                    },
                }
            },
        }
    }

    /// Reads the variable that `name` names: the one of the first frame,
    /// from the innermost outward, that holds the name.
    pub fn get(&self, name: &Token) -> (r: Result<Option<Value>, Error>)
        requires
            self.wf(),
        ensures
            match r {
                Ok(slot) => lookup(self@, name.lexeme@) == Some(slot_view(slot)),
                Err(_) => lookup(self@, name.lexeme@) is None,
            },
        decreases *self,
    {
        proof {
            reveal_with_fuel(lookup, 2);
            frame_of_holds(self.values@, name.lexeme@);
            assert(self@[0] == frame_of(self.values@));
        }
        match self.position(&name.lexeme) {
            Some(i) => {
                assert(self.values@[i as int].0@ == name.lexeme@);
                assert(frame_of(self.values@).contains_key(name.lexeme@));
                Ok(clone_slot(&self.values[i].1))
            },
            None => match &self.enclosing {
                Some(environment) => {
                    assert(self@.drop_first() =~= frames(**environment));
                    environment.get(name)
                },
                None => {
                    assert(self@.drop_first() =~= Seq::<Frame>::empty());
                    Err(Error::NameDoesNotExist)
                },
            },
        }
    }
}

} // verus!
