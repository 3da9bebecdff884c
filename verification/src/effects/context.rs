//! The context an effect runs in: a registry, copy-on-write state, the archetype value the
//! effect was started with, and the stack of effects that led to it.
use vstd::prelude::*;
use std::sync::Arc;
use crate::text::string_from_str;
use crate::schema::primitives::{Value, SpecValue};
use crate::state::cells::{State, StateCell};
use crate::state::errors::StateError;
use super::errors::EffectError;

verus! {

/// `Arc::clone`: another handle on the same shared value.
#[verifier::external_body]
fn arc_share<T>(a: &Arc<T>) -> (r: Arc<T>)
    ensures
        r == *a,
{
    Arc::clone(a)
}

/// The context of one effect run. Its state is shared with the context it was derived from
/// until it is written: a write replaces it with a changed copy and marks it dirty.
pub struct Context<R> {
    registry: Arc<R>,
    state: Arc<State>,
    state_dirty: bool,
    archetype: Option<Value>,
    stack: Vec<String>,
}

impl<R> Context<R> {
    /// The state's cells.
    pub closed spec fn cells(&self) -> Map<Seq<char>, StateCell> {
        (*self.state)@
    }

    /// Whether the state was written in this context.
    pub closed spec fn dirty(&self) -> bool {
        self.state_dirty
    }

    /// The names of the effects that led to this context, outermost first.
    pub closed spec fn frames(&self) -> Seq<Seq<char>> {
        Seq::new(self.stack@.len(), |i: int| self.stack@[i]@)
    }

    /// The archetype value the effect was started with, if any.
    pub closed spec fn spec_archetype(&self) -> Option<SpecValue> {
        match self.archetype {
            Some(v) => Some(v@),
            None => None,
        }
    }

    /// The registry.
    pub closed spec fn spec_registry(&self) -> R {
        *self.registry
    }

    /// A root context: empty, clean state, no archetype, no effects run.
    pub fn new(registry: Arc<R>) -> (r: Self)
        ensures
            r.cells() == Map::<Seq<char>, StateCell>::empty(),
            !r.dirty(),
            r.frames() == Seq::<Seq<char>>::empty(),
            r.spec_archetype() is None,
            r.spec_registry() == *registry,
    {
        let r = Self { registry, state: Arc::new(State::new()), state_dirty: false, archetype: None, stack: Vec::new() };
        assert(r.frames() =~= Seq::<Seq<char>>::empty());
        r
    }

    /// The context to run the effect `effect_name` in, started with `archetype`: it shares
    /// this context's registry and state, is clean, and has the effect on top of its stack.
    pub fn derive(&self, effect_name: &str, archetype: Option<Value>) -> (r: Self)
        ensures
            r.cells() == self.cells(),
            !r.dirty(),
            r.frames() == self.frames().push(effect_name@),
            r.spec_archetype() == match archetype { Some(v) => Some(v@), None => None::<SpecValue> },
            r.spec_registry() == self.spec_registry(),
    {
        let mut stack: Vec<String> = Vec::new();
        let mut i: usize = 0;
        while i < self.stack.len()
            invariant
                i <= self.stack.len(),
                stack@.len() == i,
                forall|k: int| 0 <= k < i ==> (#[trigger] stack@[k])@ == self.stack@[k]@,
            decreases self.stack.len() - i,
        {
            stack.push(string_from_str(self.stack[i].as_str()));
            i = i + 1;
        }
        stack.push(string_from_str(effect_name));
        let r = Self {
            registry: arc_share(&self.registry),
            state: arc_share(&self.state),
            state_dirty: false,
            archetype,
            stack,
        };
        assert(r.frames() =~= self.frames().push(effect_name@));
        r
    }

    /// Takes back a derived context after its effect succeeded: when it wrote its state,
    /// that state becomes this context's, which is then dirty too.
    pub fn rectify(&mut self, derived: Self)
        ensures
            derived.dirty() ==> final(self).cells() == derived.cells() && final(self).dirty(),
            !derived.dirty() ==> final(self).cells() == old(self).cells() && final(self).dirty() == old(self).dirty(),
            final(self).frames() == old(self).frames(),
            final(self).spec_archetype() == old(self).spec_archetype(),
            final(self).spec_registry() == old(self).spec_registry(),
    {
        if derived.state_dirty {
            self.state = derived.state;
            self.state_dirty = true;
        }
    }

    /// The archetype value, or an internal error "missing archetype".
    pub fn archetype(&self) -> (r: Result<&Value, EffectError>)
        ensures
            match self.spec_archetype() {
                Some(v) => r matches Ok(rv) && rv@ == v,
                None => r matches Err(EffectError::Internal(m)) && m@ == "missing archetype"@,
            },
    {
        match &self.archetype {
            Some(archetype) => Ok(archetype),
            None => Err(EffectError::Internal(string_from_str("missing archetype"))),
        }
    }

    /// The registry.
    pub fn registry(&self) -> (r: &R)
        ensures
            *r == self.spec_registry(),
    {
        &*self.registry
    }

    /// The names of the effects that led to this context, outermost first.
    pub fn stack(&self) -> (r: &Vec<String>)
        ensures
            Seq::new(r@.len(), |i: int| r@[i]@) == self.frames(),
    {
        &self.stack
    }

    /// Stores `value` under `key` in a changed copy of the state, which replaces the shared
    /// one, and marks the state dirty.
    pub fn set<T: Send + Sync + 'static>(&mut self, key: &str, value: T) -> (r: Result<(), StateError>)
        ensures
            r is Ok,
            final(self).cells() == old(self).cells().insert(key@, final(self).cells()[key@]),
            final(self).dirty(),
            final(self).frames() == old(self).frames(),
            final(self).spec_archetype() == old(self).spec_archetype(),
            final(self).spec_registry() == old(self).spec_registry(),
    {
        let mut copy = (*self.state).duplicate();
        copy.set(key, value)?;
        self.state = Arc::new(copy);
        self.state_dirty = true;
        Ok(())
    }

    /// The value of type `T` under `key` in the state (see `State::get`).
    pub fn get<T: Send + Sync + 'static>(&self, key: &str) -> (r: Result<&T, StateError>)
        ensures
            !self.cells().contains_key(key@) ==> (r matches Err(StateError::Empty(k)) && k@ == key@),
            self.cells().contains_key(key@) ==> (r is Ok || (r matches Err(StateError::InvalidType(k)) && k@ == key@)),
    {
        self.state.get::<T>(key)
    }
}

} // verus!
