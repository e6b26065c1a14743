//! Factories that pre-allocate the events of a ring.

use vstd::prelude::*;

verus! {

/// Creates the event instance of each ring slot; users implement it.
pub trait EventFactory<T> {
    /// A new event in its initial state.
    fn new_instance(&self) -> T;
}

/// A factory that calls `T::default()`.
pub struct DefaultEventFactory<T: Default> {
    _phantom: core::marker::PhantomData<T>,
}

impl<T: Default> DefaultEventFactory<T> {
    /// A new default event factory.
    pub fn new() -> Self {
        DefaultEventFactory { _phantom: core::marker::PhantomData }
    }
}

impl<T: Default> Default for DefaultEventFactory<T> {
    fn default() -> Self {
        DefaultEventFactory::new()
    }
}

impl<T: Default> EventFactory<T> for DefaultEventFactory<T> {
    fn new_instance(&self) -> (r: T)
        ensures
            call_ensures(T::default, (), r),
    {
        T::default()
    }
}

/// A factory that calls a closure.
#[verifier::reject_recursive_types(T)]
pub struct ClosureEventFactory<T, F> where F: Fn() -> T {
    factory_fn: F,
    _phantom: core::marker::PhantomData<T>,
}

impl<T, F> ClosureEventFactory<T, F> where F: Fn() -> T {
    #[verifier::type_invariant]
    spec fn callable(self) -> bool {
        self.factory_fn.requires(())
    }

    /// The closure that creates the events.
    pub closed spec fn factory(self) -> F {
        self.factory_fn
    }

    /// A factory that creates events with `factory_fn`.
    pub fn new(factory_fn: F) -> (r: Self)
        requires
            factory_fn.requires(()),
        ensures
            r.factory() == factory_fn,
    {
        ClosureEventFactory { factory_fn, _phantom: core::marker::PhantomData }
    }
}

impl<T, F> EventFactory<T> for ClosureEventFactory<T, F> where F: Fn() -> T {
    fn new_instance(&self) -> (r: T)
        ensures
            self.factory().ensures((), r),
    {
        proof {
            use_type_invariant(self);
        }
        (self.factory_fn)()
    }
}

/// A factory that clones a prototype event.
pub struct CloneEventFactory<T: Clone> {
    prototype: T,
}

impl<T: Clone> CloneEventFactory<T> {
    /// The prototype that every instance is cloned from.
    pub closed spec fn prototype(self) -> T {
        self.prototype
    }

    /// A factory that clones `prototype`.
    pub fn new(prototype: T) -> (r: Self)
        ensures
            r.prototype() == prototype,
    {
        CloneEventFactory { prototype }
    }
}

impl<T: Clone> EventFactory<T> for CloneEventFactory<T> {
    fn new_instance(&self) -> (r: T)
        ensures
            cloned::<T>(self.prototype(), r),
    {
        self.prototype.clone()
    }
}

/// A closure-backed factory; shorthand for [`ClosureEventFactory::new`].
pub fn event_factory<T, F>(factory_fn: F) -> (r: ClosureEventFactory<T, F>) where F: Fn() -> T
    requires
        factory_fn.requires(()),
    ensures
        r.factory() == factory_fn,
{
    ClosureEventFactory::new(factory_fn)
}

} // verus!
