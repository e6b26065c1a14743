//! Translators that fill a claimed event with data before it is published.

use vstd::prelude::*;

verus! {

/// Fills an event with data; users implement it.
pub trait EventTranslator<T> {
    /// Populates `event`, claimed at `sequence`.
    fn translate_to(&self, event: &mut T, sequence: i64);
}

/// Fills an event with data and one argument; users implement it.
pub trait EventTranslatorOneArg<T, A> {
    /// Populates `event`, claimed at `sequence`, from `arg0`.
    fn translate_to(&self, event: &mut T, sequence: i64, arg0: A);
}

/// Fills an event with data and two arguments; users implement it.
pub trait EventTranslatorTwoArg<T, A, B> {
    /// Populates `event`, claimed at `sequence`, from `arg0` and `arg1`.
    fn translate_to(&self, event: &mut T, sequence: i64, arg0: A, arg1: B);
}

/// Fills an event with data and three arguments; users implement it.
pub trait EventTranslatorThreeArg<T, A, B, C> {
    /// Populates `event`, claimed at `sequence`, from the three arguments.
    fn translate_to(&self, event: &mut T, sequence: i64, arg0: A, arg1: B, arg2: C);
}

/// A translator made from a closure.
#[verifier::reject_recursive_types(T)]
pub struct ClosureEventTranslator<T, F> where F: Fn(&mut T, i64) {
    translator_fn: F,
    _phantom: core::marker::PhantomData<T>,
}

impl<T, F> ClosureEventTranslator<T, F> where F: Fn(&mut T, i64) {
    #[verifier::type_invariant]
    spec fn callable(self) -> bool {
        forall|e: &mut T, s: i64| self.translator_fn.requires((e, s))
    }

    /// The closure that fills the events.
    pub closed spec fn translator(self) -> F {
        self.translator_fn
    }

    /// A translator that calls `translator_fn`.
    pub fn new(translator_fn: F) -> (r: Self)
        requires
            forall|e: &mut T, s: i64| translator_fn.requires((e, s)),
        ensures
            r.translator() == translator_fn,
    {
        ClosureEventTranslator { translator_fn, _phantom: core::marker::PhantomData }
    }
}

impl<T, F> EventTranslator<T> for ClosureEventTranslator<T, F> where F: Fn(&mut T, i64) {
    fn translate_to(&self, event: &mut T, sequence: i64)
        ensures
            exists|e: &mut T|
                *e == *old(event) && *final(e) == *final(event) && self.translator().ensures(
                    (e, sequence),
                    (),
                ),
    {
        proof {
            use_type_invariant(self);
        }
        (self.translator_fn)(event, sequence)
    }
}

/// A one-argument translator made from a closure.
#[verifier::reject_recursive_types(T)]
#[verifier::reject_recursive_types(A)]
pub struct ClosureEventTranslatorOneArg<T, A, F> where F: Fn(&mut T, i64, A) {
    translator_fn: F,
    _phantom: core::marker::PhantomData<(T, A)>,
}

impl<T, A, F> ClosureEventTranslatorOneArg<T, A, F> where F: Fn(&mut T, i64, A) {
    #[verifier::type_invariant]
    spec fn callable(self) -> bool {
        forall|e: &mut T, s: i64, a: A| self.translator_fn.requires((e, s, a))
    }

    /// The closure that fills the events.
    pub closed spec fn translator(self) -> F {
        self.translator_fn
    }

    /// A translator that calls `translator_fn`.
    pub fn new(translator_fn: F) -> (r: Self)
        requires
            forall|e: &mut T, s: i64, a: A| translator_fn.requires((e, s, a)),
        ensures
            r.translator() == translator_fn,
    {
        ClosureEventTranslatorOneArg { translator_fn, _phantom: core::marker::PhantomData }
    }
}

impl<T, A, F> EventTranslatorOneArg<T, A> for ClosureEventTranslatorOneArg<T, A, F> where
    F: Fn(&mut T, i64, A),
 {
    fn translate_to(&self, event: &mut T, sequence: i64, arg0: A)
        ensures
            exists|e: &mut T|
                *e == *old(event) && *final(e) == *final(event) && self.translator().ensures(
                    (e, sequence, arg0),
                    (),
                ),
    {
        proof {
            use_type_invariant(self);
        }
        (self.translator_fn)(event, sequence, arg0)
    }
}

/// A two-argument translator made from a closure.
#[verifier::reject_recursive_types(T)]
#[verifier::reject_recursive_types(A)]
#[verifier::reject_recursive_types(B)]
pub struct ClosureEventTranslatorTwoArg<T, A, B, F> where F: Fn(&mut T, i64, A, B) {
    translator_fn: F,
    _phantom: core::marker::PhantomData<(T, A, B)>,
}

impl<T, A, B, F> ClosureEventTranslatorTwoArg<T, A, B, F> where F: Fn(&mut T, i64, A, B) {
    #[verifier::type_invariant]
    spec fn callable(self) -> bool {
        forall|e: &mut T, s: i64, a: A, b: B| self.translator_fn.requires((e, s, a, b))
    }

    /// The closure that fills the events.
    pub closed spec fn translator(self) -> F {
        self.translator_fn
    }

    /// A translator that calls `translator_fn`.
    pub fn new(translator_fn: F) -> (r: Self)
        requires
            forall|e: &mut T, s: i64, a: A, b: B| translator_fn.requires((e, s, a, b)),
        ensures
            r.translator() == translator_fn,
    {
        ClosureEventTranslatorTwoArg { translator_fn, _phantom: core::marker::PhantomData }
    }
}

impl<T, A, B, F> EventTranslatorTwoArg<T, A, B> for ClosureEventTranslatorTwoArg<T, A, B, F> where
    F: Fn(&mut T, i64, A, B),
 {
    fn translate_to(&self, event: &mut T, sequence: i64, arg0: A, arg1: B)
        ensures
            exists|e: &mut T|
                *e == *old(event) && *final(e) == *final(event) && self.translator().ensures(
                    (e, sequence, arg0, arg1),
                    (),
                ),
    {
        proof {
            use_type_invariant(self);
        }
        (self.translator_fn)(event, sequence, arg0, arg1)
    }
}

/// A closure-backed translator; shorthand for [`ClosureEventTranslator::new`].
pub fn event_translator<T, F>(translator_fn: F) -> (r: ClosureEventTranslator<T, F>) where
    F: Fn(&mut T, i64),

    requires
        forall|e: &mut T, s: i64| translator_fn.requires((e, s)),
    ensures
        r.translator() == translator_fn,
{
    ClosureEventTranslator::new(translator_fn)
}

/// A one-argument closure-backed translator.
pub fn event_translator_one_arg<T, A, F>(translator_fn: F) -> (r: ClosureEventTranslatorOneArg<
    T,
    A,
    F,
>) where F: Fn(&mut T, i64, A)
    requires
        forall|e: &mut T, s: i64, a: A| translator_fn.requires((e, s, a)),
    ensures
        r.translator() == translator_fn,
{
    ClosureEventTranslatorOneArg::new(translator_fn)
}

/// A two-argument closure-backed translator.
pub fn event_translator_two_arg<T, A, B, F>(translator_fn: F) -> (r:
    ClosureEventTranslatorTwoArg<T, A, B, F>) where F: Fn(&mut T, i64, A, B)
    requires
        forall|e: &mut T, s: i64, a: A, b: B| translator_fn.requires((e, s, a, b)),
    ensures
        r.translator() == translator_fn,
{
    ClosureEventTranslatorTwoArg::new(translator_fn)
}

} // verus!
