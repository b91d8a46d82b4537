//! ParDo: the transform that applies a DoFn to each element.

use core::marker::PhantomData;
use vstd::prelude::*;
use vstd::utf8::encode_utf8;

use crate::internals::serialize::{object_name, store_do_fn, ObjectRegistry};
use crate::proto::{FunctionSpec, FunctionSpecView};
use crate::urns::PAR_DO_URN;

verus! {

/// A function applied to each element of a PCollection; each element gives zero or
/// more output elements.
pub trait DoFn {
    type In;
    type Out;

    /// The elements that `process` can be called on.
    spec fn process_allowed(&self, elem: &Self::In) -> bool;

    /// The output elements of one input element.
    fn process(&self, elem: &Self::In) -> Vec<Self::Out>
        requires
            self.process_allowed(elem),
    ;

    /// Called before the elements of a bundle are processed.
    fn start_bundle(&self) {
    }

    /// Called after the elements of a bundle have been processed.
    fn finish_bundle(&self) {
    }
}

/// The DoFn of a function from an element to its outputs.
pub struct DoFnFromFlatMap<In, Out, F> {
    pub func: F,
    pub phantom: PhantomData<(In, Out)>,
}

impl<In, Out, F: Fn(&In) -> Vec<Out>> DoFn for DoFnFromFlatMap<In, Out, F> {
    type In = In;
    type Out = Out;

    open spec fn process_allowed(&self, elem: &In) -> bool {
        call_requires(self.func, (elem,))
    }

    /// The outputs that the function gives for `elem`.
    fn process(&self, elem: &In) -> (r: Vec<Out>)
        ensures
            call_ensures(self.func, (elem,), r),
    {
        (self.func)(elem)
    }
}

/// The DoFn of a function from an element to its one output.
pub struct DoFnFromMap<In, Out, F> {
    pub func: F,
    pub phantom: PhantomData<(In, Out)>,
}

impl<In, Out, F: Fn(&In) -> Out> DoFn for DoFnFromMap<In, Out, F> {
    type In = In;
    type Out = Out;

    open spec fn process_allowed(&self, elem: &In) -> bool {
        call_requires(self.func, (elem,))
    }

    /// The one output that the function gives for `elem`.
    fn process(&self, elem: &In) -> (r: Vec<Out>)
        ensures
            r@.len() == 1,
            call_ensures(self.func, (elem,), r@[0]),
    {
        let out = (self.func)(elem);
        let mut r = Vec::new();
        r.push(out);
        r
    }
}

/// A transform that applies a DoFn to each element; the DoFn is known by the name it
/// is stored under.
#[derive(Debug)]
pub struct ParDo {
    payload: String,
}

impl ParDo {
    pub closed spec fn spec_payload(&self) -> Seq<char> {
        self.payload@
    }

    /// A ParDo of `do_fn`, which is stored in `do_fns`.
    pub fn of<T>(do_fns: &mut ObjectRegistry<T>, do_fn: T) -> (r: Self)
        ensures
            r.spec_payload() == object_name(old(do_fns).spec_len()),
            !old(do_fns).spec_map().contains_key(r.spec_payload()),
            final(do_fns).spec_map() == old(do_fns).spec_map().insert(r.spec_payload(), do_fn),
            final(do_fns).spec_len() == old(do_fns).spec_len() + 1,
    {
        ParDo { payload: store_do_fn(do_fns, do_fn) }
    }

    /// A ParDo of the DoFn that gives `func(x)`'s elements for each element `x`.
    pub fn from_flat_map<In, Out, F: Fn(&In) -> Vec<Out>>(
        do_fns: &mut ObjectRegistry<DoFnFromFlatMap<In, Out, F>>,
        func: F,
    ) -> (r: Self)
        ensures
            r.spec_payload() == object_name(old(do_fns).spec_len()),
            !old(do_fns).spec_map().contains_key(r.spec_payload()),
            final(do_fns).spec_map() == old(do_fns).spec_map().insert(
                r.spec_payload(),
                final(do_fns).spec_map()[r.spec_payload()],
            ),
            final(do_fns).spec_map()[r.spec_payload()].func == func,
            final(do_fns).spec_len() == old(do_fns).spec_len() + 1,
    {
        Self::of(do_fns, DoFnFromFlatMap { func, phantom: PhantomData })
    }

    /// A ParDo of the DoFn that gives `func(x)` for each element `x`.
    pub fn from_map<In, Out, F: Fn(&In) -> Out>(
        do_fns: &mut ObjectRegistry<DoFnFromMap<In, Out, F>>,
        func: F,
    ) -> (r: Self)
        ensures
            r.spec_payload() == object_name(old(do_fns).spec_len()),
            !old(do_fns).spec_map().contains_key(r.spec_payload()),
            final(do_fns).spec_map() == old(do_fns).spec_map().insert(
                r.spec_payload(),
                final(do_fns).spec_map()[r.spec_payload()],
            ),
            final(do_fns).spec_map()[r.spec_payload()].func == func,
            final(do_fns).spec_len() == old(do_fns).spec_len() + 1,
    {
        Self::of(do_fns, DoFnFromMap { func, phantom: PhantomData })
    }

    /// The spec of the transform: the ParDo URN, with the DoFn's name as payload.
    pub fn expand_spec(&self) -> (r: FunctionSpec)
        ensures
            r.view() == (FunctionSpecView { urn: PAR_DO_URN@, payload: encode_utf8(self.spec_payload()) }),
    {
        FunctionSpec { urn: String::from_str(PAR_DO_URN), payload: self.payload.as_str().as_bytes_vec() }
    }
}

} // verus!
