//! The conditional render gate: a subtree is built only while its
//! breakpoint predicate holds. While it does not, nothing is built and
//! nothing that the subtree owns is touched, so its retained state is there
//! again when the predicate next holds.

use crate::app_theme::Breakpoint;
use crate::breakpoint::{first_named, BreakpointTable};
use crate::registry::UnknownAliasError;
use crate::store::initialized;
use vstd::prelude::*;

verus! {

/// A condition on the index of the current breakpoint.
#[derive(Clone, Copy, Debug, PartialEq, Eq)]
pub enum Predicate {
    /// The breakpoint with this index and every wider one.
    AtAndAbove(usize),
    /// Every breakpoint narrower than the one with this index.
    Below(usize),
    /// The breakpoint with this index and every narrower one.
    AtAndBelow(usize),
    /// The breakpoint with this index alone.
    Only(usize),
    /// Every breakpoint but the one with this index.
    Except(usize),
}

impl Predicate {
    /// Whether the predicate holds at breakpoint `index`.
    pub open spec fn holds(self, index: usize) -> bool {
        match self {
            Predicate::AtAndAbove(at) => index >= at,
            Predicate::Below(at) => index < at,
            Predicate::AtAndBelow(at) => index <= at,
            Predicate::Only(at) => index == at,
            Predicate::Except(at) => index != at,
        }
    }

    /// Whether the predicate holds at breakpoint `index`.
    pub fn eval(&self, index: usize) -> (r: bool)
        ensures
            r == self.holds(index),
    {
        match *self {
            Predicate::AtAndAbove(at) => index >= at,
            Predicate::Below(at) => index < at,
            Predicate::AtAndBelow(at) => index <= at,
            Predicate::Only(at) => index == at,
            Predicate::Except(at) => index != at,
        }
    }
}

/// What a render pass leaves behind of a context: what the builder made of
/// it where the subtree was shown, and the context as it was where not.
pub open spec fn gated<C>(shown: bool, before: C, built: C) -> C {
    if shown {
        built
    } else {
        before
    }
}

/// Builds the subtree if `predicate` holds at breakpoint `index`. The
/// builder works on `context`, which is where the subtree keeps its state.
/// If the predicate does not hold, the builder is not called, there is no
/// output, and the context is left exactly as it was.
pub fn render_if<C, R, F: FnOnce(&mut C) -> R>(
    predicate: Predicate,
    index: usize,
    context: &mut C,
    builder: F,
) -> (r: Option<R>)
    requires
        predicate.holds(index) ==> forall|c: &mut C|
            *c == *old(context) ==> #[trigger] builder.requires((c,)),
    ensures
        r is Some <==> predicate.holds(index),
        *final(context) == gated(predicate.holds(index), *old(context), *final(context)),
        predicate.holds(index) ==> exists|c: &mut C|
            *c == *old(context) && *final(c) == *final(context) && #[trigger] builder.ensures(
                (c,),
                r->0,
            ),
{
    if predicate.eval(index) {
        let out = builder(&mut *context);
        let r = Some(out);
        assert(r->0 == out);
        assert(exists|c: &mut C|
            *c == *old(context) && *final(c) == *context && #[trigger] builder.ensures(
                (c,),
                r->0,
            ));
        assert(*context == *final(context));
        r
    } else {
        None
    }
}

/// Builds the subtree at the breakpoint called `name` and at every wider
/// one. A name that the table lacks is an error, and nothing is built.
pub fn only_and_above<C, R, F: FnOnce(&mut C) -> R>(
    table: &BreakpointTable,
    name: Breakpoint,
    index: usize,
    context: &mut C,
    builder: F,
) -> (r: Result<Option<R>, UnknownAliasError>)
    requires
        first_named(table@, name) matches Some(at) ==> (index >= at ==> forall|c: &mut C|
            *c == *old(context) ==> #[trigger] builder.requires((c,))),
    ensures
        first_named(table@, name) is None ==> *final(context) == *old(context) && r == Err::<
            Option<R>,
            UnknownAliasError,
        >(UnknownAliasError::Breakpoint(name)),
        first_named(table@, name) matches Some(at) ==> {
            &&& r matches Ok(out)
            &&& out is Some <==> index >= at
            &&& index < at ==> *final(context) == *old(context)
            &&& index >= at ==> exists|c: &mut C|
                *c == *old(context) && *final(c) == *final(context) && #[trigger] builder.ensures(
                    (c,),
                    out->0,
                )
        },
{
    match table.index_of(name) {
        None => Err(UnknownAliasError::Breakpoint(name)),
        Some(at) => Ok(render_if(Predicate::AtAndAbove(at), index, context, builder)),
    }
}

/// Builds the subtree at every breakpoint narrower than the one called
/// `name`. A name that the table lacks is an error, and nothing is built.
pub fn only_below<C, R, F: FnOnce(&mut C) -> R>(
    table: &BreakpointTable,
    name: Breakpoint,
    index: usize,
    context: &mut C,
    builder: F,
) -> (r: Result<Option<R>, UnknownAliasError>)
    requires
        first_named(table@, name) matches Some(at) ==> (index < at ==> forall|c: &mut C|
            *c == *old(context) ==> #[trigger] builder.requires((c,))),
    ensures
        first_named(table@, name) is None ==> *final(context) == *old(context) && r == Err::<
            Option<R>,
            UnknownAliasError,
        >(UnknownAliasError::Breakpoint(name)),
        first_named(table@, name) matches Some(at) ==> {
            &&& r matches Ok(out)
            &&& out is Some <==> index < at
            &&& index >= at ==> *final(context) == *old(context)
            &&& index < at ==> exists|c: &mut C|
                *c == *old(context) && *final(c) == *final(context) && #[trigger] builder.ensures(
                    (c,),
                    out->0,
                )
        },
{
    match table.index_of(name) {
        None => Err(UnknownAliasError::Breakpoint(name)),
        Some(at) => Ok(render_if(Predicate::Below(at), index, context, builder)),
    }
}

/// State survives a hide and show cycle: a pass in which the subtree is
/// hidden leaves the state as it was, so when the subtree is shown again and
/// asks for the state of a node that had some, it finds exactly that state,
/// and its initializer goes unused.
pub proof fn lemma_state_survives_hiding<T>(
    state: Map<Seq<u32>, T>,
    built_while_hidden: Map<Seq<u32>, T>,
    key: Seq<u32>,
    fresh: T,
)
    requires
        state.contains_key(key),
    ensures
        gated(false, state, built_while_hidden) == state,
        initialized(gated(false, state, built_while_hidden), key, fresh) == state,
        initialized(gated(false, state, built_while_hidden), key, fresh)[key] == state[key],
{
}

} // verus!
