//! What a view is configured with, and how a view replaces its state.

use vstd::prelude::*;
use vstd::std_specs::cmp::PartialEqSpec;

verus! {

/// The configuration that is handed to every view: the base address of
/// the service, scheme and authority, without a trailing slash.
#[derive(Debug, PartialEq, Eq)]
pub struct Context {
    pub host: String,
}

impl Clone for Context {
    fn clone(&self) -> (res: Self)
        ensures
            res == *self,
    {
        Context { host: self.host.clone() }
    }
}

/// The base address that `context` holds.
pub fn host(context: &Context) -> (res: String)
    ensures
        res == context.host,
{
    context.host.clone()
}

/// Puts `new_state` in the place of `state` where the two differ, and
/// says whether it did.
pub fn state_changed<T: PartialEq>(state: &mut T, new_state: T) -> (changed: bool)
    ensures
        T::obeys_eq_spec() ==> changed == !(*old(state)).eq_spec(&new_state),
        *final(state) == if changed {
            new_state
        } else {
            *old(state)
        },
{
    if *state != new_state {
        *state = new_state;
        return true;
    }
    false
}

} // verus!
