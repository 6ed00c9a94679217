//! An in-process extension-point dispatch library.
//!
//! Independently written components register callable implementations under a
//! shared key; call sites then invoke every registered implementation without
//! knowing at compile time how many exist. Implementations carry a signed
//! weight (lower runs earlier) and a default flag (defaults participate only
//! when no non-default implementation is registered).

use vstd::prelude::*;

pub mod error;
pub mod hook;
pub mod order;
pub mod point;
pub mod registry;
pub mod value;

pub use crate::error::Error;
pub use crate::registry::Registry;

verus! {

/// One callable implementation of an extension point.
///
/// The two spec functions describe the callable: `pre` says with which
/// arguments it may be invoked, and `post` relates arguments to the outputs
/// the call may produce. Any closure or function item of a matching arity
/// implements the trait through the impls below.
pub trait Hook<A> {
    type Output;

    /// When the callable may be invoked.
    spec fn pre(&self, args: A) -> bool;

    /// Which outputs the callable may produce for the given arguments.
    spec fn post(&self, args: A, out: Self::Output) -> bool;

    fn invoke(&self, args: A) -> (out: Self::Output)
        requires
            self.pre(args),
        ensures
            self.post(args, out),
    ;
}

impl<O, F: Fn() -> O> Hook<()> for F {
    type Output = O;

    open spec fn pre(&self, args: ()) -> bool {
        call_requires(*self, args)
    }

    open spec fn post(&self, args: (), out: O) -> bool {
        call_ensures(*self, args, out)
    }

    fn invoke(&self, args: ()) -> (out: O) {
        (self)()
    }
}

impl<T0, O, F: Fn(T0) -> O> Hook<(T0,)> for F {
    type Output = O;

    open spec fn pre(&self, args: (T0,)) -> bool {
        call_requires(*self, args)
    }

    open spec fn post(&self, args: (T0,), out: O) -> bool {
        call_ensures(*self, args, out)
    }

    fn invoke(&self, args: (T0,)) -> (out: O) {
        let (a0,) = args;
        (self)(a0)
    }
}

impl<T0, T1, O, F: Fn(T0, T1) -> O> Hook<(T0, T1)> for F {
    type Output = O;

    open spec fn pre(&self, args: (T0, T1)) -> bool {
        call_requires(*self, args)
    }

    open spec fn post(&self, args: (T0, T1), out: O) -> bool {
        call_ensures(*self, args, out)
    }

    fn invoke(&self, args: (T0, T1)) -> (out: O) {
        let (a0, a1) = args;
        (self)(a0, a1)
    }
}

impl<T0, T1, T2, O, F: Fn(T0, T1, T2) -> O> Hook<(T0, T1, T2)> for F {
    type Output = O;

    open spec fn pre(&self, args: (T0, T1, T2)) -> bool {
        call_requires(*self, args)
    }

    open spec fn post(&self, args: (T0, T1, T2), out: O) -> bool {
        call_ensures(*self, args, out)
    }

    fn invoke(&self, args: (T0, T1, T2)) -> (out: O) {
        let (a0, a1, a2) = args;
        (self)(a0, a1, a2)
    }
}

impl<T0, T1, T2, T3, O, F: Fn(T0, T1, T2, T3) -> O> Hook<(T0, T1, T2, T3)> for F {
    type Output = O;

    open spec fn pre(&self, args: (T0, T1, T2, T3)) -> bool {
        call_requires(*self, args)
    }

    open spec fn post(&self, args: (T0, T1, T2, T3), out: O) -> bool {
        call_ensures(*self, args, out)
    }

    fn invoke(&self, args: (T0, T1, T2, T3)) -> (out: O) {
        let (a0, a1, a2, a3) = args;
        (self)(a0, a1, a2, a3)
    }
}

impl<T0, T1, T2, T3, T4, O, F: Fn(T0, T1, T2, T3, T4) -> O> Hook<(T0, T1, T2, T3, T4)> for F {
    type Output = O;

    open spec fn pre(&self, args: (T0, T1, T2, T3, T4)) -> bool {
        call_requires(*self, args)
    }

    open spec fn post(&self, args: (T0, T1, T2, T3, T4), out: O) -> bool {
        call_ensures(*self, args, out)
    }

    fn invoke(&self, args: (T0, T1, T2, T3, T4)) -> (out: O) {
        let (a0, a1, a2, a3, a4) = args;
        (self)(a0, a1, a2, a3, a4)
    }
}

impl<T0, T1, T2, T3, T4, T5, O, F: Fn(T0, T1, T2, T3, T4, T5) -> O> Hook<(T0, T1, T2, T3, T4, T5)> for F {
    type Output = O;

    open spec fn pre(&self, args: (T0, T1, T2, T3, T4, T5)) -> bool {
        call_requires(*self, args)
    }

    open spec fn post(&self, args: (T0, T1, T2, T3, T4, T5), out: O) -> bool {
        call_ensures(*self, args, out)
    }

    fn invoke(&self, args: (T0, T1, T2, T3, T4, T5)) -> (out: O) {
        let (a0, a1, a2, a3, a4, a5) = args;
        (self)(a0, a1, a2, a3, a4, a5)
    }
}

impl<T0, T1, T2, T3, T4, T5, T6, O, F: Fn(T0, T1, T2, T3, T4, T5, T6) -> O> Hook<(T0, T1, T2, T3, T4, T5, T6)> for F {
    type Output = O;

    open spec fn pre(&self, args: (T0, T1, T2, T3, T4, T5, T6)) -> bool {
        call_requires(*self, args)
    }

    open spec fn post(&self, args: (T0, T1, T2, T3, T4, T5, T6), out: O) -> bool {
        call_ensures(*self, args, out)
    }

    fn invoke(&self, args: (T0, T1, T2, T3, T4, T5, T6)) -> (out: O) {
        let (a0, a1, a2, a3, a4, a5, a6) = args;
        (self)(a0, a1, a2, a3, a4, a5, a6)
    }
}

impl<T0, T1, T2, T3, T4, T5, T6, T7, O, F: Fn(T0, T1, T2, T3, T4, T5, T6, T7) -> O> Hook<(T0, T1, T2, T3, T4, T5, T6, T7)> for F {
    type Output = O;

    open spec fn pre(&self, args: (T0, T1, T2, T3, T4, T5, T6, T7)) -> bool {
        call_requires(*self, args)
    }

    open spec fn post(&self, args: (T0, T1, T2, T3, T4, T5, T6, T7), out: O) -> bool {
        call_ensures(*self, args, out)
    }

    fn invoke(&self, args: (T0, T1, T2, T3, T4, T5, T6, T7)) -> (out: O) {
        let (a0, a1, a2, a3, a4, a5, a6, a7) = args;
        (self)(a0, a1, a2, a3, a4, a5, a6, a7)
    }
}

impl<T0, T1, T2, T3, T4, T5, T6, T7, T8, O, F: Fn(T0, T1, T2, T3, T4, T5, T6, T7, T8) -> O> Hook<(T0, T1, T2, T3, T4, T5, T6, T7, T8)> for F {
    type Output = O;

    open spec fn pre(&self, args: (T0, T1, T2, T3, T4, T5, T6, T7, T8)) -> bool {
        call_requires(*self, args)
    }

    open spec fn post(&self, args: (T0, T1, T2, T3, T4, T5, T6, T7, T8), out: O) -> bool {
        call_ensures(*self, args, out)
    }

    fn invoke(&self, args: (T0, T1, T2, T3, T4, T5, T6, T7, T8)) -> (out: O) {
        let (a0, a1, a2, a3, a4, a5, a6, a7, a8) = args;
        (self)(a0, a1, a2, a3, a4, a5, a6, a7, a8)
    }
}

impl<T0, T1, T2, T3, T4, T5, T6, T7, T8, T9, O, F: Fn(T0, T1, T2, T3, T4, T5, T6, T7, T8, T9) -> O> Hook<(T0, T1, T2, T3, T4, T5, T6, T7, T8, T9)> for F {
    type Output = O;

    open spec fn pre(&self, args: (T0, T1, T2, T3, T4, T5, T6, T7, T8, T9)) -> bool {
        call_requires(*self, args)
    }

    open spec fn post(&self, args: (T0, T1, T2, T3, T4, T5, T6, T7, T8, T9), out: O) -> bool {
        call_ensures(*self, args, out)
    }

    fn invoke(&self, args: (T0, T1, T2, T3, T4, T5, T6, T7, T8, T9)) -> (out: O) {
        let (a0, a1, a2, a3, a4, a5, a6, a7, a8, a9) = args;
        (self)(a0, a1, a2, a3, a4, a5, a6, a7, a8, a9)
    }
}

impl<T0, T1, T2, T3, T4, T5, T6, T7, T8, T9, T10, O, F: Fn(T0, T1, T2, T3, T4, T5, T6, T7, T8, T9, T10) -> O> Hook<(T0, T1, T2, T3, T4, T5, T6, T7, T8, T9, T10)> for F {
    type Output = O;

    open spec fn pre(&self, args: (T0, T1, T2, T3, T4, T5, T6, T7, T8, T9, T10)) -> bool {
        call_requires(*self, args)
    }

    open spec fn post(&self, args: (T0, T1, T2, T3, T4, T5, T6, T7, T8, T9, T10), out: O) -> bool {
        call_ensures(*self, args, out)
    }

    fn invoke(&self, args: (T0, T1, T2, T3, T4, T5, T6, T7, T8, T9, T10)) -> (out: O) {
        let (a0, a1, a2, a3, a4, a5, a6, a7, a8, a9, a10) = args;
        (self)(a0, a1, a2, a3, a4, a5, a6, a7, a8, a9, a10)
    }
}

impl<T0, T1, T2, T3, T4, T5, T6, T7, T8, T9, T10, T11, O, F: Fn(T0, T1, T2, T3, T4, T5, T6, T7, T8, T9, T10, T11) -> O> Hook<(T0, T1, T2, T3, T4, T5, T6, T7, T8, T9, T10, T11)> for F {
    type Output = O;

    open spec fn pre(&self, args: (T0, T1, T2, T3, T4, T5, T6, T7, T8, T9, T10, T11)) -> bool {
        call_requires(*self, args)
    }

    open spec fn post(&self, args: (T0, T1, T2, T3, T4, T5, T6, T7, T8, T9, T10, T11), out: O) -> bool {
        call_ensures(*self, args, out)
    }

    fn invoke(&self, args: (T0, T1, T2, T3, T4, T5, T6, T7, T8, T9, T10, T11)) -> (out: O) {
        let (a0, a1, a2, a3, a4, a5, a6, a7, a8, a9, a10, a11) = args;
        (self)(a0, a1, a2, a3, a4, a5, a6, a7, a8, a9, a10, a11)
    }
}

/// Invokes one callable directly with the given argument tuple.
pub fn invoke<A, T: Hook<A>>(hook: T, args: A) -> (out: T::Output)
    requires
        hook.pre(args),
    ensures
        hook.post(args, out),
{
    hook.invoke(args)
}

/// Resolves `name` and the requested shapes against the table and invokes
/// every matching implementation in registration order, collecting the
/// outputs. A key that was never registered is an error, never an empty
/// success.
pub fn invoke_all<T: Hook<(Vec<value::Value>,), Output = value::Value>>(
    registry: &Registry<T>,
    name: &str,
    args: &Vec<value::Value>,
    ret: value::Kind,
) -> (r: Result<Vec<value::Value>, Error>)
    requires
        registry.wf(),
    ensures
        r is Ok <==> registry.has_key(name@, value::kinds_of(args@), ret),
        r matches Ok(vs) ==> vs@.len() > 0,
        r matches Ok(vs) ==> exists|i: int|
            0 <= i < registry.slots@.len() && registry::key_is(
                (#[trigger] registry.slots@[i]).key,
                name@,
                value::kinds_of(args@),
                ret,
            ) && registry::entry_outputs(registry.slots@[i].entry@, args@, ret, vs@),
        r matches Err(Error::Message(m)) ==> m@ == "No matching hooks found for "@ + name@,
{
    registry.invoke_all(name, args, ret)
}

} // verus!
