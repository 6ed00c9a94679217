//! Invocation strategies: four ways to drive a dispatch sequence.
//!
//! All four consume the sequence front to back, invoking each implementation
//! at most once with the same argument tuple. The `try_` variants stop at the
//! first failure and hand it back unchanged; the others run every
//! implementation unconditionally.

use vstd::prelude::*;

verus! {

use crate::Hook;
use crate::point::Dispatch;

/// Whether the callable can report success on the given arguments: some
/// output of the call is an `Ok` value.
pub open spec fn may_succeed<A, T, V, E>(hook: T, args: A) -> bool where
    T: Hook<A, Output = Result<V, E>>,
{
    exists|v: V| hook.post(args, Result::Ok(v))
}

/// Invokes every remaining implementation in order and collects every output.
pub fn invoke<'a, A: Copy, T: Hook<A>>(d: &mut Dispatch<'a, A, T>) -> (r: Vec<T::Output>)
    requires
        old(d).wf(),
    ensures
        final(d).wf(),
        final(d).source() == old(d).source(),
        final(d).args_view() == old(d).args_view(),
        final(d).remaining_hooks().len() == 0,
        r@.len() == old(d).remaining_hooks().len(),
        forall|k: int|
            0 <= k < r@.len() ==> old(d).remaining_hooks()[k].post(
                old(d).args_view(),
                #[trigger] r@[k],
            ),
{
    let mut r: Vec<T::Output> = Vec::new();
    while d.len() > 0
        invariant
            d.wf(),
            d.source() == old(d).source(),
            d.args_view() == old(d).args_view(),
            r@.len() + d.remaining_hooks().len() == old(d).remaining_hooks().len(),
            d.remaining_hooks() == old(d).remaining_hooks().skip(r@.len() as int),
            forall|k: int|
                0 <= k < r@.len() ==> old(d).remaining_hooks()[k].post(
                    old(d).args_view(),
                    #[trigger] r@[k],
                ),
        decreases d.remaining_hooks().len(),
    {
        let ghost n = r@.len() as int;
        let ghost r0 = r@;
        let out = d.next();
        match out {
            Some(o) => {
                assert(old(d).remaining_hooks()[n].post(old(d).args_view(), o)) by {
                    assert(old(d).remaining_hooks().skip(n)[0] == old(d).remaining_hooks()[n]);
                }
                r.push(o);
                assert(d.remaining_hooks() =~= old(d).remaining_hooks().skip(n + 1));
                assert forall|k: int| 0 <= k < r@.len() implies old(d).remaining_hooks()[k].post(
                    old(d).args_view(),
                    #[trigger] r@[k],
                ) by {
                    if k < n {
                        assert(r@[k] == r0[k]);
                    } else {
                        assert(r@[k] == o);
                    }
                }
            },
            None => {
                assert(false);
            },
        }
    }
    r
}

/// Invokes the remaining implementations in order, stopping at the first one
/// that reports a failure; that failure is returned unchanged, and no later
/// implementation runs. When every implementation succeeds, the full ordered
/// collection of success values is returned.
pub fn try_invoke<'a, A: Copy, T, V, E>(d: &mut Dispatch<'a, A, T>) -> (r: Result<Vec<V>, E>) where
    T: Hook<A, Output = Result<V, E>>,

    requires
        old(d).wf(),
    ensures
        final(d).wf(),
        final(d).source() == old(d).source(),
        final(d).args_view() == old(d).args_view(),
        r matches Ok(vs) ==> {
            &&& final(d).remaining_hooks().len() == 0
            &&& vs@.len() == old(d).remaining_hooks().len()
            &&& forall|k: int|
                0 <= k < vs@.len() ==> old(d).remaining_hooks()[k].post(
                    old(d).args_view(),
                    Result::Ok(#[trigger] vs@[k]),
                )
        },
        r matches Err(e) ==> {
            let done = old(d).remaining_hooks().len() - final(d).remaining_hooks().len();
            &&& 1 <= done <= old(d).remaining_hooks().len()
            &&& final(d).remaining_hooks() == old(d).remaining_hooks().skip(done)
            &&& old(d).remaining_hooks()[done - 1].post(old(d).args_view(), Result::Err(e))
            &&& forall|k: int|
                0 <= k < done - 1 ==> may_succeed(
                    #[trigger] old(d).remaining_hooks()[k],
                    old(d).args_view(),
                )
        },
{
    let mut vs: Vec<V> = Vec::new();
    while d.len() > 0
        invariant
            d.wf(),
            d.source() == old(d).source(),
            d.args_view() == old(d).args_view(),
            vs@.len() + d.remaining_hooks().len() == old(d).remaining_hooks().len(),
            d.remaining_hooks() == old(d).remaining_hooks().skip(vs@.len() as int),
            forall|k: int|
                0 <= k < vs@.len() ==> old(d).remaining_hooks()[k].post(
                    old(d).args_view(),
                    Result::Ok(#[trigger] vs@[k]),
                ),
        decreases d.remaining_hooks().len(),
    {
        let ghost n = vs@.len() as int;
        let ghost vs0 = vs@;
        let out = d.next();
        match out {
            Some(res) => {
                assert(old(d).remaining_hooks()[n].post(old(d).args_view(), res)) by {
                    assert(old(d).remaining_hooks().skip(n)[0] == old(d).remaining_hooks()[n]);
                }
                match res {
                    Ok(v) => {
                        vs.push(v);
                        assert(d.remaining_hooks() =~= old(d).remaining_hooks().skip(n + 1));
                        assert forall|k: int| 0 <= k < vs@.len() implies old(
                            d,
                        ).remaining_hooks()[k].post(
                            old(d).args_view(),
                            Result::Ok(#[trigger] vs@[k]),
                        ) by {
                            if k < n {
                                assert(vs@[k] == vs0[k]);
                            } else {
                                assert(vs@[k] == v);
                            }
                        }
                    },
                    Err(e) => {
                        assert(d.remaining_hooks() =~= old(d).remaining_hooks().skip(n + 1));
                        proof {
                            let done = old(d).remaining_hooks().len() - d.remaining_hooks().len();
                            assert(done == n + 1);
                            assert(old(d).remaining_hooks()[done - 1].post(
                                old(d).args_view(),
                                Result::Err(e),
                            ));
                        }
                        assert forall|k: int| 0 <= k < n implies may_succeed(
                            #[trigger] old(d).remaining_hooks()[k],
                            old(d).args_view(),
                        ) by {
                            assert(old(d).remaining_hooks()[k].post(
                                old(d).args_view(),
                                Result::Ok(vs@[k]),
                            ));
                        }
                        return Err(e);
                    },
                }
            },
            None => {
                assert(false);
            },
        }
    }
    Ok(vs)
}

/// What a full run of a dispatch sequence produced: one output per
/// implementation, position by position, each admitted by that
/// implementation's postcondition.
pub open spec fn all_outputs<A, T: Hook<A>>(hooks: Seq<T>, args: A, outs: Seq<T::Output>) -> bool {
    outs.len() == hooks.len() && forall|k: int|
        0 <= k < outs.len() ==> hooks[k].post(args, #[trigger] outs[k])
}

/// Invokes every remaining implementation in order for its effects alone,
/// discarding every output. The witness clause records that each
/// implementation ran exactly once and produced an output its postcondition
/// admits, even though none of the outputs is returned.
pub fn exec<'a, A: Copy, T: Hook<A>>(d: &mut Dispatch<'a, A, T>)
    requires
        old(d).wf(),
    ensures
        final(d).wf(),
        final(d).source() == old(d).source(),
        final(d).args_view() == old(d).args_view(),
        final(d).remaining_hooks().len() == 0,
        exists|outs: Seq<T::Output>|
            #[trigger] all_outputs(old(d).remaining_hooks(), old(d).args_view(), outs),
{
    let ghost mut outs: Seq<T::Output> = Seq::empty();
    while d.len() > 0
        invariant
            d.wf(),
            d.source() == old(d).source(),
            d.args_view() == old(d).args_view(),
            outs.len() + d.remaining_hooks().len() == old(d).remaining_hooks().len(),
            d.remaining_hooks() == old(d).remaining_hooks().skip(outs.len() as int),
            forall|k: int|
                0 <= k < outs.len() ==> old(d).remaining_hooks()[k].post(
                    old(d).args_view(),
                    #[trigger] outs[k],
                ),
        decreases d.remaining_hooks().len(),
    {
        let ghost n = outs.len() as int;
        let ghost outs0 = outs;
        let out = d.next();
        match out {
            Some(o) => {
                assert(old(d).remaining_hooks()[n].post(old(d).args_view(), o)) by {
                    assert(old(d).remaining_hooks().skip(n)[0] == old(d).remaining_hooks()[n]);
                }
                proof {
                    outs = outs.push(o);
                }
                assert(d.remaining_hooks() =~= old(d).remaining_hooks().skip(n + 1));
                assert forall|k: int| 0 <= k < outs.len() implies old(d).remaining_hooks()[k].post(
                    old(d).args_view(),
                    #[trigger] outs[k],
                ) by {
                    if k < n {
                        assert(outs[k] == outs0[k]);
                    } else {
                        assert(outs[k] == o);
                    }
                }
            },
            None => {
                assert(false);
            },
        }
    }
    assert(all_outputs(old(d).remaining_hooks(), old(d).args_view(), outs));
}

/// Invokes the remaining implementations in order for their effects, stopping
/// at the first one that reports a failure and returning that failure
/// unchanged; effects of the implementations already run are not undone.
pub fn try_exec<'a, A: Copy, T, V, E>(d: &mut Dispatch<'a, A, T>) -> (r: Result<(), E>) where
    T: Hook<A, Output = Result<V, E>>,

    requires
        old(d).wf(),
    ensures
        final(d).wf(),
        final(d).source() == old(d).source(),
        final(d).args_view() == old(d).args_view(),
        r is Ok ==> {
            &&& final(d).remaining_hooks().len() == 0
            &&& forall|k: int|
                0 <= k < old(d).remaining_hooks().len() ==> may_succeed(
                    #[trigger] old(d).remaining_hooks()[k],
                    old(d).args_view(),
                )
        },
        r matches Err(e) ==> {
            let done = old(d).remaining_hooks().len() - final(d).remaining_hooks().len();
            &&& 1 <= done <= old(d).remaining_hooks().len()
            &&& final(d).remaining_hooks() == old(d).remaining_hooks().skip(done)
            &&& old(d).remaining_hooks()[done - 1].post(old(d).args_view(), Result::Err(e))
            &&& forall|k: int|
                0 <= k < done - 1 ==> may_succeed(
                    #[trigger] old(d).remaining_hooks()[k],
                    old(d).args_view(),
                )
        },
{
    let ghost mut outs: Seq<V> = Seq::empty();
    while d.len() > 0
        invariant
            d.wf(),
            d.source() == old(d).source(),
            d.args_view() == old(d).args_view(),
            outs.len() + d.remaining_hooks().len() == old(d).remaining_hooks().len(),
            d.remaining_hooks() == old(d).remaining_hooks().skip(outs.len() as int),
            forall|k: int|
                0 <= k < outs.len() ==> old(d).remaining_hooks()[k].post(
                    old(d).args_view(),
                    Result::Ok(#[trigger] outs[k]),
                ),
        decreases d.remaining_hooks().len(),
    {
        let ghost n = outs.len() as int;
        let ghost outs0 = outs;
        let out = d.next();
        match out {
            Some(res) => {
                assert(old(d).remaining_hooks()[n].post(old(d).args_view(), res)) by {
                    assert(old(d).remaining_hooks().skip(n)[0] == old(d).remaining_hooks()[n]);
                }
                match res {
                    Ok(v) => {
                        proof {
                            outs = outs.push(v);
                        }
                        assert(d.remaining_hooks() =~= old(d).remaining_hooks().skip(n + 1));
                        assert forall|k: int| 0 <= k < outs.len() implies old(
                            d,
                        ).remaining_hooks()[k].post(
                            old(d).args_view(),
                            Result::Ok(#[trigger] outs[k]),
                        ) by {
                            if k < n {
                                assert(outs[k] == outs0[k]);
                            } else {
                                assert(outs[k] == v);
                            }
                        }
                    },
                    Err(e) => {
                        assert(d.remaining_hooks() =~= old(d).remaining_hooks().skip(n + 1));
                        proof {
                            let done = old(d).remaining_hooks().len() - d.remaining_hooks().len();
                            assert(done == n + 1);
                            assert(old(d).remaining_hooks()[done - 1].post(
                                old(d).args_view(),
                                Result::Err(e),
                            ));
                        }
                        assert forall|k: int| 0 <= k < n implies may_succeed(
                            #[trigger] old(d).remaining_hooks()[k],
                            old(d).args_view(),
                        ) by {
                            assert(old(d).remaining_hooks()[k].post(
                                old(d).args_view(),
                                Result::Ok(outs[k]),
                            ));
                        }
                        return Err(e);
                    },
                }
            },
            None => {
                assert(false);
            },
        }
    }
    assert forall|k: int| 0 <= k < old(d).remaining_hooks().len() implies may_succeed(
        #[trigger] old(d).remaining_hooks()[k],
        old(d).args_view(),
    ) by {
        assert(old(d).remaining_hooks()[k].post(old(d).args_view(), Result::Ok(outs[k])));
    }
    Ok(())
}

} // verus!
