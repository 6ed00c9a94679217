//! Declared extension points and their dispatch sequences.
//!
//! A [`HookPoint`] is one call site with a single compile-time signature;
//! implementations registered to it differ only by weight and default status.
//! [`HookPoint::with`] materialises the dispatch order and returns a
//! [`Dispatch`]: a finite, single-pass sequence that invokes one
//! implementation per step and can be traversed from either end.

use vstd::prelude::*;

verus! {

use crate::Hook;
use crate::order::{
    Weighted, dispatch_order, idx_seq, is_dispatch_order, participates, the_dispatch_order,
    lemma_dispatch_order_unique,
};

/// A declared extension point: the ordered-by-insertion list of every
/// implementation registered to one call site.
pub struct HookPoint<T> {
    pub items: Vec<Weighted<T>>,
}

impl<T> View for HookPoint<T> {
    type V = Seq<Weighted<T>>;

    open spec fn view(&self) -> Seq<Weighted<T>> {
        self.items@
    }
}

/// A dispatch in progress: the participating implementations of one call, in
/// dispatch order, together with the argument tuple that each of them
/// receives. The sequence is fully materialised up front, so its length is
/// known before the first implementation runs, and is consumed one
/// implementation per step from either end.
pub struct Dispatch<'a, A, T> {
    pub items: &'a Vec<Weighted<T>>,
    pub order: Vec<usize>,
    pub args: A,
    pub front: usize,
    pub back: usize,
}

impl<'a, A: Copy, T: Hook<A>> Dispatch<'a, A, T> {
    /// The full implementation list this dispatch draws from.
    pub open spec fn source(self) -> Seq<Weighted<T>> {
        self.items@
    }

    /// The argument tuple handed to every implementation.
    pub open spec fn args_view(self) -> A {
        self.args
    }

    /// The registration indices of the implementations not yet invoked.
    pub open spec fn remaining_idxs(self) -> Seq<int> {
        idx_seq(self.order@).subrange(self.front as int, self.back as int)
    }

    /// The implementations not yet invoked, in dispatch order.
    pub open spec fn remaining_hooks(self) -> Seq<T> {
        Seq::new(
            self.remaining_idxs().len(),
            |k: int| self.source()[self.remaining_idxs()[k]].hook,
        )
    }

    /// Well-formedness: the stored indices are the dispatch order of the
    /// source list, the cursor pair is in range, and every listed
    /// implementation accepts the stored arguments.
    pub open spec fn wf(self) -> bool {
        &&& is_dispatch_order(self.source(), idx_seq(self.order@))
        &&& self.front <= self.back <= self.order@.len()
        &&& forall|k: int|
            0 <= k < self.order@.len() ==> self.source()[#[trigger] idx_seq(self.order@)[k]].hook.pre(
                self.args,
            )
    }

    /// How many implementations have not yet been invoked.
    pub fn len(&self) -> (n: usize)
        requires
            self.wf(),
        ensures
            n == self.remaining_hooks().len(),
    {
        self.back - self.front
    }

    /// Invokes the earliest implementation not yet invoked and hands back its
    /// output, or returns `None` when the sequence is exhausted.
    pub fn next(&mut self) -> (out: Option<T::Output>)
        requires
            old(self).wf(),
        ensures
            final(self).wf(),
            final(self).source() == old(self).source(),
            final(self).args_view() == old(self).args_view(),
            old(self).remaining_hooks().len() == 0 ==> out is None && final(self).remaining_hooks()
                == old(self).remaining_hooks(),
            old(self).remaining_hooks().len() > 0 ==> {
                &&& final(self).remaining_hooks() == old(self).remaining_hooks().skip(1)
                &&& out matches Some(o) && old(self).remaining_hooks()[0].post(
                    old(self).args_view(),
                    o,
                )
            },
    {
        if self.front < self.back {
            let idx = self.order[self.front];
            assert(participates(self.source(), idx_seq(self.order@)[self.front as int]));
            assert(self.items@[idx as int].hook.pre(self.args)) by {
                assert(self.source()[idx_seq(self.order@)[self.front as int]].hook.pre(self.args));
            }
            assert(old(self).remaining_hooks()[0] == self.items@[idx as int].hook) by {
                assert(old(self).remaining_idxs()[0] == idx_seq(self.order@)[self.front as int]);
            }
            let out = self.items[idx].hook.invoke(self.args);
            self.front = self.front + 1;
            assert(self.remaining_hooks() =~= old(self).remaining_hooks().skip(1)) by {
                assert(self.remaining_idxs() =~= old(self).remaining_idxs().skip(1));
            }
            Some(out)
        } else {
            assert(self.remaining_hooks().len() == 0);
            None
        }
    }

    /// Invokes the latest implementation not yet invoked and hands back its
    /// output, or returns `None` when the sequence is exhausted.
    pub fn next_back(&mut self) -> (out: Option<T::Output>)
        requires
            old(self).wf(),
        ensures
            final(self).wf(),
            final(self).source() == old(self).source(),
            final(self).args_view() == old(self).args_view(),
            old(self).remaining_hooks().len() == 0 ==> out is None && final(self).remaining_hooks()
                == old(self).remaining_hooks(),
            old(self).remaining_hooks().len() > 0 ==> {
                &&& final(self).remaining_hooks() == old(self).remaining_hooks().drop_last()
                &&& out matches Some(o) && old(self).remaining_hooks().last().post(
                    old(self).args_view(),
                    o,
                )
            },
    {
        if self.front < self.back {
            let idx = self.order[self.back - 1];
            assert(participates(self.source(), idx_seq(self.order@)[self.back - 1]));
            assert(self.items@[idx as int].hook.pre(self.args)) by {
                assert(self.source()[idx_seq(self.order@)[self.back - 1]].hook.pre(self.args));
            }
            assert(old(self).remaining_hooks().last() == self.items@[idx as int].hook) by {
                assert(old(self).remaining_idxs().last() == idx_seq(self.order@)[self.back - 1]);
            }
            let out = self.items[idx].hook.invoke(self.args);
            self.back = self.back - 1;
            assert(self.remaining_hooks() =~= old(self).remaining_hooks().drop_last()) by {
                assert(self.remaining_idxs() =~= old(self).remaining_idxs().drop_last());
            }
            Some(out)
        } else {
            assert(self.remaining_hooks().len() == 0);
            None
        }
    }
}

impl<T> HookPoint<T> {
    /// Creates an extension point with no registered implementations.
    pub fn new() -> (p: Self)
        ensures
            p@ == Seq::<Weighted<T>>::empty(),
    {
        HookPoint { items: Vec::new() }
    }

    /// Registers one implementation. Registration only ever appends: nothing
    /// is overwritten or dropped.
    pub fn insert(&mut self, hook: T, weight: i32, is_default: bool)
        ensures
            final(self)@ == old(self)@.push((Weighted { hook, weight, is_default })),
    {
        self.items.push(Weighted { hook, weight, is_default });
    }

    /// Materialises the dispatch order for one call and returns the lazy
    /// sequence that will invoke the participating implementations with
    /// `args`.
    pub fn with<'a, A: Copy>(&'a self, args: A) -> (d: Dispatch<'a, A, T>) where T: Hook<A>
        requires
            forall|i: int| participates(self@, i) ==> self@[i].hook.pre(args),
        ensures
            d.wf(),
            d.source() == self@,
            d.args_view() == args,
            d.remaining_idxs() == the_dispatch_order(self@),
            is_dispatch_order(self@, the_dispatch_order(self@)),
    {
        let order = dispatch_order(&self.items);
        let back = order.len();
        let d = Dispatch { items: &self.items, order, args, front: 0, back };
        assert(d.remaining_idxs() =~= idx_seq(d.order@));
        assert forall|k: int| 0 <= k < d.order@.len() implies d.source()[#[trigger] idx_seq(
            d.order@,
        )[k]].hook.pre(d.args) by {
            let i = idx_seq(d.order@)[k];
            assert(participates(self@, i));
            assert(self@[i].hook.pre(args));
        }
        proof {
            assert(is_dispatch_order(self@, idx_seq(d.order@)));
            assert(is_dispatch_order(self@, the_dispatch_order(self@)));
            lemma_dispatch_order_unique(self@, the_dispatch_order(self@), idx_seq(d.order@));
        }
        d
    }

    /// Invokes every participating implementation in dispatch order and
    /// collects one output per implementation.
    pub fn invoke<A: Copy>(&self, args: A) -> (r: Vec<T::Output>) where T: Hook<A>
        requires
            forall|i: int| participates(self@, i) ==> self@[i].hook.pre(args),
        ensures
            is_dispatch_order(self@, the_dispatch_order(self@)),
            r@.len() == the_dispatch_order(self@).len(),
            forall|k: int|
                0 <= k < r@.len() ==> self@[the_dispatch_order(self@)[k]].hook.post(
                    args,
                    #[trigger] r@[k],
                ),
    {
        let mut d = self.with(args);
        let ghost d0 = d;
        let r = crate::hook::invoke(&mut d);
        assert forall|k: int| 0 <= k < r@.len() implies self@[the_dispatch_order(self@)[k]].hook.post(
            args,
            #[trigger] r@[k],
        ) by {
            assert(d0.remaining_hooks()[k].post(args, r@[k]));
            assert(d0.remaining_hooks()[k] == self@[the_dispatch_order(self@)[k]].hook);
        }
        r
    }
}

} // verus!
