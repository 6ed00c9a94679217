//! The named global table: a string-keyed registration table of type-erased
//! implementations.
//!
//! Implementations of unrelated signatures share one table: each is stored
//! behind the uniform [`Value`] calling convention, tagged with the declared
//! [`Kind`]s of its argument tuple and return value. A lookup supplies a
//! name and the expected shapes; only implementations whose declared shapes
//! equal the requested ones participate, and a request for which no entry was
//! ever created is an error, not an empty success.

use vstd::prelude::*;

verus! {

use crate::Hook;
use crate::error::Error;
use crate::value::{Kind, Value, kind_of, kinds_of, value_kinds, dup_values, dup_kinds, kinds_eq};
use vstd::string::StringExecFns;

/// A type-erased implementation: a callable on tagged values, together with
/// the structural shapes it was declared with.
pub struct Anon<T> {
    pub hook: T,
    pub args: Vec<Kind>,
    pub ret: Kind,
}

/// What a well-formed erased implementation promises: it accepts every
/// argument tuple of its declared argument shape, and every output it can
/// produce has its declared return kind. This is the discipline that lets a
/// caller recover type safety from an erased table.
pub open spec fn hook_wf<T>(hook: T, args: Seq<Kind>, ret: Kind) -> bool where
    T: Hook<(Vec<Value>,), Output = Value>,
{
    &&& forall|a: Vec<Value>| #![trigger kinds_of(a@)] kinds_of(a@) == args ==> hook.pre((a,))
    &&& forall|a: Vec<Value>, out: Value|
        #![trigger hook.post((a,), out)]
        kinds_of(a@) == args && hook.post((a,), out) ==> kind_of(out) == ret
}

/// Whether the callable, seen through the erased calling convention, can
/// produce `out` from an argument tuple whose values are `args`.
pub open spec fn yields<T>(hook: T, args: Seq<Value>, out: Value) -> bool where
    T: Hook<(Vec<Value>,), Output = Value>,
{
    exists|a: Vec<Value>| a@ == args && #[trigger] hook.post((a,), out)
}

impl<T: Hook<(Vec<Value>,), Output = Value>> Anon<T> {
    /// Well-formedness of the stored callable with respect to its tags.
    pub open spec fn wf(self) -> bool {
        hook_wf(self.hook, self.args@, self.ret)
    }

    /// Erases a callable: wraps it with its declared shapes.
    pub fn new(hook: T, args: Vec<Kind>, ret: Kind) -> (a: Anon<T>)
        ensures
            a == (Anon { hook, args, ret }),
    {
        Anon { hook, args, ret }
    }
}

impl<T: Hook<(Vec<Value>,), Output = Value>> Hook<(Vec<Value>,)> for Anon<T> {
    type Output = Value;

    open spec fn pre(&self, args: (Vec<Value>,)) -> bool {
        self.hook.pre(args)
    }

    open spec fn post(&self, args: (Vec<Value>,), out: Value) -> bool {
        self.hook.post(args, out)
    }

    fn invoke(&self, args: (Vec<Value>,)) -> (out: Value) {
        self.hook.invoke(args)
    }
}

/// Whether a stored implementation's declared shapes equal the requested
/// ones. The match is exact: no coercion.
pub open spec fn anon_matches<T>(a: Anon<T>, ks: Seq<Kind>, ret: Kind) -> bool {
    a.args@ == ks && a.ret == ret
}

/// The indices of the stored implementations whose declared shapes equal the
/// requested ones, in registration order.
pub open spec fn selected<T>(s: Seq<Anon<T>>, ks: Seq<Kind>, ret: Kind) -> Seq<int>
    decreases s.len(),
{
    if s.len() == 0 {
        Seq::empty()
    } else if anon_matches(s.last(), ks, ret) {
        selected(s.drop_last(), ks, ret).push(s.len() - 1)
    } else {
        selected(s.drop_last(), ks, ret)
    }
}

proof fn lemma_selected_step<T>(s: Seq<Anon<T>>, ks: Seq<Kind>, ret: Kind, i: int)
    requires
        0 <= i < s.len(),
    ensures
        anon_matches(s[i], ks, ret) ==> selected(s.take(i + 1), ks, ret) == selected(
            s.take(i),
            ks,
            ret,
        ).push(i),
        !anon_matches(s[i], ks, ret) ==> selected(s.take(i + 1), ks, ret) == selected(
            s.take(i),
            ks,
            ret,
        ),
{
    let t = s.take(i + 1);
    assert(t.len() == i + 1);
    assert(t.drop_last() =~= s.take(i));
    assert(t.last() == s[i]);
}

/// What the outputs of one entry's dispatch are: one output per matching
/// implementation, in registration order, each produced by its
/// implementation and each of the requested return kind.
pub open spec fn entry_outputs<T>(
    s: Seq<Anon<T>>,
    args: Seq<Value>,
    ret: Kind,
    outs: Seq<Value>,
) -> bool where T: Hook<(Vec<Value>,), Output = Value> {
    &&& outs.len() == selected(s, kinds_of(args), ret).len()
    &&& forall|k: int|
        0 <= k < outs.len() ==> yields(
            s[selected(s, kinds_of(args), ret)[k]].hook,
            args,
            #[trigger] outs[k],
        ) && kind_of(outs[k]) == ret
}

/// The ordered-by-insertion collection of every implementation registered
/// under one key.
pub struct Entry<T> {
    pub items: Vec<Anon<T>>,
}

impl<T> View for Entry<T> {
    type V = Seq<Anon<T>>;

    open spec fn view(&self) -> Seq<Anon<T>> {
        self.items@
    }
}

impl<T: Hook<(Vec<Value>,), Output = Value>> Entry<T> {
    /// Every stored implementation is well-formed.
    pub open spec fn wf(self) -> bool {
        forall|i: int| 0 <= i < self@.len() ==> (#[trigger] self@[i]).wf()
    }

    /// Creates an empty entry.
    pub fn new() -> (e: Self)
        ensures
            e@ == Seq::<Anon<T>>::empty(),
            e.wf(),
    {
        Entry { items: Vec::new() }
    }

    /// Registers an implementation under this entry, tagging it with its
    /// declared shapes. Only ever appends.
    pub fn insert(&mut self, hook: T, args: Vec<Kind>, ret: Kind)
        requires
            old(self).wf(),
            hook_wf(hook, args@, ret),
        ensures
            final(self)@ == old(self)@.push((Anon { hook, args, ret })),
            final(self).wf(),
    {
        self.insert_item(Anon { hook, args, ret });
    }

    /// Registers an already-erased implementation. Only ever appends.
    pub fn insert_item(&mut self, item: Anon<T>)
        requires
            old(self).wf(),
            item.wf(),
        ensures
            final(self)@ == old(self)@.push(item),
            final(self).wf(),
    {
        self.items.push(item);
        assert forall|i: int| 0 <= i < self@.len() implies (#[trigger] self@[i]).wf() by {
            if i < self@.len() - 1 {
                assert(self@[i] == old(self)@[i]);
            }
        }
    }

    /// Invokes, in registration order, every stored implementation whose
    /// declared shapes equal the requested ones, handing each a copy of the
    /// argument tuple, and collects their outputs. Every output has the
    /// requested return kind.
    pub fn invoke_all(&self, args: &Vec<Value>, ret: Kind) -> (r: Vec<Value>)
        requires
            self.wf(),
        ensures
            entry_outputs(self@, args@, ret, r@),
    {
        let ks = value_kinds(args);
        let ghost s = self@;
        let mut out: Vec<Value> = Vec::new();
        let mut i: usize = 0;
        while i < self.items.len()
            invariant
                i <= self.items@.len(),
                s == self@,
                ks@ == kinds_of(args@),
                self.wf(),
                out@.len() == selected(s.take(i as int), kinds_of(args@), ret).len(),
                forall|k: int|
                    0 <= k < out@.len() ==> yields(
                        s[selected(s.take(i as int), kinds_of(args@), ret)[k]].hook,
                        args@,
                        #[trigger] out@[k],
                    ) && kind_of(out@[k]) == ret,
            decreases self.items@.len() - i,
        {
            proof {
                lemma_selected_step(s, kinds_of(args@), ret, i as int);
            }
            let ghost sel_old = selected(s.take(i as int), kinds_of(args@), ret);
            let ghost sel_new = selected(s.take(i as int + 1), kinds_of(args@), ret);
            if kinds_eq(&self.items[i].args, &ks) && self.items[i].ret == ret {
                assert(anon_matches(s[i as int], kinds_of(args@), ret));
                assert(sel_new == sel_old.push(i as int));
                let a = dup_values(args);
                assert(s[i as int].wf());
                assert(kinds_of(a@) == s[i as int].args@);
                assert(s[i as int].hook.pre((a,)));
                let ghost ag = a;
                let v = self.items[i].hook.invoke((a,));
                assert(s[i as int].hook.post((ag,), v));
                assert(kind_of(v) == ret);
                assert(yields(s[i as int].hook, args@, v)) by {
                    assert(ag@ == args@);
                }
                let ghost out0 = out@;
                out.push(v);
                assert forall|k: int| 0 <= k < out@.len() implies yields(
                    s[selected(s.take(i as int + 1), kinds_of(args@), ret)[k]].hook,
                    args@,
                    #[trigger] out@[k],
                ) && kind_of(out@[k]) == ret by {
                    if k < out0.len() {
                        assert(out@[k] == out0[k]);
                        assert(sel_new[k] == sel_old[k]);
                    } else {
                        assert(out@[k] == v);
                        assert(sel_new[k] == i as int);
                    }
                }
            } else {
                assert(!anon_matches(s[i as int], kinds_of(args@), ret));
                assert(sel_new == sel_old);
            }
            i = i + 1;
        }
        proof {
            assert(s.take(i as int) =~= s);
        }
        out
    }
}

impl<T: Hook<(Vec<Value>,), Output = Value>> Default for Entry<T> {
    fn default() -> (e: Self)
        ensures
            e@ == Seq::<Anon<T>>::empty(),
            e.wf(),
    {
        Entry::new()
    }
}

/// One key of the named table: a name together with the declared shape of
/// the argument tuple and of the return value.
pub struct Key {
    pub name: String,
    pub args: Vec<Kind>,
    pub ret: Kind,
}

/// Whether a key equals the given name and shapes exactly.
pub open spec fn key_is(k: Key, name: Seq<char>, ks: Seq<Kind>, ret: Kind) -> bool {
    k.name@ == name && k.args@ == ks && k.ret == ret
}

/// One slot of the table: a key with the entry it owns.
pub struct Slot<T> {
    pub key: Key,
    pub entry: Entry<T>,
}

/// The registration table: a mapping from keys to entries, populated before
/// dispatch begins and only ever appended to. An entry is created lazily
/// alongside its first implementation, so an existing entry is never empty.
pub struct Registry<T> {
    pub slots: Vec<Slot<T>>,
}

/// What registering one implementation does to the table: the entry for its
/// key gains exactly that implementation at the end, a missing entry is
/// created with it, and nothing else changes.
pub open spec fn inserted<T>(
    pre: Registry<T>,
    post: Registry<T>,
    name: Seq<char>,
    ks: Seq<Kind>,
    ret: Kind,
    anon: Anon<T>,
) -> bool where T: Hook<(Vec<Value>,), Output = Value> {
    &&& pre.has_key(name, ks, ret) ==> {
        &&& post.slots@.len() == pre.slots@.len()
        &&& forall|i: int|
            0 <= i < pre.slots@.len() ==> (#[trigger] post.slots@[i]).key == pre.slots@[i].key
        &&& forall|i: int|
            0 <= i < pre.slots@.len() && !key_is(pre.slots@[i].key, name, ks, ret) ==> (
            #[trigger] post.slots@[i]).entry == pre.slots@[i].entry
        &&& forall|i: int|
            0 <= i < pre.slots@.len() && key_is(pre.slots@[i].key, name, ks, ret) ==> (
            #[trigger] post.slots@[i]).entry@ == pre.slots@[i].entry@.push(anon)
    }
    &&& !pre.has_key(name, ks, ret) ==> {
        &&& post.slots@.len() == pre.slots@.len() + 1
        &&& forall|i: int| 0 <= i < pre.slots@.len() ==> #[trigger] post.slots@[i] == pre.slots@[i]
        &&& key_is(post.slots@.last().key, name, ks, ret)
        &&& post.slots@.last().entry@ == seq![anon]
    }
}

/// A pending registration for the load-time side channel: a key's components
/// together with the erased implementation to contribute under them.
pub struct Record<T> {
    pub name: String,
    pub anon: Anon<T>,
}

impl<T: Hook<(Vec<Value>,), Output = Value>> Record<T> {
    /// Wraps an implementation as a registration record.
    pub fn new(name: &str, hook: T, args: Vec<Kind>, ret: Kind) -> (r: Record<T>)
        ensures
            r.name@ == name@,
            r.anon == (Anon { hook, args, ret }),
    {
        Record { name: name.to_owned(), anon: Anon { hook, args, ret } }
    }
}

impl<T: Hook<(Vec<Value>,), Output = Value>> Registry<T> {
    /// Every entry is well-formed, no two slots share a key, an entry exists
    /// only alongside at least one implementation, and every stored
    /// implementation carries its slot's declared shapes.
    pub open spec fn wf(self) -> bool {
        &&& forall|i: int, j: int|
            0 <= i < j < self.slots@.len() ==> !key_is(
                (#[trigger] self.slots@[j]).key,
                (#[trigger] self.slots@[i]).key.name@,
                self.slots@[i].key.args@,
                self.slots@[i].key.ret,
            )
        &&& forall|i: int| 0 <= i < self.slots@.len() ==> (#[trigger] self.slots@[i]).entry.wf()
        &&& forall|i: int| 0 <= i < self.slots@.len() ==> (#[trigger] self.slots@[i]).entry@.len() > 0
        &&& forall|i: int, k: int|
            0 <= i < self.slots@.len() && 0 <= k < self.slots@[i].entry@.len() ==> anon_matches(
                #[trigger] self.slots@[i].entry@[k],
                self.slots@[i].key.args@,
                self.slots@[i].key.ret,
            )
    }

    /// Whether some slot's key equals the given name and shapes.
    pub open spec fn has_key(self, name: Seq<char>, ks: Seq<Kind>, ret: Kind) -> bool {
        exists|i: int|
            0 <= i < self.slots@.len() && key_is((#[trigger] self.slots@[i]).key, name, ks, ret)
    }

    /// Creates an empty table.
    pub fn new() -> (r: Self)
        ensures
            r.slots@.len() == 0,
            r.wf(),
    {
        Registry { slots: Vec::new() }
    }

    /// Finds the slot whose key equals the given name and shapes, if any.
    fn find(&self, name: &String, ks: &Vec<Kind>, ret: Kind) -> (idx: Option<usize>)
        ensures
            idx matches Some(i) ==> i < self.slots@.len() && key_is(
                self.slots@[i as int].key,
                name@,
                ks@,
                ret,
            ),
            idx is None ==> !self.has_key(name@, ks@, ret),
    {
        let mut i: usize = 0;
        while i < self.slots.len()
            invariant
                i <= self.slots@.len(),
                forall|j: int|
                    0 <= j < i ==> !key_is((#[trigger] self.slots@[j]).key, name@, ks@, ret),
            decreases self.slots@.len() - i,
        {
            if self.slots[i].key.name == *name && kinds_eq(&self.slots[i].key.args, ks)
                && self.slots[i].key.ret == ret {
                return Some(i);
            }
            i = i + 1;
        }
        proof {
            if self.has_key(name@, ks@, ret) {
                let j = choose|j: int|
                    0 <= j < self.slots@.len() && key_is(self.slots@[j].key, name@, ks@, ret);
                assert(!key_is(self.slots@[j].key, name@, ks@, ret));
            }
        }
        None
    }

    /// Registers an implementation under the key made of `name` and the
    /// declared shapes, creating the entry if it is absent. Never overwrites:
    /// registration only appends.
    pub fn insert(&mut self, name: &str, args: Vec<Kind>, ret: Kind, hook: T)
        requires
            old(self).wf(),
            hook_wf(hook, args@, ret),
        ensures
            final(self).wf(),
            final(self).has_key(name@, args@, ret),
            inserted(*old(self), *final(self), name@, args@, ret, (Anon { hook, args, ret })),
    {
        let record = Record::new(name, hook, args, ret);
        self.insert_record(record);
    }

    /// Registers a pending record, creating the entry for its key if absent.
    pub fn insert_record(&mut self, record: Record<T>)
        requires
            old(self).wf(),
            record.anon.wf(),
        ensures
            final(self).wf(),
            final(self).has_key(record.name@, record.anon.args@, record.anon.ret),
            inserted(
                *old(self),
                *final(self),
                record.name@,
                record.anon.args@,
                record.anon.ret,
                record.anon,
            ),
    {
        let Record { name, anon } = record;
        let idx = self.find(&name, &anon.args, anon.ret);
        match idx {
            Some(i) => {
                assert(self.slots@[i as int].entry.wf());
                self.slots[i].entry.insert_item(anon);
                assert forall|a: int, b: int| 0 <= a < b < self.slots@.len() implies !key_is(
                    (#[trigger] self.slots@[b]).key,
                    (#[trigger] self.slots@[a]).key.name@,
                    self.slots@[a].key.args@,
                    self.slots@[a].key.ret,
                ) by {
                    assert(self.slots@[a].key == old(self).slots@[a].key);
                    assert(self.slots@[b].key == old(self).slots@[b].key);
                }
                assert(key_is(self.slots@[i as int].key, record.name@, record.anon.args@, record.anon.ret));
                assert forall|a: int| 0 <= a < self.slots@.len() implies (
                #[trigger] self.slots@[a]).entry@.len() > 0 by {
                    if a != i as int {
                        assert(self.slots@[a] == old(self).slots@[a]);
                    }
                }
                assert forall|a: int, k: int|
                    0 <= a < self.slots@.len() && 0 <= k
                        < self.slots@[a].entry@.len() implies anon_matches(
                    #[trigger] self.slots@[a].entry@[k],
                    self.slots@[a].key.args@,
                    self.slots@[a].key.ret,
                ) by {
                    if a != i as int {
                        assert(self.slots@[a] == old(self).slots@[a]);
                    } else if k < old(self).slots@[a].entry@.len() {
                        assert(self.slots@[a].entry@[k] == old(self).slots@[a].entry@[k]);
                    } else {
                        assert(self.slots@[a].entry@[k] == record.anon);
                    }
                }
            },
            None => {
                let ret = anon.ret;
                let key_args = dup_kinds(&anon.args);
                let mut entry = Entry::new();
                entry.insert_item(anon);
                let key = Key { name, args: key_args, ret };
                self.slots.push(Slot { key, entry });
                let ghost n = self.slots@.len() - 1;
                assert(self.slots@[n] == (Slot {
                    key: Key { name: record.name, args: key_args, ret },
                    entry,
                }));
                assert(key_is(self.slots@[n].key, record.name@, record.anon.args@, record.anon.ret));
                assert forall|a: int, b: int| 0 <= a < b < self.slots@.len() implies !key_is(
                    (#[trigger] self.slots@[b]).key,
                    (#[trigger] self.slots@[a]).key.name@,
                    self.slots@[a].key.args@,
                    self.slots@[a].key.ret,
                ) by {
                    if b < n {
                        assert(self.slots@[a] == old(self).slots@[a]);
                        assert(self.slots@[b] == old(self).slots@[b]);
                    } else {
                        assert(b == n);
                        assert(self.slots@[a] == old(self).slots@[a]);
                        if key_is(
                            self.slots@[b].key,
                            self.slots@[a].key.name@,
                            self.slots@[a].key.args@,
                            self.slots@[a].key.ret,
                        ) {
                            assert(key_is(
                                old(self).slots@[a].key,
                                record.name@,
                                record.anon.args@,
                                record.anon.ret,
                            ));
                            assert(old(self).has_key(
                                record.name@,
                                record.anon.args@,
                                record.anon.ret,
                            ));
                        }
                    }
                }
                assert(self.slots@.last().entry@ =~= seq![record.anon]);
                assert forall|a: int| 0 <= a < self.slots@.len() implies (
                #[trigger] self.slots@[a]).entry@.len() > 0 by {
                    if a < n {
                        assert(self.slots@[a] == old(self).slots@[a]);
                    }
                }
                assert forall|a: int, k: int|
                    0 <= a < self.slots@.len() && 0 <= k
                        < self.slots@[a].entry@.len() implies anon_matches(
                    #[trigger] self.slots@[a].entry@[k],
                    self.slots@[a].key.args@,
                    self.slots@[a].key.ret,
                ) by {
                    if a < n {
                        assert(self.slots@[a] == old(self).slots@[a]);
                    } else {
                        assert(self.slots@[a].entry@ =~= seq![record.anon]);
                        assert(k == 0);
                        assert(self.slots@[a].entry@[k] == record.anon);
                    }
                }
            },
        }
    }

    /// Resolves the key made of `name` and the requested shapes, and invokes
    /// every implementation of its entry in registration order, collecting
    /// the outputs. A key that was never registered — whether the name is
    /// unknown or only the shapes differ — is reported as an error, never as
    /// an empty success; and since an entry is only ever created alongside
    /// its first implementation, a successful lookup yields at least one
    /// output.
    pub fn invoke_all(&self, name: &str, args: &Vec<Value>, ret: Kind) -> (r: Result<
        Vec<Value>,
        Error,
    >)
        requires
            self.wf(),
        ensures
            r is Ok <==> self.has_key(name@, kinds_of(args@), ret),
            r matches Ok(vs) ==> vs@.len() > 0,
            r matches Ok(vs) ==> exists|i: int|
                0 <= i < self.slots@.len() && key_is(
                    (#[trigger] self.slots@[i]).key,
                    name@,
                    kinds_of(args@),
                    ret,
                ) && entry_outputs(self.slots@[i].entry@, args@, ret, vs@),
            r matches Err(Error::Message(m)) ==> m@ == "No matching hooks found for "@ + name@,
    {
        let ks = value_kinds(args);
        let name_s: String = name.to_owned();
        let idx = self.find(&name_s, &ks, ret);
        match idx {
            Some(i) => {
                assert(self.slots@[i as int].entry.wf());
                let vs = self.slots[i].entry.invoke_all(args, ret);
                assert(key_is(self.slots@[i as int].key, name@, kinds_of(args@), ret));
                proof {
                    let e = self.slots@[i as int].entry@;
                    assert(anon_matches(
                        self.slots@[i as int].entry@[e.len() - 1],
                        self.slots@[i as int].key.args@,
                        self.slots@[i as int].key.ret,
                    ));
                    assert(anon_matches(e.last(), kinds_of(args@), ret));
                    assert(selected(e, kinds_of(args@), ret) == selected(
                        e.drop_last(),
                        kinds_of(args@),
                        ret,
                    ).push(e.len() - 1));
                }
                Ok(vs)
            },
            None => {
                let mut m: String = "No matching hooks found for ".to_owned();
                m.append(name);
                Err(Error::message(m))
            },
        }
    }
}

} // verus!
