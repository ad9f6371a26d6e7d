//! The session's variable environment.
use vstd::prelude::*;

use crate::executor::Value;

verus! {

/// The variables of a session: each name bound to the value assigned last.
#[derive(Debug)]
pub struct Context {
    vars: Vec<(String, Value)>,
}

impl Context {
    /// No name is bound twice.
    pub closed spec fn wf(&self) -> bool {
        forall|i: int, j: int|
            0 <= i < j < self.vars@.len() ==> #[trigger] self.vars@[i].0@ != #[trigger] self.vars@[j].0@
    }

    spec fn holds(&self, k: Seq<char>, i: int) -> bool {
        0 <= i < self.vars@.len() && self.vars@[i].0@ == k
    }
}

impl View for Context {
    type V = Map<Seq<char>, Value>;

    closed spec fn view(&self) -> Map<Seq<char>, Value> {
        Map::new(
            |k: Seq<char>| exists|i: int| self.holds(k, i),
            |k: Seq<char>| self.vars@[choose|i: int| self.holds(k, i)].1,
        )
    }
}

impl Context {
    /// An environment with no variables.
    pub fn new() -> (r: Context)
        ensures
            r.wf(),
            r@ == Map::<Seq<char>, Value>::empty(),
    {
        let r = Context { vars: Vec::new() };
        assert(r@ =~= Map::<Seq<char>, Value>::empty());
        r
    }

    /// Binds `varname` to `value`, replacing any earlier binding of it.
    pub fn add_variable(&mut self, varname: String, value: Value)
        requires
            old(self).wf(),
        ensures
            final(self).wf(),
            final(self)@ == old(self)@.insert(varname@, value),
    {
        let ghost before = *self;
        let mut i: usize = 0;
        while i < self.vars.len()
            invariant
                *self == before,
                before == *old(self),
                before.wf(),
                i <= self.vars@.len(),
                forall|j: int| 0 <= j < i ==> self.vars@[j].0@ != varname@,
            decreases self.vars@.len() - i,
        {
            if self.vars[i].0 == varname {
                let ghost k = varname@;
                self.vars.set(i, (varname, value));
                proof {
                    assert(self.vars@[i as int].0@ == k);
                    assert forall|j: int| 0 <= j < self.vars@.len() implies #[trigger] self.vars@[j].0@
                        == before.vars@[j].0@ by {}
                    assert forall|a: Seq<char>, j: int| self.holds(a, j) == before.holds(a, j) by {}
                    assert(self.wf());
                    assert forall|a: Seq<char>| #[trigger] self@.contains_key(a) && a == k implies self@[a]
                        == value by {
                        let j = choose|j: int| self.holds(a, j);
                        assert(j == i);
                    }
                    assert forall|a: Seq<char>| a != k && #[trigger] before@.contains_key(a) implies
                        self@[a] == before@[a] by {
                        let j = choose|j: int| before.holds(a, j);
                        assert(j != i);
                    }
                    assert(before.holds(k, i as int));
                    assert forall|a: Seq<char>| #[trigger] self@.contains_key(a) implies before@.contains_key(a) by {
                        let j = choose|j: int| self.holds(a, j);
                        assert(before.holds(a, j));
                    }
                    assert forall|a: Seq<char>| #[trigger] before@.contains_key(a) implies self@.contains_key(a) by {
                        let j = choose|j: int| before.holds(a, j);
                        assert(self.holds(a, j));
                    }
                    assert(self@.dom() =~= before@.dom().insert(k));
                    assert(self@ =~= before@.insert(k, value));
                }
                return;
            }
            i = i + 1;
        }
        let ghost k = varname@;
        self.vars.push((varname, value));
        proof {
            let n = before.vars@.len() as int;
            assert(self.holds(k, n));
            assert forall|a: Seq<char>, j: int| a != k implies self.holds(a, j) == before.holds(a, j) by {}
            assert forall|a: Seq<char>| a != k && #[trigger] before@.contains_key(a) implies
                self@[a] == before@[a] by {
                let j = choose|j: int| before.holds(a, j);
                assert(self.holds(a, j));
            }
            assert forall|a: Seq<char>| #[trigger] self@.contains_key(a) && a == k implies self@[a] == value by {
                let j = choose|j: int| self.holds(a, j);
                assert(j == n);
            }
            assert forall|a: Seq<char>| #[trigger] self@.contains_key(a) implies before@.dom().insert(k).contains(a) by {
                if a != k {
                    let j = choose|j: int| self.holds(a, j);
                    assert(before.holds(a, j));
                }
            }
            assert forall|a: Seq<char>| before@.dom().insert(k).contains(a) implies #[trigger] self@.contains_key(a) by {
                if a != k {
                    let j = choose|j: int| before.holds(a, j);
                    assert(self.holds(a, j));
                }
            }
            assert(self@.dom() =~= before@.dom().insert(k));
            assert(self@ =~= before@.insert(k, value));
        }
    }

    /// The value bound to `varname`, if any.
    pub fn lookup_variable(&self, varname: String) -> (r: Option<Value>)
        requires
            self.wf(),
        ensures
            r == (if self@.contains_key(varname@) {
                Some(self@[varname@])
            } else {
                None::<Value>
            }),
    {
        let mut i: usize = 0;
        while i < self.vars.len()
            invariant
                self.wf(),
                i <= self.vars@.len(),
                forall|j: int| 0 <= j < i ==> self.vars@[j].0@ != varname@,
            decreases self.vars@.len() - i,
        {
            if self.vars[i].0 == varname {
                proof {
                    assert(self.holds(varname@, i as int));
                    let j = choose|j: int| self.holds(varname@, j);
                    assert(j == i);
                }
                return Some(self.vars[i].1);
            }
            i = i + 1;
        }
        None
    }
}

} // verus!
