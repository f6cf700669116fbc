use vstd::prelude::*;

use crate::text::str_eq;
use crate::object::{Object, Scope, Value};

verus! {

/// Index of the first binding of `name` at or after `i`, or -1.
pub open spec fn find_from(vars: Seq<(Seq<char>, Value)>, name: Seq<char>, i: int) -> int
    decreases vars.len() - i,
{
    if i < 0 || i >= vars.len() {
        -1
    } else if vars[i].0 == name {
        i
    } else {
        find_from(vars, name, i + 1)
    }
}

impl Scope {
    /// The root scope: no bindings, no parent.
    pub open spec fn empty() -> Scope {
        Scope { vars: Seq::empty(), parent: None }
    }

    /// A fresh scope whose parent is a copy of `self`.
    pub open spec fn child(self) -> Scope {
        Scope { vars: Seq::empty(), parent: Some(Box::new(self)) }
    }

    /// The innermost binding of `name`, searching outwards.
    pub open spec fn lookup(self, name: Seq<char>) -> Option<Value>
        decreases self,
    {
        let k = find_from(self.vars, name, 0);
        if 0 <= k < self.vars.len() {
            Some(self.vars[k].1)
        } else {
            match self.parent {
                Some(p) => (*p).lookup(name),
                None => None,
            }
        }
    }

    /// Binds `name` to `v` in the local bindings, replacing a local binding
    /// of the same name; enclosing scopes are untouched.
    pub open spec fn assign(self, name: Seq<char>, v: Value) -> Scope {
        let k = find_from(self.vars, name, 0);
        Scope {
            vars: if 0 <= k < self.vars.len() {
                self.vars.update(k, (name, v))
            } else {
                self.vars.push((name, v))
            },
            parent: self.parent,
        }
    }
}

/// A scope: local bindings and an optional snapshot of the enclosing scope.
#[derive(Debug, PartialEq, Eq)]
pub struct Environment {
    store: Vec<(String, Object)>,
    parent: Option<Box<Environment>>,
}

impl Environment {
    pub closed spec fn model(self) -> Scope
        decreases self,
    {
        Scope {
            vars: Seq::new(
                self.store@.len(),
                |i: int|
                    if 0 <= i < self.store@.len() {
                        (self.store@[i].0@, self.store@[i].1.model())
                    } else {
                        (Seq::empty(), Value::Null)
                    },
            ),
            parent: match self.parent {
                Some(p) => Some(Box::new((*p).model())),
                None => None,
            },
        }
    }

    /// An empty root scope.
    pub fn new() -> (r: Environment)
        ensures
            r.model() == Scope::empty(),
    {
        let r = Environment { store: Vec::new(), parent: None };
        assert(r.model().vars =~= Seq::empty());
        r
    }

    /// A fresh scope whose parent is a snapshot of `self` as it is now.
    pub fn new_child(&self) -> (r: Environment)
        ensures
            r.model() == self.model().child(),
    {
        let r = Environment { store: Vec::new(), parent: Some(Box::new(self.duplicate())) };
        assert(r.model().vars =~= Seq::empty());
        r
    }

    /// Binds `name` in the local scope only.
    pub fn set(&mut self, name: String, value: Object)
        ensures
            final(self).model() == old(self).model().assign(name@, value.model()),
    {
        let ghost vars = old(self).model().vars;
        let ghost nm = name@;
        let mut i: usize = 0;
        let n = self.store.len();
        while i < n
            invariant
                n == self.store@.len(),
                *self == *old(self),
                nm == name@,
                vars == self.model().vars,
                i <= n,
                find_from(vars, nm, 0) == find_from(vars, nm, i as int),
            decreases n - i,
        {
            assert(vars[i as int] == (self.store@[i as int].0@, self.store@[i as int].1.model()));
            if self.store[i].0 == name {
                let ghost v = value.model();
                let ghost before = self.store@;
                self.store[i] = (name, value);
                assert forall|j: int| 0 <= j < vars.len() implies #[trigger] self.model().vars[j]
                    == vars.update(i as int, (nm, v))[j] by {
                    assert(self.model().vars[j] == (self.store@[j].0@, self.store@[j].1.model()));
                    if j != i {
                        assert(self.store@[j] == before[j]);
                        assert(vars[j] == (before[j].0@, before[j].1.model()));
                    } else {
                        assert(self.store@[j].0@ == nm);
                        assert(self.store@[j].1.model() == v);
                    }
                }
                assert(self.model().vars =~= vars.update(i as int, (nm, v)));
                return;
            }
            i = i + 1;
        }
        let ghost v = value.model();
        self.store.push((name, value));
        assert(self.model().vars =~= vars.push((nm, v)));
    }

    /// The innermost binding of `name`, searching outwards through the
    /// enclosing scopes.
    pub fn get(&self, name: &str) -> (r: Option<&Object>)
        ensures
            match r {
                Some(o) => self.model().lookup(name@) == Some(o.model()),
                None => self.model().lookup(name@) is None,
            },
        decreases self,
    {
        let ghost vars = self.model().vars;
        let mut i: usize = 0;
        let n = self.store.len();
        while i < n
            invariant
                n == self.store@.len(),
                vars == self.model().vars,
                i <= n,
                find_from(vars, name@, 0) == find_from(vars, name@, i as int),
            decreases n - i,
        {
            assert(vars[i as int] == (self.store@[i as int].0@, self.store@[i as int].1.model()));
            if str_eq(self.store[i].0.as_str(), name) {
                return Some(&self.store[i].1);
            }
            i = i + 1;
        }
        match &self.parent {
            Some(p) => p.get(name),
            None => None,
        }
    }

    /// A copy with the same model.
    pub fn duplicate(&self) -> (r: Environment)
        ensures
            r.model() == self.model(),
        decreases self,
    {
        let mut store: Vec<(String, Object)> = Vec::new();
        let mut i: usize = 0;
        let n = self.store.len();
        while i < n
            invariant
                n == self.store@.len(),
                i <= n,
                store@.len() == i,
                forall|j: int|
                    0 <= j < i ==> #[trigger] store@[j].0@ == self.store@[j].0@
                        && store@[j].1.model() == self.store@[j].1.model(),
            decreases n - i,
        {
            let entry = (self.store[i].0.clone(), self.store[i].1.duplicate());
            store.push(entry);
            i = i + 1;
        }
        let parent = match &self.parent {
            Some(p) => Some(Box::new(p.duplicate())),
            None => None,
        };
        let r = Environment { store, parent };
        assert(r.model().vars =~= self.model().vars);
        r
    }
}

impl Clone for Environment {
    fn clone(&self) -> (r: Self)
        ensures
            r.model() == self.model(),
    {
        self.duplicate()
    }
}

} // verus!
