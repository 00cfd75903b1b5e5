use vstd::prelude::*;

use crate::expr::{Expr, ExprModel, Variable};

verus! {

/// The expression that each name in `b` was bound to; a later entry wins.
pub open spec fn bindings_map(b: Seq<Variable>) -> Map<Seq<char>, ExprModel>
    decreases b.len(),
{
    if b.len() == 0 {
        Map::empty()
    } else {
        bindings_map(b.drop_last()).insert(b.last().name@, (*b.last().expr)@)
    }
}

proof fn lemma_lookup(b: Seq<Variable>, k: Seq<char>, i: int)
    requires
        -1 <= i < b.len(),
        forall|j: int| i < j < b.len() ==> (#[trigger] b[j]).name@ != k,
        i >= 0 ==> b[i].name@ == k,
    ensures
        i >= 0 ==> bindings_map(b).contains_key(k) && bindings_map(b)[k] == (*b[i].expr)@,
        i < 0 ==> !bindings_map(b).contains_key(k),
    decreases b.len(),
{
    if b.len() > 0 && i < b.len() - 1 {
        lemma_lookup(b.drop_last(), k, i);
    }
}

proof fn lemma_update(b: Seq<Variable>, k: Seq<char>, i: int, v: Variable)
    requires
        0 <= i < b.len(),
        b[i].name@ == k,
        v.name@ == k,
        forall|j: int| i < j < b.len() ==> (#[trigger] b[j]).name@ != k,
    ensures
        bindings_map(b.update(i, v)) == bindings_map(b).insert(k, (*v.expr)@),
    decreases b.len(),
{
    let u = b.update(i, v);
    if i < b.len() - 1 {
        assert(u.drop_last() =~= b.drop_last().update(i, v));
        lemma_update(b.drop_last(), k, i, v);
        assert(bindings_map(u) =~= bindings_map(b).insert(k, (*v.expr)@));
    } else {
        assert(u.drop_last() =~= b.drop_last());
        assert(bindings_map(u) =~= bindings_map(b).insert(k, (*v.expr)@));
    }
}

/// The variables of a session: each name maps to the expression it was last
/// assigned. A name is held once: assigning it again replaces its entry.
pub struct Environment {
    bindings: Vec<Variable>,
}

impl View for Environment {
    type V = Map<Seq<char>, ExprModel>;

    closed spec fn view(&self) -> Map<Seq<char>, ExprModel> {
        bindings_map(self.bindings@)
    }
}

impl Environment {
    /// An environment that binds nothing.
    pub fn new() -> (r: Environment)
        ensures
            r@ == Map::<Seq<char>, ExprModel>::empty(),
    {
        Environment { bindings: Vec::new() }
    }

    /// The entries, in the order in which their names were first bound.
    pub fn bindings(&self) -> (r: &Vec<Variable>)
        ensures
            bindings_map(r@) == self@,
    {
        &self.bindings
    }

    /// The index of the last entry named `name`.
    fn find(&self, name: &String) -> (r: Option<usize>)
        ensures
            match r {
                Some(i) => i < self.bindings@.len() && self.bindings@[i as int].name@ == name@
                    && forall|j: int|
                    i < j < self.bindings@.len() ==> (#[trigger] self.bindings@[j]).name@ != name@,
                None => forall|j: int|
                    0 <= j < self.bindings@.len() ==> (#[trigger] self.bindings@[j]).name@ != name@,
            },
    {
        let mut i: usize = self.bindings.len();
        while i > 0
            invariant
                i <= self.bindings@.len(),
                forall|j: int|
                    i <= j < self.bindings@.len() ==> (#[trigger] self.bindings@[j]).name@ != name@,
            decreases i,
        {
            if self.bindings[i - 1].name == *name {
                return Some(i - 1);
            }
            i = i - 1;
        }
        None
    }

    /// The expression bound to `name`, if any.
    pub fn get(&self, name: &String) -> (r: Option<&Expr>)
        ensures
            r is Some <==> self@.contains_key(name@),
            r is Some ==> r->0@ == self@[name@],
    {
        match self.find(name) {
            Some(i) => {
                proof {
                    lemma_lookup(self.bindings@, name@, i as int);
                }
                Some(&*self.bindings[i].expr)
            },
            None => {
                proof {
                    lemma_lookup(self.bindings@, name@, -1);
                }
                None
            },
        }
    }

    /// Binds `name` to `expr`, replacing any earlier binding of it.
    pub fn insert(&mut self, name: String, expr: Expr)
        ensures
            final(self)@ == old(self)@.insert(name@, expr@),
    {
        match self.find(&name) {
            Some(i) => {
                let v = Variable { name, expr: Box::new(expr) };
                proof {
                    lemma_update(self.bindings@, v.name@, i as int, v);
                }
                self.bindings.set(i, v);
            },
            None => {
                let v = Variable { name, expr: Box::new(expr) };
                self.bindings.push(v);
                proof {
                    assert(self.bindings@.drop_last() =~= old(self).bindings@);
                }
            },
        }
    }

    /// Removes every binding.
    pub fn clear(&mut self)
        ensures
            final(self)@ == Map::<Seq<char>, ExprModel>::empty(),
    {
        self.bindings.clear();
    }
}

} // verus!
